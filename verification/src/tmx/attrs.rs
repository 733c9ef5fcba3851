//! Typed reads of node attributes, shared by the entity extractors: names
//! defaulting to the empty string, optional numbers defaulting to zero, and
//! required positive dimensions.

use crate::tmx::node::{node_attr, Node};
use crate::tmx::text::{
    chars_of, dec_val, fixed_ok, fixed_val, parse_fixed_chars, parse_usize_chars, usize_ok,
};
use crate::tmx::TmxError;
use vstd::prelude::*;

verus! {

/// The `name` attribute, or the empty string when absent.
pub open spec fn opt_name(n: Node) -> Seq<char> {
    match node_attr(n, "name"@) {
        Some(s) => s,
        None => Seq::empty(),
    }
}

pub fn get_name(n: &Node) -> (r: String)
    ensures
        r@ == opt_name(*n),
{
    match find_name(n) {
        Some(s) => s,
        None => String::new(),
    }
}

fn find_name(n: &Node) -> (r: Option<String>)
    ensures
        match r {
            Some(s) => node_attr(*n, "name"@) == Some(s@),
            None => node_attr(*n, "name"@) == None::<Seq<char>>,
        },
{
    crate::tmx::node::find_attr(n, "name")
}

/// What is wrong, if anything, with an optional unsigned attribute: absent
/// is fine, present but not a decimal number that fits is not.
pub open spec fn opt_usize_err(n: Node, key: Seq<char>) -> Option<TmxError> {
    match node_attr(n, key) {
        None => None,
        Some(s) => if usize_ok(s) {
            None
        } else {
            Some(TmxError::InvalidNumericValue)
        },
    }
}

/// Its value: absent means zero.
pub open spec fn opt_usize_val(n: Node, key: Seq<char>) -> int {
    match node_attr(n, key) {
        None => 0,
        Some(s) => dec_val(s),
    }
}

pub fn get_opt_usize(n: &Node, key: &str) -> (r: Result<usize, TmxError>)
    ensures
        match r {
            Ok(v) => opt_usize_err(*n, key@) == None::<TmxError> && v as int == opt_usize_val(
                *n,
                key@,
            ),
            Err(e) => opt_usize_err(*n, key@) == Some(e),
        },
{
    match crate::tmx::node::find_attr(n, key) {
        None => Ok(0),
        Some(s) => parse_usize_chars(&chars_of(&s)),
    }
}

/// What is wrong, if anything, with an optional fixed-point attribute.
pub open spec fn opt_fixed_err(n: Node, key: Seq<char>) -> Option<TmxError> {
    match node_attr(n, key) {
        None => None,
        Some(s) => if fixed_ok(s) {
            None
        } else {
            Some(TmxError::InvalidNumericValue)
        },
    }
}

/// Its value in thousandths: absent means zero.
pub open spec fn opt_fixed_val(n: Node, key: Seq<char>) -> int {
    match node_attr(n, key) {
        None => 0,
        Some(s) => fixed_val(s),
    }
}

pub fn get_opt_fixed(n: &Node, key: &str) -> (r: Result<i64, TmxError>)
    ensures
        match r {
            Ok(v) => {
                &&& opt_fixed_err(*n, key@) == None::<TmxError>
                &&& v as int == opt_fixed_val(*n, key@)
                &&& -1_000_000_000_000_000 < v < 1_000_000_000_000_000
            },
            Err(e) => opt_fixed_err(*n, key@) == Some(e),
        },
{
    match crate::tmx::node::find_attr(n, key) {
        None => Ok(0),
        Some(s) => parse_fixed_chars(&chars_of(&s)),
    }
}

/// What is wrong, if anything, with a required positive attribute: it must
/// be present, parse, and be nonzero.
pub open spec fn req_pos_err(n: Node, key: Seq<char>) -> Option<TmxError> {
    match node_attr(n, key) {
        None => Some(TmxError::MissingRequiredAttribute),
        Some(s) => if !usize_ok(s) {
            Some(TmxError::InvalidNumericValue)
        } else if dec_val(s) == 0 {
            Some(TmxError::MissingRequiredAttribute)
        } else {
            None
        },
    }
}

/// Its value; meaningful only when nothing is wrong.
pub open spec fn req_pos_val(n: Node, key: Seq<char>) -> int {
    match node_attr(n, key) {
        None => 0,
        Some(s) => dec_val(s),
    }
}

pub fn get_req_pos(n: &Node, key: &str) -> (r: Result<usize, TmxError>)
    ensures
        match r {
            Ok(v) => {
                &&& req_pos_err(*n, key@) == None::<TmxError>
                &&& v as int == req_pos_val(*n, key@)
                &&& v >= 1
            },
            Err(e) => req_pos_err(*n, key@) == Some(e),
        },
{
    match crate::tmx::node::find_attr(n, key) {
        None => Err(TmxError::MissingRequiredAttribute),
        Some(s) => {
            match parse_usize_chars(&chars_of(&s)) {
                Err(e) => Err(e),
                Ok(v) => {
                    if v == 0 {
                        Err(TmxError::MissingRequiredAttribute)
                    } else {
                        Ok(v)
                    }
                },
            }
        },
    }
}

} // verus!
