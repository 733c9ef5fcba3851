//! Typed properties attached to tiles and objects: the `property` children
//! of a node's `properties` containers, each dispatched on its `type`
//! attribute to a fixed-point number or to text.

use crate::tmx::attrs::{get_name, opt_name};
use crate::tmx::node::{find_attr, node_attr, Node};
use crate::tmx::text::{chars_of, fixed_ok, fixed_val, parse_fixed_chars};
use crate::tmx::TmxError;
use vstd::prelude::*;

verus! {

/// A property value: a fixed-point number in thousandths, or text. The
/// `type` attribute selects the variant; absent it defaults to text.
#[derive(Debug, PartialEq, Eq)]
pub enum PropertyEnum {
    Float(i64),
    Text(String),
}

/// A named property of a tile or an object.
#[derive(Debug, PartialEq, Eq)]
pub struct Property {
    pub name: String,
    pub value: PropertyEnum,
}

/// The `property` nodes among `cs`, in document order.
pub open spec fn prop_children(cs: Seq<Node>) -> Seq<Node>
    decreases cs.len(),
{
    if cs.len() == 0 {
        Seq::empty()
    } else {
        let rest = prop_children(cs.drop_last());
        if cs.last().name@ == "property"@ {
            rest.push(cs.last())
        } else {
            rest
        }
    }
}

/// The `property` nodes of all `properties` containers among `cs`.
pub open spec fn prop_containers(cs: Seq<Node>) -> Seq<Node>
    decreases cs.len(),
{
    if cs.len() == 0 {
        Seq::empty()
    } else {
        let rest = prop_containers(cs.drop_last());
        if cs.last().name@ == "properties"@ {
            rest + prop_children(cs.last().children@)
        } else {
            rest
        }
    }
}

/// All property nodes that `n` carries, in document order.
pub open spec fn prop_items(n: Node) -> Seq<Node> {
    prop_containers(n.children@)
}

/// The property's declared type: its `type` attribute, or `string`.
pub open spec fn prop_type(c: Node) -> Seq<char> {
    match node_attr(c, "type"@) {
        Some(t) => t,
        None => "string"@,
    }
}

/// The property's raw `value` attribute, or the empty string.
pub open spec fn prop_raw_value(c: Node) -> Seq<char> {
    match node_attr(c, "value"@) {
        Some(v) => v,
        None => Seq::empty(),
    }
}

/// What is wrong, if anything, with one property node: a `float` value must
/// parse, and no type outside `string` and `float` is supported.
pub open spec fn prop_err(c: Node) -> Option<TmxError> {
    if prop_type(c) == "string"@ {
        None
    } else if prop_type(c) == "float"@ {
        if fixed_ok(prop_raw_value(c)) {
            None
        } else {
            Some(TmxError::InvalidNumericValue)
        }
    } else {
        Some(TmxError::UnsupportedPropertyType)
    }
}

/// `p` is the property that the node `c` describes.
pub open spec fn is_prop_of(c: Node, p: Property) -> bool {
    &&& p.name@ == opt_name(c)
    &&& if prop_type(c) == "string"@ {
        p.value matches PropertyEnum::Text(s) && s@ == prop_raw_value(c)
    } else {
        p.value matches PropertyEnum::Float(f) && f as int == fixed_val(prop_raw_value(c))
    }
}

/// `ps` lists the properties of `n`'s property nodes, in document order.
pub open spec fn is_props_of(n: Node, ps: Seq<Property>) -> bool {
    &&& ps.len() == prop_items(n).len()
    &&& forall|i: int| 0 <= i < ps.len() ==> is_prop_of(prop_items(n)[i], ps[i])
}

/// The first property error among `items`, in document order.
pub open spec fn first_prop_err(items: Seq<Node>) -> Option<TmxError>
    decreases items.len(),
{
    if items.len() == 0 {
        None
    } else {
        let rest = first_prop_err(items.drop_last());
        if rest is Some {
            rest
        } else {
            prop_err(items.last())
        }
    }
}

/// The first property error that `n` carries, if any.
pub open spec fn props_err(n: Node) -> Option<TmxError> {
    first_prop_err(prop_items(n))
}

/// Extracts one property from its node.
fn prop_of(c: &Node) -> (r: Result<Property, TmxError>)
    ensures
        match r {
            Ok(p) => prop_err(*c) == None::<TmxError> && is_prop_of(*c, p),
            Err(e) => prop_err(*c) == Some(e),
        },
{
    let name = get_name(c);
    let ty: String = match find_attr(c, "type") {
        Some(t) => t,
        None => String::from_str("string"),
    };
    let value: String = match find_attr(c, "value") {
        Some(v) => v,
        None => String::new(),
    };
    if ty == String::from_str("string") {
        Ok(Property { name, value: PropertyEnum::Text(value) })
    } else if ty == String::from_str("float") {
        match parse_fixed_chars(&chars_of(&value)) {
            Ok(f) => Ok(Property { name, value: PropertyEnum::Float(f) }),
            Err(e) => Err(e),
        }
    } else {
        Err(TmxError::UnsupportedPropertyType)
    }
}

impl Property {
    /// Walks the node's `properties` containers and extracts every
    /// `property` child, in document order. Whole extraction fails with the
    /// first property error. A property whose name repeats stands later in
    /// the list, and name lookups take the last match.
    pub fn properties_from_node(node: &Node) -> (r: Result<Vec<Property>, TmxError>)
        ensures
            match r {
                Ok(ps) => props_err(*node) == None::<TmxError> && is_props_of(*node, ps@),
                Err(e) => props_err(*node) == Some(e),
            },
    {
        let pname = String::from_str("properties");
        let iname = String::from_str("property");
        let mut ps: Vec<Property> = Vec::new();
        let mut failure: Option<TmxError> = None;
        let mut i: usize = 0;
        while i < node.children.len()
            invariant
                i <= node.children@.len(),
                pname@ == "properties"@,
                iname@ == "property"@,
                ({
                    let items = prop_containers(node.children@.subrange(0, i as int));
                    match failure {
                        None => {
                            &&& first_prop_err(items) == None::<TmxError>
                            &&& ps@.len() == items.len()
                            &&& forall|k: int|
                                0 <= k < items.len() ==> is_prop_of(items[k], ps@[k])
                        },
                        Some(e) => first_prop_err(items) == Some(e),
                    }
                }),
            decreases node.children@.len() - i,
        {
            let c = &node.children[i];
            let ghost before_items = prop_containers(node.children@.subrange(0, i as int));
            proof {
                assert(node.children@.subrange(0, i + 1).drop_last() =~= node.children@.subrange(
                    0,
                    i as int,
                ));
                assert(node.children@.subrange(0, i + 1).last() == node.children@[i as int]);
            }
            if c.name == pname {
                let mut j: usize = 0;
                while j < c.children.len()
                    invariant
                        j <= c.children@.len(),
                        iname@ == "property"@,
                        before_items == prop_containers(
                            node.children@.subrange(0, i as int),
                        ),
                        ({
                            let items = before_items + prop_children(
                                c.children@.subrange(0, j as int),
                            );
                            match failure {
                                None => {
                                    &&& first_prop_err(items) == None::<TmxError>
                                    &&& ps@.len() == items.len()
                                    &&& forall|k: int|
                                        0 <= k < items.len() ==> is_prop_of(items[k], ps@[k])
                                },
                                Some(e) => first_prop_err(items) == Some(e),
                            }
                        }),
                    decreases c.children@.len() - j,
                {
                    let c2 = &c.children[j];
                    let ghost inner = prop_children(c.children@.subrange(0, j as int));
                    proof {
                        assert(c.children@.subrange(0, j + 1).drop_last() =~= c.children@.subrange(
                            0,
                            j as int,
                        ));
                        assert(c.children@.subrange(0, j + 1).last() == c.children@[j as int]);
                    }
                    if c2.name == iname {
                        let ghost old_ps = ps@;
                        proof {
                            assert((before_items + inner.push(*c2)).drop_last() =~= before_items
                                + inner);
                            assert((before_items + inner.push(*c2)).last() == *c2);
                        }
                        match failure {
                            None => {
                                match prop_of(c2) {
                                    Ok(p) => {
                                        ps.push(p);
                                        proof {
                                            let items_new = before_items + inner.push(*c2);
                                            assert forall|k: int|
                                                0 <= k < items_new.len() implies is_prop_of(
                                                items_new[k],
                                                ps@[k],
                                            ) by {
                                                if k < items_new.len() - 1 {
                                                    assert(items_new[k] == (before_items
                                                        + inner)[k]);
                                                    assert(ps@[k] == old_ps[k]);
                                                } else {
                                                    assert(items_new[k] == *c2);
                                                    assert(ps@[k] == p);
                                                }
                                            }
                                        }
                                    },
                                    Err(e) => {
                                        failure = Some(e);
                                    },
                                }
                            },
                            Some(_) => {},
                        }
                        proof {
                            assert(prop_children(c.children@.subrange(0, j + 1)) =~= inner.push(
                                *c2,
                            ));
                        }
                    } else {
                        proof {
                            assert(prop_children(c.children@.subrange(0, j + 1)) =~= inner);
                        }
                    }
                    j += 1;
                }
                proof {
                    assert(c.children@.subrange(0, c.children@.len() as int) =~= c.children@);
                    assert(prop_containers(node.children@.subrange(0, i + 1)) =~= before_items
                        + prop_children(c.children@));
                }
            } else {
                proof {
                    assert(prop_containers(node.children@.subrange(0, i + 1)) =~= before_items);
                }
            }
            i += 1;
        }
        proof {
            assert(node.children@.subrange(0, node.children@.len() as int) =~= node.children@);
        }
        match failure {
            None => Ok(ps),
            Some(e) => Err(e),
        }
    }
}

/// The last property named `key`, if any: a later property shadows an
/// earlier one of the same name, as inserting into a name-keyed mapping
/// would.
pub open spec fn prop_last(ps: Seq<Property>, key: Seq<char>) -> Option<Property>
    decreases ps.len(),
{
    if ps.len() == 0 {
        None
    } else if ps.last().name@ == key {
        Some(ps.last())
    } else {
        prop_last(ps.drop_last(), key)
    }
}

/// Looks a property up by name; the last occurrence wins.
pub fn find_property<'a>(ps: &'a Vec<Property>, key: &str) -> (r: Option<&'a Property>)
    ensures
        match r {
            Some(p) => prop_last(ps@, key@) == Some(*p),
            None => prop_last(ps@, key@) == None::<Property>,
        },
{
    let keys: String = key.to_owned();
    let mut found: Option<usize> = None;
    let mut i: usize = 0;
    while i < ps.len()
        invariant
            i <= ps@.len(),
            keys@ == key@,
            match found {
                Some(fi) => fi < i && prop_last(ps@.subrange(0, i as int), key@) == Some(
                    ps@[fi as int],
                ),
                None => prop_last(ps@.subrange(0, i as int), key@) == None::<Property>,
            },
        decreases ps@.len() - i,
    {
        proof {
            assert(ps@.subrange(0, i + 1).drop_last() =~= ps@.subrange(0, i as int));
            assert(ps@.subrange(0, i + 1).last() == ps@[i as int]);
        }
        if ps[i].name == keys {
            found = Some(i);
        }
        i += 1;
    }
    proof {
        assert(ps@.subrange(0, ps@.len() as int) =~= ps@);
    }
    match found {
        Some(fi) => Some(&ps[fi]),
        None => None,
    }
}

} // verus!
