//! Object groups: named collections of objects, each carrying an
//! axis-aligned bounding area and typed properties.

use crate::tmx::attrs::{
    get_name, get_opt_fixed, get_opt_usize, opt_fixed_err, opt_fixed_val, opt_name, opt_usize_err,
    opt_usize_val,
};
use crate::tmx::node::Node;
use crate::tmx::property::{is_props_of, props_err, Property};
use crate::tmx::TmxError;
use crate::world::Area;
use vstd::prelude::*;

verus! {

/// An object of a group: its id, name, bounding area and properties. The
/// area's coordinates are fixed-point thousandths, as everywhere in the
/// geometry.
#[derive(Debug, PartialEq, Eq)]
pub struct Object {
    pub id: usize,
    pub name: String,
    pub area: Area,
    pub properties: Vec<Property>,
}

/// A named collection of objects.
#[derive(Debug, PartialEq, Eq)]
pub struct TmxObjectGroup {
    pub name: String,
    pub objects: Vec<Object>,
}

/// What is wrong, if anything, with one object node: its numeric
/// attributes must parse, and its properties must extract.
pub open spec fn object_err(c: Node) -> Option<TmxError> {
    if opt_usize_err(c, "id"@) is Some {
        opt_usize_err(c, "id"@)
    } else if opt_fixed_err(c, "x"@) is Some {
        opt_fixed_err(c, "x"@)
    } else if opt_fixed_err(c, "y"@) is Some {
        opt_fixed_err(c, "y"@)
    } else if opt_fixed_err(c, "width"@) is Some {
        opt_fixed_err(c, "width"@)
    } else if opt_fixed_err(c, "height"@) is Some {
        opt_fixed_err(c, "height"@)
    } else {
        props_err(c)
    }
}

/// `o` is the object that the node `c` describes: its area is built by the
/// geometry constructor from the node's `x`, `y`, `width` and `height`,
/// each defaulting to zero.
pub open spec fn is_object_of(c: Node, o: Object) -> bool {
    &&& o.id as int == opt_usize_val(c, "id"@)
    &&& o.name@ == opt_name(c)
    &&& o.area == Area::new_spec(
        opt_fixed_val(c, "x"@) as i64,
        opt_fixed_val(c, "y"@) as i64,
        opt_fixed_val(c, "width"@) as i64,
        opt_fixed_val(c, "height"@) as i64,
    )
    &&& is_props_of(c, o.properties@)
}

/// The `object` children, in document order.
pub open spec fn object_nodes(cs: Seq<Node>) -> Seq<Node>
    decreases cs.len(),
{
    if cs.len() == 0 {
        Seq::empty()
    } else {
        let rest = object_nodes(cs.drop_last());
        if cs.last().name@ == "object"@ {
            rest.push(cs.last())
        } else {
            rest
        }
    }
}

/// The first object error, in document order.
pub open spec fn first_object_err(cs: Seq<Node>) -> Option<TmxError>
    decreases cs.len(),
{
    if cs.len() == 0 {
        None
    } else {
        let rest = first_object_err(cs.drop_last());
        if rest is Some {
            rest
        } else {
            object_err(cs.last())
        }
    }
}

/// What is wrong, if anything, with an object group node.
pub open spec fn group_err(n: Node) -> Option<TmxError> {
    first_object_err(object_nodes(n.children@))
}

impl Object {
    /// Extracts one object, building its area with the geometry
    /// constructor.
    pub fn from_node(c: &Node) -> (r: Result<Object, TmxError>)
        ensures
            match r {
                Ok(o) => object_err(*c) == None::<TmxError> && is_object_of(*c, o),
                Err(e) => object_err(*c) == Some(e),
            },
    {
        let id = match get_opt_usize(c, "id") {
            Ok(v) => v,
            Err(e) => {
                return Err(e);
            },
        };
        let x = match get_opt_fixed(c, "x") {
            Ok(v) => v,
            Err(e) => {
                return Err(e);
            },
        };
        let y = match get_opt_fixed(c, "y") {
            Ok(v) => v,
            Err(e) => {
                return Err(e);
            },
        };
        let width = match get_opt_fixed(c, "width") {
            Ok(v) => v,
            Err(e) => {
                return Err(e);
            },
        };
        let height = match get_opt_fixed(c, "height") {
            Ok(v) => v,
            Err(e) => {
                return Err(e);
            },
        };
        let properties = match Property::properties_from_node(c) {
            Ok(ps) => ps,
            Err(e) => {
                return Err(e);
            },
        };
        let name = get_name(c);
        Ok(Object { id, name, area: Area::new(x, y, width, height), properties })
    }
}

/// The last object with the given id, if any: of two objects sharing an
/// id, the later in document order shadows the earlier, as inserting into
/// an id-keyed mapping would.
pub open spec fn object_last(os: Seq<Object>, id: int) -> Option<Object>
    decreases os.len(),
{
    if os.len() == 0 {
        None
    } else if os.last().id == id {
        Some(os.last())
    } else {
        object_last(os.drop_last(), id)
    }
}

/// `g` is the object group that the node `n` describes.
pub open spec fn is_group_of(n: Node, g: TmxObjectGroup) -> bool {
    &&& g.name@ == opt_name(n)
    &&& g.objects@.len() == object_nodes(n.children@).len()
    &&& forall|k: int|
        0 <= k < g.objects@.len() ==> is_object_of(object_nodes(n.children@)[k], g.objects@[k])
}

impl TmxObjectGroup {
    /// The object with the given id; the last occurrence wins.
    pub fn object<'a>(&'a self, id: usize) -> (r: Option<&'a Object>)
        ensures
            match r {
                Some(o) => object_last(self.objects@, id as int) == Some(*o),
                None => object_last(self.objects@, id as int) == None::<Object>,
            },
    {
        let mut found: Option<usize> = None;
        let mut i: usize = 0;
        while i < self.objects.len()
            invariant
                i <= self.objects@.len(),
                match found {
                    Some(fi) => fi < i && object_last(
                        self.objects@.subrange(0, i as int),
                        id as int,
                    ) == Some(self.objects@[fi as int]),
                    None => object_last(self.objects@.subrange(0, i as int), id as int)
                        == None::<Object>,
                },
            decreases self.objects@.len() - i,
        {
            proof {
                assert(self.objects@.subrange(0, i + 1).drop_last() =~= self.objects@.subrange(
                    0,
                    i as int,
                ));
                assert(self.objects@.subrange(0, i + 1).last() == self.objects@[i as int]);
            }
            if self.objects[i].id == id {
                found = Some(i);
            }
            i += 1;
        }
        proof {
            assert(self.objects@.subrange(0, self.objects@.len() as int) =~= self.objects@);
        }
        match found {
            Some(fi) => Some(&self.objects[fi]),
            None => None,
        }
    }

    /// Extracts an object group: its name and every `object` child, in
    /// document order. Whole extraction fails with the first object error.
    pub fn from_node(n: &Node) -> (r: Result<TmxObjectGroup, TmxError>)
        ensures
            match r {
                Ok(g) => group_err(*n) == None::<TmxError> && is_group_of(*n, g),
                Err(e) => group_err(*n) == Some(e),
            },
    {
        let oname = String::from_str("object");
        let mut objects: Vec<Object> = Vec::new();
        let mut failure: Option<TmxError> = None;
        let mut i: usize = 0;
        while i < n.children.len()
            invariant
                i <= n.children@.len(),
                oname@ == "object"@,
                ({
                    let on = object_nodes(n.children@.subrange(0, i as int));
                    match failure {
                        None => {
                            &&& first_object_err(on) == None::<TmxError>
                            &&& objects@.len() == on.len()
                            &&& forall|k: int|
                                0 <= k < on.len() ==> is_object_of(on[k], objects@[k])
                        },
                        Some(e) => first_object_err(on) == Some(e),
                    }
                }),
            decreases n.children@.len() - i,
        {
            let c = &n.children[i];
            let ghost before_on = object_nodes(n.children@.subrange(0, i as int));
            proof {
                assert(n.children@.subrange(0, i + 1).drop_last() =~= n.children@.subrange(
                    0,
                    i as int,
                ));
                assert(n.children@.subrange(0, i + 1).last() == n.children@[i as int]);
            }
            if c.name == oname {
                let ghost old_objects = objects@;
                proof {
                    assert((before_on.push(*c)).drop_last() =~= before_on);
                    assert((before_on.push(*c)).last() == *c);
                    assert(object_nodes(n.children@.subrange(0, i + 1)) =~= before_on.push(*c));
                }
                match failure {
                    None => {
                        match Object::from_node(c) {
                            Ok(o) => {
                                objects.push(o);
                                proof {
                                    let on_new = before_on.push(*c);
                                    assert forall|k: int|
                                        0 <= k < on_new.len() implies is_object_of(
                                        on_new[k],
                                        objects@[k],
                                    ) by {
                                        if k < on_new.len() - 1 {
                                            assert(on_new[k] == before_on[k]);
                                            assert(objects@[k] == old_objects[k]);
                                        } else {
                                            assert(on_new[k] == *c);
                                        }
                                    }
                                }
                            },
                            Err(e) => {
                                failure = Some(e);
                            },
                        }
                    },
                    Some(_) => {},
                }
            } else {
                proof {
                    assert(object_nodes(n.children@.subrange(0, i + 1)) =~= before_on);
                }
            }
            i += 1;
        }
        proof {
            assert(n.children@.subrange(0, n.children@.len() as int) =~= n.children@);
        }
        match failure {
            Some(e) => Err(e),
            None => Ok(TmxObjectGroup { name: get_name(n), objects }),
        }
    }
}

} // verus!
