//! The TMX tile-map model: a generic XML tree, typed extraction of layers,
//! tilesets and object groups from it, and the published map content.

use vstd::prelude::*;

pub mod attrs;
pub mod layer;
pub mod node;
pub mod objectgroup;
pub mod property;
pub mod text;
pub mod tileset;

use crate::tmx::attrs::opt_name;
use crate::tmx::layer::{is_layer_of, layer_err, TmxLayer};
use crate::tmx::node::{
    attrs_view, build_at, document_events, event_bound, lemma_deep_children_len, read_events,
    read_node_elements, xml_events, Node, NodeView, TmxEvent,
};
use crate::tmx::objectgroup::{group_err, is_group_of, TmxObjectGroup};
use crate::tmx::tileset::{is_tileset_of, tileset_err, TmxTileset};

verus! {

/// The ways loading a map can fail. Parsing either yields a whole map or
/// fails as a unit with the first of these conditions met in document order.
#[derive(Clone, Copy, Debug, PartialEq, Eq, Structural)]
pub enum TmxError {
    /// The XML event source reported an error, or the document held no
    /// root element at all.
    MalformedXml,
    /// A required attribute is absent, or holds a value (such as a zero
    /// dimension) that would make the entity unusable.
    MissingRequiredAttribute,
    /// An attribute or data value did not parse as the expected number.
    InvalidNumericValue,
    /// A property `type` attribute outside `string` and `float`.
    UnsupportedPropertyType,
    /// A layer's comma-separated data does not hold exactly
    /// `width * height` values.
    LayerDataSizeMismatch,
}

/// One extracted entity of the map.
#[derive(Debug, PartialEq, Eq)]
pub enum TmxEntry {
    Layer(TmxLayer),
    Tileset(TmxTileset),
    ObjectGroup(TmxObjectGroup),
}

/// The name an entry carries.
pub open spec fn entry_name(e: TmxEntry) -> Seq<char> {
    match e {
        TmxEntry::Layer(l) => l.name@,
        TmxEntry::Tileset(t) => t.name@,
        TmxEntry::ObjectGroup(g) => g.name@,
    }
}

/// The children of the document's first element; the top-level entities
/// stand there.
pub open spec fn map_children(root: Node) -> Seq<Node> {
    root.children@[0].children@
}

/// A child the aggregator extracts; any other tag is ignored.
pub open spec fn accepted(c: Node) -> bool {
    c.name@ == "layer"@ || c.name@ == "tileset"@ || c.name@ == "objectgroup"@
}

/// The accepted children, in document order.
pub open spec fn accepted_nodes(cs: Seq<Node>) -> Seq<Node>
    decreases cs.len(),
{
    if cs.len() == 0 {
        Seq::empty()
    } else {
        let rest = accepted_nodes(cs.drop_last());
        if accepted(cs.last()) {
            rest.push(cs.last())
        } else {
            rest
        }
    }
}

/// What is wrong, if anything, with one top-level child.
pub open spec fn entry_err(c: Node) -> Option<TmxError> {
    if c.name@ == "layer"@ {
        layer_err(c)
    } else if c.name@ == "tileset"@ {
        tileset_err(c)
    } else if c.name@ == "objectgroup"@ {
        group_err(c)
    } else {
        None
    }
}

/// The first extraction error among the children, in document order.
pub open spec fn first_entry_err(cs: Seq<Node>) -> Option<TmxError>
    decreases cs.len(),
{
    if cs.len() == 0 {
        None
    } else {
        let rest = first_entry_err(cs.drop_last());
        if rest is Some {
            rest
        } else {
            entry_err(cs.last())
        }
    }
}

/// `e` is the keyed entry that the accepted child `c` yields.
pub open spec fn is_entry_of(c: Node, e: (String, TmxEntry)) -> bool {
    &&& e.0@ == opt_name(c)
    &&& if c.name@ == "layer"@ {
        e.1 matches TmxEntry::Layer(l) && is_layer_of(c, l)
    } else if c.name@ == "tileset"@ {
        e.1 matches TmxEntry::Tileset(t) && is_tileset_of(c, t)
    } else {
        e.1 matches TmxEntry::ObjectGroup(g) && is_group_of(c, g)
    }
}

/// The last entry under this key, if any: a later entry of the same name
/// overwrites an earlier one.
pub open spec fn entry_last(es: Seq<(String, TmxEntry)>, key: Seq<char>) -> Option<TmxEntry>
    decreases es.len(),
{
    if es.len() == 0 {
        None
    } else if es.last().0@ == key {
        Some(es.last().1)
    } else {
        entry_last(es.drop_last(), key)
    }
}

/// Of several entries sharing a name, the latest in document order is the
/// one retained: looking the name up yields exactly the last entry keyed by
/// it.
pub proof fn lemma_later_entry_wins(es: Seq<(String, TmxEntry)>, key: Seq<char>, j: int)
    requires
        0 <= j < es.len(),
        es[j].0@ == key,
        forall|k: int| j < k < es.len() ==> es[k].0@ != key,
    ensures
        entry_last(es, key) == Some(es[j].1),
    decreases es.len(),
{
    if j == es.len() - 1 {
        assert(es.last() == es[j]);
    } else {
        assert(es.last() == es[es.len() - 1]);
        assert(es.last().0@ != key);
        let t = es.drop_last();
        assert(t[j] == es[j]);
        assert forall|k: int| j < k < t.len() implies t[k].0@ != key by {
            assert(t[k] == es[k]);
        }
        lemma_later_entry_wins(t, key, j);
    }
}

/// The published result of loading a map: the extracted entries keyed by
/// name, in document order. Lookups take the last entry of a name, so of
/// two entries sharing a name the later one in the document stands.
#[derive(Debug, PartialEq, Eq)]
pub struct TmxContent {
    pub entries: Vec<(String, TmxEntry)>,
}

impl TmxContent {
    /// Every entry is keyed by the name its entity carries.
    pub open spec fn wf(&self) -> bool {
        forall|i: int|
            0 <= i < self.entries@.len() ==> self.entries@[i].0@ == entry_name(
                self.entries@[i].1,
            )
    }

    /// The entry under this name; of several with the same name, the last
    /// in document order wins.
    pub fn get<'a>(&'a self, name: &str) -> (r: Option<&'a TmxEntry>)
        ensures
            match r {
                Some(e) => entry_last(self.entries@, name@) == Some(*e),
                None => entry_last(self.entries@, name@) == None::<TmxEntry>,
            },
    {
        let keys: String = name.to_owned();
        let mut found: Option<usize> = None;
        let mut i: usize = 0;
        while i < self.entries.len()
            invariant
                i <= self.entries@.len(),
                keys@ == name@,
                match found {
                    Some(fi) => fi < i && entry_last(self.entries@.subrange(0, i as int), name@)
                        == Some(self.entries@[fi as int].1),
                    None => entry_last(self.entries@.subrange(0, i as int), name@) == None::<
                        TmxEntry,
                    >,
                },
            decreases self.entries@.len() - i,
        {
            proof {
                assert(self.entries@.subrange(0, i + 1).drop_last() =~= self.entries@.subrange(
                    0,
                    i as int,
                ));
                assert(self.entries@.subrange(0, i + 1).last() == self.entries@[i as int]);
            }
            if self.entries[i].0 == keys {
                found = Some(i);
            }
            i += 1;
        }
        proof {
            assert(self.entries@.subrange(0, self.entries@.len() as int) =~= self.entries@);
        }
        match found {
            Some(fi) => Some(&self.entries[fi].1),
            None => None,
        }
    }

    /// Loads map content from the bytes of a TMX document: pulls the XML
    /// events, builds the generic tree, and extracts the typed entries.
    /// Either the whole map is published — the entries extracted from the
    /// tree that the bytes determine — or the first failure is returned
    /// and nothing is.
    pub fn from_bytes(data: &[u8]) -> (r: Result<TmxContent, TmxError>)
        ensures
            match r {
                Ok(c) => {
                    &&& c.wf()
                    &&& xml_events(data@).last() == TmxEvent::Eof
                    &&& loaded_view(data@).children.len() > 0
                    &&& exists|root: Node|
                        #![auto]
                        {
                            &&& root@ == loaded_view(data@)
                            &&& root.children@.len() > 0
                            &&& first_entry_err(map_children(root)) == None::<TmxError>
                            &&& c.entries@.len() == accepted_nodes(map_children(root)).len()
                            &&& forall|k: int|
                                0 <= k < c.entries@.len() ==> is_entry_of(
                                    accepted_nodes(map_children(root))[k],
                                    c.entries@[k],
                                )
                        }
                },
                Err(e) => {
                    ||| (e == TmxError::MalformedXml && (xml_events(data@).last()
                        == TmxEvent::Fault || xml_events(data@).len() > event_bound(
                        data@.len() as int,
                    ) || loaded_view(data@).children.len() == 0))
                    ||| exists|root: Node|
                        #![auto]
                        (root@ == loaded_view(data@) && root.children@.len() > 0
                            && first_entry_err(map_children(root)) == Some(e))
                },
            },
    {
        let events = match read_events(data) {
            Ok(evs) => evs,
            Err(e) => {
                return Err(e);
            },
        };
        let mut root = Node {
            name: String::from_str("root"),
            attributes: Vec::new(),
            children: Vec::new(),
            content: String::new(),
        };
        proof {
            assert(attrs_view(Seq::<(String, String)>::empty()) =~= Seq::<(
                Seq<char>,
                Seq<char>,
            )>::empty());
            assert(root@ =~= root_start());
        }
        let mut pos: usize = 0;
        read_node_elements(&mut root, &events, &mut pos);
        proof {
            assert(root@ == loaded_view(data@));
            lemma_deep_children_len(root.children@);
        }
        match create_tmx_content(&root) {
            Ok(c) => {
                proof {
                    assert(root@ == loaded_view(data@) && root.children@.len() > 0
                        && first_entry_err(map_children(root)) == None::<TmxError>
                        && c.entries@.len() == accepted_nodes(map_children(root)).len() && (
                    forall|k: int|
                        0 <= k < c.entries@.len() ==> is_entry_of(
                            accepted_nodes(map_children(root))[k],
                            c.entries@[k],
                        )));
                }
                Ok(c)
            },
            Err(e) => {
                proof {
                    if root.children@.len() > 0 {
                        assert(root@ == loaded_view(data@) && root.children@.len() > 0
                            && first_entry_err(map_children(root)) == Some(e));
                    }
                }
                Err(e)
            },
        }
    }
}

/// The empty node the builder is seeded with.
pub open spec fn root_start() -> NodeView {
    NodeView {
        name: "root"@,
        attrs: Seq::empty(),
        children: Seq::empty(),
        content: Seq::empty(),
    }
}

/// The tree that the document's bytes determine: its event stream, up to
/// the end marker, fed to the tree builder.
pub open spec fn loaded_view(data: Seq<u8>) -> NodeView {
    build_at(root_start(), document_events(data), 0).0
}

/// Builds the published content from the generic tree: dispatches each
/// child of the document's single top element by tag name and collects the
/// extracted entries in document order, keyed by name.
pub fn create_tmx_content(root: &Node) -> (r: Result<TmxContent, TmxError>)
    ensures
        match r {
            Ok(c) => {
                &&& root.children@.len() > 0
                &&& first_entry_err(map_children(*root)) == None::<TmxError>
                &&& c.wf()
                &&& c.entries@.len() == accepted_nodes(map_children(*root)).len()
                &&& forall|k: int|
                    0 <= k < c.entries@.len() ==> is_entry_of(
                        accepted_nodes(map_children(*root))[k],
                        c.entries@[k],
                    )
            },
            Err(e) => {
                ||| root.children@.len() == 0 && e == TmxError::MalformedXml
                ||| root.children@.len() > 0 && first_entry_err(map_children(*root)) == Some(e)
            },
        },
{
    if root.children.len() == 0 {
        return Err(TmxError::MalformedXml);
    }
    let map_node = &root.children[0];
    let lname = String::from_str("layer");
    let tname = String::from_str("tileset");
    let gname = String::from_str("objectgroup");
    let mut entries: Vec<(String, TmxEntry)> = Vec::new();
    let mut i: usize = 0;
    while i < map_node.children.len()
        invariant
            i <= map_node.children@.len(),
            root.children@.len() > 0,
            map_node.children@ == map_children(*root),
            lname@ == "layer"@,
            tname@ == "tileset"@,
            gname@ == "objectgroup"@,
            first_entry_err(map_node.children@.subrange(0, i as int)) == None::<TmxError>,
            entries@.len() == accepted_nodes(map_node.children@.subrange(0, i as int)).len(),
            forall|k: int|
                0 <= k < entries@.len() ==> is_entry_of(
                    accepted_nodes(map_node.children@.subrange(0, i as int))[k],
                    entries@[k],
                ),
            forall|k: int|
                0 <= k < entries@.len() ==> entries@[k].0@ == entry_name(entries@[k].1),
        decreases map_node.children@.len() - i,
    {
        let c = &map_node.children[i];
        let ghost before_an = accepted_nodes(map_node.children@.subrange(0, i as int));
        let ghost old_entries = entries@;
        proof {
            assert(map_node.children@.subrange(0, i + 1).drop_last() =~= map_node.children@
                .subrange(0, i as int));
            assert(map_node.children@.subrange(0, i + 1).last() == map_node.children@[i as int]);
        }
        if c.name == lname {
            let layer = match TmxLayer::from_node(c) {
                Ok(l) => l,
                Err(e) => {
                    proof {
                        lemma_first_entry_err_found(map_node.children@, i as int);
                    }
                    return Err(e);
                },
            };
            let key = layer.name.clone();
            entries.push((key, TmxEntry::Layer(layer)));
            proof {
                lemma_accept_step(map_node.children@, i as int, before_an, *c);
                lemma_entries_extended(before_an, *c, old_entries, entries@);
            }
        } else if c.name == tname {
            proof {
                reveal_strlit("layer");
                reveal_strlit("tileset");
                assert("layer"@.len() == 5);
                assert("tileset"@.len() == 7);
            }
            let tileset = match TmxTileset::from_node(c) {
                Ok(t) => t,
                Err(e) => {
                    proof {
                        lemma_first_entry_err_found(map_node.children@, i as int);
                    }
                    return Err(e);
                },
            };
            let key = tileset.name.clone();
            entries.push((key, TmxEntry::Tileset(tileset)));
            proof {
                lemma_accept_step(map_node.children@, i as int, before_an, *c);
                lemma_entries_extended(before_an, *c, old_entries, entries@);
            }
        } else if c.name == gname {
            proof {
                reveal_strlit("layer");
                reveal_strlit("tileset");
                reveal_strlit("objectgroup");
                assert("layer"@.len() == 5);
                assert("tileset"@.len() == 7);
                assert("objectgroup"@.len() == 11);
            }
            let group = match TmxObjectGroup::from_node(c) {
                Ok(g) => g,
                Err(e) => {
                    proof {
                        lemma_first_entry_err_found(map_node.children@, i as int);
                    }
                    return Err(e);
                },
            };
            let key = group.name.clone();
            entries.push((key, TmxEntry::ObjectGroup(group)));
            proof {
                lemma_accept_step(map_node.children@, i as int, before_an, *c);
                lemma_entries_extended(before_an, *c, old_entries, entries@);
            }
        } else {
            proof {
                assert(accepted_nodes(map_node.children@.subrange(0, i + 1)) =~= before_an);
            }
        }
        i += 1;
    }
    proof {
        assert(map_node.children@.subrange(0, map_node.children@.len() as int) =~= map_node
            .children@);
    }
    Ok(TmxContent { entries })
}

/// When the children before `i` extract cleanly and child `i` fails, its
/// error is the first of the whole list.
proof fn lemma_first_entry_err_found(cs: Seq<Node>, i: int)
    requires
        0 <= i < cs.len(),
        first_entry_err(cs.subrange(0, i)) == None::<TmxError>,
        entry_err(cs[i]) is Some,
    ensures
        first_entry_err(cs) == entry_err(cs[i]),
    decreases cs.len(),
{
    if cs.len() == i + 1 {
        assert(cs.drop_last() =~= cs.subrange(0, i));
        assert(cs.last() == cs[i]);
    } else {
        assert(cs.drop_last().subrange(0, i) =~= cs.subrange(0, i));
        assert(cs.drop_last()[i] == cs[i]);
        lemma_first_entry_err_found(cs.drop_last(), i);
    }
}

/// Appending an accepted child extends the accepted list by it.
proof fn lemma_accept_step(cs: Seq<Node>, i: int, before: Seq<Node>, c: Node)
    requires
        0 <= i < cs.len(),
        c == cs[i],
        accepted(c),
        before == accepted_nodes(cs.subrange(0, i)),
    ensures
        accepted_nodes(cs.subrange(0, i + 1)) == before.push(c),
{
    assert(cs.subrange(0, i + 1).drop_last() =~= cs.subrange(0, i));
    assert(cs.subrange(0, i + 1).last() == cs[i]);
    assert(accepted_nodes(cs.subrange(0, i + 1)) =~= before.push(c));
}

/// The per-index entry relation survives pushing a matching pair.
proof fn lemma_entries_extended(
    before: Seq<Node>,
    c: Node,
    old_entries: Seq<(String, TmxEntry)>,
    new_entries: Seq<(String, TmxEntry)>,
)
    requires
        old_entries.len() == before.len(),
        new_entries.len() == old_entries.len() + 1,
        forall|k: int| 0 <= k < old_entries.len() ==> new_entries[k] == old_entries[k],
        forall|k: int| 0 <= k < before.len() ==> is_entry_of(before[k], old_entries[k]),
        is_entry_of(c, new_entries[new_entries.len() - 1]),
    ensures
        forall|k: int|
            0 <= k < new_entries.len() ==> is_entry_of(before.push(c)[k], new_entries[k]),
{
    assert forall|k: int|
        0 <= k < new_entries.len() implies is_entry_of(before.push(c)[k], new_entries[k]) by {
        if k < before.len() {
            assert(before.push(c)[k] == before[k]);
        } else {
            assert(before.push(c)[k] == c);
        }
    }
}

} // verus!
