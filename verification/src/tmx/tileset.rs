//! Tilesets: tile dimensions, the image reference, and per-tile typed
//! properties keyed by global tile id.

use crate::tmx::attrs::{
    get_name, get_opt_usize, get_req_pos, opt_name, opt_usize_err, opt_usize_val, req_pos_err,
    req_pos_val,
};
use crate::tmx::node::{find_attr, node_attr, Node};
use crate::tmx::property::{
    find_property, is_props_of, prop_last, props_err, Property, PropertyEnum,
};
use crate::tmx::text::{chars_of, dec_val, parse_usize_chars, usize_ok};
use crate::tmx::TmxError;
use vstd::prelude::*;

verus! {

broadcast use vstd::string::group_string_axioms;

/// A tile of a tileset: its global id and its properties.
#[derive(Debug, PartialEq, Eq)]
pub struct Tile {
    pub id: usize,
    pub properties: Vec<Property>,
}

impl Tile {
    /// A fresh tile with no properties.
    pub fn new(id: usize) -> (t: Tile)
        ensures
            t.id == id,
            t.properties@ == Seq::<Property>::empty(),
    {
        Tile { id, properties: Vec::new() }
    }
}

/// A tileset: its grid shape, its image, and its tiles.
#[derive(Debug, PartialEq, Eq)]
pub struct TmxTileset {
    pub name: String,
    pub columns: usize,
    pub rows: usize,
    pub tilewidth: usize,
    pub tileheight: usize,
    pub tiles: Vec<Tile>,
    pub image_file_name: String,
}

/// The `source` attribute of the last `image` child that has one, or the
/// empty string.
pub open spec fn image_source(cs: Seq<Node>) -> Seq<char>
    decreases cs.len(),
{
    if cs.len() == 0 {
        Seq::empty()
    } else if cs.last().name@ == "image"@ && node_attr(cs.last(), "source"@) is Some {
        node_attr(cs.last(), "source"@).unwrap()
    } else {
        image_source(cs.drop_last())
    }
}

/// The `tile` children that carry an `id` attribute, in document order; a
/// `tile` child without an id is ignored.
pub open spec fn tile_nodes(cs: Seq<Node>) -> Seq<Node>
    decreases cs.len(),
{
    if cs.len() == 0 {
        Seq::empty()
    } else {
        let rest = tile_nodes(cs.drop_last());
        if cs.last().name@ == "tile"@ && node_attr(cs.last(), "id"@) is Some {
            rest.push(cs.last())
        } else {
            rest
        }
    }
}

/// What is wrong, if anything, with one tile node: its local id must parse,
/// the global id `firstgid + local id` must fit, and its properties must
/// extract.
pub open spec fn tile_err(c: Node, firstgid: int) -> Option<TmxError> {
    let idv = node_attr(c, "id"@).unwrap();
    if !usize_ok(idv) {
        Some(TmxError::InvalidNumericValue)
    } else if firstgid + dec_val(idv) > usize::MAX as int {
        Some(TmxError::InvalidNumericValue)
    } else {
        props_err(c)
    }
}

/// The first tile error, in document order.
pub open spec fn first_tile_err(cs: Seq<Node>, firstgid: int) -> Option<TmxError>
    decreases cs.len(),
{
    if cs.len() == 0 {
        None
    } else {
        let rest = first_tile_err(cs.drop_last(), firstgid);
        if rest is Some {
            rest
        } else {
            tile_err(cs.last(), firstgid)
        }
    }
}

/// `t` is the tile that the node `c` describes: its global id is
/// `firstgid` plus the node's local id.
pub open spec fn is_tile_of(c: Node, firstgid: int, t: Tile) -> bool {
    &&& t.id as int == firstgid + dec_val(node_attr(c, "id"@).unwrap())
    &&& is_props_of(c, t.properties@)
}

/// What is wrong, if anything, with a tileset node: `columns` must be
/// present and positive, the numeric attributes must parse, and every tile
/// must extract.
pub open spec fn tileset_err(n: Node) -> Option<TmxError> {
    if opt_usize_err(n, "firstgid"@) is Some {
        opt_usize_err(n, "firstgid"@)
    } else if req_pos_err(n, "columns"@) is Some {
        req_pos_err(n, "columns"@)
    } else if opt_usize_err(n, "tilecount"@) is Some {
        opt_usize_err(n, "tilecount"@)
    } else if opt_usize_err(n, "tilewidth"@) is Some {
        opt_usize_err(n, "tilewidth"@)
    } else if opt_usize_err(n, "tileheight"@) is Some {
        opt_usize_err(n, "tileheight"@)
    } else {
        first_tile_err(tile_nodes(n.children@), opt_usize_val(n, "firstgid"@))
    }
}

/// The last tile with the given global id, if any.
pub open spec fn tile_last(ts: Seq<Tile>, id: int) -> Option<Tile>
    decreases ts.len(),
{
    if ts.len() == 0 {
        None
    } else if ts.last().id == id {
        Some(ts.last())
    } else {
        tile_last(ts.drop_last(), id)
    }
}

/// `ts` is the tileset that the node `n` describes: `rows` is the integer
/// quotient `tilecount / columns`, and the `k`-th tile child with an id
/// yields the `k`-th tile.
pub open spec fn is_tileset_of(n: Node, ts: TmxTileset) -> bool {
    &&& ts.name@ == opt_name(n)
    &&& ts.columns as int == req_pos_val(n, "columns"@)
    &&& ts.rows as int == opt_usize_val(n, "tilecount"@) / req_pos_val(n, "columns"@)
    &&& ts.tilewidth as int == opt_usize_val(n, "tilewidth"@)
    &&& ts.tileheight as int == opt_usize_val(n, "tileheight"@)
    &&& ts.image_file_name@ == image_source(n.children@)
    &&& ts.tiles@.len() == tile_nodes(n.children@).len()
    &&& forall|k: int|
        0 <= k < ts.tiles@.len() ==> is_tile_of(
            tile_nodes(n.children@)[k],
            opt_usize_val(n, "firstgid"@),
            ts.tiles@[k],
        )
}

impl TmxTileset {
    /// The tile with the given global id; the last occurrence wins.
    pub fn tile<'a>(&'a self, id: usize) -> (r: Option<&'a Tile>)
        ensures
            match r {
                Some(t) => tile_last(self.tiles@, id as int) == Some(*t),
                None => tile_last(self.tiles@, id as int) == None::<Tile>,
            },
    {
        let mut found: Option<usize> = None;
        let mut i: usize = 0;
        while i < self.tiles.len()
            invariant
                i <= self.tiles@.len(),
                match found {
                    Some(fi) => fi < i && tile_last(self.tiles@.subrange(0, i as int), id as int)
                        == Some(self.tiles@[fi as int]),
                    None => tile_last(self.tiles@.subrange(0, i as int), id as int) == None::<
                        Tile,
                    >,
                },
            decreases self.tiles@.len() - i,
        {
            proof {
                assert(self.tiles@.subrange(0, i + 1).drop_last() =~= self.tiles@.subrange(
                    0,
                    i as int,
                ));
                assert(self.tiles@.subrange(0, i + 1).last() == self.tiles@[i as int]);
            }
            if self.tiles[i].id == id {
                found = Some(i);
            }
            i += 1;
        }
        proof {
            assert(self.tiles@.subrange(0, self.tiles@.len() as int) =~= self.tiles@);
        }
        match found {
            Some(fi) => Some(&self.tiles[fi]),
            None => None,
        }
    }

    /// The value of the named property of the tile with the given global
    /// id, if both exist.
    pub fn property<'a>(&'a self, id: usize, name: &str) -> (r: Option<&'a PropertyEnum>)
        ensures
            match tile_last(self.tiles@, id as int) {
                None => r is None,
                Some(t) => match prop_last(t.properties@, name@) {
                    None => r is None,
                    Some(p) => r matches Some(v) && *v == p.value,
                },
            },
    {
        match self.tile(id) {
            None => None,
            Some(t) => match find_property(&t.properties, name) {
                None => None,
                Some(p) => Some(&p.value),
            },
        }
    }

    /// Extracts a tileset. `rows` is `tilecount / columns`; `columns` must
    /// be positive, so the division is defined. Each `tile` child with an
    /// id becomes a tile whose global id is `firstgid` plus its local id.
    pub fn from_node(n: &Node) -> (r: Result<TmxTileset, TmxError>)
        ensures
            match r {
                Ok(ts) => tileset_err(*n) == None::<TmxError> && is_tileset_of(*n, ts),
                Err(e) => tileset_err(*n) == Some(e),
            },
    {
        let firstgid = match get_opt_usize(n, "firstgid") {
            Ok(v) => v,
            Err(e) => {
                return Err(e);
            },
        };
        let columns = match get_req_pos(n, "columns") {
            Ok(v) => v,
            Err(e) => {
                return Err(e);
            },
        };
        let tilecount = match get_opt_usize(n, "tilecount") {
            Ok(v) => v,
            Err(e) => {
                return Err(e);
            },
        };
        let tilewidth = match get_opt_usize(n, "tilewidth") {
            Ok(v) => v,
            Err(e) => {
                return Err(e);
            },
        };
        let tileheight = match get_opt_usize(n, "tileheight") {
            Ok(v) => v,
            Err(e) => {
                return Err(e);
            },
        };
        let image_name = String::from_str("image");
        let source_name = String::from_str("tile");
        let mut image_file_name = String::new();
        let mut tiles: Vec<Tile> = Vec::new();
        let mut failure: Option<TmxError> = None;
        let mut i: usize = 0;
        while i < n.children.len()
            invariant
                i <= n.children@.len(),
                image_name@ == "image"@,
                source_name@ == "tile"@,
                image_file_name@ == image_source(n.children@.subrange(0, i as int)),
                firstgid as int == opt_usize_val(*n, "firstgid"@),
                ({
                    let tn = tile_nodes(n.children@.subrange(0, i as int));
                    match failure {
                        None => {
                            &&& first_tile_err(tn, firstgid as int) == None::<TmxError>
                            &&& tiles@.len() == tn.len()
                            &&& forall|k: int|
                                0 <= k < tn.len() ==> is_tile_of(
                                    tn[k],
                                    firstgid as int,
                                    tiles@[k],
                                )
                        },
                        Some(e) => first_tile_err(tn, firstgid as int) == Some(e),
                    }
                }),
            decreases n.children@.len() - i,
        {
            let c = &n.children[i];
            let ghost before_tn = tile_nodes(n.children@.subrange(0, i as int));
            proof {
                reveal_strlit("image");
                reveal_strlit("tile");
                assert(n.children@.subrange(0, i + 1).drop_last() =~= n.children@.subrange(
                    0,
                    i as int,
                ));
                assert(n.children@.subrange(0, i + 1).last() == n.children@[i as int]);
            }
            if c.name == image_name {
                match find_attr(c, "source") {
                    Some(s) => {
                        image_file_name = s;
                    },
                    None => {},
                }
                proof {
                    reveal_strlit("image");
                    reveal_strlit("tile");
                    assert("image"@.len() == 5);
                    assert("tile"@.len() == 4);
                    assert(tile_nodes(n.children@.subrange(0, i + 1)) =~= before_tn);
                }
            } else if c.name == source_name {
                match find_attr(c, "id") {
                    None => {
                        proof {
                            reveal_strlit("image");
                            reveal_strlit("tile");
                            assert(tile_nodes(n.children@.subrange(0, i + 1)) =~= before_tn);
                        }
                    },
                    Some(idstr) => {
                        let ghost old_tiles = tiles@;
                        proof {
                            reveal_strlit("image");
                            reveal_strlit("tile");
                            assert((before_tn.push(*c)).drop_last() =~= before_tn);
                            assert((before_tn.push(*c)).last() == *c);
                            assert(tile_nodes(n.children@.subrange(0, i + 1)) =~= before_tn.push(
                                *c,
                            ));
                        }
                        match failure {
                            None => {
                                match parse_usize_chars(&chars_of(&idstr)) {
                                    Err(e) => {
                                        failure = Some(e);
                                    },
                                    Ok(local) => {
                                        if local > usize::MAX - firstgid {
                                            failure = Some(TmxError::InvalidNumericValue);
                                        } else {
                                            let gid = firstgid + local;
                                            match Property::properties_from_node(c) {
                                                Err(e) => {
                                                    failure = Some(e);
                                                },
                                                Ok(props) => {
                                                    tiles.push(
                                                        Tile { id: gid, properties: props },
                                                    );
                                                    proof {
                                                        let tn_new = before_tn.push(*c);
                                                        assert forall|k: int|
                                                            0 <= k < tn_new.len() implies is_tile_of(
                                                            tn_new[k],
                                                            firstgid as int,
                                                            tiles@[k],
                                                        ) by {
                                                            if k < tn_new.len() - 1 {
                                                                assert(tn_new[k] == before_tn[k]);
                                                                assert(tiles@[k] == old_tiles[k]);
                                                            } else {
                                                                assert(tn_new[k] == *c);
                                                            }
                                                        }
                                                    }
                                                },
                                            }
                                        }
                                    },
                                }
                            },
                            Some(_) => {},
                        }
                    },
                }
            } else {
                proof {
                    assert(tile_nodes(n.children@.subrange(0, i + 1)) =~= before_tn);
                }
            }
            i += 1;
        }
        proof {
            assert(n.children@.subrange(0, n.children@.len() as int) =~= n.children@);
        }
        match failure {
            Some(e) => Err(e),
            None => {
                let rows = tilecount / columns;
                let name = get_name(n);
                Ok(
                    TmxTileset {
                        name,
                        columns,
                        rows,
                        tilewidth,
                        tileheight,
                        tiles,
                        image_file_name,
                    },
                )
            },
        }
    }
}

} // verus!
