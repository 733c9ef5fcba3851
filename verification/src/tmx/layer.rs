//! Tile-grid layers: a flat row-major grid of tile ids and the extraction
//! of a layer from its generic node.

use crate::tmx::attrs::{get_name, get_req_pos, opt_name, req_pos_err, req_pos_val};
use crate::tmx::node::Node;
use crate::tmx::text::{
    chars_of, csv_tokens, dec_val, parse_usize_chars, usize_ok, split_commas, tokens_view, trim,
    trim_chars,
};
use crate::tmx::TmxError;
use vstd::arithmetic::div_mod::lemma_fundamental_div_mod;
use vstd::prelude::*;

verus! {

/// A `width * height` grid of tile ids, stored flat in row-major order.
#[derive(Debug, PartialEq, Eq)]
pub struct Grid {
    width: usize,
    height: usize,
    data: Vec<usize>,
}

impl View for Grid {
    type V = Seq<usize>;

    closed spec fn view(&self) -> Seq<usize> {
        self.data@
    }
}

impl Grid {
    pub closed spec fn spec_width(&self) -> int {
        self.width as int
    }

    pub closed spec fn spec_height(&self) -> int {
        self.height as int
    }

    /// The backing store holds one id per cell.
    pub open spec fn wf(&self) -> bool {
        self@.len() == self.spec_width() * self.spec_height()
    }

    /// A fresh grid of the given dimensions, every tile id zero.
    pub fn new(width: usize, height: usize) -> (g: Grid)
        requires
            width >= 1,
            height >= 1,
            width * height <= usize::MAX,
        ensures
            g.wf(),
            g.spec_width() == width,
            g.spec_height() == height,
            forall|k: int| 0 <= k < g@.len() ==> g@[k] == 0usize,
    {
        let n = width * height;
        let mut data: Vec<usize> = Vec::new();
        let mut k: usize = 0;
        while k < n
            invariant
                k <= n,
                data@.len() == k,
                forall|j: int| 0 <= j < k ==> data@[j] == 0usize,
            decreases n - k,
        {
            data.push(0);
            k += 1;
        }
        Grid { width, height, data }
    }

    pub fn width(&self) -> (r: usize)
        ensures
            r == self.spec_width(),
    {
        self.width
    }

    pub fn height(&self) -> (r: usize)
        ensures
            r == self.spec_height(),
    {
        self.height
    }

    /// The tile id at `row`, `col`: the flat entry at `row * width + col`.
    pub fn get(&self, row: usize, col: usize) -> (r: usize)
        requires
            self.wf(),
            row < self.spec_height(),
            col < self.spec_width(),
        ensures
            r == self@[row * self.spec_width() + col],
    {
        // the exec length bounds the flat size by the machine word
        let n = self.data.len();
        proof {
            lemma_row_col_in_range(row as int, col as int, self.spec_width(), self.spec_height());
            assert(row * self.spec_width() + col < n);
        }
        self.data[row * self.width + col]
    }

    /// Writes the tile id at `row`, `col`.
    pub fn set(&mut self, row: usize, col: usize, value: usize)
        requires
            old(self).wf(),
            row < old(self).spec_height(),
            col < old(self).spec_width(),
        ensures
            final(self).wf(),
            final(self).spec_width() == old(self).spec_width(),
            final(self).spec_height() == old(self).spec_height(),
            final(self)@ == old(self)@.update(row * old(self).spec_width() + col, value),
    {
        // the exec length bounds the flat size by the machine word
        let n = self.data.len();
        proof {
            lemma_row_col_in_range(row as int, col as int, self.spec_width(), self.spec_height());
            assert(row * old(self).spec_width() + col < n);
        }
        let idx = row * self.width + col;
        self.data[idx] = value;
    }
}

/// A row-major position lies within the flat store.
proof fn lemma_row_col_in_range(row: int, col: int, width: int, height: int)
    requires
        0 <= row < height,
        0 <= col < width,
    ensures
        0 <= row * width + col < width * height,
{
    assert(row * width + col < width * height) by (nonlinear_arith)
        requires
            0 <= row < height,
            0 <= col < width,
    ;
    assert(row * width >= 0) by (nonlinear_arith)
        requires
            0 <= row,
            0 <= width,
    ;
}

/// A flat offset and its (row, column) pair correspond one to one: for any
/// `0 <= idx` in a grid `width` wide, `row = idx / width` and
/// `col = idx % width` recover the same flat offset, `row * width + col == idx`.
pub proof fn lemma_grid_round_trip(idx: int, width: int)
    requires
        width > 0,
        0 <= idx,
    ensures
        (idx / width) * width + (idx % width) == idx,
{
    lemma_fundamental_div_mod(idx, width);
    vstd::arithmetic::mul::lemma_mul_is_commutative(idx / width, width);
}

/// A named tile-grid layer.
#[derive(Debug, PartialEq, Eq)]
pub struct TmxLayer {
    pub name: String,
    pub width: usize,
    pub height: usize,
    pub grid: Grid,
}

/// The character data that holds the layer's comma-separated tile ids: the
/// content of the layer's first child, or nothing when the layer has no
/// children.
pub open spec fn layer_content(n: Node) -> Seq<char> {
    if n.children@.len() > 0 {
        n.children@[0].content@
    } else {
        Seq::empty()
    }
}

pub open spec fn layer_tokens(n: Node) -> Seq<Seq<char>> {
    csv_tokens(layer_content(n))
}

/// A data token parses as a tile id once trimmed of whitespace.
pub open spec fn token_ok(t: Seq<char>) -> bool {
    usize_ok(trim(t))
}

pub open spec fn token_val(t: Seq<char>) -> int {
    dec_val(trim(t))
}

/// What is wrong, if anything, with a layer node: its dimensions must be
/// present and positive, their product must fit, the data must hold exactly
/// `width * height` values, and every value must parse.
pub open spec fn layer_err(n: Node) -> Option<TmxError> {
    if req_pos_err(n, "width"@) is Some {
        req_pos_err(n, "width"@)
    } else if req_pos_err(n, "height"@) is Some {
        req_pos_err(n, "height"@)
    } else if req_pos_val(n, "width"@) * req_pos_val(n, "height"@) > usize::MAX as int {
        Some(TmxError::InvalidNumericValue)
    } else if layer_tokens(n).len() != req_pos_val(n, "width"@) * req_pos_val(n, "height"@) {
        Some(TmxError::LayerDataSizeMismatch)
    } else if exists|k: int| 0 <= k < layer_tokens(n).len() && !token_ok(layer_tokens(n)[k]) {
        Some(TmxError::InvalidNumericValue)
    } else {
        None
    }
}

/// `l` is the layer that the node `n` describes: its grid holds the `k`-th
/// data value at flat offset `k`.
pub open spec fn is_layer_of(n: Node, l: TmxLayer) -> bool {
    &&& l.name@ == opt_name(n)
    &&& l.width as int == req_pos_val(n, "width"@)
    &&& l.height as int == req_pos_val(n, "height"@)
    &&& l.grid.wf()
    &&& l.grid.spec_width() == l.width
    &&& l.grid.spec_height() == l.height
    &&& l.grid@.len() == layer_tokens(n).len()
    &&& forall|k: int|
        0 <= k < l.grid@.len() ==> l.grid@[k] as int == token_val(layer_tokens(n)[k])
}

impl TmxLayer {
    /// Extracts a layer: reads `name`, `width` and `height`, then assigns
    /// the `k`-th comma-separated value of the data to row `k / width`,
    /// column `k % width`.
    pub fn from_node(n: &Node) -> (r: Result<TmxLayer, TmxError>)
        ensures
            match r {
                Ok(l) => layer_err(*n) == None::<TmxError> && is_layer_of(*n, l),
                Err(e) => layer_err(*n) == Some(e),
            },
    {
        let width = match get_req_pos(n, "width") {
            Ok(v) => v,
            Err(e) => {
                return Err(e);
            },
        };
        let height = match get_req_pos(n, "height") {
            Ok(v) => v,
            Err(e) => {
                return Err(e);
            },
        };
        if height > usize::MAX / width {
            proof {
                lemma_fundamental_div_mod(usize::MAX as int, width as int);
                assert(width * (height as int) > usize::MAX as int) by (nonlinear_arith)
                    requires
                        width >= 1,
                        height as int > (usize::MAX as int) / (width as int),
                        usize::MAX as int == (width as int) * ((usize::MAX as int) / (width as int)) + (
                        usize::MAX as int) % (width as int),
                        (usize::MAX as int) % (width as int) < width as int,
                ;
            }
            return Err(TmxError::InvalidNumericValue);
        }
        proof {
            lemma_fundamental_div_mod(usize::MAX as int, width as int);
            assert(width * (height as int) <= usize::MAX as int) by (nonlinear_arith)
                requires
                    width >= 1,
                    height as int <= (usize::MAX as int) / (width as int),
                    usize::MAX as int == (width as int) * ((usize::MAX as int) / (width as int)) + (
                    usize::MAX as int) % (width as int),
                    (usize::MAX as int) % (width as int) >= 0,
            ;
        }
        let count = width * height;
        let content_chars: Vec<char> = if n.children.len() > 0 {
            chars_of(&n.children[0].content)
        } else {
            Vec::new()
        };
        proof {
            assert(content_chars@ =~= layer_content(*n));
        }
        let toks = split_commas(&content_chars);
        if toks.len() != count {
            return Err(TmxError::LayerDataSizeMismatch);
        }
        let name = get_name(n);
        let mut grid = Grid::new(width, height);
        let mut idx: usize = 0;
        while idx < count
            invariant
                idx <= count,
                count == width * height,
                width >= 1,
                height >= 1,
                req_pos_err(*n, "width"@) == None::<TmxError>,
                req_pos_err(*n, "height"@) == None::<TmxError>,
                width as int == req_pos_val(*n, "width"@),
                height as int == req_pos_val(*n, "height"@),
                toks@.len() == count,
                tokens_view(toks@) == layer_tokens(*n),
                grid.wf(),
                grid.spec_width() == width,
                grid.spec_height() == height,
                grid@.len() == count,
                forall|k: int| 0 <= k < idx ==> token_ok(layer_tokens(*n)[k]),
                forall|k: int|
                    0 <= k < idx ==> grid@[k] as int == token_val(layer_tokens(*n)[k]),
            decreases count - idx,
        {
            let t = trim_chars(&toks[idx]);
            let id = match parse_usize_chars(&t) {
                Ok(v) => v,
                Err(e) => {
                    proof {
                        assert(!token_ok(layer_tokens(*n)[idx as int]));
                    }
                    return Err(e);
                },
            };
            let row = idx / width;
            let col = idx % width;
            proof {
                lemma_fundamental_div_mod(idx as int, width as int);
                assert((idx as int) / (width as int) < height as int) by (nonlinear_arith)
                    requires
                        width >= 1,
                        height >= 1,
                        (idx as int) < (width as int) * (height as int),
                        idx as int == (width as int) * ((idx as int) / (width as int)) + (idx as int)
                            % (width as int),
                        (idx as int) % (width as int) < width as int,
                        (idx as int) / (width as int) >= 0,
                ;
            }
            grid.set(row, col, id);
            proof {
                vstd::arithmetic::mul::lemma_mul_is_commutative(row as int, width as int);
                assert((row as int) * (width as int) + col as int == idx as int);
            }
            idx += 1;
        }
        Ok(TmxLayer { name, width, height, grid })
    }
}

} // verus!
