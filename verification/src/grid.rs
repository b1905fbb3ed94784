//! The sparse program grid and the instruction pointer.
//!
//! The grid maps `(x, y)` to an integer; a cell that was never written, or
//! that holds a space, reads as `SPACE`. Only cells that hold something other
//! than a space are stored.

use crate::value::Int;
use std::collections::HashMap;
use vstd::prelude::*;
use vstd::wrapping::i64_specs::wrapping_add;

verus! {

broadcast use vstd::std_specs::hash::group_hash_axioms;

/// ASCII space (NOP): the value of every cell that holds nothing else.
pub const SPACE: u32 = 0x20;

/// Offset that moves an `i64` into `0..2^64`.
pub open spec fn half() -> int {
    0x8000_0000_0000_0000
}

/// Size of the range of an `i64`.
pub open spec fn span() -> int {
    0x1_0000_0000_0000_0000
}

/// The storage key of a position: one `u128` per `(x, y)`, in a one-to-one way.
pub open spec fn cell_key(x: i64, y: i64) -> u128 {
    ((x + half()) * span() + (y + half())) as u128
}

/// The position that a storage key stands for.
pub open spec fn key_position(k: u128) -> (i64, i64) {
    (((k as int) / span() - half()) as i64, ((k as int) % span() - half()) as i64)
}

/// `cell_key` is one-to-one and `key_position` undoes it.
pub proof fn lemma_key_position(x: i64, y: i64)
    ensures
        key_position(cell_key(x, y)) == (x, y),
        0 <= (x + half()) * span() + (y + half()) < 0x1_0000_0000_0000_0000_0000_0000_0000_0000,
{
    let a: int = x + half();
    let b: int = y + half();
    assert(0 <= a < span());
    assert(0 <= b < span());
    assert(0 <= a * span() + b < span() * span()) by (nonlinear_arith)
        requires
            0 <= a < span(),
            0 <= b < span(),
    ;
    assert(span() * span() == 0x1_0000_0000_0000_0000_0000_0000_0000_0000);
    assert((a * span() + b) / span() == a && (a * span() + b) % span() == b) by (nonlinear_arith)
        requires
            0 <= a < span(),
            0 <= b < span(),
    ;
}

/// Every storage key stands for a position whose key it is.
pub proof fn lemma_position_key(k: u128)
    ensures
        cell_key(key_position(k).0, key_position(k).1) == k,
{
    let q: int = (k as int) / span();
    let r: int = (k as int) % span();
    assert(k as int == q * span() + r && 0 <= r < span() && 0 <= q < span()) by (nonlinear_arith)
        requires
            0 <= k < span() * span(),
            span() == 0x1_0000_0000_0000_0000,
            q == (k as int) / span(),
            r == (k as int) % span(),
    ;
}

fn position_key(x: i64, y: i64) -> (k: u128)
    ensures
        k == cell_key(x, y),
{
    proof {
        lemma_key_position(x, y);
    }
    let a: u128 = (x as i128 + 0x8000_0000_0000_0000i128) as u128;
    let b: u128 = (y as i128 + 0x8000_0000_0000_0000i128) as u128;
    assert(a * 0x1_0000_0000_0000_0000u128 + b < 0x1_0000_0000_0000_0000_0000_0000_0000_0000) by {
        lemma_key_position(x, y);
    }
    a * 0x1_0000_0000_0000_0000u128 + b
}

/// The value read at `(x, y)` of a grid's stored cells: the stored value, or
/// `SPACE` where nothing is stored.
pub open spec fn cell_of(g: Map<(i64, i64), int>, x: i64, y: i64) -> int {
    if g.contains_key((x, y)) {
        g[(x, y)]
    } else {
        SPACE as int
    }
}

/// The stored cells after writing `v` at `(x, y)`; a space is not stored.
pub open spec fn put_cell(g: Map<(i64, i64), int>, x: i64, y: i64, v: int) -> Map<(i64, i64), int> {
    if v == SPACE as int {
        g.remove((x, y))
    } else {
        g.insert((x, y), v)
    }
}

/// A read gives back what the last write to the same cell wrote, and a write
/// leaves every other cell as it was. A cell never written reads as `SPACE`.
pub proof fn lemma_read_after_write(g: Map<(i64, i64), int>, x: i64, y: i64, v: int, x2: i64, y2: i64)
    ensures
        cell_of(put_cell(g, x, y, v), x, y) == v,
        (x2, y2) != (x, y) ==> cell_of(put_cell(g, x, y, v), x2, y2) == cell_of(g, x2, y2),
        cell_of(Map::empty(), x2, y2) == SPACE as int,
{
}

/// Writing a space leaves nothing stored at that cell, so the grid stays sparse.
pub proof fn lemma_space_write_is_sparse(g: Map<(i64, i64), int>, x: i64, y: i64)
    ensures
        !put_cell(g, x, y, SPACE as int).contains_key((x, y)),
{
}

/// The sparse, unbounded program grid.
#[derive(Debug)]
pub struct Grid {
    cells: HashMap<u128, Int>,
}

impl View for Grid {
    /// The cells that hold something other than a space.
    type V = Map<(i64, i64), int>;

    closed spec fn view(&self) -> Map<(i64, i64), int> {
        Map::new(
            |p: (i64, i64)|
                self.cells@.contains_key(cell_key(p.0, p.1)) && self.cells@[cell_key(p.0, p.1)]@
                    != SPACE as int,
            |p: (i64, i64)| self.cells@[cell_key(p.0, p.1)]@,
        )
    }
}

impl Grid {
    #[verifier::type_invariant]
    spec fn stores_no_space(self) -> bool {
        forall|k: u128| #[trigger] self.cells@.contains_key(k) ==> self.cells@[k]@ != SPACE as int
    }

    /// No stored cell holds a space.
    pub proof fn lemma_sparse(&self)
        ensures
            forall|p: (i64, i64)| #[trigger] self@.contains_key(p) ==> self@[p] != SPACE as int,
    {
    }

    /// An empty grid: every cell reads as a space.
    pub fn new() -> (g: Grid)
        ensures
            g@ == Map::<(i64, i64), int>::empty(),
    {
        let g = Grid { cells: HashMap::new() };
        assert(g@ =~= Map::<(i64, i64), int>::empty());
        g
    }

    /// Reads a cell; a cell that holds nothing reads as `SPACE`.
    pub fn get(&self, x: i64, y: i64) -> (r: Int)
        ensures
            r@ == cell_of(self@, x, y),
    {
        let k = position_key(x, y);
        match self.cells.get(&k) {
            Some(v) => v.copy(),
            None => Int::from_u32(SPACE),
        }
    }

    /// Whether `(x, y)` holds something other than a space.
    pub fn contains(&self, x: i64, y: i64) -> (r: bool)
        ensures
            r == self@.contains_key((x, y)),
    {
        proof {
            use_type_invariant(self);
        }
        let k = position_key(x, y);
        self.cells.contains_key(&k)
    }

    /// Writes a cell; writing `SPACE` removes the entry so that the grid stays sparse.
    pub fn put(&mut self, x: i64, y: i64, value: Int)
        ensures
            final(self)@ == put_cell(old(self)@, x, y, value@),
    {
        proof {
            use_type_invariant(&*self);
        }
        let k = position_key(x, y);
        let space = Int::from_u32(SPACE);
        let is_space = value.same(&space);
        let ghost v = value@;
        let mut cells: HashMap<u128, Int> = HashMap::new();
        std::mem::swap(&mut cells, &mut self.cells);
        if is_space {
            cells.remove(&k);
        } else {
            cells.insert(k, value);
        }
        self.cells = cells;
        proof {
            let expect = if v == SPACE as int {
                old(self)@.remove((x, y))
            } else {
                old(self)@.insert((x, y), v)
            };
            assert forall|p: (i64, i64)| #![auto] self@.contains_key(p) == expect.contains_key(p) by {
                lemma_key_position(p.0, p.1);
                lemma_key_position(x, y);
            }
            assert forall|p: (i64, i64)| #![auto] self@.contains_key(p) implies self@[p] == expect[p] by {
                lemma_key_position(p.0, p.1);
                lemma_key_position(x, y);
            }
            assert(self@ =~= expect);
        }
    }

    /// Number of cells that hold something other than a space.
    pub fn len(&self) -> (r: usize)
        ensures
            r == self@.len(),
    {
        proof {
            use_type_invariant(self);
            self.lemma_view_len();
        }
        self.cells.len()
    }

    proof fn lemma_view_len(&self)
        requires
            self.stores_no_space(),
        ensures
            self@.dom().finite(),
            self@.len() == self.cells@.len(),
    {
        let f = |k: u128| key_position(k);
        assert(vstd::relations::injective_on(f, self.cells@.dom())) by {
            assert forall|k1: u128, k2: u128|
                self.cells@.dom().contains(k1) && self.cells@.dom().contains(k2) && #[trigger] f(k1)
                    == #[trigger] f(k2) implies k1 == k2 by {
                lemma_position_key(k1);
                lemma_position_key(k2);
            }
        }
        assert(self.cells@.dom().map(f) =~= self@.dom()) by {
            assert forall|p: (i64, i64)| self@.dom().contains(p) implies self.cells@.dom().map(
                f,
            ).contains(p) by {
                lemma_key_position(p.0, p.1);
                assert(f(cell_key(p.0, p.1)) == p);
            }
            assert forall|p: (i64, i64)| self.cells@.dom().map(f).contains(p) implies self@.dom().contains(
                p,
            ) by {
                let k = choose|k: u128| self.cells@.dom().contains(k) && f(k) == p;
                lemma_position_key(k);
            }
        }
        vstd::set_lib::lemma_map_size(self.cells@.dom(), self@.dom(), f);
    }
}

impl Clone for Grid {
    /// A grid with the same cells.
    fn clone(&self) -> (g: Grid)
        ensures
            g@ == self@,
    {
        proof {
            use_type_invariant(self);
        }
        Grid { cells: self.cells.clone() }
    }
}

impl Default for Grid {
    /// An empty grid.
    fn default() -> (g: Grid)
        ensures
            g@ == Map::<(i64, i64), int>::empty(),
    {
        Grid::new()
    }
}

/// Instruction pointer: position `(x, y)` and direction `(dx, dy)`.
#[derive(Debug, Clone, Copy, PartialEq, Eq, Structural)]
pub struct Ip {
    pub x: i64,
    pub y: i64,
    pub dx: i64,
    pub dy: i64,
}

impl Ip {
    /// At the origin, heading east.
    pub fn new() -> (ip: Ip)
        ensures
            ip == (Ip { x: 0, y: 0, dx: 1, dy: 0 }),
    {
        Ip { x: 0, y: 0, dx: 1, dy: 0 }
    }

    /// Moves one step in the current direction (coordinates wrap at the `i64` range).
    pub fn advance(&mut self)
        ensures
            final(self).x == wrapping_add(old(self).x, old(self).dx),
            final(self).y == wrapping_add(old(self).y, old(self).dy),
            final(self).dx == old(self).dx,
            final(self).dy == old(self).dy,
    {
        self.x = self.x.wrapping_add(self.dx);
        self.y = self.y.wrapping_add(self.dy);
    }

    /// Sets the direction; the position stays.
    pub fn set_dir(&mut self, dx: i64, dy: i64)
        ensures
            *final(self) == (Ip { x: old(self).x, y: old(self).y, dx, dy }),
    {
        self.dx = dx;
        self.dy = dy;
    }
}

impl Default for Ip {
    fn default() -> (ip: Ip)
        ensures
            ip == (Ip { x: 0, y: 0, dx: 1, dy: 0 }),
    {
        Ip { x: 0, y: 0, dx: 1, dy: 0 }
    }
}

} // verus!
