use vstd::prelude::*;
use vstd::set_lib::{lemma_int_range, lemma_len_subset, set_int_range};
use crate::point::{Point, contains_prefix};

verus! {

/// How many pseudo-random draws are tried before falling back to a scan.
pub const MAX_FOOD_TRIES: u32 = 4096;

/// How many cells, in row-major order, the fallback scan looks at; one more
/// than the number of cells a snake can occupy.
pub const SCAN_CELLS: u32 = 257;

/// One round of the 16-bit xorshift generator (shifts 7, 9, 8).
pub open spec fn xorshift_spec(s: u16) -> u16 {
    let a = s ^ ((s << 7u16) as u16);
    let b = a ^ ((a >> 9u16) as u16);
    b ^ ((b << 8u16) as u16)
}

/// `s + 1` modulo 2^16.
pub open spec fn bump(s: u16) -> u16 {
    if s == u16::MAX {
        0
    } else {
        (s + 1) as u16
    }
}

/// One draw: the seed advanced twice, and the cell whose column comes from
/// the first advance and whose row comes from the second.
pub open spec fn draw_spec(seed: u16, board: (u16, u16)) -> (u16, Point) {
    let s1 = xorshift_spec(seed);
    let s2 = xorshift_spec(s1);
    (s2, Point((s1 % board.0) as u16, (s2 % board.1) as u16))
}

/// Up to `tries` draws, the seed bumped by one after each draw that lands on
/// an occupied cell. Gives the final seed, and the first free cell drawn.
pub open spec fn probe_spec(seed: u16, board: (u16, u16), occ: Seq<Point>, tries: nat) -> (u16, Option<Point>)
    decreases tries,
{
    if tries == 0 {
        (seed, None)
    } else {
        let (s, p) = draw_spec(seed, board);
        if !occ.contains(p) {
            (s, Some(p))
        } else {
            probe_spec(bump(s), board, occ, (tries - 1) as nat)
        }
    }
}

/// The cell with row-major index `k` on a board `board.0` columns wide.
pub open spec fn cell_at(board: (u16, u16), k: int) -> Point {
    Point((k % board.0 as int) as u16, (k / board.0 as int) as u16)
}

/// The first cell, in row-major order from index `k` up to `SCAN_CELLS`,
/// that `occ` does not hold; the origin where there is none.
pub open spec fn scan_spec(board: (u16, u16), occ: Seq<Point>, k: int) -> Point
    decreases SCAN_CELLS - k,
{
    if k >= SCAN_CELLS || k < 0 {
        Point(0, 0)
    } else if !occ.contains(cell_at(board, k)) {
        cell_at(board, k)
    } else {
        scan_spec(board, occ, k + 1)
    }
}

/// Where the next food goes, and the seed after placing it.
pub open spec fn next_food_spec(seed: u16, board: (u16, u16), occ: Seq<Point>) -> (u16, Point) {
    let (s, found) = probe_spec(seed, board, occ, MAX_FOOD_TRIES as nat);
    match found {
        Some(p) => (s, p),
        None => (s, scan_spec(board, occ, 0)),
    }
}

/// A board on which food can always be placed: both sides nonzero and more
/// cells than a snake can cover.
pub open spec fn roomy(board: (u16, u16)) -> bool {
    board.0 > 0 && board.1 > 0 && board.0 as int * board.1 as int >= SCAN_CELLS as int
}

/// Advances a seed by one xorshift round.
pub fn xorshift(s: u16) -> (r: u16)
    ensures
        r == xorshift_spec(s),
{
    let mut x = s;
    x ^= x << 7;
    x ^= x >> 9;
    x ^= x << 8;
    x
}

proof fn lemma_cell_at(board: (u16, u16), k: int)
    requires
        roomy(board),
        0 <= k < SCAN_CELLS,
    ensures
        (k / board.0 as int) * board.0 as int + k % board.0 as int == k,
        0 <= k % (board.0 as int) < board.0,
        0 <= k / (board.0 as int) < board.1,
        cell_at(board, k).0 as int == k % board.0 as int,
        cell_at(board, k).1 as int == k / board.0 as int,
{
    let w = board.0 as int;
    let h = board.1 as int;
    assert((k / w) * w + k % w == k && 0 <= k % w < w) by (nonlinear_arith)
        requires w > 0;
    assert(0 <= k / w) by (nonlinear_arith)
        requires w > 0, k >= 0;
    assert(k / w < h) by (nonlinear_arith)
        requires w > 0, k >= 0, k < w * h, (k / w) * w + k % w == k, 0 <= k % w;
}

/// Among the first `SCAN_CELLS` cells of a roomy board, at most
/// `SCAN_CELLS - 1` occupied ones leave a free one: the scan finds it.
proof fn lemma_scan_finds(board: (u16, u16), occ: Seq<Point>)
    requires
        roomy(board),
        occ.len() < SCAN_CELLS,
    ensures
        !occ.contains(scan_spec(board, occ, 0)),
        scan_spec(board, occ, 0).0 < board.0,
        scan_spec(board, occ, 0).1 < board.1,
{
    let w = board.0 as int;
    if forall|k: int| 0 <= k < SCAN_CELLS ==> occ.contains(#[trigger] cell_at(board, k)) {
        let idx = occ.map_values(|p: Point| p.1 as int * w + p.0 as int);
        assert(set_int_range(0, SCAN_CELLS as int).subset_of(idx.to_set())) by {
            assert forall|k: int| set_int_range(0, SCAN_CELLS as int).contains(k) implies idx.to_set().contains(k) by {
                lemma_cell_at(board, k);
                assert(occ.contains(cell_at(board, k)));
                let j = choose|j: int| 0 <= j < occ.len() && occ[j] == cell_at(board, k);
                assert(idx[j] == k);
            }
        }
        lemma_int_range(0, SCAN_CELLS as int);
        idx.lemma_cardinality_of_set();
        lemma_len_subset(set_int_range(0, SCAN_CELLS as int), idx.to_set());
        assert(false);
    }
    lemma_scan_from(board, occ, 0);
}

proof fn lemma_scan_from(board: (u16, u16), occ: Seq<Point>, k: int)
    requires
        roomy(board),
        0 <= k <= SCAN_CELLS,
        exists|j: int| k <= j < SCAN_CELLS && !occ.contains(#[trigger] cell_at(board, j)),
    ensures
        !occ.contains(scan_spec(board, occ, k)),
        scan_spec(board, occ, k).0 < board.0,
        scan_spec(board, occ, k).1 < board.1,
    decreases SCAN_CELLS - k,
{
    if occ.contains(cell_at(board, k)) {
        lemma_scan_from(board, occ, k + 1);
    } else {
        lemma_cell_at(board, k);
    }
}

/// The food goes on a free cell of the board.
pub proof fn lemma_next_food_free(seed: u16, board: (u16, u16), occ: Seq<Point>)
    requires
        roomy(board),
        occ.len() < SCAN_CELLS,
    ensures
        !occ.contains(next_food_spec(seed, board, occ).1),
        next_food_spec(seed, board, occ).1.0 < board.0,
        next_food_spec(seed, board, occ).1.1 < board.1,
{
    lemma_probe_free(seed, board, occ, MAX_FOOD_TRIES as nat);
    lemma_scan_finds(board, occ);
}

proof fn lemma_probe_free(seed: u16, board: (u16, u16), occ: Seq<Point>, tries: nat)
    requires
        roomy(board),
    ensures
        probe_spec(seed, board, occ, tries).1 matches Some(p) ==> !occ.contains(p) && p.0 < board.0 && p.1 < board.1,
    decreases tries,
{
    if tries > 0 {
        let (s, p) = draw_spec(seed, board);
        lemma_probe_free(bump(s), board, occ, (tries - 1) as nat);
    }
}

/// Two draws of one seed on one board against the same occupied cells (in
/// any order, with any repetition) place the food on the same cell and leave
/// the same seed.
pub proof fn lemma_next_food_deterministic(seed: u16, board: (u16, u16), occ1: Seq<Point>, occ2: Seq<Point>)
    requires
        forall|p: Point| occ1.contains(p) <==> occ2.contains(p),
    ensures
        next_food_spec(seed, board, occ1) == next_food_spec(seed, board, occ2),
{
    lemma_probe_same(seed, board, occ1, occ2, MAX_FOOD_TRIES as nat);
    lemma_scan_same(board, occ1, occ2, 0);
}

proof fn lemma_probe_same(seed: u16, board: (u16, u16), occ1: Seq<Point>, occ2: Seq<Point>, tries: nat)
    requires
        forall|p: Point| occ1.contains(p) <==> occ2.contains(p),
    ensures
        probe_spec(seed, board, occ1, tries) == probe_spec(seed, board, occ2, tries),
    decreases tries,
{
    if tries > 0 {
        let (s, p) = draw_spec(seed, board);
        lemma_probe_same(bump(s), board, occ1, occ2, (tries - 1) as nat);
    }
}

proof fn lemma_scan_same(board: (u16, u16), occ1: Seq<Point>, occ2: Seq<Point>, k: int)
    requires
        forall|p: Point| occ1.contains(p) <==> occ2.contains(p),
    ensures
        scan_spec(board, occ1, k) == scan_spec(board, occ2, k),
    decreases SCAN_CELLS - k,
{
    if 0 <= k < SCAN_CELLS {
        lemma_scan_same(board, occ1, occ2, k + 1);
    }
}

/// The deterministic food-placement generator: a 16-bit seed that survives
/// across placements.
pub struct FoodGenerator {
    pub seed: u16,
}

impl FoodGenerator {
    /// A generator with the given seed.
    pub fn new(seed: u16) -> (r: FoodGenerator)
        ensures
            r.seed == seed,
    {
        FoodGenerator { seed }
    }

    /// Picks a free cell of `board` for the food, avoiding the first `len`
    /// cells of `occupied`, and advances the seed.
    ///
    /// Draws come from the xorshift generator; a draw on an occupied cell
    /// bumps the seed by one and draws again. After `MAX_FOOD_TRIES` draws
    /// the first free cell in row-major order is taken instead.
    pub fn next_food(&mut self, board: (u16, u16), occupied: &[Point], len: usize) -> (r: Point)
        requires
            roomy(board),
            len <= occupied@.len(),
            len < SCAN_CELLS,
        ensures
            (final(self).seed, r) == next_food_spec(old(self).seed, board, occupied@.subrange(0, len as int)),
            !occupied@.subrange(0, len as int).contains(r),
            r.0 < board.0,
            r.1 < board.1,
    {
        let ghost occ = occupied@.subrange(0, len as int);
        let ghost start = self.seed;
        let mut s = self.seed;
        let mut tries: u32 = 0;
        while tries < MAX_FOOD_TRIES
            invariant
                occ == occupied@.subrange(0, len as int),
                len <= occupied@.len(),
                roomy(board),
                tries <= MAX_FOOD_TRIES,
                start == old(self).seed,
                probe_spec(start, board, occ, MAX_FOOD_TRIES as nat)
                    == probe_spec(s, board, occ, (MAX_FOOD_TRIES - tries) as nat),
            decreases MAX_FOOD_TRIES - tries,
        {
            let s1 = xorshift(s);
            let s2 = xorshift(s1);
            let p = Point(s1 % board.0, s2 % board.1);
            assert(draw_spec(s, board) == (s2, p));
            if !contains_prefix(occupied, len, p) {
                assert(probe_spec(s, board, occ, (MAX_FOOD_TRIES - tries) as nat) == (s2, Some(p)));
                self.seed = s2;
                return p;
            }
            assert(probe_spec(s, board, occ, (MAX_FOOD_TRIES - tries) as nat)
                == probe_spec(bump(s2), board, occ, (MAX_FOOD_TRIES - tries - 1) as nat));
            s = s2.wrapping_add(1);
            tries += 1;
        }
        self.seed = s;
        proof {
            lemma_scan_finds(board, occ);
        }
        let mut k: u32 = 0;
        while k < SCAN_CELLS
            invariant
                occ == occupied@.subrange(0, len as int),
                len <= occupied@.len(),
                roomy(board),
                k <= SCAN_CELLS,
                start == old(self).seed,
                self.seed == s,
                probe_spec(start, board, occ, MAX_FOOD_TRIES as nat) == (s, None::<Point>),
                scan_spec(board, occ, 0) == scan_spec(board, occ, k as int),
            decreases SCAN_CELLS - k,
        {
            proof {
                lemma_cell_at(board, k as int);
            }
            let p = Point((k % board.0 as u32) as u16, (k / board.0 as u32) as u16);
            assert(p == cell_at(board, k as int));
            if !contains_prefix(occupied, len, p) {
                assert(scan_spec(board, occ, k as int) == p);
                return p;
            }
            k += 1;
        }
        Point(0, 0)
    }
}

} // verus!
