//! Cyclic comparison of closed polygonal boundaries.
//!
//! A ring is an ordered sequence of 2D coordinates whose first and last
//! entries are equal. Two rings are a cyclic match when one, with its
//! duplicate closing point removed, is a rotation of the other, preserving
//! direction. The predicate `is_cyclic_match` decides this; it never fails,
//! and degenerate inputs (open rings, differing lengths) are simply not a
//! match.

use vstd::prelude::*;
use vstd::arithmetic::div_mod::lemma_add_mod_noop_right;
use vstd::arithmetic::div_mod::lemma_fundamental_div_mod;
use vstd::arithmetic::div_mod::lemma_fundamental_div_mod_converse_mod;
use vstd::arithmetic::div_mod::lemma_mod_multiples_vanish;
use vstd::arithmetic::div_mod::lemma_small_mod;

verus! {

/// A 2D coordinate. The two fields hold the bit patterns of the
/// floating-point components (`f64::to_bits`), so that equality of
/// coordinates is exact bitwise equality of their components.
#[derive(Clone, Copy, PartialEq, Eq, Structural)]
pub struct Coord {
    pub x: u64,
    pub y: u64,
}

/// An ordered sequence of coordinates. Closed line strings (first
/// coordinate equal to the last) represent rings.
#[derive(Clone)]
pub struct LineString(pub Vec<Coord>);

impl View for LineString {
    type V = Seq<Coord>;

    open spec fn view(&self) -> Seq<Coord> {
        self.0@
    }
}

/// A line string is closed when its first coordinate equals its last.
/// The empty line string is vacuously closed.
pub open spec fn spec_is_closed(s: Seq<Coord>) -> bool {
    s.len() == 0 || s[0] == s[s.len() - 1]
}

/// A proper ring: closed, with at least one point besides the duplicate
/// closing point.
pub open spec fn spec_is_ring(s: Seq<Coord>) -> bool {
    s.len() >= 2 && s[0] == s[s.len() - 1]
}

impl LineString {
    /// Whether the first coordinate equals the last.
    pub fn is_closed(&self) -> (r: bool)
        ensures
            r == spec_is_closed(self@),
    {
        if self.0.len() == 0 {
            true
        } else {
            self.0[0] == self.0[self.0.len() - 1]
        }
    }

    /// The total number of coordinates, the duplicate closing point included.
    pub fn coords_count(&self) -> (n: usize)
        ensures
            n == self@.len(),
    {
        self.0.len()
    }

    /// Close the line string by appending a copy of the first coordinate,
    /// unless it is already closed.
    pub fn close(&mut self)
        ensures
            spec_is_closed(old(self)@) ==> final(self)@ == old(self)@,
            !spec_is_closed(old(self)@) ==> final(self)@ == old(self)@.push(old(self)@[0]),
            spec_is_closed(final(self)@),
    {
        if !self.is_closed() {
            let first = self.0[0];
            self.0.push(first);
        }
    }
}

/// Every point of `a`, its duplicate closing point left aside, equals the
/// point of `b`'s cycle (also without the closing point) that stands `k`
/// positions later, wrapping around. `a` and `b` must have the same length
/// for this to describe an alignment of whole rings.
pub open spec fn rotation_matches(a: Seq<Coord>, b: Seq<Coord>, k: int) -> bool {
    forall|i: int| 0 <= i < b.len() - 1 ==> a[i] == b[(k + i) % (b.len() - 1)]
}

/// Two closed rings of equal length are a cyclic match when some rotation
/// offset aligns one with the other. Open rings, rings of differing
/// lengths, and rings too short to have any point besides the closing
/// duplicate are never a match.
pub open spec fn spec_cyclic_match(a: Seq<Coord>, b: Seq<Coord>) -> bool {
    &&& spec_is_closed(a)
    &&& spec_is_closed(b)
    &&& a.len() == b.len()
    &&& exists|k: int| 0 <= k < b.len() - 1 && rotation_matches(a, b, k)
}

/// Cyclic equivalence of closed rings: whether `rhs`, read from some
/// rotation offset, is the same cycle as `self`, in the same direction.
pub trait CyclicMatch: Sized {
    /// What a cyclic match means for the implementing type.
    spec fn cyclic_match_spec(&self, rhs: &Self) -> bool;

    /// Is `rhs` a cyclic match to `self`?
    fn is_cyclic_match(&self, rhs: Self) -> (r: bool)
        ensures
            r == self.cyclic_match_spec(&rhs);
}

/// Whether aligning `a` against `b`'s cycle at rotation offset `k` matches
/// point for point.
fn rotation_matches_at(a: &LineString, b: &LineString, k: usize) -> (r: bool)
    requires
        a@.len() == b@.len(),
        b@.len() >= 2,
        k < b@.len() - 1,
    ensures
        r == rotation_matches(a@, b@, k as int),
{
    let m = b.0.len() - 1;
    let mut idx = k;
    let mut i: usize = 0;
    proof {
        lemma_small_mod(k as nat, m as nat);
    }
    while i < m
        invariant
            a@.len() == b@.len(),
            b@.len() >= 2,
            m == b@.len() - 1,
            k < m,
            0 <= i <= m,
            idx == (k + i) % (m as int),
            forall|j: int| 0 <= j < i ==> a@[j] == b@[(k as int + j) % (m as int)],
        decreases m - i,
    {
        proof {
            lemma_fundamental_div_mod(k + i, m as int);
            let q = (k + i) / (m as int);
            assert(k + i == q * (m as int) + idx) by (nonlinear_arith)
                requires
                    k + i == (m as int) * q + idx,
            ;
            if idx + 1 == m {
                assert(k + i + 1 == (q + 1) * (m as int) + 0) by (nonlinear_arith)
                    requires
                        k + i == q * (m as int) + idx,
                        idx + 1 == m,
                ;
                lemma_fundamental_div_mod_converse_mod(k + i + 1, m as int, q + 1, 0);
            } else {
                lemma_fundamental_div_mod_converse_mod(k + i + 1, m as int, q, idx + 1);
            }
        }
        if a.0[i] != b.0[idx] {
            return false;
        }
        idx = if idx + 1 == m { 0 } else { idx + 1 };
        i = i + 1;
    }
    true
}

impl CyclicMatch for LineString {
    open spec fn cyclic_match_spec(&self, rhs: &LineString) -> bool {
        spec_cyclic_match(self@, rhs@)
    }

    /// Decide cyclic equivalence by trying each rotation offset of `rhs`
    /// in turn. Never fails: open or mismatched inputs are not a match.
    fn is_cyclic_match(&self, rhs: LineString) -> (r: bool) {
        if !self.is_closed() || !rhs.is_closed() {
            return false;
        }
        if self.coords_count() != rhs.coords_count() {
            return false;
        }
        let n = rhs.0.len();
        if n < 2 {
            return false;
        }
        let m = n - 1;
        let mut k: usize = 0;
        while k < m
            invariant
                self@.len() == rhs@.len(),
                n == rhs@.len(),
                n >= 2,
                m == n - 1,
                0 <= k <= m,
                spec_is_closed(self@),
                spec_is_closed(rhs@),
                forall|j: int| 0 <= j < k ==> !rotation_matches(self@, rhs@, j),
            decreases m - k,
        {
            if rotation_matches_at(self, &rhs, k) {
                return true;
            }
            k = k + 1;
        }
        false
    }
}

/// The ring obtained by starting `r`'s cycle `k` positions later: its
/// points, the duplicate closing point left aside, are `r`'s read from
/// position `k` on, wrapping around; its last point closes the cycle.
pub open spec fn rotate_ring(r: Seq<Coord>, k: int) -> Seq<Coord> {
    Seq::new(r.len(), |i: int| r[(k + i) % (r.len() - 1)])
}

/// Every ring is a cyclic match of itself.
pub proof fn lemma_cyclic_match_reflexive(r: Seq<Coord>)
    requires
        spec_is_ring(r),
    ensures
        spec_cyclic_match(r, r),
{
    let m = r.len() - 1;
    assert forall|i: int| 0 <= i < m implies #[trigger] r[i] == r[(0 + i) % m] by {
        lemma_small_mod(i as nat, m as nat);
    }
    assert(rotation_matches(r, r, 0));
}

/// A ring and any rotation of it are cyclic matches, in both argument
/// orders.
pub proof fn lemma_cyclic_match_rotation(r: Seq<Coord>, k: int)
    requires
        spec_is_ring(r),
        0 <= k < r.len() - 1,
    ensures
        spec_cyclic_match(r, rotate_ring(r, k)),
        spec_cyclic_match(rotate_ring(r, k), r),
{
    let m = r.len() - 1;
    let t = rotate_ring(r, k);
    lemma_small_mod(k as nat, m as nat);
    lemma_mod_multiples_vanish(1, k, m);
    assert(t[0] == r[k]);
    assert(t[m] == r[(k + m) % m]);
    assert(k + m == m * 1 + k);
    assert(spec_is_closed(t));

    // `t` read from offset `k` is `r` itself, by the definition of `t`.
    assert forall|i: int| 0 <= i < m implies #[trigger] t[i] == r[(k + i) % m] by {
    }
    assert(rotation_matches(t, r, k));

    // `r` read from the complementary offset is `t`.
    let j = if k == 0 { 0int } else { m - k };
    assert forall|i: int| 0 <= i < m implies #[trigger] r[i] == t[(j + i) % m] by {
        let w = (j + i) % m;
        assert(0 <= w < m);
        assert(t[w] == r[(k + w) % m]);
        lemma_add_mod_noop_right(k, j + i, m);
        lemma_small_mod(i as nat, m as nat);
        if k != 0 {
            lemma_mod_multiples_vanish(1, i, m);
            assert(k + j + i == m * 1 + i);
        }
        assert((k + w) % m == i);
    }
    assert(rotation_matches(r, t, j));
}

/// Rings of differing total point counts are never a cyclic match.
pub proof fn lemma_cyclic_match_length_mismatch(a: Seq<Coord>, b: Seq<Coord>)
    requires
        a.len() != b.len(),
    ensures
        !spec_cyclic_match(a, b),
{
}

/// If either line string is open (its first coordinate differs from its
/// last), the two are never a cyclic match, whatever their contents.
pub proof fn lemma_cyclic_match_open(a: Seq<Coord>, b: Seq<Coord>)
    requires
        !spec_is_closed(a) || !spec_is_closed(b),
    ensures
        !spec_cyclic_match(a, b),
{
}

/// Whether the points of `r`, the duplicate closing point left aside, are
/// pairwise distinct.
pub open spec fn all_points_distinct(r: Seq<Coord>) -> bool {
    forall|p: int, q: int| 0 <= p < q < r.len() - 1 ==> r[p] != r[q]
}

/// `r` with the points at positions `i` and `j` exchanged.
pub open spec fn swap_points(r: Seq<Coord>, i: int, j: int) -> Seq<Coord> {
    r.update(i, r[j]).update(j, r[i])
}

/// Exchanging two non-adjacent interior points of a ring of pairwise
/// distinct points breaks the cycle: the result is no rotation of the
/// original, so the two are not a cyclic match.
pub proof fn lemma_cyclic_match_interior_swap(r: Seq<Coord>, i: int, j: int)
    requires
        spec_is_ring(r),
        all_points_distinct(r),
        1 <= i,
        i + 2 <= j,
        j <= r.len() - 2,
    ensures
        !spec_cyclic_match(r, swap_points(r, i, j)),
{
    let m = r.len() - 1;
    let t = swap_points(r, i, j);
    assert forall|k: int| 0 <= k < m implies !rotation_matches(r, t, k) by {
        if rotation_matches(r, t, k) {
            lemma_small_mod(k as nat, m as nat);
            // Aligning at offset `k` puts `r`'s first point at `t[k]`.
            assert(r[0] == t[(k + 0) % m]);
            assert(t[k] == r[0]);
            if k == i {
                assert(t[k] == r[j]);
            } else if k == j {
                assert(t[k] == r[i]);
            } else {
                assert(t[k] == r[k]);
                // Distinctness forces the offset to be zero, and at offset
                // zero the swapped positions themselves disagree.
                assert(k == 0);
                lemma_small_mod(i as nat, m as nat);
                assert(r[i] == t[(k + i) % m]);
                assert(t[i] == r[j]);
            }
            assert(false);
        }
    }
}

} // verus!
