//! The distributed matrix-multiply coordinator's task arithmetic: where
//! matrix rows and result cells live in the map's key space, which result
//! cells are still missing, and when the computation is complete. Rows of A
//! sit at keys `-1 .. -m`, rows of B at `-(m+1) .. -(m+n)`, the start
//! signal at key 0, and result cell `(i, j)` at key `i*p + j + 1`.

use crate::cache::Cache;
use vstd::prelude::*;

verus! {

/// The key the start signal is written to.
pub const START_KEY: i64 = 0;

/// Relies on rand's thread-local generator, `rand::rng` with
/// `random_range(0..n)`: a value below `n`. Only the range is promised;
/// the value depends on chance.
#[verifier::external_body]
fn random_below(n: usize) -> (r: usize)
    requires
        n > 0,
    ensures
        r < n,
{
    let mut rng = rand::rng();
    rand::RngExt::random_range(&mut rng, 0..n)
}

/// Coordinates one m-by-n times n-by-p multiplication over the shared map.
pub struct MatrixMul {
    pub m: usize,
    pub n: usize,
    pub p: usize,
}

/// How many of the result keys `1 ..= upto` the cache holds.
pub open spec fn spec_present_count(cache: Map<i64, Seq<char>>, upto: int) -> int
    decreases upto,
{
    if upto <= 0 {
        0
    } else {
        spec_present_count(cache, upto - 1) + if cache.contains_key(upto as i64) {
            1int
        } else {
            0int
        }
    }
}

impl MatrixMul {
    /// Sizes small enough that every row and cell key fits the key space.
    pub open spec fn sizes_ok(&self) -> bool {
        self.m as int * self.p as int <= 0x7fff_ffff && self.m as int + self.n as int
            <= 0x7fff_ffff
    }

    pub fn new() -> (mm: MatrixMul)
        ensures
            mm.m == 0 && mm.n == 0 && mm.p == 0,
    {
        MatrixMul { m: 0, n: 0, p: 0 }
    }

    pub fn set_size(&mut self, m: usize, n: usize, p: usize)
        ensures
            final(self).m == m,
            final(self).n == n,
            final(self).p == p,
    {
        self.m = m;
        self.n = n;
        self.p = p;
    }

    /// The map key holding row `i` of A.
    pub fn a_row_key(&self, i: usize) -> (k: i64)
        requires
            self.sizes_ok(),
            i < self.m,
        ensures
            k as int == -(i as int + 1),
    {
        -((i as i64) + 1)
    }

    /// The map key holding row `k` of B.
    pub fn b_row_key(&self, k: usize) -> (r: i64)
        requires
            self.sizes_ok(),
            k < self.n,
        ensures
            r as int == -(self.m as int + k as int + 1),
    {
        -((self.m as i64) + (k as i64) + 1)
    }

    /// The map key holding result cell `(i, j)`.
    pub fn result_key(&self, i: usize, j: usize) -> (k: i64)
        requires
            self.sizes_ok(),
            i < self.m,
            j < self.p,
        ensures
            k as int == i as int * self.p as int + j as int + 1,
    {
        proof {
            assert((i as int + 1) * self.p as int <= self.m as int * self.p as int)
                by (nonlinear_arith)
                requires
                    i as int + 1 <= self.m as int,
                    0 <= self.p as int;
            assert(i as int * self.p as int + j as int + 1 <= self.m as int * self.p as int)
                by (nonlinear_arith)
                requires
                    (i as int + 1) * self.p as int <= self.m as int * self.p as int,
                    (j as int) < self.p as int;
        }
        (i * self.p + j + 1) as i64
    }

    /// How many result cells the cache already holds.
    pub fn count_results(&self, cache: &Cache) -> (c: usize)
        requires
            self.sizes_ok(),
        ensures
            c == spec_present_count(cache@, self.m as int * self.p as int),
    {
        let total = self.m * self.p;
        let mut count: usize = 0;
        let mut idx: usize = 0;
        while idx < total
            invariant
                idx <= total,
                total == self.m as int * self.p as int,
                total <= 0x7fff_ffff,
                count <= idx,
                count == spec_present_count(cache@, idx as int),
            decreases total - idx,
        {
            idx = idx + 1;
            if cache.contains_key(&(idx as i64)) {
                count = count + 1;
            }
        }
        count
    }

    /// Whether every result cell is present; vacuously false before the
    /// sizes are set.
    pub fn is_complete(&self, cache: &Cache) -> (b: bool)
        requires
            self.sizes_ok(),
        ensures
            b == (self.m as int * self.p as int > 0 && forall|t: int|
                1 <= t <= self.m as int * self.p as int ==> cache@.contains_key(
                    #[trigger] (t as i64),
                )),
    {
        let total = self.m * self.p;
        if total == 0 {
            return false;
        }
        let mut idx: usize = 0;
        while idx < total
            invariant
                idx <= total,
                total == self.m as int * self.p as int,
                total <= 0x7fff_ffff,
                forall|t: int| 1 <= t <= idx ==> cache@.contains_key(#[trigger] (t as i64)),
            decreases total - idx,
        {
            idx = idx + 1;
            if !cache.contains_key(&(idx as i64)) {
                return false;
            }
        }
        true
    }

    /// Draws a random result cell and offers it as a task if it has not
    /// been computed yet. With no cells to compute, there is no task; an
    /// already-computed draw yields no task either, and the caller polls
    /// again later.
    pub fn pick_random_task(&self, cache: &Cache) -> (r: Option<(usize, usize)>)
        requires
            self.sizes_ok(),
        ensures
            match r {
                Some(cell) => cell.0 < self.m && cell.1 < self.p && !cache@.contains_key(
                    ((cell.0 as int * self.p as int + cell.1 as int + 1) as i64),
                ),
                None => true,
            },
            self.m == 0 || self.p == 0 ==> r is None,
    {
        if self.m == 0 || self.p == 0 {
            return None;
        }
        let i = random_below(self.m);
        let j = random_below(self.p);
        let key = self.result_key(i, j);
        if cache.contains_key(&key) {
            None
        } else {
            Some((i, j))
        }
    }
}

} // verus!
