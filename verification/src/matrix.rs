//! Row-major tables of base-field residues.

use crate::bits::{lemma_rev_bits_bound, pow2, rev_bits, reverse_bits};
use vstd::prelude::*;

verus! {

/// A rectangular table: each column holds the evaluations of one polynomial,
/// each row belongs to one point of a coset.
#[derive(Debug)]
pub struct Matrix {
    pub rows: Vec<Vec<u32>>,
    pub width: usize,
}

impl Matrix {
    /// Every row has the table's width, and a table without columns has no
    /// rows.
    pub open spec fn wf(&self) -> bool {
        &&& forall|i: int|
            0 <= i < self.rows@.len() ==> (#[trigger] self.rows@[i])@.len() == self.width
        &&& self.width == 0 ==> self.rows@.len() == 0
    }

    /// The table as a sequence of rows.
    pub open spec fn view(&self) -> Seq<Seq<u32>> {
        Seq::new(self.rows@.len(), |i: int| self.rows@[i]@)
    }

    pub open spec fn spec_height(&self) -> nat {
        self.rows@.len()
    }

    /// Whether every row has the table's width, and a table without columns
    /// has no rows.
    pub fn is_rectangular(&self) -> (r: bool)
        ensures
            r == self.wf(),
    {
        if self.width == 0 && self.rows.len() != 0 {
            return false;
        }
        let mut i: usize = 0;
        while i < self.rows.len()
            invariant
                i <= self.rows@.len(),
                forall|j: int| 0 <= j < i ==> (#[trigger] self.rows@[j])@.len() == self.width,
            decreases self.rows@.len() - i,
        {
            if self.rows[i].len() != self.width {
                return false;
            }
            i = i + 1;
        }
        true
    }

    /// The number of rows.
    pub fn height(&self) -> (r: usize)
        ensures
            r == self.spec_height(),
    {
        self.rows.len()
    }

    /// The number of columns.
    pub fn width(&self) -> (r: usize)
        ensures
            r == self.width,
    {
        self.width
    }
}

/// The first `n` rows of `m`, row `i` taken from position `rev_bits(i, k)`.
pub open spec fn bit_reversed_rows_spec(m: Seq<Seq<u32>>, k: nat) -> Seq<Seq<u32>> {
    Seq::new(pow2(k), |i: int| m[rev_bits(i as nat, k) as int])
}

/// Reversing the order of `2^k` rows twice gives the rows back.
pub proof fn lemma_bit_reversed_rows_twice(m: Seq<Seq<u32>>, k: nat)
    requires
        pow2(k) <= m.len(),
    ensures
        bit_reversed_rows_spec(bit_reversed_rows_spec(m, k), k) == m.take(pow2(k) as int),
{
    let once = bit_reversed_rows_spec(m, k);
    let twice = bit_reversed_rows_spec(once, k);
    assert forall|i: int| 0 <= i < pow2(k) implies twice[i] == m[i] by {
        lemma_rev_bits_bound(i as nat, k);
        crate::bits::lemma_rev_bits_involution(i as nat, k);
    }
    assert(twice =~= m.take(pow2(k) as int));
}

/// A copy of the first `2^k` rows of `m` in bit-reversed order.
pub fn bit_reversed_rows(m: &Matrix, k: usize) -> (r: Matrix)
    requires
        m.wf(),
        k <= 27,
        pow2(k as nat) <= m.spec_height(),
    ensures
        r.wf(),
        r.width == m.width,
        r.spec_height() == pow2(k as nat),
        r@ == bit_reversed_rows_spec(m@, k as nat),
{
    let n: usize = m.rows.len();
    let mut rows: Vec<Vec<u32>> = Vec::new();
    let mut i: usize = 0;
    let size: usize = crate::bits::pow2_exec(k);
    while i < size
        invariant
            m.wf(),
            k <= 27,
            size == pow2(k as nat),
            size <= m.rows@.len(),
            i <= size,
            rows@.len() == i,
            forall|j: int| 0 <= j < i ==> (#[trigger] rows@[j])@ == m.rows@[rev_bits(j as nat, k as nat) as int]@,
        decreases size - i,
    {
        let src: usize = reverse_bits(i, k);
        let row: Vec<u32> = m.rows[src].clone();
        rows.push(row);
        i = i + 1;
    }
    let r = Matrix { rows, width: m.width };
    proof {
        crate::bits::lemma_pow2_positive(k as nat);
        assert forall|j: int| 0 <= j < r.rows@.len() implies (#[trigger] r.rows@[j])@.len() == r.width by {
            lemma_rev_bits_bound(j as nat, k as nat);
        }
        assert(r@ =~= bit_reversed_rows_spec(m@, k as nat)) by {
            assert forall|j: int| 0 <= j < r@.len() implies r@[j] == bit_reversed_rows_spec(m@, k as nat)[j] by {
                lemma_rev_bits_bound(j as nat, k as nat);
            }
        }
    }
    r
}

} // verus!
