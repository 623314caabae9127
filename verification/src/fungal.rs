//! The 15-cell circular boolean automaton used by the catalyst
//! transformation. Cell `i` of a generation is bit `i` of a 15-bit value;
//! neighbor indices wrap modulo 15, negative offsets included.

use vstd::prelude::*;

verus! {

/// Cell `i` of the generation encoded by `v`, with the index wrapped to
/// `0..15` by true (always non-negative) modulo.
pub open spec fn aut_cell(v: u16, i: int) -> bool {
    (v >> ((i % 15) as u16)) & 1 == 1
}

/// The local update rule for cell `i`: a set cell stays set when
/// (right neighbor set or second right clear) and (left neighbor set or
/// second left clear); a clear cell becomes set when both direct neighbors
/// are set.
pub open spec fn aut_rule(v: u16, i: int) -> bool {
    if aut_cell(v, i) {
        (aut_cell(v, i + 1) || !aut_cell(v, i + 2)) && (aut_cell(v, i - 1) || !aut_cell(v, i - 2))
    } else {
        aut_cell(v, i - 1) && aut_cell(v, i + 1)
    }
}

/// The next generation restricted to cells below `n`: bits `0..n` follow
/// the rule, all higher bits are clear.
pub open spec fn aut_next_upto(v: u16, n: int) -> u16
    decreases n,
{
    if n <= 0 {
        0u16
    } else {
        aut_next_upto(v, n - 1) | (if aut_rule(v, n - 1) {
            (1u16 << ((n - 1) as u16))
        } else {
            0u16
        })
    }
}

/// The next generation of the whole 15-cell ring.
pub open spec fn aut_next(v: u16) -> u16 {
    aut_next_upto(v, 15)
}

/// Every partial next generation keeps bit 15 clear, and its cells below
/// the bound follow the rule while the rest stay clear.
pub proof fn lemma_aut_next_upto(v: u16, n: int)
    requires
        0 <= n <= 15,
    ensures
        aut_next_upto(v, n) < 0x8000,
        forall|i: int| 0 <= i < n ==> aut_cell(aut_next_upto(v, n), i) == aut_rule(v, i),
        forall|i: int| n <= i < 15 ==> !aut_cell(aut_next_upto(v, n), i),
    decreases n,
{
    if n == 0 {
        assert forall|i: int| 0 <= i < 15 implies !aut_cell(0u16, i) by {
            let k = (i % 15) as u16;
            assert((0u16 >> k) & 1 == 0) by (bit_vector);
        }
    } else {
        lemma_aut_next_upto(v, n - 1);
        let prev = aut_next_upto(v, n - 1);
        let cur = aut_next_upto(v, n);
        let k = (n - 1) as u16;
        if aut_rule(v, n - 1) {
            assert(cur == prev | (1u16 << k));
        } else {
            assert(prev | 0u16 == prev) by (bit_vector);
            assert(cur == prev);
        }
        assert forall|i: int| 0 <= i < 15 implies
            aut_cell(cur, i) == (aut_cell(prev, i) || (i == n - 1 && aut_rule(v, n - 1))) by {
            let j = (i % 15) as u16;
            assert(i % 15 == i);
            if aut_rule(v, n - 1) {
                assert(j < 15 && k < 15 ==> ((prev | (1u16 << k)) >> j) & 1 == (if (prev >> j) & 1
                    == 1 || j == k {
                    1u16
                } else {
                    0u16
                })) by (bit_vector);
            }
        }
        assert(prev < 0x8000 && k < 15 ==> (prev | (1u16 << k)) < 0x8000) by (bit_vector);
    }
}

/// The next generation never sets bit 15, and cell by cell it is exactly
/// the rule applied to the previous generation.
pub proof fn lemma_aut_next(v: u16)
    ensures
        aut_next(v) < 0x8000,
        forall|i: int| 0 <= i < 15 ==> aut_cell(aut_next(v), i) == aut_rule(v, i),
{
    lemma_aut_next_upto(v, 15);
}

/// The generations reached from `v` by applying the rule until either two
/// successive generations are identical or `fuel` steps have been taken.
pub open spec fn spec_converge(v: u16, fuel: nat) -> u16
    decreases fuel,
{
    if fuel == 0 || aut_next(v) == v {
        v
    } else {
        spec_converge(aut_next(v), (fuel - 1) as nat)
    }
}

/// Convergence keeps the value inside 15 bits.
pub proof fn lemma_converge_range(v: u16, fuel: nat)
    requires
        v < 0x8000,
    ensures
        spec_converge(v, fuel) < 0x8000,
    decreases fuel,
{
    if fuel != 0 && aut_next(v) != v {
        lemma_aut_next(v);
        lemma_converge_range(aut_next(v), (fuel - 1) as nat);
    }
}

/// One generation of the catalyst automaton.
#[derive(Clone, Copy, PartialEq, Eq, Structural, Debug)]
pub struct FungalAutomaton(u16);

impl View for FungalAutomaton {
    type V = u16;

    closed spec fn view(&self) -> u16 {
        self.0
    }
}

impl Default for FungalAutomaton {
    /// The all-clear generation.
    fn default() -> (r: Self)
        ensures
            r@ == 0,
    {
        FungalAutomaton(0)
    }
}

impl FungalAutomaton {
    /// Creates an automaton generation from the bits of a 15-bit integer;
    /// cell `i` is bit `i`.
    pub fn new(v: u16) -> (r: Self)
        requires
            v < 0x8000,
        ensures
            r@ == v,
    {
        FungalAutomaton(v)
    }

    /// The 15-bit integer whose bit `i` is cell `i`.
    pub fn as_u16(self) -> (r: u16)
        ensures
            r == self@,
    {
        self.0
    }

    /// Cell `index` of this generation; any index, negative ones included,
    /// wraps to the same cell as its representative modulo 15.
    pub fn at(&self, index: isize) -> (r: bool)
        ensures
            r == aut_cell(self@, index as int),
    {
        let m = index.checked_rem_euclid(15).unwrap();
        (self.0 >> (m as u16)) & 1 == 1
    }

    /// Sets cell `index` when `v` is true; leaves the generation unchanged
    /// otherwise.
    fn set(&mut self, index: isize, v: bool)
        requires
            0 <= index < 15,
        ensures
            final (self)@ == if v {
                old(self)@ | (1u16 << (index as u16))
            } else {
                old(self)@
            },
    {
        if v {
            self.0 |= 1u16 << (index as u16);
        }
    }

    /// Computes the following generation; the current one is unchanged.
    pub fn next(&self) -> (r: Self)
        ensures
            r@ == aut_next(self@),
            r@ < 0x8000,
    {
        let mut next_gen = FungalAutomaton::default();
        let mut i: usize = 0;
        while i < 15
            invariant
                0 <= i <= 15,
                next_gen@ == aut_next_upto(self@, i as int),
            decreases 15 - i,
        {
            let idx = i as isize;
            let should_set = if self.at(idx) {
                (self.at(idx + 1) || !self.at(idx + 2)) && (self.at(idx - 1) || !self.at(idx - 2))
            } else {
                self.at(idx - 1) && self.at(idx + 1)
            };
            proof {
                assert(should_set == aut_rule(self@, i as int));
                if !should_set {
                    assert(next_gen@ | 0u16 == next_gen@) by (bit_vector);
                }
            }
            next_gen.set(idx, should_set);
            i += 1;
        }
        proof {
            lemma_aut_next(self@);
        }
        next_gen
    }
}

} // verus!
