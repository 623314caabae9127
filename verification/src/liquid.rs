//! The liquid data of the simulated container: a 15-bit value together with
//! the three transitions — adding one of six ingredients, diluting with
//! plain water, and adding the catalyst that triggers the automaton.

use crate::bits;
use crate::bits::lemma_first_set_bits;
use crate::bits::spec_first_set;
use crate::fungal::lemma_aut_next;
use crate::fungal::lemma_converge_range;
use crate::fungal::spec_converge;
use crate::fungal::FungalAutomaton;
use vstd::prelude::*;

verus! {

/// Generations after which the catalyst's fixed-point iteration gives up.
/// A deterministic orbit over the 32768 possible generations that has not
/// settled within this many steps is cyclic and never settles, so the
/// bound loses no fixed point.
pub const CONVERGE_FUEL: usize = 32768;

/// The bits cleared by dilution: positions 1, 3, 5, 7, 9, 11 and 13.
pub const DILUTE_MASK: u16 = (1u16 << 1) | (1u16 << 3) | (1u16 << 5) | (1u16 << 7) | (1u16 << 9)
    | (1u16 << 11) | (1u16 << 13);

/// One of the six fixed additives.
#[derive(Clone, Copy, PartialEq, Eq, Structural, Debug)]
pub enum PotionIngredient {
    Sugar,
    GhastTear,
    SpiderEye,
    FermentedSpiderEye,
    BlazePowder,
    MagmaCream,
}

/// The bit positions that an ingredient sets, in ascending order.
pub open spec fn spec_added_bits(i: PotionIngredient) -> Seq<u8> {
    match i {
        PotionIngredient::Sugar => seq![0u8],
        PotionIngredient::GhastTear => seq![11u8],
        PotionIngredient::SpiderEye => seq![5u8, 7u8, 10u8],
        PotionIngredient::FermentedSpiderEye => seq![9u8, 14u8],
        PotionIngredient::BlazePowder => seq![14u8],
        PotionIngredient::MagmaCream => seq![1u8, 6u8, 14u8],
    }
}

/// The same positions collected into a single 15-bit mask.
pub open spec fn ingredient_mask(i: PotionIngredient) -> u16 {
    match i {
        PotionIngredient::Sugar => 0x0001u16,
        PotionIngredient::GhastTear => 0x0800u16,
        PotionIngredient::SpiderEye => 0x04a0u16,
        PotionIngredient::FermentedSpiderEye => 0x4200u16,
        PotionIngredient::BlazePowder => 0x4000u16,
        PotionIngredient::MagmaCream => 0x4042u16,
    }
}

/// The mask obtained by setting, one after the other, the first `n` bit
/// positions of the list `bs`.
pub open spec fn mask_of_prefix(bs: Seq<u8>, n: int) -> u16
    decreases n,
{
    if n <= 0 {
        0u16
    } else {
        mask_of_prefix(bs, n - 1) | (1u16 << (bs[n - 1] as u16))
    }
}

/// Folding an ingredient's bit list yields exactly its mask.
pub proof fn lemma_ingredient_mask(i: PotionIngredient)
    ensures
        mask_of_prefix(spec_added_bits(i), spec_added_bits(i).len() as int) == ingredient_mask(i),
{
    reveal_with_fuel(mask_of_prefix, 4);
    assert((0u16 | (1u16 << 0u16)) == 0x0001u16) by (bit_vector);
    assert((0u16 | (1u16 << 11u16)) == 0x0800u16) by (bit_vector);
    assert(((0u16 | (1u16 << 5u16)) | (1u16 << 7u16)) | (1u16 << 10u16) == 0x04a0u16)
        by (bit_vector);
    assert((0u16 | (1u16 << 9u16)) | (1u16 << 14u16) == 0x4200u16) by (bit_vector);
    assert((0u16 | (1u16 << 14u16)) == 0x4000u16) by (bit_vector);
    assert(((0u16 | (1u16 << 1u16)) | (1u16 << 6u16)) | (1u16 << 14u16) == 0x4042u16)
        by (bit_vector);
}

impl PotionIngredient {
    /// Lists the bits that are set by this ingredient.
    pub fn added_bits(self) -> (r: Vec<u8>)
        ensures
            r@ == spec_added_bits(self),
            forall|k: int| 0 <= k < r@.len() ==> r@[k] < 15,
    {
        let mut r: Vec<u8> = Vec::new();
        match self {
            PotionIngredient::Sugar => {
                r.push(0u8);
            },
            PotionIngredient::GhastTear => {
                r.push(11u8);
            },
            PotionIngredient::SpiderEye => {
                r.push(5u8);
                r.push(7u8);
                r.push(10u8);
            },
            PotionIngredient::FermentedSpiderEye => {
                r.push(9u8);
                r.push(14u8);
            },
            PotionIngredient::BlazePowder => {
                r.push(14u8);
            },
            PotionIngredient::MagmaCream => {
                r.push(1u8);
                r.push(6u8);
                r.push(14u8);
            },
        }
        proof {
            assert(r@ =~= spec_added_bits(self));
        }
        r
    }
}

/// Adding an ingredient sets the bits of its mask and changes nothing else.
pub open spec fn spec_apply_ingredient(v: u16, i: PotionIngredient) -> u16 {
    v | ingredient_mask(i)
}

/// Dilution clears the bits of `DILUTE_MASK` and changes nothing else.
pub open spec fn spec_dilute(v: u16) -> u16 {
    v & !DILUTE_MASK
}

/// The carry/shift step of the catalyst. When bit 0 is set and the top of
/// the value ends in the two-bit pattern `10` (highest set bit `p` with bit
/// `p - 1` clear, `p >= 2`), the bit `p` is cleared, the rest is shifted up
/// one position, and the pattern `11` is placed at `p - 1`, `p`; otherwise
/// the value is unchanged.
pub open spec fn spec_stage1(v: u16) -> u16 {
    if v & 1 == 0 {
        v
    } else {
        let p = spec_first_set(v);
        if p < 2 || (v & (1u16 << ((p - 1) as u16))) != 0 {
            v
        } else {
            ((v & !(1u16 << (p as u16))) << 1u16) | (0b11u16 << ((p - 1) as u16))
        }
    }
}

/// The automaton stage of the catalyst: the highest set bit is put aside,
/// the rest is evolved to a fixed point, and the bit is restored.
pub open spec fn spec_automaton_phase(v: u16) -> u16 {
    let p = spec_first_set(v);
    let residual = if p >= 0 {
        v & !(1u16 << (p as u16))
    } else {
        v
    };
    let evolved = spec_converge(residual, CONVERGE_FUEL as nat);
    if p >= 0 {
        evolved | (1u16 << (p as u16))
    } else {
        evolved
    }
}

/// The whole catalyst transformation: the carry/shift step, then the
/// automaton stage.
pub open spec fn spec_wart(v: u16) -> u16 {
    spec_automaton_phase(spec_stage1(v))
}

/// The liquid data of the container: 15 independent boolean properties
/// encoded as the low bits of the value.
#[derive(Clone, Copy, PartialEq, Eq, Structural, Debug)]
pub struct LiquidData(pub u16);

impl Default for LiquidData {
    /// Plain water: the all-zero state.
    fn default() -> (r: Self)
        ensures
            r.0 == 0,
    {
        LiquidData(0)
    }
}

impl LiquidData {
    /// Calculates the result of adding an ingredient.
    pub fn apply_ingredient(self, ingredient: PotionIngredient) -> (r: Self)
        ensures
            r.0 == spec_apply_ingredient(self.0, ingredient),
    {
        let mut result = self;
        let added = ingredient.added_bits();
        proof {
            let sv = self.0;
            assert(sv | 0u16 == sv) by (bit_vector);
        }
        let mut k: usize = 0;
        while k < added.len()
            invariant
                0 <= k <= added.len(),
                added@ == spec_added_bits(ingredient),
                forall|j: int| 0 <= j < added@.len() ==> added@[j] < 15,
                result.0 == self.0 | mask_of_prefix(added@, k as int),
            decreases added.len() - k,
        {
            let bit = added[k];
            proof {
                let sv = self.0;
                let m = mask_of_prefix(added@, k as int);
                let b = added@[k as int] as u16;
                assert(b < 15 ==> (sv | m) | (1u16 << b) == sv | (m | (1u16 << b))) by (bit_vector);
            }
            result.0 |= 1u16 << (bit as u16);
            k += 1;
        }
        proof {
            lemma_ingredient_mask(ingredient);
        }
        result
    }

    /// Calculates the result of adding plain water: the bits of
    /// `DILUTE_MASK` are cleared.
    pub fn dilute(self) -> (r: Self)
        ensures
            r.0 == spec_dilute(self.0),
    {
        LiquidData(self.0 & !DILUTE_MASK)
    }

    /// Position of the highest set bit of the state, or -1 on plain water.
    pub fn first_set(self) -> (r: i32)
        ensures
            r == spec_first_set(self.0),
    {
        bits::first_set(self.0)
    }

    /// Calculates the result of adding the catalyst: the carry/shift step,
    /// then the automaton run to a fixed point.
    pub fn apply_wart(self) -> (r: Self)
        ensures
            r.0 == spec_wart(self.0),
    {
        self.apply_wart_stage_1().apply_automaton()
    }

    /// The carry/shift step of the catalyst.
    fn apply_wart_stage_1(self) -> (r: Self)
        ensures
            r.0 == spec_stage1(self.0),
    {
        if self.0 & 1 == 0 {
            return self;
        }
        let p = self.first_set();
        proof {
            lemma_first_set_bits(self.0);
            let sv = self.0;
            assert(sv & 1 == 1 ==> sv != 0) by (bit_vector);
        }
        if p < 2 || (self.0 & (1u16 << ((p - 1) as u16))) != 0 {
            return self;
        }
        let mut res = self.0 & !(1u16 << (p as u16));
        res <<= 1u16;
        res |= 0b11u16 << ((p - 1) as u16);
        LiquidData(res)
    }

    /// The automaton stage of the catalyst.
    fn apply_automaton(self) -> (r: Self)
        ensures
            r.0 == spec_automaton_phase(self.0),
    {
        let p = self.first_set();
        proof {
            lemma_first_set_bits(self.0);
            if p >= 0 {
                let sv = self.0;
                let q = p as u16;
                assert(sv >> ((q + 1) as u16) == 0 && q <= 15 ==> (sv & !(1u16 << q)) < 0x8000)
                    by (bit_vector);
            }
        }
        let without_leading_bits = if p >= 0 {
            self.0 & !(1u16 << (p as u16))
        } else {
            self.0
        };
        let mut current = FungalAutomaton::new(without_leading_bits);
        let mut k: usize = 0;
        while k < CONVERGE_FUEL
            invariant
                0 <= k <= CONVERGE_FUEL,
                current@ < 0x8000,
                spec_converge(without_leading_bits, CONVERGE_FUEL as nat) == spec_converge(
                    current@,
                    (CONVERGE_FUEL - k) as nat,
                ),
            ensures
                current@ == spec_converge(without_leading_bits, CONVERGE_FUEL as nat),
            decreases CONVERGE_FUEL - k,
        {
            let next = current.next();
            if next.as_u16() == current.as_u16() {
                break ;
            }
            current = next;
            k += 1;
        }
        let evolved = current.as_u16();
        let result = if p >= 0 {
            evolved | (1u16 << (p as u16))
        } else {
            evolved
        };
        LiquidData(result)
    }
}

/// Dilution is idempotent: diluting twice is the same as diluting once.
pub proof fn lemma_dilute_idempotent(s: u16)
    ensures
        spec_dilute(spec_dilute(s)) == spec_dilute(s),
{
    assert((s & !DILUTE_MASK) & !DILUTE_MASK == s & !DILUTE_MASK) by (bit_vector);
}

/// Whether dilution clears bit `i`.
pub open spec fn dilute_clears(i: u16) -> bool {
    i == 1 || i == 3 || i == 5 || i == 7 || i == 9 || i == 11 || i == 13
}

/// Dilution differs from its input only in bits 1, 3, 5, 7, 9, 11 and 13:
/// those are cleared, every other bit is unchanged.
pub proof fn lemma_dilute_changes_only_masked_bits(s: u16)
    ensures
        forall|i: u16|
            i < 16 && !dilute_clears(i) ==> ((spec_dilute(s) >> i) & 1 == (s >> i) & 1),
        forall|i: u16| dilute_clears(i) ==> (spec_dilute(s) >> i) & 1 == 0,
{
    assert forall|i: u16| i < 16 && !dilute_clears(i) implies ((spec_dilute(s) >> i) & 1 == (s
        >> i) & 1) by {
        assert(i < 16 && !(i == 1 || i == 3 || i == 5 || i == 7 || i == 9 || i == 11 || i == 13)
            ==> ((s & !DILUTE_MASK) >> i) & 1 == (s >> i) & 1) by (bit_vector);
    }
    assert forall|i: u16| dilute_clears(i) implies (spec_dilute(s) >> i) & 1 == 0 by {
        assert((i == 1 || i == 3 || i == 5 || i == 7 || i == 9 || i == 11 || i == 13) ==> ((s
            & !DILUTE_MASK) >> i) & 1 == 0) by (bit_vector);
    }
}

/// Adding the same ingredient twice yields the same state as adding it
/// once.
pub proof fn lemma_apply_ingredient_idempotent(s: u16, i: PotionIngredient)
    ensures
        spec_apply_ingredient(spec_apply_ingredient(s, i), i) == spec_apply_ingredient(s, i),
{
    let m = ingredient_mask(i);
    assert((s | m) | m == s | m) by (bit_vector);
}

/// Adding an ingredient only sets bits: every bit set in the old state is
/// still set afterwards.
pub proof fn lemma_apply_ingredient_superset(s: u16, ing: PotionIngredient)
    ensures
        forall|i: u16|
            i < 16 && (s >> i) & 1 == 1 ==> (spec_apply_ingredient(s, ing) >> i) & 1 == 1,
{
    let m = ingredient_mask(ing);
    assert forall|i: u16| i < 16 && (s >> i) & 1 == 1 implies ((s | m) >> i) & 1 == 1 by {
        assert((s >> i) & 1 == 1 ==> ((s | m) >> i) & 1 == 1) by (bit_vector);
    }
}

/// Every transition keeps the state inside 15 bits.
pub proof fn lemma_transitions_range(v: u16)
    requires
        v < 0x8000,
    ensures
        forall|i: PotionIngredient| (#[trigger] spec_apply_ingredient(v, i)) < 0x8000,
        spec_dilute(v) < 0x8000,
        spec_wart(v) < 0x8000,
{
    assert forall|i: PotionIngredient| (#[trigger] spec_apply_ingredient(v, i)) < 0x8000 by {
        let m = ingredient_mask(i);
        assert(v < 0x8000 && m < 0x8000 ==> (v | m) < 0x8000) by (bit_vector);
    }
    assert(v < 0x8000 ==> (v & !DILUTE_MASK) < 0x8000) by (bit_vector);
    lemma_stage1_range(v);
    lemma_automaton_phase_range(spec_stage1(v));
}

/// The carry/shift step keeps the state inside 15 bits.
proof fn lemma_stage1_range(v: u16)
    requires
        v < 0x8000,
    ensures
        spec_stage1(v) < 0x8000,
{
    lemma_first_set_bits(v);
    let p = spec_first_set(v);
    if v & 1 != 0 {
        assert(v & 1 == 0 || v & 1 == 1) by (bit_vector);
        if !(p < 2 || (v & (1u16 << ((p - 1) as u16))) != 0) {
            let q = p as u16;
            assert(2 <= q <= 14 && v >> ((q + 1) as u16) == 0 && (v & (1u16 << ((q - 1) as u16)))
                == 0 ==> ((v & !(1u16 << q)) << 1u16) | (0b11u16 << ((q - 1) as u16)) < 0x8000)
                by (bit_vector);
        }
    }
}

/// The automaton stage keeps the state inside 15 bits.
proof fn lemma_automaton_phase_range(v: u16)
    requires
        v < 0x8000,
    ensures
        spec_automaton_phase(v) < 0x8000,
{
    lemma_first_set_bits(v);
    let p = spec_first_set(v);
    if p >= 0 {
        let q = p as u16;
        assert(v >> ((q + 1) as u16) == 0 && q <= 15 ==> (v & !(1u16 << q)) < 0x8000)
            by (bit_vector);
        lemma_converge_range((v & !(1u16 << q)), CONVERGE_FUEL as nat);
        let e = spec_converge((v & !(1u16 << q)), CONVERGE_FUEL as nat);
        assert(e < 0x8000 && q <= 14 ==> (e | (1u16 << q)) < 0x8000) by (bit_vector);
    } else {
        lemma_converge_range(v, CONVERGE_FUEL as nat);
    }
}

} // verus!
