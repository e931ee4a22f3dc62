//! Polynomials over the field and their residues modulo a generator.

use vstd::prelude::*;
use vstd::std_specs::cmp::PartialEqSpec;
use vstd::std_specs::iter::IteratorSpec;
use vstd::string::StringSliceAdditionalSpecFns;
use crate::fe::Fe;
use crate::fe::lemma_values_push;
use crate::fe::values;
use crate::residue::all_elements;
use crate::residue::bech32_generator;
use crate::residue::codex32_generator;
use crate::residue::hrp_expansion;
use crate::residue::hrp_residue_of;
use crate::residue::lemma_strip_is_skip;
use crate::residue::polymod_of;
use crate::residue::register_after;
use crate::residue::shift_in;
use crate::residue::strip_leading_zeros;
use crate::residue::zeros;
use crate::residue::BECH32_POLYMOD;
use crate::residue::CODEX32_POLYMOD;

verus! {

/// A polynomial over the field: its coefficients in order.
#[derive(Debug)]
pub struct FePoly(Vec<Fe>);

impl View for FePoly {
    type V = Seq<u8>;

    /// The binary expressions of the coefficients, in order.
    closed spec fn view(&self) -> Seq<u8> {
        values(self.0@)
    }
}

impl Clone for FePoly {
    fn clone(&self) -> (r: Self)
        ensures
            r@ == self@,
    {
        let coefficients = self.0.clone();
        assert(coefficients@ =~= self.0@);
        FePoly(coefficients)
    }
}

impl Default for FePoly {
    /// The polynomial without coefficients, which is zero.
    fn default() -> (r: Self)
        ensures
            r@ == Seq::<u8>::empty(),
    {
        let r = FePoly(Vec::new());
        assert(r@ =~= Seq::<u8>::empty());
        r
    }
}

impl PartialEq for FePoly {
    /// Two polynomials are equal when they have the same coefficients in the
    /// same places; leading zeros count.
    fn eq(&self, other: &Self) -> (equal: bool) {
        if self.0.len() != other.0.len() {
            assert(self@.len() != other@.len());
            return false;
        }
        let mut i: usize = 0;
        while i < self.0.len()
            invariant
                i <= self.0@.len(),
                self.0@.len() == other.0@.len(),
                forall|j: int| 0 <= j < i ==> self@[j] == other@[j],
            decreases self.0@.len() - i,
        {
            if self.0[i].to_bin() != other.0[i].to_bin() {
                assert(self@[i as int] != other@[i as int]);
                return false;
            }
            i += 1;
        }
        assert(self@ =~= other@);
        true
    }
}

impl vstd::std_specs::cmp::PartialEqSpecImpl for FePoly {
    open spec fn obeys_eq_spec() -> bool {
        true
    }

    open spec fn eq_spec(&self, other: &Self) -> bool {
        self@ == other@
    }
}

impl Eq for FePoly {

}

impl From<Fe> for FePoly {
    /// The constant polynomial.
    fn from(fe: Fe) -> (r: Self)
        ensures
            r@ == seq![fe@],
    {
        let mut coefficients: Vec<Fe> = Vec::new();
        coefficients.push(fe);
        let r = FePoly(coefficients);
        assert(r@ =~= seq![fe@]);
        r
    }
}

/// What `from` returns is stated on the function itself: no value of `Vec`
/// can be written down here.
impl vstd::std_specs::convert::FromSpecImpl<Fe> for FePoly {
    open spec fn obeys_from_spec() -> bool {
        false
    }

    closed spec fn from_spec(fe: Fe) -> Self {
        arbitrary()
    }
}

impl From<Vec<Fe>> for FePoly {
    /// The polynomial with the given coefficients.
    fn from(coefficients: Vec<Fe>) -> (r: Self)
        ensures
            r@ == values(coefficients@),
    {
        FePoly(coefficients)
    }
}

impl vstd::std_specs::convert::FromSpecImpl<Vec<Fe>> for FePoly {
    open spec fn obeys_from_spec() -> bool {
        true
    }

    closed spec fn from_spec(coefficients: Vec<Fe>) -> Self {
        FePoly(coefficients)
    }
}

impl FePoly {
    /// The number of coefficients, leading zeros included.
    pub fn len(&self) -> (n: usize)
        ensures
            n == self@.len(),
    {
        self.0.len()
    }

    /// Drops the zeros that the polynomial begins with.
    pub fn normalize(&mut self)
        ensures
            final(self)@ == strip_leading_zeros(old(self)@),
    {
        let mut k: usize = 0;
        while k < self.0.len() && self.0[k].to_bin() == 0
            invariant
                k <= self.0@.len(),
                *self == *old(self),
                forall|i: int| 0 <= i < k ==> self@[i] == 0,
            decreases self.0@.len() - k,
        {
            k += 1;
        }
        proof {
            lemma_strip_is_skip(self@, k as int);
        }
        let rest = self.0.split_off(k);
        self.0 = rest;
        assert(self@ =~= old(self)@.skip(k as int));
    }

    /// Reduces the polynomial modulo a generator.
    pub fn polymod(&self, modulus: &[Fe]) -> (r: FePoly)
        requires
            modulus@.len() > 0,
        ensures
            r@ == polymod_of(self@, values(modulus@)),
    {
        let n = modulus.len();
        let ghost generator = values(modulus@);
        let mut ret: Vec<Fe> = Vec::new();
        while ret.len() < n
            invariant
                ret@.len() <= n,
                forall|j: int| 0 <= j < ret@.len() ==> (#[trigger] ret@[j])@ == 0,
            decreases n - ret@.len(),
        {
            ret.push(Fe::zero());
        }
        assert(values(ret@) =~= zeros(n as nat));
        assert(self@.take(0) =~= Seq::<u8>::empty());

        let mut k: usize = 0;
        while k < self.0.len()
            invariant
                k <= self.0@.len(),
                n == modulus@.len(),
                n > 0,
                generator == values(modulus@),
                ret@.len() == n,
                values(ret@) == register_after(self@.take(k as int), generator),
            decreases self.0@.len() - k,
        {
            let ch = self.0[k];
            let ghost before = values(ret@);
            // Multiply the residue by x
            let carry = ret[0];
            let mut i: usize = 0;
            while i < n - 1
                invariant
                    i <= n - 1,
                    ret@.len() == n,
                    before.len() == n,
                    forall|j: int| 0 <= j < i ==> (#[trigger] ret@[j])@ == before[j + 1],
                    forall|j: int| i <= j < n ==> (#[trigger] ret@[j])@ == before[j],
                decreases n - 1 - i,
            {
                let next = ret[i + 1];
                ret.set(i, next);
                i += 1;
            }
            // Add the next symbol
            ret.set(n - 1, ch);
            // Replace carry * x^n by carry * generator
            let mut i: usize = 0;
            while i < n
                invariant
                    i <= n,
                    n == modulus@.len(),
                    generator == values(modulus@),
                    ret@.len() == n,
                    before.len() == n,
                    carry@ == before[0],
                    forall|j: int| 0 <= j < i ==> (#[trigger] ret@[j])@ == shift_in(before, ch@, generator)[j],
                    forall|j: int| i <= j < n - 1 ==> (#[trigger] ret@[j])@ == before[j + 1],
                    i < n ==> ret@[n - 1]@ == ch@,
                decreases n - i,
            {
                let sum = ret[i] + carry * modulus[i];
                ret.set(i, sum);
                i += 1;
            }
            proof {
                let taken = self@.take(k as int + 1);
                assert(taken.drop_last() =~= self@.take(k as int));
                assert(taken.last() == ch@);
                assert(values(ret@) =~= shift_in(before, ch@, generator));
            }
            k += 1;
        }
        assert(self@.take(k as int) =~= self@);

        let mut ret = FePoly(ret);
        ret.normalize();
        ret
    }

    /// Reduces the polynomial modulo the codex32 generator.
    pub fn codex32_polymod(&self) -> (r: FePoly)
        ensures
            r@ == polymod_of(self@, codex32_generator()),
    {
        let modulus = elements_of(CODEX32_POLYMOD.as_slice());
        self.polymod(modulus.as_slice())
    }

    /// Reduces the polynomial modulo the bech32 generator.
    pub fn bech32_polymod(&self) -> (r: FePoly)
        ensures
            r@ == polymod_of(self@, bech32_generator()),
    {
        let modulus = elements_of(BECH32_POLYMOD.as_slice());
        self.polymod(modulus.as_slice())
    }

    /// The residue that a prefix contributes to a checksum with the given generator.
    pub fn hrp_residue(s: &str, modulus: &[Fe]) -> (r: FePoly)
        requires
            modulus@.len() > 0,
        ensures
            r@ == hrp_residue_of(s.spec_bytes(), values(modulus@)),
    {
        let bytes = s.as_bytes();
        let ghost prefix = s.spec_bytes();
        let mut poly_1: Vec<Fe> = Vec::new();
        poly_1.push(Fe::one());
        let mut i: usize = 0;
        while i < bytes.len()
            invariant
                i <= bytes@.len(),
                bytes@ == prefix,
                values(poly_1@) == seq![1u8] + prefix.take(i as int).map_values(|b: u8| b >> 5),
            decreases bytes@.len() - i,
        {
            let ch: u8 = bytes[i];
            assert(ch >> 5 < 32) by (bit_vector);
            let high = Fe::from_bin(ch >> 5);
            proof {
                lemma_values_push(poly_1@, high);
                assert(prefix.take(i + 1) =~= prefix.take(i as int).push(ch));
            }
            poly_1.push(high);
            assert(values(poly_1@) =~= seq![1u8] + prefix.take(i + 1).map_values(|b: u8| b >> 5));
            i += 1;
        }
        assert(prefix.take(i as int) =~= prefix);
        let zero = Fe::zero();
        proof {
            lemma_values_push(poly_1@, zero);
        }
        poly_1.push(zero);
        let ghost head = seq![1u8] + prefix.map_values(|b: u8| b >> 5) + seq![0u8];
        assert(values(poly_1@) =~= head);
        let mut i: usize = 0;
        while i < bytes.len()
            invariant
                i <= bytes@.len(),
                bytes@ == prefix,
                values(poly_1@) == head + prefix.take(i as int).map_values(|b: u8| b & 0x1f),
            decreases bytes@.len() - i,
        {
            let ch: u8 = bytes[i];
            assert(ch & 0x1f < 32) by (bit_vector);
            let low = Fe::from_bin(ch & 0x1f);
            proof {
                lemma_values_push(poly_1@, low);
                assert(prefix.take(i + 1) =~= prefix.take(i as int).push(ch));
            }
            poly_1.push(low);
            assert(values(poly_1@) =~= head + prefix.take(i + 1).map_values(|b: u8| b & 0x1f));
            i += 1;
        }
        assert(prefix.take(i as int) =~= prefix);
        let ghost body = head + prefix.map_values(|b: u8| b & 0x1f);
        let mut i: usize = 0;
        while i < modulus.len()
            invariant
                i <= modulus@.len(),
                values(poly_1@) == body + zeros(i as nat),
            decreases modulus@.len() - i,
        {
            let zero = Fe::zero();
            proof {
                lemma_values_push(poly_1@, zero);
            }
            poly_1.push(zero);
            assert(values(poly_1@) =~= body + zeros((i + 1) as nat));
            i += 1;
        }
        assert(values(poly_1@) == hrp_expansion(prefix, modulus@.len()));
        FePoly(poly_1).polymod(modulus)
    }

    /// The residue that a prefix contributes to a codex32 checksum.
    pub fn codex32_hrp_residue(s: &str) -> (r: FePoly)
        ensures
            r@ == hrp_residue_of(s.spec_bytes(), codex32_generator()),
    {
        let modulus = elements_of(CODEX32_POLYMOD.as_slice());
        FePoly::hrp_residue(s, modulus.as_slice())
    }

    /// The residue that a prefix contributes to a bech32 checksum.
    pub fn bech32_hrp_residue(s: &str) -> (r: FePoly)
        ensures
            r@ == hrp_residue_of(s.spec_bytes(), bech32_generator()),
    {
        let modulus = elements_of(BECH32_POLYMOD.as_slice());
        FePoly::hrp_residue(s, modulus.as_slice())
    }

    /// The coefficient at `idx`; beyond the last coefficient, zero.
    pub fn index(&self, idx: usize) -> (r: Fe)
        ensures
            r@ == coefficient(self@, idx as int),
    {
        if idx < self.0.len() {
            self.0[idx]
        } else {
            Fe::zero()
        }
    }

    /// An iterator over the coefficients, in order.
    pub fn iter(&self) -> (it: std::vec::IntoIter<Fe>)
        ensures
            values(it.remaining()) == self@,
    {
        let coefficients = self.0.clone();
        assert(coefficients@ =~= self.0@);
        coefficients.into_iter()
    }
}

/// The residue of a prefix depends on nothing but the prefix's bytes and the
/// generator's coefficients: two results for the same bytes and the same
/// coefficients hold the same sequence, and compare equal.
pub proof fn lemma_hrp_residue_deterministic(
    first: FePoly,
    second: FePoly,
    s1: &str,
    s2: &str,
    modulus1: Seq<Fe>,
    modulus2: Seq<Fe>,
)
    requires
        s1.spec_bytes() == s2.spec_bytes(),
        values(modulus1) == values(modulus2),
        first@ == hrp_residue_of(s1.spec_bytes(), values(modulus1)),
        second@ == hrp_residue_of(s2.spec_bytes(), values(modulus2)),
    ensures
        first@ == second@,
        first.eq_spec(&second),
{
}

/// The coefficient of a polynomial at a place; beyond its last coefficient, zero.
pub open spec fn coefficient(p: Seq<u8>, idx: int) -> u8 {
    if 0 <= idx < p.len() {
        p[idx]
    } else {
        0
    }
}

/// The field elements with the given binary expressions.
fn elements_of(coefficients: &[u8]) -> (g: Vec<Fe>)
    requires
        all_elements(coefficients@),
    ensures
        values(g@) == coefficients@,
        g@.len() == coefficients@.len(),
{
    let mut g: Vec<Fe> = Vec::new();
    let mut i: usize = 0;
    while i < coefficients.len()
        invariant
            i <= coefficients@.len(),
            all_elements(coefficients@),
            g@.len() == i,
            values(g@) == coefficients@.take(i as int),
        decreases coefficients@.len() - i,
    {
        let e = Fe::from_bin(coefficients[i]);
        proof {
            lemma_values_push(g@, e);
        }
        g.push(e);
        assert(values(g@) =~= coefficients@.take(i + 1));
        i += 1;
    }
    assert(coefficients@.take(i as int) =~= coefficients@);
    g
}

} // verus!
