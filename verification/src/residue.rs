//! What the checksum engine computes, stated over sequences of binary expressions.
//!
//! A sequence of field elements is read as a polynomial whose first member is
//! its highest coefficient. A generator `g` of length `L` stands for the
//! polynomial `x^L + g[0] x^(L-1) + ... + g[L-1]`; in a field of characteristic
//! two, `x^L` is then congruent to `g[0] x^(L-1) + ... + g[L-1]`.

use vstd::prelude::*;
use crate::fe::gf32_add;
use crate::fe::gf32_mul;
use crate::fe::is_element;

verus! {

/// The coefficients of the codex32 generator.
pub const CODEX32_POLYMOD: [u8; 13] = [25, 27, 17, 8, 0, 25, 25, 25, 31, 27, 24, 16, 16];

/// The coefficients of the bech32 generator.
pub const BECH32_POLYMOD: [u8; 6] = [29, 22, 20, 21, 29, 18];

/// The codex32 generator as a sequence.
pub open spec fn codex32_generator() -> Seq<u8> {
    CODEX32_POLYMOD@
}

/// The bech32 generator as a sequence.
pub open spec fn bech32_generator() -> Seq<u8> {
    BECH32_POLYMOD@
}

/// Whether every member of the sequence is the binary expression of a field element.
pub open spec fn all_elements(s: Seq<u8>) -> bool {
    forall|i: int| 0 <= i < s.len() ==> is_element(#[trigger] s[i])
}

/// `n` zero coefficients.
pub open spec fn zeros(n: nat) -> Seq<u8> {
    Seq::new(n, |i: int| 0u8)
}

/// The sum of two polynomials with equally many coefficients.
pub open spec fn sum_of(a: Seq<u8>, b: Seq<u8>) -> Seq<u8> {
    Seq::new(a.len(), |i: int| gf32_add(a[i], b[i]))
}

/// The polynomial with every coefficient multiplied by `c`.
pub open spec fn scaled(c: u8, a: Seq<u8>) -> Seq<u8> {
    Seq::new(a.len(), |i: int| gf32_mul(c, a[i]))
}

/// The register after it has taken in one more symbol. The carry is the
/// register's first member; the others move down by one place, the symbol
/// takes the last place, and the carry's multiple of the generator is added
/// to every place. As polynomials this is `register * x + symbol`, with the
/// term in `x^L` replaced by the carry times the generator.
pub open spec fn shift_in(register: Seq<u8>, symbol: u8, generator: Seq<u8>) -> Seq<u8> {
    Seq::new(
        generator.len(),
        |i: int|
            gf32_add(
                if i + 1 < generator.len() {
                    register[i + 1]
                } else {
                    symbol
                },
                gf32_mul(register[0], generator[i]),
            ),
    )
}

/// The register after it has taken in the whole input, first member first,
/// starting from zeros: the remainder of the input modulo the generator,
/// with as many coefficients as the generator.
pub open spec fn register_after(input: Seq<u8>, generator: Seq<u8>) -> Seq<u8>
    decreases input.len(),
{
    if input.len() == 0 {
        zeros(generator.len())
    } else {
        shift_in(register_after(input.drop_last(), generator), input.last(), generator)
    }
}

/// The sequence without the zeros that it begins with.
pub open spec fn strip_leading_zeros(s: Seq<u8>) -> Seq<u8>
    decreases s.len(),
{
    if s.len() > 0 && s[0] == 0 {
        strip_leading_zeros(s.drop_first())
    } else {
        s
    }
}

/// The residue of the input modulo the generator, without leading zeros.
pub open spec fn polymod_of(input: Seq<u8>, generator: Seq<u8>) -> Seq<u8> {
    strip_leading_zeros(register_after(input, generator))
}

/// The coefficients that a prefix contributes to a checksum: a one, the high
/// three bits of every byte, a zero, the low five bits of every byte, and
/// `padding` zeros.
pub open spec fn hrp_expansion(prefix: Seq<u8>, padding: nat) -> Seq<u8> {
    seq![1u8] + prefix.map_values(|b: u8| b >> 5) + seq![0u8] + prefix.map_values(|b: u8| b & 0x1f)
        + zeros(padding)
}

/// The residue of a prefix: that of its expansion, padded by the generator's length.
pub open spec fn hrp_residue_of(prefix: Seq<u8>, generator: Seq<u8>) -> Seq<u8> {
    polymod_of(hrp_expansion(prefix, generator.len()), generator)
}

/// Stripping leaves the part from the first nonzero member on.
pub proof fn lemma_strip_is_skip(s: Seq<u8>, k: int)
    requires
        0 <= k <= s.len(),
        forall|i: int| 0 <= i < k ==> s[i] == 0,
        k < s.len() ==> s[k] != 0,
    ensures
        strip_leading_zeros(s) == s.skip(k),
    decreases k,
{
    if k == 0 {
        assert(s.skip(0) =~= s);
    } else {
        let t = s.drop_first();
        assert forall|i: int| 0 <= i < k - 1 implies t[i] == 0 by {
            assert(t[i] == s[i + 1]);
        }
        lemma_strip_is_skip(t, k - 1);
        assert(t.skip(k - 1) =~= s.skip(k));
    }
}

} // verus!
