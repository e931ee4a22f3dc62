//! What holds of residues for every input and every generator.

use vstd::prelude::*;
use crate::fe::gf32_add;
use crate::fe::gf32_mul;
use crate::fe::is_element;
use crate::field_laws::lemma_add_closed;
use crate::field_laws::lemma_add_zero;
use crate::field_laws::lemma_add_zero_iff_equal;
use crate::field_laws::lemma_mul_associative;
use crate::field_laws::lemma_mul_closed;
use crate::field_laws::lemma_mul_distributes;
use crate::field_laws::lemma_mul_distributes_left;
use crate::field_laws::lemma_mul_one;
use crate::field_laws::lemma_mul_zero;
use crate::field_laws::lemma_no_zero_divisors;
use crate::residue::all_elements;
use crate::residue::bech32_generator;
use crate::residue::codex32_generator;
use crate::residue::hrp_expansion;
use crate::residue::hrp_residue_of;
use crate::residue::lemma_strip_is_skip;
use crate::residue::polymod_of;
use crate::residue::register_after;
use crate::residue::scaled;
use crate::residue::shift_in;
use crate::residue::strip_leading_zeros;
use crate::residue::sum_of;
use crate::residue::zeros;

verus! {

/// The register has as many places as the generator has coefficients.
pub proof fn lemma_register_len(input: Seq<u8>, generator: Seq<u8>)
    ensures
        register_after(input, generator).len() == generator.len(),
{
}

/// A register fed with field elements holds field elements.
pub proof fn lemma_register_elements(input: Seq<u8>, generator: Seq<u8>)
    requires
        all_elements(input),
    ensures
        all_elements(register_after(input, generator)),
    decreases input.len(),
{
    if input.len() > 0 {
        let before = register_after(input.drop_last(), generator);
        lemma_register_elements(input.drop_last(), generator);
        let after = shift_in(before, input.last(), generator);
        assert forall|i: int| 0 <= i < after.len() implies is_element(#[trigger] after[i]) by {
            let moved = if i + 1 < generator.len() {
                before[i + 1]
            } else {
                input.last()
            };
            lemma_mul_closed(before[0], generator[i]);
            lemma_add_closed(moved, gf32_mul(before[0], generator[i]));
        }
    }
}

/// Zeros strip to nothing.
pub proof fn lemma_strip_zeros(n: nat)
    ensures
        strip_leading_zeros(zeros(n)) == Seq::<u8>::empty(),
{
    lemma_strip_is_skip(zeros(n), n as int);
    assert(zeros(n).skip(n as int) =~= Seq::<u8>::empty());
}

/// An input of zeros, however long, leaves the register at zero, and its
/// residue is the empty polynomial.
pub proof fn lemma_zero_input(n: nat, generator: Seq<u8>)
    ensures
        register_after(zeros(n), generator) == zeros(generator.len()),
        polymod_of(zeros(n), generator) == Seq::<u8>::empty(),
    decreases n,
{
    if n > 0 {
        assert(zeros(n).drop_last() =~= zeros((n - 1) as nat));
        lemma_zero_input((n - 1) as nat, generator);
        let after = shift_in(zeros(generator.len()), 0u8, generator);
        assert forall|i: int| 0 <= i < after.len() implies after[i] == 0u8 by {
            lemma_mul_zero(generator[i]);
            lemma_add_zero(0u8);
        }
        assert(after =~= zeros(generator.len()));
    }
    lemma_strip_zeros(generator.len());
}

/// One step of the register is additive: the sum of two registers that takes
/// in the sum of two symbols becomes the sum of what each would have become.
pub proof fn lemma_shift_in_additive(r1: Seq<u8>, r2: Seq<u8>, c1: u8, c2: u8, generator: Seq<u8>)
    requires
        r1.len() == generator.len(),
        r2.len() == generator.len(),
    ensures
        shift_in(sum_of(r1, r2), gf32_add(c1, c2), generator) == sum_of(
            shift_in(r1, c1, generator),
            shift_in(r2, c2, generator),
        ),
{
    let left = shift_in(sum_of(r1, r2), gf32_add(c1, c2), generator);
    let right = sum_of(shift_in(r1, c1, generator), shift_in(r2, c2, generator));
    assert forall|i: int| 0 <= i < generator.len() implies left[i] == right[i] by {
        let m1 = if i + 1 < generator.len() {
            r1[i + 1]
        } else {
            c1
        };
        let m2 = if i + 1 < generator.len() {
            r2[i + 1]
        } else {
            c2
        };
        let fed1 = gf32_mul(r1[0], generator[i]);
        let fed2 = gf32_mul(r2[0], generator[i]);
        lemma_mul_distributes_left(r1[0], r2[0], generator[i]);
        lemma_add_interchange(m1, m2, fed1, fed2);
    }
    assert(left =~= right);
}

/// In a sum of four, the inner two may change places.
proof fn lemma_add_interchange(a: u8, b: u8, c: u8, d: u8)
    by (bit_vector)
    ensures
        gf32_add(gf32_add(a, b), gf32_add(c, d)) == gf32_add(gf32_add(a, c), gf32_add(b, d)),
{
}

/// Reduction is additive: the register after the sum of two inputs of one
/// length is the sum of the registers after each.
pub proof fn lemma_register_additive(a: Seq<u8>, b: Seq<u8>, generator: Seq<u8>)
    requires
        a.len() == b.len(),
    ensures
        register_after(sum_of(a, b), generator) == sum_of(
            register_after(a, generator),
            register_after(b, generator),
        ),
    decreases a.len(),
{
    if a.len() == 0 {
        let z = zeros(generator.len());
        assert(sum_of(z, z) =~= z) by {
            lemma_add_zero(0u8);
        }
    } else {
        let s = sum_of(a, b);
        assert(s.drop_last() =~= sum_of(a.drop_last(), b.drop_last()));
        assert(s.last() == gf32_add(a.last(), b.last()));
        lemma_register_additive(a.drop_last(), b.drop_last(), generator);
        lemma_shift_in_additive(
            register_after(a.drop_last(), generator),
            register_after(b.drop_last(), generator),
            a.last(),
            b.last(),
            generator,
        );
    }
}

/// A register that is not zero stays so when it takes in a zero, if the
/// generator's last coefficient is not zero.
pub proof fn lemma_shift_in_zero_keeps_nonzero(register: Seq<u8>, generator: Seq<u8>)
    requires
        generator.len() > 0,
        register.len() == generator.len(),
        all_elements(register),
        is_element(generator.last()),
        generator.last() != 0,
        register != zeros(generator.len()),
    ensures
        shift_in(register, 0u8, generator) != zeros(generator.len()),
{
    let len = generator.len() as int;
    let after = shift_in(register, 0u8, generator);
    if register[0] != 0 {
        let p = gf32_mul(register[0], generator[len - 1]);
        if p == 0 {
            lemma_no_zero_divisors(register[0], generator[len - 1]);
        }
        lemma_add_zero(p);
        assert(after[len - 1] == p);
        assert(zeros(generator.len())[len - 1] == 0);
    } else {
        if forall|j: int| 0 <= j < len ==> register[j] == 0 {
            assert(register =~= zeros(generator.len()));
        }
        let j = choose|j: int| 0 <= j < len && register[j] != 0;
        lemma_mul_zero(generator[j - 1]);
        lemma_add_zero(register[j]);
        assert(after[j - 1] == register[j]);
        assert(zeros(generator.len())[j - 1] == 0);
    }
}

/// An input with exactly one symbol that is not zero does not reduce to zero,
/// if the generator's last coefficient is not zero.
pub proof fn lemma_single_symbol_not_zero(input: Seq<u8>, at: int, generator: Seq<u8>)
    requires
        generator.len() > 0,
        is_element(generator.last()),
        generator.last() != 0,
        0 <= at < input.len(),
        is_element(input[at]),
        input[at] != 0,
        forall|j: int| 0 <= j < input.len() && j != at ==> input[j] == 0,
    ensures
        register_after(input, generator) != zeros(generator.len()),
    decreases input.len(),
{
    let len = generator.len() as int;
    let rest = input.drop_last();
    if at == input.len() - 1 {
        assert(rest =~= zeros(rest.len()));
        lemma_zero_input(rest.len(), generator);
        let after = shift_in(zeros(generator.len()), input[at], generator);
        lemma_mul_zero(generator[len - 1]);
        lemma_add_zero(input[at]);
        assert(after[len - 1] == input[at]);
        assert(zeros(generator.len())[len - 1] == 0);
    } else {
        lemma_single_symbol_not_zero(rest, at, generator);
        assert(all_elements(input)) by {
            assert forall|j: int| 0 <= j < input.len() implies is_element(#[trigger] input[j]) by {
                if j != at {
                    assert(input[j] == 0);
                }
            }
        }
        assert(all_elements(rest));
        lemma_register_elements(rest, generator);
        lemma_shift_in_zero_keeps_nonzero(register_after(rest, generator), generator);
    }
}

/// A sequence is the zeros that it begins with, followed by what stripping leaves.
pub proof fn lemma_strip_is_suffix(s: Seq<u8>)
    ensures
        strip_leading_zeros(s).len() <= s.len(),
        s == zeros((s.len() - strip_leading_zeros(s).len()) as nat) + strip_leading_zeros(s),
    decreases s.len(),
{
    if s.len() > 0 && s[0] == 0 {
        let t = s.drop_first();
        lemma_strip_is_suffix(t);
        let rest = strip_leading_zeros(t);
        let shorter = zeros((t.len() - rest.len()) as nat) + rest;
        let longer = zeros((s.len() - rest.len()) as nat) + rest;
        assert forall|i: int| 0 <= i < s.len() implies s[i] == longer[i] by {
            if i > 0 {
                assert(s[i] == t[i - 1]);
                assert(t[i - 1] == shorter[i - 1]);
            }
        }
        assert(s =~= longer);
    } else {
        assert(s =~= zeros(0) + s);
    }
}

/// Of two sequences of one length, stripping tells them apart.
pub proof fn lemma_strip_injective(a: Seq<u8>, b: Seq<u8>)
    requires
        a.len() == b.len(),
        strip_leading_zeros(a) == strip_leading_zeros(b),
    ensures
        a == b,
{
    lemma_strip_is_suffix(a);
    lemma_strip_is_suffix(b);
}

/// Replacing one symbol of an input by another always changes the residue,
/// for every generator whose last coefficient is not zero.
pub proof fn lemma_substitution_changes_residue(
    input: Seq<u8>,
    at: int,
    symbol: u8,
    generator: Seq<u8>,
)
    requires
        generator.len() > 0,
        is_element(generator.last()),
        generator.last() != 0,
        0 <= at < input.len(),
        is_element(input[at]),
        is_element(symbol),
        symbol != input[at],
    ensures
        register_after(input.update(at, symbol), generator) != register_after(input, generator),
        polymod_of(input.update(at, symbol), generator) != polymod_of(input, generator),
{
    let changed = input.update(at, symbol);
    let difference = sum_of(input, changed);
    let r1 = register_after(input, generator);
    let r2 = register_after(changed, generator);
    assert(difference[at] != 0 && is_element(difference[at])) by {
        lemma_add_zero_iff_equal(input[at], symbol);
        lemma_add_closed(input[at], symbol);
    }
    assert forall|j: int| 0 <= j < difference.len() && j != at implies difference[j] == 0 by {
        lemma_add_zero(input[j]);
    }
    lemma_single_symbol_not_zero(difference, at, generator);
    lemma_register_additive(input, changed, generator);
    if r1 == r2 {
        assert(sum_of(r1, r2) =~= zeros(generator.len())) by {
            assert forall|i: int| 0 <= i < generator.len() implies sum_of(r1, r2)[i] == 0 by {
                lemma_add_zero(r1[i]);
            }
        }
    }
    if polymod_of(changed, generator) == polymod_of(input, generator) {
        lemma_strip_injective(r1, r2);
    }
}

/// Zeros before an input do not change what it reduces to.
pub proof fn lemma_leading_zeros_ignored(n: nat, input: Seq<u8>, generator: Seq<u8>)
    ensures
        register_after(zeros(n) + input, generator) == register_after(input, generator),
        polymod_of(zeros(n) + input, generator) == polymod_of(input, generator),
    decreases input.len(),
{
    if input.len() == 0 {
        assert(zeros(n) + input =~= zeros(n));
        lemma_zero_input(n, generator);
    } else {
        let whole = zeros(n) + input;
        assert(whole.drop_last() =~= zeros(n) + input.drop_last());
        assert(whole.last() == input.last());
        lemma_leading_zeros_ignored(n, input.drop_last(), generator);
    }
}

/// A polynomial and what normalising leaves of it reduce to the same residue.
pub proof fn lemma_stripped_input_same_residue(input: Seq<u8>, generator: Seq<u8>)
    ensures
        polymod_of(strip_leading_zeros(input), generator) == polymod_of(input, generator),
{
    lemma_strip_is_suffix(input);
    let rest = strip_leading_zeros(input);
    lemma_leading_zeros_ignored((input.len() - rest.len()) as nat, rest, generator);
}

/// What stripping leaves does not begin with a zero, so stripping again changes nothing.
pub proof fn lemma_strip_idempotent(s: Seq<u8>)
    ensures
        strip_leading_zeros(s).len() > 0 ==> strip_leading_zeros(s)[0] != 0,
        strip_leading_zeros(strip_leading_zeros(s)) == strip_leading_zeros(s),
    decreases s.len(),
{
    if s.len() > 0 && s[0] == 0 {
        lemma_strip_idempotent(s.drop_first());
    }
}

/// An input no longer than the generator is its own remainder: the register
/// holds it, behind zeros.
pub proof fn lemma_short_input(input: Seq<u8>, generator: Seq<u8>)
    requires
        input.len() <= generator.len(),
    ensures
        register_after(input, generator) == zeros((generator.len() - input.len()) as nat) + input,
        polymod_of(input, generator) == strip_leading_zeros(input),
    decreases input.len(),
{
    let len = generator.len() as int;
    let fill = (len - input.len()) as nat;
    if input.len() == 0 {
        assert(zeros(fill) + input =~= zeros(generator.len()));
    } else {
        let rest = input.drop_last();
        lemma_short_input(rest, generator);
        let before = zeros(fill + 1) + rest;
        let after = shift_in(before, input.last(), generator);
        let expected = zeros(fill) + input;
        assert(before[0] == 0);
        assert forall|i: int| 0 <= i < len implies after[i] == expected[i] by {
            lemma_mul_zero(generator[i]);
            if i + 1 < len {
                lemma_add_zero(before[i + 1]);
                if i >= fill {
                    assert(before[i + 1] == rest[i - fill]);
                    assert(expected[i] == input[i - fill]);
                }
            } else {
                lemma_add_zero(input.last());
                assert(expected[i] == input[i - fill]);
            }
        }
        assert(after =~= expected);
    }
    lemma_leading_zeros_ignored(fill, input, generator);
    lemma_strip_is_suffix(zeros(fill) + input);
    lemma_strip_zeros_prefix(fill, input);
}

/// Stripping takes off the zeros put before a sequence.
pub proof fn lemma_strip_zeros_prefix(n: nat, s: Seq<u8>)
    ensures
        strip_leading_zeros(zeros(n) + s) == strip_leading_zeros(s),
    decreases n,
{
    if n == 0 {
        assert(zeros(0) + s =~= s);
    } else {
        let whole = zeros(n) + s;
        assert(whole[0] == 0);
        assert(whole.drop_first() =~= zeros((n - 1) as nat) + s);
        lemma_strip_zeros_prefix((n - 1) as nat, s);
    }
}

/// A residue reduces to itself.
pub proof fn lemma_polymod_idempotent(input: Seq<u8>, generator: Seq<u8>)
    ensures
        polymod_of(polymod_of(input, generator), generator) == polymod_of(input, generator),
{
    let register = register_after(input, generator);
    lemma_strip_is_suffix(register);
    lemma_short_input(strip_leading_zeros(register), generator);
    lemma_strip_idempotent(register);
}

/// The generator's own polynomial, `x^L` followed by its coefficients,
/// reduces to zero.
pub proof fn lemma_generator_reduces_to_zero(generator: Seq<u8>)
    requires
        generator.len() > 0,
        all_elements(generator),
    ensures
        register_after(seq![1u8] + generator, generator) == zeros(generator.len()),
        polymod_of(seq![1u8] + generator, generator) == Seq::<u8>::empty(),
{
    let len = generator.len() as int;
    let whole = seq![1u8] + generator;
    let head = seq![1u8] + generator.drop_last();
    assert(whole.drop_last() =~= head);
    assert(whole.last() == generator.last());
    lemma_short_input(head, generator);
    assert(zeros(0) + head =~= head);
    let after = shift_in(head, generator.last(), generator);
    assert forall|i: int| 0 <= i < len implies after[i] == 0u8 by {
        lemma_mul_one(generator[i]);
        lemma_add_zero(generator[i]);
        if i + 1 < len {
            assert(head[i + 1] == generator[i]);
        }
    }
    assert(after =~= zeros(generator.len()));
    lemma_strip_zeros(generator.len());
}

/// The register is all that later symbols see of earlier ones: two inputs
/// that leave the same register still do so when the same symbols follow both.
pub proof fn lemma_register_is_state(a: Seq<u8>, b: Seq<u8>, tail: Seq<u8>, generator: Seq<u8>)
    requires
        register_after(a, generator) == register_after(b, generator),
    ensures
        register_after(a + tail, generator) == register_after(b + tail, generator),
    decreases tail.len(),
{
    if tail.len() == 0 {
        assert(a + tail =~= a);
        assert(b + tail =~= b);
    } else {
        assert((a + tail).drop_last() =~= a + tail.drop_last());
        assert((b + tail).drop_last() =~= b + tail.drop_last());
        assert((a + tail).last() == tail.last());
        assert((b + tail).last() == tail.last());
        lemma_register_is_state(a, b, tail.drop_last(), generator);
    }
}

/// Reduction commutes with multiplying every coefficient by one element:
/// with additivity, it is linear over the field.
pub proof fn lemma_register_homogeneous(c: u8, input: Seq<u8>, generator: Seq<u8>)
    requires
        is_element(c),
        all_elements(input),
        all_elements(generator),
    ensures
        register_after(scaled(c, input), generator) == scaled(c, register_after(input, generator)),
    decreases input.len(),
{
    let len = generator.len() as int;
    if input.len() == 0 {
        assert(scaled(c, input) =~= input);
        assert(scaled(c, zeros(generator.len())) =~= zeros(generator.len())) by {
            lemma_mul_zero(c);
        }
    } else {
        let rest = input.drop_last();
        let before = register_after(rest, generator);
        assert(scaled(c, input).drop_last() =~= scaled(c, rest));
        lemma_register_homogeneous(c, rest, generator);
        lemma_register_elements(rest, generator);
        let left = shift_in(scaled(c, before), gf32_mul(c, input.last()), generator);
        let right = scaled(c, shift_in(before, input.last(), generator));
        assert forall|i: int| 0 <= i < len implies left[i] == right[i] by {
            let moved = if i + 1 < len {
                before[i + 1]
            } else {
                input.last()
            };
            let fed = gf32_mul(before[0], generator[i]);
            lemma_mul_associative(c, before[0], generator[i]);
            lemma_mul_distributes(c, moved, fed);
        }
        assert(left =~= right);
    }
}

/// Every multiple of the generator's polynomial by one term reduces to zero:
/// `c x^k (x^L + g[0] x^(L-1) + ... + g[L-1])`. By additivity, so does every
/// sum of such multiples, which is every multiple of the generator's
/// polynomial.
pub proof fn lemma_generator_multiple_reduces_to_zero(c: u8, k: nat, generator: Seq<u8>)
    requires
        generator.len() > 0,
        is_element(c),
        all_elements(generator),
    ensures
        register_after(scaled(c, seq![1u8] + generator) + zeros(k), generator) == zeros(
            generator.len(),
        ),
{
    let term = seq![1u8] + generator;
    assert(all_elements(term)) by {
        assert forall|i: int| 0 <= i < term.len() implies is_element(#[trigger] term[i]) by {
            if i > 0 {
                assert(term[i] == generator[i - 1]);
            }
        }
    }
    lemma_generator_reduces_to_zero(generator);
    lemma_register_homogeneous(c, term, generator);
    assert(scaled(c, zeros(generator.len())) =~= zeros(generator.len())) by {
        lemma_mul_zero(c);
    }
    lemma_zero_input(0, generator);
    assert(zeros(0) =~= Seq::<u8>::empty());
    lemma_register_is_state(scaled(c, term), zeros(0), zeros(k), generator);
    assert(zeros(0) + zeros(k) =~= zeros(k));
    lemma_zero_input(k, generator);
}

/// The mask that carries a prefix into the first symbols of a body: the
/// prefix's residue, with zeros before it up to the generator's length and
/// zeros behind it up to the body's length.
pub open spec fn hrp_mask(prefix: Seq<u8>, generator: Seq<u8>, body_len: nat) -> Seq<u8> {
    let residue = hrp_residue_of(prefix, generator);
    zeros((generator.len() - residue.len()) as nat) + residue + zeros(
        (body_len - generator.len()) as nat,
    )
}

/// What the residue of a prefix is for: a body at least as long as the
/// generator, with the prefix's mask added to it, reduces to what the
/// prefix's expansion followed by the body reduces to.
pub proof fn lemma_hrp_residue_mixes(prefix: Seq<u8>, body: Seq<u8>, generator: Seq<u8>)
    requires
        body.len() >= generator.len(),
    ensures
        polymod_of(sum_of(hrp_mask(prefix, generator, body.len()), body), generator) == polymod_of(
            hrp_expansion(prefix, 0) + body,
            generator,
        ),
{
    let len = generator.len();
    let rest = (body.len() - len) as nat;
    let bare = hrp_expansion(prefix, 0);
    let padded = hrp_expansion(prefix, len);
    let register = register_after(padded, generator);
    let mask = hrp_mask(prefix, generator, body.len());
    // the mask is the register of the padded expansion, followed by zeros
    lemma_strip_is_suffix(register);
    assert(mask == register + zeros(rest));
    // and so reduces like the expansion followed by as many zeros as the body is long
    lemma_short_input(register, generator);
    assert(zeros(0) + register =~= register);
    lemma_register_is_state(register, padded, zeros(rest), generator);
    assert(padded + zeros(rest) =~= bare + zeros(body.len())) by {
        assert(zeros(0) =~= Seq::<u8>::empty());
        assert(padded =~= bare + zeros(len));
        assert(zeros(len) + zeros(rest) =~= zeros(body.len()));
    }
    // the expansion followed by the body is the sum of two inputs
    let left = bare + zeros(body.len());
    let right = zeros(bare.len()) + body;
    assert(sum_of(left, right) =~= bare + body) by {
        assert forall|i: int| 0 <= i < left.len() implies sum_of(left, right)[i] == (bare + body)[i] by {
            lemma_add_zero(left[i]);
            lemma_add_zero(right[i]);
        }
    }
    lemma_register_additive(left, right, generator);
    lemma_leading_zeros_ignored(bare.len(), body, generator);
    lemma_register_additive(mask, body, generator);
}

/// The last coefficient of the codex32 generator and of the bech32 generator
/// is not zero, and all their coefficients are field elements.
pub proof fn lemma_standard_generators()
    ensures
        codex32_generator().len() == 13,
        all_elements(codex32_generator()),
        codex32_generator().last() != 0,
        bech32_generator().len() == 6,
        all_elements(bech32_generator()),
        bech32_generator().last() != 0,
{
}

/// An input whose codex32 or bech32 residue is the polynomial `1` loses that
/// residue when any one of its symbols is replaced by another.
pub proof fn lemma_corruption_detected(input: Seq<u8>, at: int, symbol: u8)
    requires
        0 <= at < input.len(),
        is_element(input[at]),
        is_element(symbol),
        symbol != input[at],
    ensures
        polymod_of(input, codex32_generator()) == seq![1u8] ==> polymod_of(
            input.update(at, symbol),
            codex32_generator(),
        ) != seq![1u8],
        polymod_of(input, bech32_generator()) == seq![1u8] ==> polymod_of(
            input.update(at, symbol),
            bech32_generator(),
        ) != seq![1u8],
{
    lemma_standard_generators();
    lemma_substitution_changes_residue(input, at, symbol, codex32_generator());
    lemma_substitution_changes_residue(input, at, symbol, bech32_generator());
}

} // verus!
