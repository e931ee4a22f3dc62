//! Elements of the field with 32 elements, their arithmetic and their symbols.
//!
//! An element is a polynomial over GF(2) of degree below five, held as the five
//! low bits of a byte (its binary expression). Sums are taken coefficient by
//! coefficient; products are taken modulo `x^5 + x^3 + 1`.

use vstd::prelude::*;

verus! {

/// Whether a byte is the binary expression of a field element.
pub open spec fn is_element(v: u8) -> bool {
    v < 32
}

/// Sum of two field elements: the sum of their coefficients over GF(2).
pub open spec fn gf32_add(a: u8, b: u8) -> u8 {
    a ^ b
}

/// Product over GF(2) of two polynomials of degree below five, before any reduction.
pub open spec fn carryless_product(a: u8, b: u8) -> u16 {
    let wide: u16 = b as u16;
    (if a & 1 == 1 { wide } else { 0u16 })
        ^ (if a & 2 == 2 { wide << 1 } else { 0u16 })
        ^ (if a & 4 == 4 { wide << 2 } else { 0u16 })
        ^ (if a & 8 == 8 { wide << 3 } else { 0u16 })
        ^ (if a & 16 == 16 { wide << 4 } else { 0u16 })
}

/// Remainder of a polynomial of degree below nine modulo `x^5 + x^3 + 1`
/// (bits 5, 3 and 0): the multiples of the modulus by `x^3`, `x^2`, `x` and `1`
/// are taken off from the highest term down.
pub open spec fn reduce(p: u16) -> u8 {
    let below8: u16 = if p & 0x100 == 0x100 { p ^ 0x148 } else { p };
    let below7: u16 = if below8 & 0x80 == 0x80 { below8 ^ 0xa4 } else { below8 };
    let below6: u16 = if below7 & 0x40 == 0x40 { below7 ^ 0x52 } else { below7 };
    let below5: u16 = if below6 & 0x20 == 0x20 { below6 ^ 0x29 } else { below6 };
    (below5 & 0x1f) as u8
}

/// Product of two field elements.
pub open spec fn gf32_mul(a: u8, b: u8) -> u8 {
    reduce(carryless_product(a, b))
}

/// The binary expressions of a sequence of field elements.
pub open spec fn values(s: Seq<Fe>) -> Seq<u8> {
    s.map_values(|e: Fe| e@)
}

/// The symbols that elements are written as, in the order of the binary
/// expressions: 32 different characters.
pub const BECH32_ALPHABET: &'static str = "QPZRY9X8GF2TVDW0S3JN54KHCE6MUA7L";

/// The symbol that the element `v` is written as.
pub open spec fn symbol_of(v: u8) -> char {
    BECH32_ALPHABET@[v as int]
}

/// The element that the symbol `ch` is read as, if it is read as any: the
/// place of `ch` among the symbols.
pub open spec fn value_of(ch: char) -> Option<u8> {
    match ch {
        'Q' => Some(0u8),
        'P' => Some(1u8),
        'Z' => Some(2u8),
        'R' => Some(3u8),
        'Y' => Some(4u8),
        '9' => Some(5u8),
        'X' => Some(6u8),
        '8' => Some(7u8),
        'G' => Some(8u8),
        'F' => Some(9u8),
        '2' => Some(10u8),
        'T' => Some(11u8),
        'V' => Some(12u8),
        'D' => Some(13u8),
        'W' => Some(14u8),
        '0' => Some(15u8),
        'S' => Some(16u8),
        '3' => Some(17u8),
        'J' => Some(18u8),
        'N' => Some(19u8),
        '5' => Some(20u8),
        '4' => Some(21u8),
        'K' => Some(22u8),
        'H' => Some(23u8),
        'C' => Some(24u8),
        'E' => Some(25u8),
        '6' => Some(26u8),
        'M' => Some(27u8),
        'U' => Some(28u8),
        'A' => Some(29u8),
        '7' => Some(30u8),
        'L' => Some(31u8),
        _ => None,
    }
}

/// The text that reports a character which is read as no element.
pub open spec fn invalid_character_message(ch: char) -> Seq<char> {
    "invalid bech32 character "@.push(ch)
}

/// A single element of the field.
#[derive(Copy, Clone, PartialEq, Eq, Debug, Structural)]
pub struct Fe(u8);

impl View for Fe {
    type V = u8;

    /// The binary expression of the element.
    closed spec fn view(&self) -> u8 {
        self.0
    }
}

impl Fe {
    /// Every element that executable code can hold lies in the field.
    #[verifier::type_invariant]
    pub open spec fn in_field(self) -> bool {
        is_element(self@)
    }

    /// The additive identity.
    pub fn zero() -> (r: Self)
        ensures
            r@ == 0,
    {
        Fe(0)
    }

    /// The multiplicative identity.
    pub fn one() -> (r: Self)
        ensures
            r@ == 1,
    {
        Fe(1)
    }

    /// The element with the binary expression `n`.
    pub fn from_bin(n: u8) -> (r: Self)
        requires
            is_element(n),
        ensures
            r@ == n,
    {
        Fe(n)
    }

    /// The binary expression of the element.
    pub fn to_bin(self) -> (n: u8)
        ensures
            n == self@,
            is_element(n),
    {
        proof {
            use_type_invariant(&self);
        }
        self.0
    }

    /// Adds two elements: the exclusive or of the two binary expressions.
    fn sum(self, other: Fe) -> (r: Fe)
        ensures
            r@ == gf32_add(self@, other@),
    {
        proof {
            use_type_invariant(&self);
            use_type_invariant(&other);
        }
        let a: u8 = self.0;
        let b: u8 = other.0;
        assert(a ^ b < 32) by (bit_vector)
            requires
                a < 32,
                b < 32,
        ;
        Fe(a ^ b)
    }

    /// Multiplies two elements by shifting and adding: for each term of `self`,
    /// from the lowest up, the matching multiple of `other` by a power of `x`
    /// is added; that multiple is kept reduced as it is doubled.
    fn product(self, other: Fe) -> (r: Fe)
        ensures
            r@ == gf32_mul(self@, other@),
    {
        proof {
            use_type_invariant(&self);
            use_type_invariant(&other);
        }
        let mut fe1: u8 = self.0;
        let mut fe2: u8 = other.0;
        let mut ret: u8 = 0;
        assert(0u8 ^ gf32_mul(fe1, fe2) == gf32_mul(fe1, fe2)) by (bit_vector);
        while fe1 > 0
            invariant
                fe1 < 32,
                fe2 < 32,
                ret < 32,
                gf32_mul(self@, other@) == ret ^ gf32_mul(fe1, fe2),
            decreases fe1,
        {
            let ghost a = fe1;
            let ghost b = fe2;
            let ghost acc = ret;
            proof {
                lemma_mul_round(a, b);
            }
            if fe1 & 1 == 1 {
                ret ^= fe2;
            }
            fe1 >>= 1;
            fe2 <<= 1;
            if fe2 & 32 == 32 {
                fe2 ^= 32 + 8 + 1;
            }
            assert(ret < 32 && (acc ^ gf32_mul(a, b)) == (ret ^ gf32_mul(fe1, fe2))) by (bit_vector)
                requires
                    acc < 32,
                    b < 32,
                    ret == (if a & 1 == 1 { acc ^ b } else { acc }),
                    gf32_mul(a, b) == (if a & 1 == 1 { b } else { 0u8 }) ^ gf32_mul(fe1, fe2),
            ;
        }
        assert(ret ^ gf32_mul(0u8, fe2) == ret) by (bit_vector);
        Fe(ret)
    }
}

/// What one round of the multiplication loop leaves to be done: the lowest term
/// of `a` has been used, and `b` has been multiplied by `x` in the field.
proof fn lemma_mul_round(a: u8, b: u8)
    by (bit_vector)
    requires
        0 < a < 32,
        b < 32,
    ensures
        (a >> 1) < a,
        (if (b << 1) & 32 == 32 { (b << 1) ^ 41 } else { b << 1 }) < 32,
        gf32_mul(a, b) == (if a & 1 == 1 { b } else { 0u8 }) ^ gf32_mul(
            a >> 1,
            if (b << 1) & 32 == 32 { (b << 1) ^ 41 } else { b << 1 },
        ),
        gf32_mul(a, b) < 32,
{
}

/// The binary expressions of a sequence that has grown by one element.
pub proof fn lemma_values_push(s: Seq<Fe>, e: Fe)
    ensures
        values(s.push(e)) == values(s).push(e@),
{
    assert(values(s.push(e)) =~= values(s).push(e@));
}

/// Two elements are equal exactly when their binary expressions are.
pub proof fn lemma_view_injective(a: Fe, b: Fe)
    ensures
        (a@ == b@) <==> (a == b),
{
}

impl core::ops::Add<Fe> for Fe {
    type Output = Fe;

    /// Field addition.
    fn add(self, other: Fe) -> (r: Fe)
        ensures
            r@ == gf32_add(self@, other@),
    {
        self.sum(other)
    }
}

impl vstd::std_specs::ops::AddSpecImpl<Fe> for Fe {
    open spec fn obeys_add_spec() -> bool {
        true
    }

    open spec fn add_req(self, other: Fe) -> bool {
        true
    }

    closed spec fn add_spec(self, other: Fe) -> Fe {
        Fe(gf32_add(self.0, other.0))
    }
}

impl<'a> core::ops::Add<&'a Fe> for Fe {
    type Output = Fe;

    /// Field addition.
    fn add(self, other: &'a Fe) -> (r: Fe)
        ensures
            r@ == gf32_add(self@, other@),
    {
        self.sum(*other)
    }
}

impl<'a> vstd::std_specs::ops::AddSpecImpl<&'a Fe> for Fe {
    open spec fn obeys_add_spec() -> bool {
        true
    }

    open spec fn add_req(self, other: &'a Fe) -> bool {
        true
    }

    closed spec fn add_spec(self, other: &'a Fe) -> Fe {
        Fe(gf32_add(self.0, other.0))
    }
}

impl core::ops::Mul<Fe> for Fe {
    type Output = Fe;

    /// Field multiplication.
    fn mul(self, other: Fe) -> (r: Fe)
        ensures
            r@ == gf32_mul(self@, other@),
    {
        self.product(other)
    }
}

impl vstd::std_specs::ops::MulSpecImpl<Fe> for Fe {
    open spec fn obeys_mul_spec() -> bool {
        true
    }

    open spec fn mul_req(self, other: Fe) -> bool {
        true
    }

    closed spec fn mul_spec(self, other: Fe) -> Fe {
        Fe(gf32_mul(self.0, other.0))
    }
}

impl<'a> core::ops::Mul<&'a Fe> for Fe {
    type Output = Fe;

    /// Field multiplication.
    fn mul(self, other: &'a Fe) -> (r: Fe)
        ensures
            r@ == gf32_mul(self@, other@),
    {
        self.product(*other)
    }
}

impl<'a> vstd::std_specs::ops::MulSpecImpl<&'a Fe> for Fe {
    open spec fn obeys_mul_spec() -> bool {
        true
    }

    open spec fn mul_req(self, other: &'a Fe) -> bool {
        true
    }

    closed spec fn mul_spec(self, other: &'a Fe) -> Fe {
        Fe(gf32_mul(self.0, other.0))
    }
}

impl From<Fe> for char {
    /// The symbol that the element is written as.
    fn from(fe: Fe) -> (c: char)
        ensures
            c == symbol_of(fe@),
    {
        proof {
            use_type_invariant(&fe);
            reveal_strlit("QPZRY9X8GF2TVDW0S3JN54KHCE6MUA7L");
        }
        BECH32_ALPHABET.get_char(fe.0 as usize)
    }
}

impl vstd::std_specs::convert::FromSpecImpl<Fe> for char {
    open spec fn obeys_from_spec() -> bool {
        true
    }

    open spec fn from_spec(fe: Fe) -> char {
        symbol_of(fe@)
    }
}

/// `String::push` of the standard library appends the character to the end of
/// the string and leaves the characters before it as they were. Not proved:
/// taken from the documentation of the standard library.
pub assume_specification[ String::push ](s: &mut String, ch: char)
    ensures
        final(s)@ == old(s)@.push(ch),
;

impl TryFrom<char> for Fe {
    type Error = String;

    /// Reads a symbol. A character that is read as no element is refused with
    /// a text that names it.
    fn try_from(ch: char) -> (r: Result<Self, String>)
        ensures
            match value_of(ch) {
                Some(v) => r is Ok && r->Ok_0@ == v,
                None => r is Err && r->Err_0@ == invalid_character_message(ch),
            },
    {
        match ch {
            'Q' => Ok(Fe(0x00)),
            'P' => Ok(Fe(0x01)),
            'Z' => Ok(Fe(0x02)),
            'R' => Ok(Fe(0x03)),
            'Y' => Ok(Fe(0x04)),
            '9' => Ok(Fe(0x05)),
            'X' => Ok(Fe(0x06)),
            '8' => Ok(Fe(0x07)),
            'G' => Ok(Fe(0x08)),
            'F' => Ok(Fe(0x09)),
            '2' => Ok(Fe(0x0a)),
            'T' => Ok(Fe(0x0b)),
            'V' => Ok(Fe(0x0c)),
            'D' => Ok(Fe(0x0d)),
            'W' => Ok(Fe(0x0e)),
            '0' => Ok(Fe(0x0f)),
            'S' => Ok(Fe(0x10)),
            '3' => Ok(Fe(0x11)),
            'J' => Ok(Fe(0x12)),
            'N' => Ok(Fe(0x13)),
            '5' => Ok(Fe(0x14)),
            '4' => Ok(Fe(0x15)),
            'K' => Ok(Fe(0x16)),
            'H' => Ok(Fe(0x17)),
            'C' => Ok(Fe(0x18)),
            'E' => Ok(Fe(0x19)),
            '6' => Ok(Fe(0x1a)),
            'M' => Ok(Fe(0x1b)),
            'U' => Ok(Fe(0x1c)),
            'A' => Ok(Fe(0x1d)),
            '7' => Ok(Fe(0x1e)),
            'L' => Ok(Fe(0x1f)),
            x => {
                let mut message = String::from_str("invalid bech32 character ");
                message.push(x);
                Err(message)
            },
        }
    }
}

/// What `try_from` returns is stated on the function itself: two error texts
/// are told apart by their characters only, so no value of `String` can be
/// named here as the one that is returned.
impl vstd::std_specs::convert::TryFromSpecImpl<char> for Fe {
    open spec fn obeys_try_from_spec() -> bool {
        false
    }

    closed spec fn try_from_spec(ch: char) -> Result<Self, String> {
        arbitrary()
    }
}

} // verus!
