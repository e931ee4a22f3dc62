//! How writing an element as a symbol and reading a symbol as an element fit
//! together: the two are inverse to each other, between the 32 elements and
//! the 32 symbols.

use vstd::prelude::*;
use crate::fe::is_element;
use crate::fe::symbol_of;
use crate::fe::value_of;

verus! {

/// Reading the symbol that an element is written as gives the element back.
pub proof fn lemma_write_then_read(v: u8)
    requires
        is_element(v),
    ensures
        value_of(symbol_of(v)) == Some(v),
{
    reveal_strlit("QPZRY9X8GF2TVDW0S3JN54KHCE6MUA7L");
}

/// Writing the element that a symbol is read as gives the symbol back.
pub proof fn lemma_read_then_write(ch: char)
    requires
        value_of(ch) is Some,
    ensures
        is_element(value_of(ch)->Some_0),
        symbol_of(value_of(ch)->Some_0) == ch,
{
    reveal_strlit("QPZRY9X8GF2TVDW0S3JN54KHCE6MUA7L");
}

/// No two elements are written as the same symbol.
pub proof fn lemma_write_injective(a: u8, b: u8)
    requires
        is_element(a),
        is_element(b),
        symbol_of(a) == symbol_of(b),
    ensures
        a == b,
{
    lemma_write_then_read(a);
    lemma_write_then_read(b);
}

/// The symbols that are read as an element are read as field elements, and
/// no two of them as the same one.
pub proof fn lemma_read_injective(a: char, b: char)
    requires
        value_of(a) is Some,
        value_of(a) == value_of(b),
    ensures
        is_element(value_of(a)->Some_0),
        a == b,
{
}

/// A character is read as an element exactly when some element is written
/// as it: the symbols that are read are the symbols that are written.
pub proof fn lemma_read_exactly_the_written(ch: char)
    ensures
        value_of(ch) is Some <==> exists|v: u8| is_element(v) && symbol_of(v) == ch,
{
    if value_of(ch) is Some {
        lemma_read_then_write(ch);
        let v = value_of(ch)->Some_0;
        assert(is_element(v) && symbol_of(v) == ch);
    }
    if exists|v: u8| is_element(v) && symbol_of(v) == ch {
        let v = choose|v: u8| is_element(v) && symbol_of(v) == ch;
        lemma_write_then_read(v);
    }
}

} // verus!
