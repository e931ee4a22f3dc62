//! A share: a string of symbols of which some may not be known.

use vstd::prelude::*;
use crate::fe::Fe;

verus! {

/// The binary expression of a symbol that is known.
pub open spec fn symbol_value(symbol: Option<Fe>) -> Option<u8> {
    match symbol {
        Some(e) => Some(e@),
        None => None,
    }
}

/// A share: its symbols in order, each either known or not.
#[derive(Debug)]
pub struct Share(Vec<Option<Fe>>);

impl View for Share {
    type V = Seq<Option<u8>>;

    /// The symbols in order, the known ones by their binary expressions.
    closed spec fn view(&self) -> Seq<Option<u8>> {
        self.0@.map_values(|symbol: Option<Fe>| symbol_value(symbol))
    }
}

impl Share {
    /// The share with the given symbols.
    pub fn new(symbols: Vec<Option<Fe>>) -> (r: Share)
        ensures
            r@ == symbols@.map_values(|symbol: Option<Fe>| symbol_value(symbol)),
    {
        Share(symbols)
    }

    /// The number of symbols, known or not.
    pub fn len(&self) -> (n: usize)
        ensures
            n == self@.len(),
    {
        self.0.len()
    }

    /// The symbol at `idx`, if the share is that long and the symbol is known.
    pub fn get(&self, idx: usize) -> (r: Option<Fe>)
        ensures
            symbol_value(r) == (if idx < self@.len() {
                self@[idx as int]
            } else {
                None
            }),
    {
        if idx < self.0.len() {
            self.0[idx]
        } else {
            None
        }
    }
}

impl Clone for Share {
    fn clone(&self) -> (r: Self)
        ensures
            r@ == self@,
    {
        let mut symbols: Vec<Option<Fe>> = Vec::new();
        let mut i: usize = 0;
        while i < self.0.len()
            invariant
                i <= self.0@.len(),
                symbols@ == self.0@.take(i as int),
            decreases self.0@.len() - i,
        {
            symbols.push(self.0[i]);
            assert(symbols@ =~= self.0@.take(i + 1));
            i += 1;
        }
        assert(symbols@ =~= self.0@);
        Share(symbols)
    }
}

impl PartialEq for Share {
    /// Two shares are equal when they are equally long and agree at every
    /// place, on whether the symbol is known and on which it is.
    fn eq(&self, other: &Self) -> (equal: bool) {
        if self.0.len() != other.0.len() {
            assert(self@.len() != other@.len());
            return false;
        }
        let mut i: usize = 0;
        while i < self.0.len()
            invariant
                i <= self.0@.len(),
                self.0@.len() == other.0@.len(),
                forall|j: int| 0 <= j < i ==> self@[j] == other@[j],
            decreases self.0@.len() - i,
        {
            let same = match (self.0[i], other.0[i]) {
                (Some(a), Some(b)) => a.to_bin() == b.to_bin(),
                (None, None) => true,
                _ => false,
            };
            if !same {
                assert(self@[i as int] != other@[i as int]);
                return false;
            }
            i += 1;
        }
        assert(self@ =~= other@);
        true
    }
}

impl vstd::std_specs::cmp::PartialEqSpecImpl for Share {
    open spec fn obeys_eq_spec() -> bool {
        true
    }

    open spec fn eq_spec(&self, other: &Self) -> bool {
        self@ == other@
    }
}

impl Eq for Share {

}

} // verus!
