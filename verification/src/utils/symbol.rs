//! One shared copy of each symbol.
use std::sync::Arc;
use vstd::prelude::*;

use crate::std_text::shared_text;
use crate::text::text_eq;

verus! {

/// Hands out shared copies of symbols, one for each symbol.
pub struct SymbolInitilizer {
    cache: Vec<Arc<str>>,
}

impl View for SymbolInitilizer {
    type V = Seq<Seq<char>>;

    /// The symbols seen so far, in the order in which they were first seen.
    closed spec fn view(&self) -> Seq<Seq<char>> {
        self.cache@.map_values(|s: Arc<str>| s@)
    }
}

impl Default for SymbolInitilizer {
    fn default() -> (r: Self)
        ensures
            r@ == Seq::<Seq<char>>::empty(),
            r.wf(),
    {
        let r = SymbolInitilizer { cache: Vec::new() };
        assert(r@ =~= Seq::<Seq<char>>::empty());
        r
    }
}

impl SymbolInitilizer {
    /// No symbol is held twice.
    pub open spec fn wf(&self) -> bool {
        self@.no_duplicates()
    }

    /// The shared copy of `symbol`, made when the symbol is first seen.
    pub fn get_val(&mut self, symbol: &str) -> (r: Arc<str>)
        requires
            old(self).wf(),
        ensures
            r@ == symbol@,
            final(self).wf(),
            final(self)@ == (if old(self)@.contains(symbol@) {
                old(self)@
            } else {
                old(self)@.push(symbol@)
            }),
    {
        let mut i: usize = 0;
        while i < self.cache.len()
            invariant
                i <= self.cache@.len(),
                *self == *old(self),
                old(self).wf(),
                forall|j: int| 0 <= j < i ==> #[trigger] self@[j] != symbol@,
            decreases self.cache@.len() - i,
        {
            assert(self@[i as int] == self.cache@[i as int]@);
            if text_eq(&*self.cache[i], symbol) {
                assert(self@.contains(symbol@));
                return self.cache[i].clone();
            }
            i = i + 1;
        }
        assert(!self@.contains(symbol@)) by {
            if self@.contains(symbol@) {
                let j = choose|j: int| 0 <= j < self@.len() && self@[j] == symbol@;
                assert(self@[j] != symbol@);
            }
        }
        let val: Arc<str> = shared_text(symbol);
        self.cache.push(val.clone());
        assert(self@ =~= old(self)@.push(symbol@));
        val
    }
}

} // verus!
