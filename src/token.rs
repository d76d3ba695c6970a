//! Token identifiers and a map from tokens to amounts.
use crate::amount::Amount;
use vstd::prelude::*;

verus! {

/// A 20-byte token address, held as its big-endian bytes 0..4, 4..12 and 12..20.
#[derive(Clone, Copy, Debug, PartialEq, Eq, Structural, Hash)]
pub struct Token {
    pub high: u32,
    pub middle: u64,
    pub low: u64,
}

impl Token {
    /// The address whose last eight bytes are `v` in big-endian order, the rest zero.
    pub fn from_low_u64_be(v: u64) -> (r: Token)
        ensures
            r == (Token { high: 0, middle: 0, low: v }),
    {
        Token { high: 0, middle: 0, low: v }
    }
}

/// A token and an amount of it.
#[derive(Clone, Copy, Debug, PartialEq, Eq, Hash)]
pub struct TokenAmount {
    pub token: Token,
    pub amount: Amount,
}

/// A finite map from tokens to amounts, kept as a list of entries with
/// distinct tokens.
pub struct TokenMap {
    entries: Vec<(Token, Amount)>,
    model: Ghost<Map<Token, nat>>,
}

impl View for TokenMap {
    type V = Map<Token, nat>;

    closed spec fn view(&self) -> Map<Token, nat> {
        self.model@
    }
}

/// The value of `t` in `m`, zero where `m` has none.
pub open spec fn value_or_zero(m: Map<Token, nat>, t: Token) -> nat {
    if m.contains_key(t) {
        m[t]
    } else {
        0
    }
}

impl TokenMap {
    /// The map is well formed: distinct tokens, and entries that agree with the view.
    pub closed spec fn wf(&self) -> bool {
        &&& forall|i: int, j: int|
            0 <= i < j < self.entries@.len() ==> #[trigger] self.entries@[i].0
                != #[trigger] self.entries@[j].0
        &&& forall|i: int|
            0 <= i < self.entries@.len() ==> {
                &&& self.model@.contains_key(#[trigger] self.entries@[i].0)
                &&& self.model@[self.entries@[i].0] == self.entries@[i].1@
            }
        &&& forall|t: Token| #[trigger]
            self.model@.contains_key(t) ==> exists|i: int|
                0 <= i < self.entries@.len() && #[trigger] self.entries@[i].0 == t
        &&& self.model@.dom().finite()
    }

    /// The number of tokens in the map, a spec view of `len`.
    pub closed spec fn spec_len(&self) -> nat {
        self.entries@.len()
    }

    /// The token of the `i`-th entry.
    pub closed spec fn key_at(&self, i: int) -> Token {
        self.entries@[i].0
    }

    /// The keys of a well-formed map are exactly those of its entries.
    pub proof fn lemma_keys(&self)
        requires
            self.wf(),
        ensures
            forall|i: int| 0 <= i < self.spec_len() ==> self@.contains_key(#[trigger] self.key_at(i)),
            forall|t: Token| #[trigger]
                self@.contains_key(t) ==> exists|i: int|
                    0 <= i < self.spec_len() && #[trigger] self.key_at(i) == t,
            self@.dom().finite(),
    {
        assert forall|t: Token| #[trigger] self@.contains_key(t) implies exists|i: int|
            0 <= i < self.spec_len() && #[trigger] self.key_at(i) == t by {
            let i = choose|i: int| 0 <= i < self.entries@.len() && #[trigger] self.entries@[i].0 == t;
            assert(self.key_at(i) == t);
        }
    }

    /// The empty map.
    pub fn new() -> (r: TokenMap)
        ensures
            r.wf(),
            r@ == Map::<Token, nat>::empty(),
    {
        TokenMap { entries: Vec::new(), model: Ghost(Map::empty()) }
    }

    /// The number of tokens in the map.
    pub fn len(&self) -> (r: usize)
        requires
            self.wf(),
        ensures
            r == self.spec_len(),
            r == self@.dom().len(),
    {
        proof {
            self.lemma_dom_len();
        }
        self.entries.len()
    }

    proof fn lemma_dom_len(&self)
        requires
            self.wf(),
        ensures
            self.entries@.len() == self@.dom().len(),
    {
        let keys = self.entries@.map_values(|e: (Token, Amount)| e.0);
        assert(keys.no_duplicates()) by {
            assert forall|i: int, j: int|
                0 <= i < keys.len() && 0 <= j < keys.len() && i != j implies keys[i] != keys[j] by {
                if i < j {
                    assert(self.entries@[i].0 != self.entries@[j].0);
                } else {
                    assert(self.entries@[j].0 != self.entries@[i].0);
                }
            }
        }
        assert(keys.to_set() =~= self@.dom()) by {
            assert forall|t: Token| self@.dom().contains(t) implies keys.to_set().contains(t) by {
                let i = choose|i: int| 0 <= i < self.entries@.len() && #[trigger] self.entries@[i].0 == t;
                assert(keys[i] == t);
            }
            assert forall|t: Token| keys.to_set().contains(t) implies self@.dom().contains(t) by {
                let i = choose|i: int| 0 <= i < keys.len() && keys[i] == t;
                assert(self.entries@[i].0 == t);
            }
        }
        keys.unique_seq_to_set();
    }

    /// A copy of the map.
    pub fn duplicate(&self) -> (r: TokenMap)
        requires
            self.wf(),
        ensures
            r.wf(),
            r@ == self@,
            r.spec_len() == self.spec_len(),
            forall|i: int| 0 <= i < self.spec_len() ==> r.key_at(i) == self.key_at(i),
    {
        let mut entries: Vec<(Token, Amount)> = Vec::new();
        let mut i: usize = 0;
        while i < self.entries.len()
            invariant
                i <= self.entries@.len(),
                entries@ == self.entries@.subrange(0, i as int),
            decreases self.entries@.len() - i,
        {
            entries.push(self.entries[i]);
            i = i + 1;
        }
        assert(entries@ =~= self.entries@);
        let r = TokenMap { entries, model: Ghost(self.model@) };
        assert(r.entries@ == self.entries@ && r.model@ == self.model@);
        r
    }

    /// The `i`-th entry.
    pub fn entry_at(&self, i: usize) -> (r: (Token, Amount))
        requires
            self.wf(),
            i < self.spec_len(),
        ensures
            r.0 == self.key_at(i as int),
            self@.contains_key(r.0),
            self@[r.0] == r.1@,
    {
        self.entries[i]
    }

    fn find(&self, t: &Token) -> (r: Option<usize>)
        requires
            self.wf(),
        ensures
            r is Some <==> self@.contains_key(*t),
            r is Some ==> r->0 < self.entries@.len() && self.entries@[r->0 as int].0 == *t,
    {
        let mut i: usize = 0;
        while i < self.entries.len()
            invariant
                self.wf(),
                i <= self.entries@.len(),
                forall|k: int| 0 <= k < i ==> self.entries@[k].0 != *t,
            decreases self.entries@.len() - i,
        {
            if self.entries[i].0 == *t {
                return Some(i);
            }
            i = i + 1;
        }
        None
    }

    /// The amount of `t`, if the map has one.
    pub fn get(&self, t: &Token) -> (r: Option<Amount>)
        requires
            self.wf(),
        ensures
            r is Some <==> self@.contains_key(*t),
            r is Some ==> r->0@ == self@[*t],
    {
        match self.find(t) {
            Some(i) => Some(self.entries[i].1),
            None => None,
        }
    }

    /// Sets the amount of `t` to `a`.
    pub fn insert(&mut self, t: Token, a: Amount)
        requires
            old(self).wf(),
        ensures
            final(self).wf(),
            final(self)@ == old(self)@.insert(t, a@),
    {
        let ghost m = self.model@.insert(t, a@);
        match self.find(&t) {
            Some(i) => {
                self.entries.set(i, (t, a));
                self.model = Ghost(m);
                assert forall|t2: Token| #[trigger] self.model@.contains_key(t2) implies exists|k: int|
                    0 <= k < self.entries@.len() && #[trigger] self.entries@[k].0 == t2 by {
                    if t2 != t {
                        let k = choose|k: int| 0 <= k < old(self).entries@.len() && #[trigger] old(self).entries@[k].0 == t2;
                        assert(self.entries@[k].0 == t2);
                    } else {
                        assert(self.entries@[i as int].0 == t2);
                    }
                }
            },
            None => {
                self.entries.push((t, a));
                self.model = Ghost(m);
                let ghost n = self.entries@.len() - 1;
                assert forall|t2: Token| #[trigger] self.model@.contains_key(t2) implies exists|k: int|
                    0 <= k < self.entries@.len() && #[trigger] self.entries@[k].0 == t2 by {
                    if t2 != t {
                        let k = choose|k: int| 0 <= k < old(self).entries@.len() && #[trigger] old(self).entries@[k].0 == t2;
                        assert(self.entries@[k].0 == t2);
                    } else {
                        assert(self.entries@[n].0 == t2);
                    }
                }
            },
        }
    }
}

} // verus!
