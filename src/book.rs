use vstd::prelude::*;

verus! {

/// The open positions of a portfolio, at most one per symbol.
pub struct PositionBook<P> {
    entries: Vec<(String, P)>,
    model: Ghost<Map<Seq<char>, P>>,
}

impl<P> PositionBook<P> {
    /// The open position of each symbol.
    pub closed spec fn view(&self) -> Map<Seq<char>, P> {
        self.model@
    }

    /// Each symbol is listed once, and the list holds exactly the model.
    pub closed spec fn wf(&self) -> bool {
        let e = self.entries@;
        let m = self.model@;
        &&& forall|a: int, b: int| 0 <= a < b < e.len() ==> (#[trigger] e[a]).0@ != (#[trigger] e[b]).0@
        &&& forall|k: int| 0 <= k < e.len() ==> m.contains_key((#[trigger] e[k]).0@) && m[e[k].0@] == e[k].1
        &&& forall|key: Seq<char>| #[trigger] m.contains_key(key) ==> exists|k: int|
            0 <= k < e.len() && (#[trigger] e[k]).0@ == key
    }

    /// A book without positions.
    pub fn new() -> (r: PositionBook<P>)
        ensures
            r.wf(),
            r@ == Map::<Seq<char>, P>::empty(),
    {
        PositionBook { entries: Vec::new(), model: Ghost(Map::empty()) }
    }

    /// Where the position of `symbol` is listed, if one is open.
    fn find(&self, symbol: &String) -> (r: Option<usize>)
        requires
            self.wf(),
        ensures
            r is None ==> !self@.contains_key(symbol@),
            r is Some ==> r->Some_0 < self.entries.len() && self.entries[r->Some_0 as int].0@
                == symbol@,
    {
        let mut i: usize = 0;
        while i < self.entries.len()
            invariant
                i <= self.entries.len(),
                forall|q: int| 0 <= q < i ==> self.entries[q].0@ != symbol@,
            decreases self.entries.len() - i,
        {
            if self.entries[i].0 == *symbol {
                return Some(i);
            }
            i = i + 1;
        }
        proof {
            if self@.contains_key(symbol@) {
                let k = choose|k: int|
                    0 <= k < self.entries.len() && (#[trigger] self.entries@[k]).0@ == symbol@;
                assert(self.entries[k].0@ != symbol@);
            }
        }
        None
    }

    /// A position of `symbol` is open.
    pub fn holds(&self, symbol: &String) -> (r: bool)
        requires
            self.wf(),
        ensures
            r == self@.contains_key(symbol@),
    {
        match self.find(symbol) {
            Some(_) => true,
            None => false,
        }
    }

    /// The open position of `symbol`, if any.
    pub fn get(&self, symbol: &String) -> (r: Option<&P>)
        requires
            self.wf(),
        ensures
            r is None <==> !self@.contains_key(symbol@),
            r is Some ==> *(r->Some_0) == self@[symbol@],
    {
        match self.find(symbol) {
            Some(i) => Some(&self.entries[i].1),
            None => None,
        }
    }

    /// Number of open positions.
    pub fn len(&self) -> (r: usize)
        requires
            self.wf(),
        ensures
            r == self@.len(),
    {
        proof {
            self.lemma_len();
        }
        self.entries.len()
    }

    proof fn lemma_len(&self)
        requires
            self.wf(),
        ensures
            self@.len() == self.entries.len(),
            self@.dom().finite(),
    {
        let e = self.entries@;
        let keys = e.map_values(|x: (String, P)| x.0@);
        assert forall|a: int, b: int| 0 <= a < b < keys.len() implies keys[a] != keys[b] by {
            assert(e[a].0@ != e[b].0@);
        }
        assert(keys.no_duplicates());
        assert forall|key: Seq<char>| self@.dom().contains(key) <==> keys.to_set().contains(key) by {
            if self@.contains_key(key) {
                let k = choose|k: int| 0 <= k < e.len() && (#[trigger] e[k]).0@ == key;
                assert(keys[k] == key);
            }
            if keys.to_set().contains(key) {
                let k = choose|k: int| 0 <= k < keys.len() && keys[k] == key;
                assert(e[k].0@ == key);
            }
        }
        assert(self@.dom() =~= keys.to_set());
        keys.unique_seq_to_set();
    }

    /// Opens `position` for `symbol` unless one is already open; returns
    /// whether it was opened. An open position is never replaced.
    pub fn open(&mut self, symbol: String, position: P) -> (r: bool)
        requires
            old(self).wf(),
        ensures
            final(self).wf(),
            r == !old(self)@.contains_key(symbol@),
            r ==> final(self)@ == old(self)@.insert(symbol@, position),
            !r ==> final(self)@ == old(self)@,
    {
        match self.find(&symbol) {
            Some(_) => false,
            None => {
                let ghost before = self.entries@;
                let ghost key = symbol@;
                self.model = Ghost(self.model@.insert(symbol@, position));
                self.entries.push((symbol, position));
                proof {
                    let e = self.entries@;
                    let m = self.model@;
                    assert(e[before.len() as int].0@ == key);
                    assert forall|k: int| 0 <= k < e.len() implies m.contains_key(
                        (#[trigger] e[k]).0@,
                    ) && m[e[k].0@] == e[k].1 by {
                        if k < before.len() {
                            assert(e[k] == before[k]);
                        }
                    }
                    assert forall|key2: Seq<char>| #[trigger] m.contains_key(key2) implies exists|k: int|
                        0 <= k < e.len() && (#[trigger] e[k]).0@ == key2 by {
                        if key2 != key {
                            let k = choose|k: int| 0 <= k < before.len() && (#[trigger] before[k]).0@ == key2;
                            assert(e[k].0@ == key2);
                        }
                    }
                }
                true
            },
        }
    }

    /// Closes the position of `symbol` and hands it back, if one is open.
    pub fn close(&mut self, symbol: &String) -> (r: Option<P>)
        requires
            old(self).wf(),
        ensures
            final(self).wf(),
            final(self)@ == old(self)@.remove(symbol@),
            r is None <==> !old(self)@.contains_key(symbol@),
            r is Some ==> r->Some_0 == old(self)@[symbol@],
    {
        match self.find(symbol) {
            None => {
                proof {
                    assert(self@.remove(symbol@) =~= self@);
                }
                None
            },
            Some(i) => {
                let ghost before = self.entries@;
                let ghost key = symbol@;
                self.model = Ghost(self.model@.remove(symbol@));
                let (_, position) = self.entries.remove(i);
                proof {
                    let e = self.entries@;
                    let m = self.model@;
                    assert(e == before.remove(i as int));
                    assert forall|k: int| 0 <= k < e.len() implies m.contains_key(
                        (#[trigger] e[k]).0@,
                    ) && m[e[k].0@] == e[k].1 by {
                        if k < i {
                            assert(e[k] == before[k]);
                        } else {
                            assert(e[k] == before[k + 1]);
                        }
                    }
                    assert forall|key2: Seq<char>| #[trigger] m.contains_key(key2) implies exists|k: int|
                        0 <= k < e.len() && (#[trigger] e[k]).0@ == key2 by {
                        let k = choose|k: int| 0 <= k < before.len() && (#[trigger] before[k]).0@ == key2;
                        assert(k != i);
                        if k < i {
                            assert(e[k].0@ == key2);
                        } else {
                            assert(e[k - 1].0@ == key2);
                        }
                    }
                    assert forall|a: int, b: int|
                        0 <= a < b < e.len() implies (#[trigger] e[a]).0@ != (#[trigger] e[b]).0@ by {
                        let a2 = if a < i { a } else { a + 1 };
                        let b2 = if b < i { b } else { b + 1 };
                        assert(e[a] == before[a2]);
                        assert(e[b] == before[b2]);
                    }
                }
                Some(position)
            },
        }
    }
}

} // verus!
