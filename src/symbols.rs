use vstd::prelude::*;

verus! {

/// The text of each symbol.
pub open spec fn symbol_views(v: Seq<String>) -> Seq<Seq<char>> {
    v.map_values(|s: String| s@)
}

/// The distinct symbols of `s`, each once, in order of first appearance.
pub open spec fn distinct_symbols(s: Seq<Seq<char>>) -> Seq<Seq<char>>
    decreases s.len(),
{
    if s.len() == 0 {
        seq![]
    } else {
        let d = distinct_symbols(s.drop_last());
        if d.contains(s.last()) {
            d
        } else {
            d.push(s.last())
        }
    }
}

/// No symbol occurs twice in `s`.
pub open spec fn no_repeats(s: Seq<Seq<char>>) -> bool {
    forall|a: int, b: int| 0 <= a < b < s.len() ==> s[a] != s[b]
}

/// Each record's symbol, numbered by the order in which symbols first appear.
pub struct SymbolIds {
    /// The distinct symbols; symbol number `g` is `names[g]`.
    pub names: Vec<String>,
    /// The symbol number of each record.
    pub ids: Vec<usize>,
}

/// Numbers the symbols of the records: the first symbol seen is 0, the next
/// new one 1, and so on; every record carries the number of its symbol.
pub fn assign_symbol_ids(symbols: &Vec<String>) -> (r: SymbolIds)
    ensures
        symbol_views(r.names@) == distinct_symbols(symbol_views(symbols@)),
        no_repeats(symbol_views(r.names@)),
        r.ids.len() == symbols.len(),
        forall|k: int|
            0 <= k < symbols.len() ==> (#[trigger] r.ids[k] as int) < r.names.len() && r.names[r.ids[k] as int]@
                == symbols[k]@,
{
    let n = symbols.len();
    let mut names: Vec<String> = Vec::new();
    let mut ids: Vec<usize> = Vec::new();
    let ghost all = symbol_views(symbols@);
    let mut i: usize = 0;
    while i < n
        invariant
            i <= n,
            n == symbols.len(),
            all == symbol_views(symbols@),
            symbol_views(names@) == distinct_symbols(all.take(i as int)),
            no_repeats(symbol_views(names@)),
            ids.len() == i,
            forall|k: int|
                0 <= k < i ==> (#[trigger] ids[k] as int) < names.len() && names[ids[k] as int]@
                    == symbols[k]@,
        decreases n - i,
    {
        let ghost prefix = all.take(i as int);
        let ghost next = all.take(i + 1);
        proof {
            assert(next.drop_last() == prefix);
            assert(next.last() == symbols[i as int]@);
        }
        let mut g: usize = 0;
        let mut found = false;
        while g < names.len() && !found
            invariant
                g <= names.len(),
                i < n,
                n == symbols.len(),
                found ==> g < names.len() && names[g as int]@ == symbols[i as int]@,
                !found ==> forall|q: int| 0 <= q < g ==> names[q]@ != symbols[i as int]@,
            decreases names.len() - g + if found { 0int } else { 1int },
        {
            if names[g] == symbols[i] {
                found = true;
            } else {
                g = g + 1;
            }
        }
        let ghost nv = symbol_views(names@);
        if found {
            proof {
                assert(nv[g as int] == symbols[i as int]@);
                assert(nv.contains(next.last()));
            }
            ids.push(g);
        } else {
            proof {
                assert forall|q: int| 0 <= q < nv.len() implies nv[q] != next.last() by {
                    assert(names[q]@ != symbols[i as int]@);
                }
            }
            let fresh = symbols[i].clone();
            names.push(fresh);
            proof {
                assert(symbol_views(names@) == nv.push(symbols[i as int]@));
            }
            ids.push(names.len() - 1);
        }
        proof {
            assert forall|k: int|
                0 <= k < i + 1 implies (#[trigger] ids[k] as int) < names.len() && names[ids[k] as int]@
                    == symbols[k]@ by {
                if k < i {
                }
            }
        }
        i = i + 1;
    }
    proof {
        assert(all.take(n as int) == all);
    }
    SymbolIds { names, ids }
}

} // verus!
