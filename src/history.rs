use vstd::prelude::*;
use crate::order::{is_chronological, is_stable_time_order, precedes, stable_time_order};
use crate::symbols::{assign_symbol_ids, distinct_symbols, no_repeats, symbol_views};

verus! {

/// The records of one symbol, in chronological order.
pub struct SymbolHistory {
    pub symbol: String,
    /// Indices of the symbol's records, ordered by timestamp, ties in input order.
    pub records: Vec<usize>,
}

/// Splits records by symbol: one history per distinct symbol, in order of
/// first appearance, each listing exactly that symbol's records in stable
/// chronological order.
pub fn histories_by_symbol(symbols: &Vec<String>, times: &Vec<i64>) -> (r: Vec<SymbolHistory>)
    requires
        symbols.len() == times.len(),
    ensures
        r.len() == distinct_symbols(symbol_views(symbols@)).len(),
        forall|g: int|
            0 <= g < r.len() ==> (#[trigger] r[g]).symbol@ == distinct_symbols(
                symbol_views(symbols@),
            )[g],
        forall|g: int| 0 <= g < r.len() ==> is_chronological(times@, (#[trigger] r[g]).records@),
        forall|g: int, j: int|
            0 <= g < r.len() && 0 <= j < symbols.len() ==> ((#[trigger] r[g].records@.contains(
                j as usize,
            )) <==> symbols[j]@ == r[g].symbol@),
        forall|g: int, k: int|
            0 <= g < r.len() && 0 <= k < r[g].records.len() ==> (#[trigger] r[g].records[k] as int)
                < symbols.len(),
{
    let n = symbols.len();
    let table = assign_symbol_ids(symbols);
    let order = stable_time_order(times);
    let ghost dist = distinct_symbols(symbol_views(symbols@));
    let mut out: Vec<SymbolHistory> = Vec::new();
    let mut g: usize = 0;
    while g < table.names.len()
        invariant
            g <= table.names.len(),
            n == symbols.len(),
            n == times.len(),
            symbol_views(table.names@) == dist,
            no_repeats(dist),
            table.ids.len() == n,
            forall|k: int|
                0 <= k < n ==> (#[trigger] table.ids[k] as int) < table.names.len()
                    && table.names[table.ids[k] as int]@ == symbols[k]@,
            is_stable_time_order(times@, order@),
            out.len() == g,
            forall|h: int| 0 <= h < g ==> (#[trigger] out[h]).symbol@ == dist[h],
            forall|h: int| 0 <= h < g ==> is_chronological(times@, (#[trigger] out[h]).records@),
            forall|h: int, j: int|
                0 <= h < g && 0 <= j < n ==> ((#[trigger] out[h].records@.contains(j as usize))
                    <==> symbols[j]@ == out[h].symbol@),
            forall|h: int, k: int|
                0 <= h < g && 0 <= k < out[h].records.len() ==> (#[trigger] out[h].records[k] as int)
                    < n,
        decreases table.names.len() - g,
    {
        proof {
            assert(symbol_views(table.names@)[g as int] == table.names[g as int]@);
        }
        let mut records: Vec<usize> = Vec::new();
        let ghost mut pos: Seq<int> = seq![];
        let mut k: usize = 0;
        while k < n
            invariant
                k <= n,
                n == times.len(),
                g < table.names.len(),
                table.ids.len() == n,
                is_stable_time_order(times@, order@),
                pos.len() == records.len(),
                forall|m: int|
                    0 <= m < records.len() ==> 0 <= #[trigger] pos[m] < k && order[pos[m]]
                        == records[m] && table.ids[records[m] as int] == g,
                forall|a: int, b: int| 0 <= a < b < records.len() ==> pos[a] < pos[b],
                forall|q: int|
                    0 <= q < k && table.ids[#[trigger] order[q] as int] == g ==> records@.contains(
                        order[q],
                    ),
            decreases n - k,
        {
            let j = order[k];
            if table.ids[j] == g {
                let ghost before = records@;
                records.push(j);
                proof {
                    pos = pos.push(k as int);
                    assert forall|q: int|
                        0 <= q < k + 1 && table.ids[#[trigger] order[q] as int] == g implies records@.contains(
                        order[q],
                    ) by {
                        if q < k {
                            assert(before.contains(order[q]));
                            let m = choose|m: int| 0 <= m < before.len() && before[m] == order[q];
                            assert(records@[m] == order[q]);
                        } else {
                            assert(records@[records.len() - 1] == order[q]);
                        }
                    }
                }
            }
            k = k + 1;
        }
        let symbol = table.names[g].clone();
        proof {
            assert forall|a: int, b: int|
                0 <= a < b < records.len() implies #[trigger] precedes(
                times@,
                records[a] as int,
                records[b] as int,
            ) by {
                assert(precedes(times@, order[pos[a]] as int, order[pos[b]] as int));
            }
            assert forall|j: int| 0 <= j < n implies ((#[trigger] records@.contains(j as usize))
                <==> symbols[j]@ == symbol@) by {
                if records@.contains(j as usize) {
                    let m = choose|m: int| 0 <= m < records.len() && records@[m] == j as usize;
                    assert(order[pos[m]] == records[m]);
                    assert(table.ids[records[m] as int] == g);
                }
                if symbols[j]@ == symbol@ {
                    let h = table.ids[j] as int;
                    assert(symbol_views(table.names@)[h] == table.names[h]@);
                    assert(h == g);
                    assert(order@.contains(j as usize));
                    let q = choose|q: int| 0 <= q < order.len() && order@[q] == j as usize;
                    assert(table.ids[order[q] as int] == g);
                }
            }
            assert forall|m: int| 0 <= m < records.len() implies (#[trigger] records[m] as int) < n by {
                assert(order[pos[m]] == records[m]);
            }
        }
        out.push(SymbolHistory { symbol, records });
        proof {
            assert forall|h: int, j: int|
                0 <= h < g + 1 && 0 <= j < n implies ((#[trigger] out[h].records@.contains(j as usize))
                <==> symbols[j]@ == out[h].symbol@) by {
                if h < g {
                    assert(out[h] == out@.drop_last()[h]);
                }
            }
            assert forall|h: int| 0 <= h < g + 1 implies is_chronological(times@, (#[trigger] out[h]).records@) by {
                if h < g {
                    assert(out[h] == out@.drop_last()[h]);
                }
            }
        }
        g = g + 1;
    }
    out
}

} // verus!
