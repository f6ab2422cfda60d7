use vstd::prelude::*;
use crate::portfolio::Side;

verus! {

/// What the trade statistics read of a ledger order.
pub struct TradeMark {
    pub side: Side,
    pub symbol: String,
    /// Time of the order in milliseconds.
    pub timestamp: i64,
    /// The order realized a strictly positive profit.
    pub gain: bool,
}

/// Number of closing (`Sell`) orders.
pub open spec fn closed_trades(s: Seq<TradeMark>) -> nat
    decreases s.len(),
{
    if s.len() == 0 {
        0
    } else {
        closed_trades(s.drop_last()) + if s.last().side == Side::Sell {
            1nat
        } else {
            0nat
        }
    }
}

/// Number of closing orders that realized a profit.
pub open spec fn winning_trades(s: Seq<TradeMark>) -> nat
    decreases s.len(),
{
    if s.len() == 0 {
        0
    } else {
        winning_trades(s.drop_last()) + if s.last().side == Side::Sell && s.last().gain {
            1nat
        } else {
            0nat
        }
    }
}

/// Entry times of the unmatched `Buy` orders of `key` after the orders
/// `s`, oldest first: a `Buy` of the symbol pushes its time, a `Sell` of
/// the symbol pops the latest one, if any.
pub open spec fn open_stack(s: Seq<TradeMark>, key: Seq<char>) -> Seq<int>
    decreases s.len(),
{
    if s.len() == 0 {
        seq![]
    } else {
        let st = open_stack(s.drop_last(), key);
        let o = s.last();
        if o.symbol@ != key {
            st
        } else if o.side == Side::Buy {
            st.push(o.timestamp as int)
        } else if st.len() > 0 {
            st.drop_last()
        } else {
            st
        }
    }
}

/// Holding time of each closed trade, in ledger order: every `Sell` whose
/// symbol has an unmatched `Buy` contributes its time minus the time of the
/// most recent such `Buy`, which it then matches.
pub open spec fn holding_periods(s: Seq<TradeMark>) -> Seq<int>
    decreases s.len(),
{
    if s.len() == 0 {
        seq![]
    } else {
        let d = holding_periods(s.drop_last());
        let o = s.last();
        let st = open_stack(s.drop_last(), o.symbol@);
        if o.side == Side::Sell && st.len() > 0 {
            d.push(o.timestamp - st.last())
        } else {
            d
        }
    }
}

/// Closing orders, and how many of them were profitable.
#[derive(Clone, Copy, Debug, PartialEq, Eq, Structural)]
pub struct TradeCounts {
    pub closed: usize,
    pub winning: usize,
}

/// Counts the closing orders of a ledger and the profitable ones among them.
pub fn count_trades(orders: &Vec<TradeMark>) -> (r: TradeCounts)
    ensures
        r.closed == closed_trades(orders@),
        r.winning == winning_trades(orders@),
        r.winning <= r.closed,
{
    let mut closed: usize = 0;
    let mut winning: usize = 0;
    let mut i: usize = 0;
    while i < orders.len()
        invariant
            i <= orders.len(),
            closed == closed_trades(orders@.take(i as int)),
            winning == winning_trades(orders@.take(i as int)),
            winning <= closed <= i,
        decreases orders.len() - i,
    {
        proof {
            assert(orders@.take(i + 1).drop_last() == orders@.take(i as int));
        }
        match orders[i].side {
            Side::Sell => {
                closed = closed + 1;
                if orders[i].gain {
                    winning = winning + 1;
                }
            },
            Side::Buy => {},
        }
        i = i + 1;
    }
    proof {
        assert(orders@.take(orders.len() as int) == orders@);
    }
    TradeCounts { closed, winning }
}

/// The holding periods as integers.
pub open spec fn period_view(v: Seq<i128>) -> Seq<int> {
    v.map_values(|d: i128| d as int)
}

/// Entry times as integers.
pub open spec fn time_view(v: Seq<i64>) -> Seq<int> {
    v.map_values(|t: i64| t as int)
}

/// The unmatched entries held as a list with one stack per symbol.
pub open spec fn tracks(entries: Seq<(String, Vec<i64>)>, s: Seq<TradeMark>) -> bool {
    &&& forall|a: int, b: int|
        0 <= a < b < entries.len() ==> (#[trigger] entries[a]).0@ != (#[trigger] entries[b]).0@
    &&& forall|k: int|
        0 <= k < entries.len() ==> time_view((#[trigger] entries[k]).1@) == open_stack(
            s,
            entries[k].0@,
        )
    &&& forall|key: Seq<char>|
        #[trigger] open_stack(s, key).len() > 0 ==> exists|k: int|
            0 <= k < entries.len() && (#[trigger] entries[k]).0@ == key
}

/// The holding time in milliseconds of every closed trade, in ledger order:
/// each `Sell` is matched with the most recent `Buy` of its symbol that no
/// earlier `Sell` has matched; a `Sell` without one is skipped.
pub fn trade_durations(orders: &Vec<TradeMark>) -> (r: Vec<i128>)
    ensures
        period_view(r@) == holding_periods(orders@),
{
    let mut entries: Vec<(String, Vec<i64>)> = Vec::new();
    let mut r: Vec<i128> = Vec::new();
    let mut i: usize = 0;
    while i < orders.len()
        invariant
            i <= orders.len(),
            tracks(entries@, orders@.take(i as int)),
            period_view(r@) == holding_periods(orders@.take(i as int)),
        decreases orders.len() - i,
    {
        let ghost prefix = orders@.take(i as int);
        let ghost next = orders@.take(i + 1);
        proof {
            assert(next.drop_last() == prefix);
            assert(next.last() == orders@[i as int]);
        }
        let o = &orders[i];
        let ghost key = o.symbol@;
        let mut idx: usize = 0;
        let mut found = false;
        while idx < entries.len() && !found
            invariant
                idx <= entries.len(),
                found ==> idx < entries.len() && entries[idx as int].0@ == o.symbol@,
                !found ==> forall|q: int| 0 <= q < idx ==> entries[q].0@ != o.symbol@,
            decreases entries.len() - idx + if found { 0int } else { 1int },
        {
            if entries[idx].0 == o.symbol {
                found = true;
            } else {
                idx = idx + 1;
            }
        }
        proof {
            if !found && open_stack(prefix, key).len() > 0 {
                let k = choose|k: int| 0 <= k < entries.len() && (#[trigger] entries@[k]).0@ == key;
                assert(entries[k].0@ != key);
            }
            // orders of other symbols leave their stacks as they were
            assert forall|key2: Seq<char>| key2 != key implies open_stack(next, key2) == open_stack(
                prefix,
                key2,
            ) by {}
        }
        let ghost before = entries@;
        let ghost old_r = r@;
        if found {
            let (name, mut stack) = entries.remove(idx);
            let ghost old_stack = stack@;
            proof {
                assert(before[idx as int] == (name, stack));
                assert(time_view(old_stack) == open_stack(prefix, key));
            }
            match o.side {
                Side::Buy => {
                    stack.push(o.timestamp);
                    proof {
                        assert(time_view(stack@) == time_view(old_stack).push(o.timestamp as int));
                    }
                },
                Side::Sell => {
                    if stack.len() > 0 {
                        let entry = stack.pop().unwrap();
                        let d = (o.timestamp as i128) - (entry as i128);
                        proof {
                            assert(stack@ == old_stack.drop_last());
                            assert(entry == old_stack.last());
                            assert(time_view(stack@) == time_view(old_stack).drop_last());
                        }
                        r.push(d);
                        proof {
                            assert(period_view(r@) == period_view(old_r).push(d as int));
                        }
                    }
                },
            }
            entries.insert(idx, (name, stack));
            proof {
                assert(entries@ == before.update(idx as int, (name, stack)));
                assert(time_view(entries@[idx as int].1@) == open_stack(next, key));
                assert forall|k: int| 0 <= k < entries.len() implies time_view(
                    (#[trigger] entries@[k]).1@,
                ) == open_stack(next, entries@[k].0@) by {
                    if k != idx {
                        assert(entries@[k] == before[k]);
                        assert(before[k].0@ != key);
                    }
                }
                assert forall|key2: Seq<char>| #[trigger] open_stack(next, key2).len() > 0 implies exists|k: int|
                    0 <= k < entries.len() && (#[trigger] entries@[k]).0@ == key2 by {
                    if key2 == key {
                        assert(entries@[idx as int].0@ == key2);
                    } else {
                        let k = choose|k: int| 0 <= k < before.len() && (#[trigger] before[k]).0@ == key2;
                        assert(entries@[k].0@ == key2);
                    }
                }
                assert forall|a: int, b: int|
                    0 <= a < b < entries.len() implies (#[trigger] entries@[a]).0@ != (#[trigger] entries@[b]).0@ by {
                    assert(before[a].0@ != before[b].0@);
                }
            }
        } else {
            match o.side {
                Side::Buy => {
                    let mut stack: Vec<i64> = Vec::new();
                    stack.push(o.timestamp);
                    entries.push((o.symbol.clone(), stack));
                    proof {
                        assert(time_view(stack@) == seq![o.timestamp as int]);
                        assert(open_stack(prefix, key) == Seq::<int>::empty());
                        assert(time_view(entries@[before.len() as int].1@) == open_stack(next, key));
                        assert forall|k: int| 0 <= k < entries.len() implies time_view(
                            (#[trigger] entries@[k]).1@,
                        ) == open_stack(next, entries@[k].0@) by {
                            if k < before.len() {
                                assert(entries@[k] == before[k]);
                            }
                        }
                        assert forall|key2: Seq<char>| #[trigger] open_stack(next, key2).len() > 0 implies exists|k: int|
                            0 <= k < entries.len() && (#[trigger] entries@[k]).0@ == key2 by {
                            if key2 == key {
                                assert(entries@[before.len() as int].0@ == key2);
                            } else {
                                let k = choose|k: int| 0 <= k < before.len() && (#[trigger] before[k]).0@ == key2;
                                assert(entries@[k].0@ == key2);
                            }
                        }
                        assert forall|a: int, b: int|
                            0 <= a < b < entries.len() implies (#[trigger] entries@[a]).0@ != (#[trigger] entries@[b]).0@ by {
                            if b == before.len() {
                                assert(before[a].0@ != key);
                            } else {
                                assert(before[a].0@ != before[b].0@);
                            }
                        }
                    }
                },
                Side::Sell => {
                    proof {
                        assert(open_stack(prefix, key).len() == 0);
                        assert(open_stack(next, key) == open_stack(prefix, key));
                        assert forall|k: int| 0 <= k < entries.len() implies time_view(
                            (#[trigger] entries@[k]).1@,
                        ) == open_stack(next, entries@[k].0@) by {
                            assert(entries@[k].0@ != key);
                        }
                        assert forall|key2: Seq<char>| #[trigger] open_stack(next, key2).len() > 0 implies exists|k: int|
                            0 <= k < entries.len() && (#[trigger] entries@[k]).0@ == key2 by {
                            assert(open_stack(prefix, key2).len() > 0);
                        }
                    }
                },
            }
        }
        i = i + 1;
    }
    proof {
        assert(orders@.take(orders.len() as int) == orders@);
    }
    r
}

} // verus!
