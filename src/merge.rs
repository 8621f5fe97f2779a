use crate::models::{date_before, Date, GMDLog, LogEntry, StartDay};
use vstd::prelude::*;

verus! {

/// The date of the first start of a day among `entries`, if any.
pub open spec fn first_start(entries: Seq<LogEntry>) -> Option<Date>
    decreases entries.len(),
{
    if entries.len() == 0 {
        None
    } else {
        match entries[0] {
            LogEntry::StartDay(StartDay(d)) => Some(d),
            _ => first_start(entries.drop_first()),
        }
    }
}

/// The order of logs by their first day: a log without one comes first.
pub open spec fn key_before(a: Option<Date>, b: Option<Date>) -> bool {
    match (a, b) {
        (None, Some(_)) => true,
        (Some(x), Some(y)) => date_before(x, y),
        _ => false,
    }
}

/// Log `x` goes before log `y`: an earlier first day, or the same one and an
/// earlier position.
pub open spec fn goes_before(keys: Seq<Option<Date>>, x: int, y: int) -> bool {
    key_before(keys[x], keys[y]) || (keys[x] == keys[y] && x < y)
}

/// `order` lists each index of `logs` once, by first day, logs with the same
/// first day in their given order.
pub open spec fn is_merge_order(logs: Seq<GMDLog>, order: Seq<usize>) -> bool {
    &&& order.len() == logs.len()
    &&& forall|a: int| 0 <= a < order.len() ==> #[trigger] order[a] < logs.len()
    &&& forall|a: int, b: int| 0 <= a < b < order.len() ==> goes_before(
        logs.map_values(|l: GMDLog| first_start(l.0@)),
        #[trigger] order[a] as int,
        #[trigger] order[b] as int,
    )
}

/// The entries of the logs at the indices `order`, one log after another.
pub open spec fn joined(logs: Seq<GMDLog>, order: Seq<usize>) -> Seq<LogEntry>
    decreases order.len(),
{
    if order.len() == 0 {
        Seq::empty()
    } else {
        joined(logs, order.drop_last()) + logs[order.last() as int].0@
    }
}

/// The date on which a log first starts a day.
pub fn first_day(log: &GMDLog) -> (r: Option<Date>)
    ensures
        r == first_start(log.0@),
{
    let mut i: usize = 0;
    proof {
        assert(log.0@.subrange(0, log.0@.len() as int) =~= log.0@);
    }
    while i < log.0.len()
        invariant
            i <= log.0@.len(),
            first_start(log.0@) == first_start(log.0@.subrange(i as int, log.0@.len() as int)),
        decreases log.0@.len() - i,
    {
        proof {
            assert(log.0@.subrange(i as int, log.0@.len() as int).drop_first() =~= log.0@.subrange(
                i + 1,
                log.0@.len() as int,
            ));
            assert(log.0@.subrange(i as int, log.0@.len() as int)[0] == log.0@[i as int]);
        }
        if let LogEntry::StartDay(StartDay(d)) = &log.0[i] {
            return Some(*d);
        }
        i = i + 1;
    }
    proof {
        assert(log.0@.subrange(i as int, log.0@.len() as int).len() == 0);
    }
    None
}

fn is_key_before(a: Option<Date>, b: Option<Date>) -> (r: bool)
    ensures
        r == key_before(a, b),
{
    match (a, b) {
        (None, Some(_)) => true,
        (Some(x), Some(y)) => x.is_before(&y),
        _ => false,
    }
}

/// The order in which logs are to be joined: each index once, by first day,
/// logs with the same first day in their given order. Joined so, the
/// definitions of a log that starts earlier come before anything that a later
/// log eats.
pub fn merge_order(logs: &Vec<GMDLog>) -> (r: Vec<usize>)
    ensures
        is_merge_order(logs@, r@),
{
    let ghost keys = logs@.map_values(|l: GMDLog| first_start(l.0@));
    let mut ks: Vec<Option<Date>> = Vec::new();
    let mut i: usize = 0;
    while i < logs.len()
        invariant
            i <= logs@.len(),
            keys == logs@.map_values(|l: GMDLog| first_start(l.0@)),
            ks@ =~= keys.subrange(0, i as int),
        decreases logs@.len() - i,
    {
        ks.push(first_day(&logs[i]));
        i = i + 1;
    }
    let mut order: Vec<usize> = Vec::new();
    let mut i: usize = 0;
    while i < ks.len()
        invariant
            i <= ks@.len(),
            ks@ == keys,
            keys.len() == logs@.len(),
            order@.len() == i,
            forall|a: int| 0 <= a < order@.len() ==> #[trigger] order@[a] < i,
            forall|a: int, b: int|
                0 <= a < b < order@.len() ==> goes_before(keys, #[trigger] order@[a] as int, #[trigger] order@[b] as int),
        decreases ks@.len() - i,
    {
        let mut j: usize = order.len();
        while j > 0 && is_key_before(ks[i], ks[order[j - 1]])
            invariant
                j <= order@.len(),
                i < ks@.len(),
                ks@ == keys,
                forall|a: int| 0 <= a < order@.len() ==> #[trigger] order@[a] < i,
                forall|a: int| j <= a < order@.len() ==> key_before(keys[i as int], keys[#[trigger] order@[a] as int]),
            decreases j,
        {
            j = j - 1;
        }
        let ghost old_order = order@;
        proof {
            assert forall|a: int| 0 <= a < j implies goes_before(keys, #[trigger] old_order[a] as int, i as int) by {
                let last = j - 1;
                assert(!key_before(keys[i as int], keys[old_order[last] as int]));
                if a < last {
                    assert(goes_before(keys, old_order[a] as int, old_order[last] as int));
                }
            };
        }
        order.insert(j, i);
        proof {
            assert(order@ == old_order.insert(j as int, i));
            assert forall|b: int| j < b < order@.len() implies order@[b] == old_order[b - 1] by {};
            assert forall|a: int, b: int|
                0 <= a < b < order@.len() implies goes_before(keys, #[trigger] order@[a] as int, #[trigger] order@[b] as int) by {
                if a < j && b == j {
                } else if a < j && b > j {
                    assert(order@[b] == old_order[b - 1]);
                    assert(order@[a] == old_order[a]);
                } else if a == j {
                    assert(order@[b] == old_order[b - 1]);
                    assert(key_before(keys[i as int], keys[old_order[b - 1] as int]));
                } else if a > j {
                    assert(order@[b] == old_order[b - 1]);
                    assert(order@[a] == old_order[a - 1]);
                } else {
                    assert(order@[b] == old_order[b]);
                    assert(order@[a] == old_order[a]);
                }
            };
        }
        i = i + 1;
    }
    order
}

/// One log of all the entries of `logs`, joined by first day: the
/// definitions of a log that starts earlier come before anything that a log
/// starting later eats.
pub fn join_logs(logs: Vec<GMDLog>) -> (r: GMDLog)
    ensures
        exists|order: Seq<usize>| is_merge_order(logs@, order) && r.0@ == joined(logs@, order),
{
    let order = merge_order(&logs);
    let ghost logs0 = logs@;
    let ghost keys = logs0.map_values(|l: GMDLog| first_start(l.0@));
    let n = logs.len();
    let mut logs = logs;
    let mut slots: Vec<Option<GMDLog>> = Vec::new();
    while logs.len() > 0
        invariant
            slots@.len() + logs@.len() == logs0.len(),
            forall|x: int| 0 <= x < slots@.len() ==> #[trigger] slots@[x] == Some(logs0[x]),
            forall|x: int| 0 <= x < logs@.len() ==> #[trigger] logs@[x] == logs0[x + slots@.len()],
        decreases logs@.len(),
    {
        let l = logs.remove(0);
        slots.push(Some(l));
    }
    let mut entries: Vec<LogEntry> = Vec::new();
    let mut k: usize = 0;
    proof {
        assert(order@.subrange(0, 0).len() == 0);
        assert(entries@ =~= joined(logs0, order@.subrange(0, 0)));
    }
    while k < order.len()
        invariant
            k <= order@.len(),
            n == logs0.len(),
            slots@.len() == n,
            is_merge_order(logs0, order@),
            keys == logs0.map_values(|l: GMDLog| first_start(l.0@)),
            forall|a: int| k <= a < order@.len() ==> #[trigger] slots@[order@[a] as int] == Some(
                logs0[order@[a] as int],
            ),
            entries@ == joined(logs0, order@.subrange(0, k as int)),
        decreases order@.len() - k,
    {
        let o = order[k];
        assert(slots@[o as int] == Some(logs0[o as int]));
        let ghost slots0 = slots@;
        let taken = slots.remove(o);
        slots.insert(o, None);
        proof {
            assert forall|a: int| k + 1 <= a < order@.len() implies #[trigger] slots@[order@[a] as int] == Some(
                logs0[order@[a] as int],
            ) by {
                assert(goes_before(keys, order@[k as int] as int, order@[a] as int));
                assert(order@[a] != o);
                assert(slots0[order@[a] as int] == Some(logs0[order@[a] as int]));
            };
            assert(order@.subrange(0, k + 1).drop_last() =~= order@.subrange(0, k as int));
        }
        let ghost before = entries@;
        match taken {
            Some(l) => {
                let mut l = l;
                entries.append(&mut l.0);
                proof {
                    assert(entries@ =~= before + logs0[o as int].0@);
                }
            },
            None => {},
        }
        k = k + 1;
    }
    proof {
        assert(order@.subrange(0, order@.len() as int) =~= order@);
    }
    GMDLog(entries)
}

} // verus!
