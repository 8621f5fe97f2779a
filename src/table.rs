use crate::calculator::{days_view, state_index, state_view, DayView, GMDDay, GMDSummary};
use crate::decimal::{at_max_scale, decimal_sum, Decimal};
use crate::models::{Date, ProductName, Quantity};
use vstd::prelude::*;

verus! {

/// The sum of quantities of one unit: `None` for no quantity, mixed units or an
/// overflow.
pub open spec fn total_spec(qs: Seq<Quantity>) -> Option<Quantity>
    decreases qs.len(),
{
    if qs.len() == 0 {
        None
    } else if qs.len() == 1 {
        Some(qs[0])
    } else {
        match total_spec(qs.drop_last()) {
            None => None,
            Some(t) => if t.unit != qs.last().unit {
                None
            } else {
                match decimal_sum(t.amount@, qs.last().amount@) {
                    Some(a) => Some(Quantity { amount: Decimal::from_view(a), unit: t.unit }),
                    None => None,
                }
            },
        }
    }
}

/// The sum of `qs`, as shown in one cell of a table.
pub fn total(qs: &Vec<Quantity>) -> (r: Option<Quantity>)
    ensures
        r == total_spec(qs@),
{
    if qs.len() == 0 {
        return None;
    }
    let mut acc = qs[0];
    let mut i: usize = 1;
    proof {
        assert(qs@.subrange(0, 1) =~= seq![qs@[0]]);
    }
    while i < qs.len()
        invariant
            1 <= i <= qs@.len(),
            total_spec(qs@.subrange(0, i as int)) == Some(acc),
        decreases qs@.len() - i,
    {
        proof {
            assert(qs@.subrange(0, i + 1).drop_last() =~= qs@.subrange(0, i as int));
            assert(qs@.subrange(0, i + 1).last() == qs@[i as int]);
        }
        let ghost before = acc;
        match acc.try_add(qs[i]) {
            Ok(()) => {
                proof {
                    Decimal::lemma_view_determines(acc.amount, acc.amount);
                }
            },
            Err(_) => {
                proof {
                    assert(total_spec(qs@.subrange(0, i + 1)) is None);
                    lemma_total_prefix_none(qs@, i + 1);
                }
                return None;
            },
        }
        i = i + 1;
    }
    proof {
        assert(qs@.subrange(0, qs@.len() as int) =~= qs@);
    }
    Some(acc)
}

proof fn lemma_total_prefix_none(qs: Seq<Quantity>, k: int)
    requires
        1 <= k <= qs.len(),
        total_spec(qs.subrange(0, k)) is None,
    ensures
        total_spec(qs) is None,
    decreases qs.len(),
{
    if k < qs.len() {
        assert(qs.drop_last().subrange(0, k) =~= qs.subrange(0, k));
        lemma_total_prefix_none(qs.drop_last(), k);
    } else {
        assert(qs.subrange(0, k) =~= qs);
    }
}

/// The names of all products eaten on any day, each once, in the order they
/// first appear.
pub open spec fn all_names(days: Seq<(Date, GMDDay)>) -> Set<Seq<char>> {
    Set::new(
        |n: Seq<char>|
            exists|d: int, k: int|
                0 <= d < days.len() && 0 <= k < days[d].1.state@.len() && #[trigger] days[d].1.state@[k].0@
                    == n,
    )
}

/// The product `n` is eaten at entry `k` of day `d`.
pub open spec fn occurs_at(days: Seq<(Date, GMDDay)>, n: Seq<char>, d: int, k: int) -> bool {
    0 <= d < days.len() && 0 <= k < days[d].1.state@.len() && days[d].1.state@[k].0@ == n
}

/// `n` is eaten somewhere before entry `k` of day `d`.
pub open spec fn seen_before(days: Seq<(Date, GMDDay)>, n: Seq<char>, d: int, k: int) -> bool {
    exists|dd: int, kk: int| occurs_at(days, n, dd, kk) && (dd < d || (dd == d && kk < k))
}

/// `m` first appears before `n` does: it is eaten somewhere before any entry of `n`.
pub open spec fn first_before(days: Seq<(Date, GMDDay)>, m: Seq<char>, n: Seq<char>) -> bool {
    m != n && exists|d: int, k: int| occurs_at(days, m, d, k) && !seen_before(days, n, d, k)
}

/// `n` is one of `names`.
pub open spec fn seen_in(names: Seq<&ProductName>, n: Seq<char>) -> bool {
    exists|a: int| 0 <= a < names.len() && names[a]@ == n
}

/// `x` occurs in `order`.
pub open spec fn has_index(order: Seq<usize>, x: int) -> bool {
    exists|a: int| 0 <= a < order.len() && order[a] == x
}

/// The key that orders the columns: the total of a product over all days, in
/// units of `10^-28` of its unit, or `None` where it has no total.
pub open spec fn weight(t: Option<Quantity>) -> Option<int> {
    match t {
        Some(q) => Some(at_max_scale(q.amount@)),
        None => None,
    }
}

/// `a` goes to the left of `b`: a larger total, where a missing total is the
/// smallest.
pub open spec fn heavier(a: Option<int>, b: Option<int>) -> bool {
    match (a, b) {
        (Some(_), None) => true,
        (Some(x), Some(y)) => x > y,
        _ => false,
    }
}

pub open spec fn goes_left(keys: Seq<Option<int>>, x: int, y: int) -> bool {
    heavier(keys[x], keys[y]) || (keys[x] == keys[y] && x < y)
}

fn is_heavier(a: Option<Quantity>, b: Option<Quantity>) -> (r: bool)
    ensures
        r == heavier(weight(a), weight(b)),
{
    match (a, b) {
        (Some(_), None) => true,
        (Some(x), Some(y)) => y.amount.less_than(&x.amount),
        _ => false,
    }
}

/// Each product name eaten on any day of `summary`, once, in the order of first
/// appearance.
pub fn products_seen<'a>(summary: &'a GMDSummary) -> (r: Vec<&'a ProductName>)
    ensures
        forall|a: int, b: int| 0 <= a < b < r@.len() ==> (#[trigger] r@[a])@ != (#[trigger] r@[b])@,
        forall|a: int| 0 <= a < r@.len() ==> all_names(summary.days@).contains((#[trigger] r@[a])@),
        forall|n: Seq<char>| #[trigger] all_names(summary.days@).contains(n) ==> seen_in(r@, n),
        forall|a: int, b: int| 0 <= a < b < r@.len() ==> first_before(summary.days@, (#[trigger] r@[a])@, (#[trigger] r@[b])@),
{
    let days = &summary.days;
    let mut names: Vec<&'a ProductName> = Vec::new();
    let mut d: usize = 0;
    while d < days.len()
        invariant
            d <= days@.len(),
            days@ == summary.days@,
            forall|a: int, b: int| 0 <= a < b < names@.len() ==> (#[trigger] names@[a])@ != (#[trigger] names@[b])@,
            forall|a: int| 0 <= a < names@.len() ==> all_names(days@).contains((#[trigger] names@[a])@),
            forall|dd: int, kk: int|
                #![trigger days@[dd].1.state@[kk]]
                0 <= dd < d && 0 <= kk < days@[dd].1.state@.len() ==> seen_in(names@, days@[dd].1.state@[kk].0@),
            forall|a: int| 0 <= a < names@.len() ==> seen_before(days@, (#[trigger] names@[a])@, d as int, 0),
            forall|a: int, b: int| 0 <= a < b < names@.len() ==> first_before(days@, (#[trigger] names@[a])@, (#[trigger] names@[b])@),
        decreases days@.len() - d,
    {
        let state = &days[d].1.state;
        let mut k: usize = 0;
        while k < state.len()
            invariant
                d < days@.len(),
                k <= state@.len(),
                days@ == summary.days@,
                *state == days@[d as int].1.state,
                forall|a: int, b: int| 0 <= a < b < names@.len() ==> (#[trigger] names@[a])@ != (#[trigger] names@[b])@,
                forall|a: int| 0 <= a < names@.len() ==> all_names(days@).contains((#[trigger] names@[a])@),
                forall|dd: int, kk: int|
                    #![trigger days@[dd].1.state@[kk]]
                    0 <= dd < d && 0 <= kk < days@[dd].1.state@.len() ==> seen_in(names@, days@[dd].1.state@[kk].0@),
                forall|kk: int|
                    #![trigger state@[kk]]
                    0 <= kk < k ==> seen_in(names@, state@[kk].0@),
                forall|a: int| 0 <= a < names@.len() ==> seen_before(days@, (#[trigger] names@[a])@, d as int, k as int),
                forall|a: int, b: int| 0 <= a < b < names@.len() ==> first_before(days@, (#[trigger] names@[a])@, (#[trigger] names@[b])@),
            decreases state@.len() - k,
        {
            let name = &state[k].0;
            proof {
                assert(all_names(days@).contains(name@)) by {
                    assert(days@[d as int].1.state@[k as int].0@ == name@);
                };
            }
            let mut seen = false;
            let mut j: usize = 0;
            while j < names.len()
                invariant
                    j <= names@.len(),
                    !seen ==> forall|a: int| 0 <= a < j ==> (#[trigger] names@[a])@ != name@,
                    seen ==> seen_in(names@, name@),
                decreases names@.len() - j,
            {
                if names[j].same_name(name) {
                    seen = true;
                }
                j = j + 1;
            }
            if !seen {
                let ghost before = names@;
                names.push(name);
                proof {
                    assert forall|dd: int, kk: int|
                        #![trigger days@[dd].1.state@[kk]]
                        0 <= dd < d && 0 <= kk < days@[dd].1.state@.len() implies seen_in(names@, days@[dd].1.state@[kk].0@) by {
                        let a = choose|a: int| 0 <= a < before.len() && before[a]@ == days@[dd].1.state@[kk].0@;
                        assert(names@[a] == before[a]);
                    };
                    assert forall|kk: int|
                        #![trigger state@[kk]]
                        0 <= kk < k + 1 implies seen_in(names@, state@[kk].0@) by {
                        if kk < k {
                            let a = choose|a: int| 0 <= a < before.len() && before[a]@ == state@[kk].0@;
                            assert(names@[a] == before[a]);
                        } else {
                            assert(names@[before.len() as int]@ == name@);
                        }
                    };
                    assert(occurs_at(days@, name@, d as int, k as int));
                    assert forall|a: int| 0 <= a < names@.len() implies seen_before(
                        days@,
                        (#[trigger] names@[a])@,
                        d as int,
                        k + 1,
                    ) by {
                        if a < before.len() {
                            assert(names@[a] == before[a]);
                            assert(seen_before(days@, before[a]@, d as int, k as int));
                            let (dd, kk) = choose|dd: int, kk: int|
                                occurs_at(days@, before[a]@, dd, kk) && (dd < d || (dd == d && kk < k));
                            assert(occurs_at(days@, before[a]@, dd, kk));
                        } else {
                            assert(occurs_at(days@, names@[a]@, d as int, k as int));
                        }
                    };
                    assert forall|a: int, b: int| 0 <= a < b < names@.len() implies first_before(
                        days@,
                        (#[trigger] names@[a])@,
                        (#[trigger] names@[b])@,
                    ) by {
                        assert(names@[a] == before[a]);
                        if b < before.len() {
                            assert(names@[b] == before[b]);
                        } else {
                            assert(names@[b]@ == name@);
                            assert(seen_before(days@, before[a]@, d as int, k as int));
                            let (d1, k1) = choose|dd: int, kk: int|
                                occurs_at(days@, before[a]@, dd, kk) && (dd < d || (dd == d && kk < k));
                            assert(occurs_at(days@, before[a]@, d1, k1));
                            if seen_before(days@, name@, d1, k1) {
                                let (d2, k2) = choose|dd: int, kk: int|
                                    occurs_at(days@, name@, dd, kk) && (dd < d1 || (dd == d1 && kk < k1));
                                if d2 < d {
                                    assert(seen_in(before, days@[d2].1.state@[k2].0@));
                                } else {
                                    assert(days@[d2].1.state@[k2] == state@[k2]);
                                    assert(seen_in(before, state@[k2].0@));
                                }
                                let x = choose|x: int| 0 <= x < before.len() && before[x]@ == name@;
                                assert(false);
                            }
                        }
                    };
                }
            } else {
                proof {
                    assert forall|kk: int|
                        #![trigger state@[kk]]
                        0 <= kk < k + 1 implies seen_in(names@, state@[kk].0@) by {
                        if kk == k {
                            assert(state@[kk].0@ == name@);
                        }
                    };
                    assert forall|a: int| 0 <= a < names@.len() implies seen_before(
                        days@,
                        (#[trigger] names@[a])@,
                        d as int,
                        k + 1,
                    ) by {
                        assert(seen_before(days@, names@[a]@, d as int, k as int));
                        let (dd, kk) = choose|dd: int, kk: int|
                            occurs_at(days@, names@[a]@, dd, kk) && (dd < d || (dd == d && kk < k));
                        assert(occurs_at(days@, names@[a]@, dd, kk));
                    };
                }
            }
            k = k + 1;
        }
        proof {
            assert forall|dd: int, kk: int|
                #![trigger days@[dd].1.state@[kk]]
                0 <= dd < d + 1 && 0 <= kk < days@[dd].1.state@.len() implies seen_in(names@, days@[dd].1.state@[kk].0@) by {
                if dd == d {
                    assert(days@[dd].1.state@[kk] == state@[kk]);
                }
            };
            assert forall|a: int| 0 <= a < names@.len() implies seen_before(
                days@,
                (#[trigger] names@[a])@,
                d + 1,
                0,
            ) by {
                assert(seen_before(days@, names@[a]@, d as int, k as int));
                let (dd, kk) = choose|dd: int, kk: int|
                    occurs_at(days@, names@[a]@, dd, kk) && (dd < d || (dd == d && kk < k));
                assert(occurs_at(days@, names@[a]@, dd, kk));
            };
        }
        d = d + 1;
    }
    proof {
        assert forall|n: Seq<char>| #[trigger] all_names(summary.days@).contains(n) implies seen_in(names@, n) by {
            let (dd, kk) = choose|dd: int, kk: int|
                0 <= dd < days@.len() && 0 <= kk < days@[dd].1.state@.len() && #[trigger] days@[dd].1.state@[kk].0@
                    == n;
            assert(days@[dd].1.state@[kk].0@ == n);
        };
    }
    names
}

/// The quantities of `name` on one day.
pub open spec fn day_quantities(state: Seq<(Seq<char>, Seq<Quantity>)>, name: Seq<char>) -> Seq<Quantity> {
    let k = state_index(state, name) as int;
    if k < state.len() {
        state[k].1
    } else {
        Seq::empty()
    }
}

/// The quantities of `name` over all days, in order of date.
pub open spec fn all_quantities(days: Seq<(Date, DayView)>, name: Seq<char>) -> Seq<Quantity>
    decreases days.len(),
{
    if days.len() == 0 {
        Seq::empty()
    } else {
        all_quantities(days.drop_last(), name) + day_quantities(days.last().1.0, name)
    }
}

/// The quantities of `name` in `state`.
fn quantities_in(state: &Vec<(ProductName, Vec<Quantity>)>, name: &ProductName, out: &mut Vec<Quantity>)
    ensures
        final(out)@ == old(out)@ + day_quantities(state_view(state@), name@),
{
    let ghost sv = state_view(state@);
    let mut i: usize = 0;
    proof {
        assert(sv.subrange(0, sv.len() as int) =~= sv);
    }
    while i < state.len()
        invariant
            i <= sv.len(),
            sv == state_view(state@),
            out@ == old(out)@,
            state_index(sv, name@) == i + state_index(sv.subrange(i as int, sv.len() as int), name@),
        decreases sv.len() - i,
    {
        proof {
            assert(sv.subrange(i as int, sv.len() as int).drop_first() =~= sv.subrange(i + 1, sv.len() as int));
            assert(sv.subrange(i as int, sv.len() as int)[0] == sv[i as int]);
        }
        if state[i].0.same_name(name) {
            proof {
                assert(state_index(sv, name@) == i);
            }
            let qs = &state[i].1;
            let ghost start = out@;
            let mut j: usize = 0;
            while j < qs.len()
                invariant
                    j <= qs@.len(),
                    out@ == start + qs@.subrange(0, j as int),
                decreases qs@.len() - j,
            {
                out.push(qs[j]);
                proof {
                    assert(start + qs@.subrange(0, j + 1) =~= (start + qs@.subrange(0, j as int)).push(qs@[j as int]));
                }
                j = j + 1;
            }
            proof {
                assert(qs@.subrange(0, qs@.len() as int) =~= qs@);
            }
            return;
        }
        i = i + 1;
    }
    proof {
        assert(sv.subrange(sv.len() as int, sv.len() as int).len() == 0);
        assert(old(out)@ + Seq::<Quantity>::empty() =~= old(out)@);
    }
}

/// The total of `name` over all days of `summary`.
pub fn total_of(summary: &GMDSummary, name: &ProductName) -> (r: Option<Quantity>)
    ensures
        r == total_spec(all_quantities(days_view(summary.days@), name@)),
{
    let days = &summary.days;
    let ghost dv = days_view(days@);
    let mut all: Vec<Quantity> = Vec::new();
    let mut d: usize = 0;
    proof {
        assert(dv.subrange(0, 0).len() == 0);
        assert(all@ =~= Seq::<Quantity>::empty());
    }
    while d < days.len()
        invariant
            d <= dv.len(),
            dv == days_view(days@),
            all@ == all_quantities(dv.subrange(0, d as int), name@),
        decreases dv.len() - d,
    {
        proof {
            assert(dv.subrange(0, d + 1).drop_last() =~= dv.subrange(0, d as int));
            assert(dv.subrange(0, d + 1).last() == dv[d as int]);
        }
        quantities_in(&days[d].1.state, name, &mut all);
        d = d + 1;
    }
    proof {
        assert(dv.subrange(0, dv.len() as int) =~= dv);
    }
    total(&all)
}

/// The order of the columns of a table of `summary`: each product once, the
/// largest total over all days first, products with equal totals in order of
/// first appearance; a product with no total (mixed units) goes last.
pub fn column_order<'a>(summary: &'a GMDSummary) -> (r: Vec<&'a ProductName>)
    ensures
        forall|a: int, b: int| 0 <= a < b < r@.len() ==> (#[trigger] r@[a])@ != (#[trigger] r@[b])@,
        forall|a: int| 0 <= a < r@.len() ==> all_names(summary.days@).contains((#[trigger] r@[a])@),
        forall|n: Seq<char>| #[trigger] all_names(summary.days@).contains(n) ==> seen_in(r@, n),
        forall|a: int, b: int|
            0 <= a < b < r@.len() ==> !heavier(
                weight(total_spec(all_quantities(days_view(summary.days@), (#[trigger] r@[b])@))),
                weight(total_spec(all_quantities(days_view(summary.days@), (#[trigger] r@[a])@))),
            ),
        forall|a: int, b: int|
            0 <= a < b < r@.len() && weight(total_spec(all_quantities(days_view(summary.days@), (#[trigger] r@[a])@)))
                == weight(total_spec(all_quantities(days_view(summary.days@), (#[trigger] r@[b])@))) ==> first_before(
                summary.days@,
                r@[a]@,
                r@[b]@,
            ),
{
    let names = products_seen(summary);
    let ghost dv = days_view(summary.days@);
    let mut keys: Vec<Option<Quantity>> = Vec::new();
    let mut i: usize = 0;
    while i < names.len()
        invariant
            i <= names@.len(),
            dv == days_view(summary.days@),
            keys@.len() == i,
            forall|k: int| 0 <= k < i ==> #[trigger] keys@[k] == total_spec(all_quantities(dv, names@[k]@)),
        decreases names@.len() - i,
    {
        keys.push(total_of(summary, names[i]));
        i = i + 1;
    }
    let ghost ws = keys@.map_values(|t: Option<Quantity>| weight(t));
    let mut order: Vec<usize> = Vec::new();
    let mut i: usize = 0;
    while i < keys.len()
        invariant
            i <= keys@.len(),
            keys@.len() == names@.len(),
            ws == keys@.map_values(|t: Option<Quantity>| weight(t)),
            order@.len() == i,
            forall|a: int| 0 <= a < order@.len() ==> #[trigger] order@[a] < i,
            forall|x: int| 0 <= x < i ==> #[trigger] has_index(order@, x),
            forall|a: int, b: int|
                0 <= a < b < order@.len() ==> goes_left(ws, #[trigger] order@[a] as int, #[trigger] order@[b] as int),
        decreases keys@.len() - i,
    {
        let mut j: usize = order.len();
        while j > 0 && is_heavier(keys[i], keys[order[j - 1]])
            invariant
                j <= order@.len(),
                i < keys@.len(),
                ws == keys@.map_values(|t: Option<Quantity>| weight(t)),
                forall|a: int| 0 <= a < order@.len() ==> #[trigger] order@[a] < i,
                forall|x: int| 0 <= x < i ==> #[trigger] has_index(order@, x),
                forall|a: int| j <= a < order@.len() ==> heavier(ws[i as int], ws[#[trigger] order@[a] as int]),
            decreases j,
        {
            j = j - 1;
        }
        let ghost old_order = order@;
        proof {
            assert forall|a: int| 0 <= a < j implies goes_left(ws, #[trigger] old_order[a] as int, i as int) by {
                let last = j - 1;
                assert(!heavier(ws[i as int], ws[old_order[last] as int]));
                if a < last {
                    assert(goes_left(ws, old_order[a] as int, old_order[last] as int));
                }
            };
        }
        order.insert(j, i);
        proof {
            assert(order@ == old_order.insert(j as int, i));
            assert forall|x: int| 0 <= x < i + 1 implies #[trigger] has_index(order@, x) by {
                if x == i {
                    assert(order@[j as int] == i);
                } else {
                    assert(has_index(old_order, x));
                    let a = choose|a: int| 0 <= a < old_order.len() && old_order[a] == x;
                    if a < j {
                        assert(order@[a] == x);
                    } else {
                        assert(order@[a + 1] == x);
                    }
                }
            };
            assert forall|a: int, b: int|
                0 <= a < b < order@.len() implies goes_left(ws, #[trigger] order@[a] as int, #[trigger] order@[b] as int) by {
                if a < j && b == j {
                } else if a < j && b > j {
                    assert(order@[b] == old_order[b - 1]);
                    assert(order@[a] == old_order[a]);
                } else if a == j {
                    assert(order@[b] == old_order[b - 1]);
                    assert(heavier(ws[i as int], ws[old_order[b - 1] as int]));
                } else if a > j {
                    assert(order@[b] == old_order[b - 1]);
                    assert(order@[a] == old_order[a - 1]);
                } else {
                    assert(order@[b] == old_order[b]);
                    assert(order@[a] == old_order[a]);
                }
            };
        }
        i = i + 1;
    }
    let mut r: Vec<&'a ProductName> = Vec::new();
    let mut k: usize = 0;
    while k < order.len()
        invariant
            k <= order@.len(),
            order@.len() == names@.len(),
            r@.len() == k,
            forall|a: int| 0 <= a < order@.len() ==> #[trigger] order@[a] < names@.len(),
            forall|x: int| 0 <= x < names@.len() ==> #[trigger] has_index(order@, x),
            forall|a: int, b: int|
                0 <= a < b < order@.len() ==> goes_left(ws, #[trigger] order@[a] as int, #[trigger] order@[b] as int),
            forall|a: int| 0 <= a < k ==> #[trigger] r@[a] == names@[order@[a] as int],
        decreases order@.len() - k,
    {
        r.push(names[order[k]]);
        k = k + 1;
    }
    proof {
        assert forall|a: int, b: int| 0 <= a < b < r@.len() implies (#[trigger] r@[a])@ != (#[trigger] r@[b])@ by {
            assert(goes_left(ws, order@[a] as int, order@[b] as int));
            assert(order@[a] != order@[b]);
            assert(r@[a] == names@[order@[a] as int]);
            assert(r@[b] == names@[order@[b] as int]);
        };
        assert forall|a: int, b: int|
            0 <= a < b < r@.len() implies !heavier(
                weight(total_spec(all_quantities(dv, (#[trigger] r@[b])@))),
                weight(total_spec(all_quantities(dv, (#[trigger] r@[a])@))),
            ) by {
            assert(goes_left(ws, order@[a] as int, order@[b] as int));
            assert(r@[a] == names@[order@[a] as int]);
            assert(r@[b] == names@[order@[b] as int]);
            assert(ws[order@[a] as int] == weight(keys@[order@[a] as int]));
            assert(ws[order@[b] as int] == weight(keys@[order@[b] as int]));
        };
        assert forall|a: int, b: int|
            0 <= a < b < r@.len() && weight(total_spec(all_quantities(dv, (#[trigger] r@[a])@))) == weight(
                total_spec(all_quantities(dv, (#[trigger] r@[b])@)),
            ) implies first_before(summary.days@, r@[a]@, r@[b]@) by {
            assert(goes_left(ws, order@[a] as int, order@[b] as int));
            assert(r@[a] == names@[order@[a] as int]);
            assert(r@[b] == names@[order@[b] as int]);
            assert(ws[order@[a] as int] == weight(keys@[order@[a] as int]));
            assert(ws[order@[b] as int] == weight(keys@[order@[b] as int]));
            assert(order@[a] < order@[b]);
        };
        assert forall|n: Seq<char>| #[trigger] all_names(summary.days@).contains(n) implies seen_in(r@, n) by {
            let x = choose|x: int| 0 <= x < names@.len() && names@[x]@ == n;
            assert(has_index(order@, x));
            let a = choose|a: int| 0 <= a < order@.len() && order@[a] == x;
            assert(r@[a] == names@[x]);
        };
    }
    r
}

} // verus!
