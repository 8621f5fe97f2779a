use crate::calculator::{
    eat_on, fallbacks, find_in_day, flatten_spec, of_ingredient_spec, once_spec, resolve, resolve_all, shares,
    step, step_warnings, fold_log, sorted_days, DayView, FlattenError,
};
use crate::models::{
    date_before, date_on_or_before, AmountOf, Date, Eat, LogEntry, ProductDefinition, ProductName,
    Quantity, StartDay,
};
use vstd::prelude::*;

verus! {

/// A product defined on the day at index `i` resolves, on a day `today` on or
/// after it, to that definition, as long as no later day up to `today`
/// redefines it.
pub proof fn lemma_definition_stays_visible(days: Seq<(Date, DayView)>, i: int, today: Date, name: Seq<char>)
    requires
        0 <= i < days.len(),
        date_on_or_before(days[i].0, today),
        find_in_day(days[i].1.1, name) is Some,
        forall|j: int|
            i < j < days.len() && date_on_or_before(#[trigger] days[j].0, today) ==> find_in_day(
                days[j].1.1,
                name,
            ) is None,
    ensures
        resolve(days, today, name) == find_in_day(days[i].1.1, name),
    decreases days.len(),
{
    if days.len() - 1 > i {
        let last = days.len() - 1;
        assert(days.drop_last()[i] == days[i]);
        assert forall|j: int|
            i < j < days.drop_last().len() && date_on_or_before(#[trigger] days.drop_last()[j].0, today)
                implies find_in_day(days.drop_last()[j].1.1, name) is None by {
            assert(days.drop_last()[j] == days[j]);
        };
        assert(!date_on_or_before(days[last].0, today) || find_in_day(days[last].1.1, name) is None);
        lemma_definition_stays_visible(days.drop_last(), i, today, name);
    }
}

/// A log that starts the day `d1`, defines `p`, then starts a later day `d2`:
/// on `d2`, `p`'s name resolves to `p`.
pub proof fn lemma_log_definition_visible_later(p: ProductDefinition, d1: Date, d2: Date, start: Date, fuel: nat)
    requires
        date_before(d1, d2),
    ensures
        fold_log(
            seq![LogEntry::StartDay(StartDay(d1)), LogEntry::Define(p), LogEntry::StartDay(StartDay(d2))],
            Seq::empty(),
            start,
            fuel,
        ) matches Ok(st) && st.1 == d2 && resolve(st.0, st.1, p.name@) == Some(p),
{
    let e = seq![LogEntry::StartDay(StartDay(d1)), LogEntry::Define(p), LogEntry::StartDay(StartDay(d2))];
    assert(e.drop_last() =~= seq![LogEntry::StartDay(StartDay(d1)), LogEntry::Define(p)]);
    assert(e.drop_last().drop_last() =~= seq![LogEntry::StartDay(StartDay(d1))]);
    assert(e.drop_last().drop_last().drop_last() =~= Seq::<LogEntry>::empty());
    let empty = crate::calculator::empty_day();
    let s1 = seq![(d1, empty)];
    assert(crate::calculator::with_day(Seq::empty(), d1) =~= s1);
    let s2 = seq![(d1, (empty.0, empty.1.push(p)))];
    assert(crate::calculator::define_on(s1, d1, p) =~= s2);
    assert(s2.drop_first().len() == 0);
    assert(crate::calculator::insertion_point(s2.drop_first(), d2) == 0);
    assert(crate::calculator::insertion_point(s2, d2) == 1);
    let s3 = seq![(d1, (empty.0, empty.1.push(p))), (d2, empty)];
    assert(s2.insert(1, (d2, empty)) =~= s3);
    assert(crate::calculator::with_day(s2, d2) =~= s3);
    let ok1 = Ok::<(Seq<(Date, DayView)>, Date), Seq<char>>((Seq::empty(), start));
    assert(fold_log(e.drop_last().drop_last().drop_last(), Seq::empty(), start, fuel) == ok1);
    assert(fold_log(e.drop_last().drop_last(), Seq::empty(), start, fuel) == Ok::<
        (Seq<(Date, DayView)>, Date),
        Seq<char>,
    >((s1, d1)));
    assert(fold_log(e.drop_last(), Seq::empty(), start, fuel) == Ok::<(Seq<(Date, DayView)>, Date), Seq<char>>(
        (s2, d1),
    ));
    assert(fold_log(e, Seq::empty(), start, fuel) == Ok::<(Seq<(Date, DayView)>, Date), Seq<char>>((s3, d2)));
    assert(s3.drop_last() =~= s2);
    assert(find_in_day(s3.last().1.1, p.name@) is None);
    assert(empty.1.push(p).drop_last() =~= empty.1);
    assert(find_in_day(empty.1.push(p), p.name@) == Some(p));
    assert(s2.drop_last().len() == 0);
    assert(s2.last() == (d1, (empty.0, empty.1.push(p))));
    assert(resolve(s2, d2, p.name@) == Some(p));
    assert(resolve(s3, d2, p.name@) == Some(p));
}

/// A log that starts the day `d1`, defines `earlier`, starts a later day `d2`,
/// redefines the name as `later` and starts the day `d3`: on `d3` the name
/// resolves to `later` where `d3` is on or after `d2`, and to `earlier` where `d3` is
/// from `d1` up to the day before `d2`.
pub proof fn lemma_log_redefinition_shadows(
    earlier: ProductDefinition,
    later: ProductDefinition,
    d1: Date,
    d2: Date,
    d3: Date,
    start: Date,
    fuel: nat,
)
    requires
        earlier.name@ == later.name@,
        date_before(d1, d2),
    ensures
        ({
            let e = seq![
                LogEntry::StartDay(StartDay(d1)),
                LogEntry::Define(earlier),
                LogEntry::StartDay(StartDay(d2)),
                LogEntry::Define(later),
                LogEntry::StartDay(StartDay(d3)),
            ];
            &&& fold_log(e, Seq::empty(), start, fuel) is Ok
            &&& date_on_or_before(d2, d3) ==> resolve(
                fold_log(e, Seq::empty(), start, fuel)->Ok_0.0,
                d3,
                earlier.name@,
            ) == Some(later)
            &&& date_on_or_before(d1, d3) && date_before(d3, d2) ==> resolve(
                fold_log(e, Seq::empty(), start, fuel)->Ok_0.0,
                d3,
                earlier.name@,
            ) == Some(earlier)
        }),
{
    let e = seq![
        LogEntry::StartDay(StartDay(d1)),
        LogEntry::Define(earlier),
        LogEntry::StartDay(StartDay(d2)),
        LogEntry::Define(later),
        LogEntry::StartDay(StartDay(d3)),
    ];
    let name = earlier.name@;
    let empty = crate::calculator::empty_day();
    let x1 = (empty.0, empty.1.push(earlier));
    let x2 = (empty.0, empty.1.push(later));
    assert(e.drop_last().drop_last().drop_last().drop_last().drop_last() =~= Seq::<LogEntry>::empty());
    let s1 = seq![(d1, empty)];
    assert(crate::calculator::with_day(Seq::empty(), d1) =~= s1);
    let s2 = seq![(d1, x1)];
    assert(crate::calculator::define_on(s1, d1, earlier) =~= s2);
    assert(s2.drop_first().len() == 0);
    assert(crate::calculator::insertion_point(s2.drop_first(), d2) == 0);
    assert(crate::calculator::insertion_point(s2, d2) == 1);
    let s3 = seq![(d1, x1), (d2, empty)];
    assert(s2.insert(1, (d2, empty)) =~= s3);
    assert(s3.drop_first() =~= seq![(d2, empty)]);
    assert(crate::calculator::insertion_point(s3.drop_first(), d2) == 0);
    assert(crate::calculator::insertion_point(s3, d2) == 1);
    let s4 = seq![(d1, x1), (d2, x2)];
    assert(crate::calculator::define_on(s3, d2, later) =~= s4);
    assert(e.drop_last().drop_last().drop_last().drop_last() =~= seq![LogEntry::StartDay(StartDay(d1))]);
    assert(e.drop_last().drop_last().drop_last() =~= seq![LogEntry::StartDay(StartDay(d1)), LogEntry::Define(earlier)]);
    assert(e.drop_last().drop_last() =~= seq![
        LogEntry::StartDay(StartDay(d1)),
        LogEntry::Define(earlier),
        LogEntry::StartDay(StartDay(d2)),
    ]);
    assert(e.drop_last() =~= seq![
        LogEntry::StartDay(StartDay(d1)),
        LogEntry::Define(earlier),
        LogEntry::StartDay(StartDay(d2)),
        LogEntry::Define(later),
    ]);
    let ok = |st: (Seq<(Date, DayView)>, Date)| Ok::<(Seq<(Date, DayView)>, Date), Seq<char>>(st);
    assert(fold_log(e.drop_last().drop_last().drop_last().drop_last().drop_last(), Seq::empty(), start, fuel)
        == ok((Seq::empty(), start)));
    assert(fold_log(e.drop_last().drop_last().drop_last().drop_last(), Seq::empty(), start, fuel) == ok(
        (s1, d1),
    ));
    assert(fold_log(e.drop_last().drop_last().drop_last(), Seq::empty(), start, fuel) == ok((s2, d1)));
    assert(fold_log(e.drop_last().drop_last(), Seq::empty(), start, fuel) == ok((s3, d2)));
    assert(fold_log(e.drop_last(), Seq::empty(), start, fuel) == ok((s4, d2)));
    let s5 = crate::calculator::with_day(s4, d3);
    assert(fold_log(e, Seq::empty(), start, fuel) == ok((s5, d3)));
    assert(empty.1.push(earlier).drop_last() =~= empty.1);
    assert(empty.1.push(later).drop_last() =~= empty.1);
    assert(find_in_day(x1.1, name) == Some(earlier));
    assert(find_in_day(x2.1, name) == Some(later));
    assert(find_in_day(empty.1, name) is None);
    assert(s4.drop_first() =~= seq![(d2, x2)]);
    assert(s4.drop_first().drop_first().len() == 0);
    assert(s4.drop_last() =~= seq![(d1, x1)]);
    assert(s4.drop_last().drop_last().len() == 0);
    if date_on_or_before(d2, d3) {
        if d3 == d2 {
            assert(crate::calculator::insertion_point(s4.drop_first(), d3) == 0);
            assert(crate::calculator::insertion_point(s4, d3) == 1);
            assert(s5 == s4);
        } else {
            assert(crate::calculator::insertion_point(s4.drop_first().drop_first(), d3) == 0);
            assert(crate::calculator::insertion_point(s4.drop_first(), d3) == 1);
            assert(crate::calculator::insertion_point(s4, d3) == 2);
            assert(s5 =~= seq![(d1, x1), (d2, x2), (d3, empty)]);
            assert(s5.drop_last() =~= s4);
        }
        assert(resolve(s4, d3, name) == Some(later));
    }
    if date_on_or_before(d1, d3) && date_before(d3, d2) {
        assert(resolve(s4.drop_last(), d3, name) == Some(earlier));
        if d3 == d1 {
            assert(crate::calculator::insertion_point(s4, d3) == 0);
            assert(s5 == s4);
        } else {
            assert(crate::calculator::insertion_point(s4.drop_first(), d3) == 0);
            assert(crate::calculator::insertion_point(s4, d3) == 1);
            assert(s5 =~= seq![(d1, x1), (d3, empty), (d2, x2)]);
            assert(s5.drop_last() =~= seq![(d1, x1), (d3, empty)]);
            assert(s5.drop_last().drop_last() =~= seq![(d1, x1)]);
            assert(resolve(s5.drop_last(), d3, name) == Some(earlier));
        }
    }
}

/// With the days in order, a product defined on the day at index `i` and
/// redefined on the later day at index `k`, and on no day between, resolves to
/// the first definition on the days from the first up to the one before the
/// second, and to the second from then on until it is redefined again.
pub proof fn lemma_redefinition_shadows(
    days: Seq<(Date, DayView)>,
    i: int,
    k: int,
    today: Date,
    name: Seq<char>,
)
    requires
        sorted_days(days),
        0 <= i < k < days.len(),
        find_in_day(days[i].1.1, name) is Some,
        find_in_day(days[k].1.1, name) is Some,
        forall|j: int| i < j < k ==> find_in_day(#[trigger] days[j].1.1, name) is None,
    ensures
        date_on_or_before(days[i].0, today) && date_before(today, days[k].0) ==> resolve(days, today, name)
            == find_in_day(days[i].1.1, name),
        date_on_or_before(days[k].0, today) && (forall|j: int|
            k < j < days.len() && date_on_or_before(#[trigger] days[j].0, today) ==> find_in_day(
                days[j].1.1,
                name,
            ) is None) ==> resolve(days, today, name) == find_in_day(days[k].1.1, name),
{
    if date_on_or_before(days[i].0, today) && date_before(today, days[k].0) {
        assert forall|j: int|
            i < j < days.len() && date_on_or_before(#[trigger] days[j].0, today) implies find_in_day(
                days[j].1.1,
                name,
            ) is None by {
            if j >= k {
                if j > k {
                    assert(date_before(days[k].0, days[j].0));
                }
                assert(date_before(today, days[j].0));
            }
        };
        lemma_definition_stays_visible(days, i, today, name);
    }
    if date_on_or_before(days[k].0, today) && (forall|j: int|
        k < j < days.len() && date_on_or_before(#[trigger] days[j].0, today) ==> find_in_day(
            days[j].1.1,
            name,
        ) is None) {
        lemma_definition_stays_visible(days, k, today, name);
    }
}

/// Flattening a primitive product gives one contribution: the eaten quantity,
/// under the product's own name; it is no failure, so it gives no warning.
pub proof fn lemma_flatten_primitive(
    days: Seq<(Date, DayView)>,
    today: Date,
    p: ProductDefinition,
    q: Quantity,
    path: Seq<Seq<char>>,
    fuel: nat,
)
    requires
        p.ingredients is None,
    ensures
        flatten_spec(days, today, p, q, path, fuel) == seq![(q, p.name@)],
        fallbacks(days, today, p, q, path, fuel) == Seq::<(Seq<char>, FlattenError)>::empty(),
{
}

proof fn lemma_shares_names(eaten: Quantity, batch: Quantity, ings: Seq<AmountOf<ProductName>>)
    ensures
        shares(eaten, batch, ings) matches Ok(v) ==> v.len() == ings.len() && forall|k: int|
            0 <= k < ings.len() ==> #[trigger] v[k].1 == ings[k].inner@,
    decreases ings.len(),
{
    if ings.len() > 0 {
        lemma_shares_names(eaten, batch, ings.drop_last());
        if let Ok(v) = shares(eaten, batch, ings) {
            assert forall|k: int| 0 <= k < ings.len() implies #[trigger] v[k].1 == ings[k].inner@ by {
                if k < ings.len() - 1 {
                    assert(ings.drop_last()[k] == ings[k]);
                }
            };
        }
    }
}

proof fn lemma_resolve_all_undefined(
    days: Seq<(Date, DayView)>,
    today: Date,
    sh: Seq<(Quantity, Seq<char>)>,
    path: Seq<Seq<char>>,
    k: int,
)
    requires
        0 <= k < sh.len(),
        resolve(days, today, sh[k].1) is None,
    ensures
        resolve_all(days, today, sh, path) is Err,
    decreases sh.len(),
{
    if k < sh.len() - 1 {
        assert(sh.drop_last()[k] == sh[k]);
        lemma_resolve_all_undefined(days, today, sh.drop_last(), path, k);
    }
}

/// A composite product with an ingredient that has no definition visible on
/// the day is counted as primitive: one contribution, the whole eaten
/// quantity, under the product's own name, and one warning that names it.
pub proof fn lemma_best_effort_fallback(
    days: Seq<(Date, DayView)>,
    today: Date,
    p: ProductDefinition,
    q: Quantity,
    path: Seq<Seq<char>>,
    fuel: nat,
    k: int,
)
    requires
        p.ingredients matches Some(batch) && 0 <= k < batch.inner@.len() && resolve(
            days,
            today,
            batch.inner@[k].inner@,
        ) is None,
    ensures
        once_spec(days, today, p, q, path.push(p.name@)) is Err,
        flatten_spec(days, today, p, q, path, fuel) == seq![(q, p.name@)],
        fallbacks(days, today, p, q, path, fuel).len() == 1,
        fallbacks(days, today, p, q, path, fuel)[0].0 == p.name@,
{
    let batch = p.ingredients->0;
    lemma_shares_names(q, batch.quantity, batch.inner@);
    if let Ok(sh) = of_ingredient_spec(q, p) {
        lemma_resolve_all_undefined(days, today, sh, path.push(p.name@), k);
    }
}

/// Eating a composite product with an ingredient that has no visible definition
/// still succeeds: the whole eaten quantity is recorded under the product's
/// own name on the current day, with one warning.
pub proof fn lemma_fallback_in_summary(
    days: Seq<(Date, DayView)>,
    today: Date,
    a: AmountOf<ProductName>,
    fuel: nat,
    k: int,
)
    requires
        resolve(days, today, a.inner@) matches Some(p) && p.ingredients matches Some(batch) && 0 <= k
            < batch.inner@.len() && resolve(days, today, batch.inner@[k].inner@) is None,
    ensures
        step(days, today, LogEntry::Eat(Eat(a)), fuel) == Ok::<(Seq<(Date, DayView)>, Date), Seq<char>>(
            (eat_on(days, today, seq![(a.quantity, resolve(days, today, a.inner@)->0.name@)]), today),
        ),
        step_warnings(days, today, LogEntry::Eat(Eat(a)), fuel).len() == 1,
{
    let p = resolve(days, today, a.inner@)->0;
    lemma_best_effort_fallback(days, today, p, a.quantity, Seq::empty(), fuel, k);
}

/// A composite product with a single ingredient, itself primitive and visible
/// on the day, flattens to one contribution under the ingredient's name: the
/// eaten quantity scaled by the ratio of the ingredient to its batch.
pub proof fn lemma_flatten_single_ingredient(
    days: Seq<(Date, DayView)>,
    today: Date,
    p: ProductDefinition,
    q: Quantity,
    path: Seq<Seq<char>>,
    fuel: nat,
)
    requires
        fuel >= 2,
        p.ingredients matches Some(batch) && batch.inner@.len() == 1,
        of_ingredient_spec(q, p) is Ok,
        resolve(days, today, p.ingredients->0.inner@[0].inner@) matches Some(r) && r.ingredients is None
            && !path.push(p.name@).contains(r.name@),
    ensures
        ({
            let r = resolve(days, today, p.ingredients->0.inner@[0].inner@)->0;
            let sh = of_ingredient_spec(q, p)->Ok_0;
            flatten_spec(days, today, p, q, path, fuel) == seq![(sh[0].0, r.name@)]
        }),
{
    let batch = p.ingredients->0;
    let r = resolve(days, today, batch.inner@[0].inner@)->0;
    let sh = of_ingredient_spec(q, p)->Ok_0;
    let pp = path.push(p.name@);
    lemma_shares_names(q, batch.quantity, batch.inner@);
    assert(sh.len() == 1);
    assert(sh.drop_last().len() == 0);
    let ch = seq![(sh[0].0, r)];
    assert(resolve_all(days, today, sh, pp) == Ok::<Seq<(Quantity, ProductDefinition)>, FlattenError>(ch)) by {
        assert(resolve_all(days, today, sh.drop_last(), pp) == Ok::<
            Seq<(Quantity, ProductDefinition)>,
            FlattenError,
        >(Seq::empty()));
        assert(Seq::<(Quantity, ProductDefinition)>::empty().push((sh[0].0, r)) =~= ch);
    };
    assert(ch.drop_last() =~= Seq::<(Quantity, ProductDefinition)>::empty());
    lemma_flatten_primitive(days, today, r, sh[0].0, pp, (fuel - 1) as nat);
    assert(crate::calculator::flatten_children(days, today, ch.drop_last(), pp, (fuel - 1) as nat)
        =~= Seq::<(Quantity, Seq<char>)>::empty());
    assert(Seq::<(Quantity, Seq<char>)>::empty() + seq![(sh[0].0, r.name@)] =~= seq![(sh[0].0, r.name@)]);
}

/// With the days in order of date, `resolve` gives the definition of the
/// latest day on or before `today` that defines the name, and nothing when no
/// such day exists.
pub proof fn lemma_resolve_latest(days: Seq<(Date, DayView)>, today: Date, name: Seq<char>)
    requires
        sorted_days(days),
    ensures
        resolve(days, today, name) is None ==> forall|j: int|
            0 <= j < days.len() && date_on_or_before(#[trigger] days[j].0, today) ==> find_in_day(
                days[j].1.1,
                name,
            ) is None,
        resolve(days, today, name) is Some ==> exists|i: int|
            0 <= i < days.len() && date_on_or_before(days[i].0, today) && find_in_day(days[i].1.1, name)
                == resolve(days, today, name) && forall|j: int|
                0 <= j < days.len() && date_on_or_before(#[trigger] days[j].0, today) && find_in_day(
                    days[j].1.1,
                    name,
                ) is Some ==> j <= i,
    decreases days.len(),
{
    if days.len() > 0 {
        let last = days.len() - 1;
        let rest = days.drop_last();
        assert(sorted_days(rest)) by {
            assert forall|a: int, b: int| 0 <= a < b < rest.len() implies date_before(#[trigger] rest[a].0, #[trigger] rest[b].0) by {
                assert(rest[a] == days[a] && rest[b] == days[b]);
            };
        };
        lemma_resolve_latest(rest, today, name);
        if date_on_or_before(days[last].0, today) && find_in_day(days[last].1.1, name) is Some {
            assert(find_in_day(days[last].1.1, name) == resolve(days, today, name));
        } else if resolve(days, today, name) is Some {
            let i = choose|i: int|
                0 <= i < rest.len() && date_on_or_before(rest[i].0, today) && find_in_day(rest[i].1.1, name)
                    == resolve(rest, today, name) && forall|j: int|
                    0 <= j < rest.len() && date_on_or_before(#[trigger] rest[j].0, today) && find_in_day(
                        rest[j].1.1,
                        name,
                    ) is Some ==> j <= i;
            assert(days[i] == rest[i]);
            assert forall|j: int|
                0 <= j < days.len() && date_on_or_before(#[trigger] days[j].0, today) && find_in_day(
                    days[j].1.1,
                    name,
                ) is Some implies j <= i by {
                if j < last {
                    assert(days[j] == rest[j]);
                }
            };
        } else {
            assert forall|j: int|
                0 <= j < days.len() && date_on_or_before(#[trigger] days[j].0, today) implies find_in_day(
                    days[j].1.1,
                    name,
                ) is None by {
                if j < last {
                    assert(days[j] == rest[j]);
                }
            };
        }
    }
}

} // verus!
