use crate::decimal::{decimal_product, decimal_quotient, Decimal};
use crate::models::{
    date_before, date_on_or_before, AmountOf, Date, Eat, GMDLog, LogEntry, ProductDefinition,
    ProductName, Quantity, StartDay,
};
use chrono::Datelike;
use vstd::prelude::*;

verus! {

/// What was eaten on one day, and the products defined on it.
#[derive(Debug)]
pub struct GMDDay<'input> {
    /// For each primitive product, one quantity per contribution, in the order
    /// they were eaten.
    pub state: Vec<(ProductName, Vec<Quantity>)>,
    /// The definitions made on this day, in order; a later one of a name shadows
    /// an earlier one.
    pub defined_products: Vec<&'input ProductDefinition>,
}

/// A numeric factor for scaling a quantity.
#[derive(Debug, Clone, Copy)]
pub struct Ratio(pub Decimal);

/// Why a product could not be broken into its ingredients.
#[derive(Debug, Clone, Copy, PartialEq, Eq, Structural)]
pub enum FlattenError {
    /// The product is primitive, or its list of ingredients is empty.
    NoIngredients,
    /// An ingredient is measured in another unit than its batch.
    UnitMismatch,
    /// A ratio or a scaled amount could not be computed.
    Arithmetic,
    /// An ingredient has no definition that is visible on the day.
    UndefinedProduct,
    /// An ingredient is one of the products that are being broken down, or the
    /// breakdown went deeper than the depth limit.
    Cycle,
}

/// What a day holds: for each primitive product the quantities eaten, and the
/// definitions made on it.
pub type DayView = (Seq<(Seq<char>, Seq<Quantity>)>, Seq<ProductDefinition>);

pub open spec fn state_view(state: Seq<(ProductName, Vec<Quantity>)>) -> Seq<(Seq<char>, Seq<Quantity>)> {
    state.map_values(|e: (ProductName, Vec<Quantity>)| (e.0@, e.1@))
}

impl<'input> View for GMDDay<'input> {
    type V = DayView;

    open spec fn view(&self) -> DayView {
        (state_view(self.state@), defs_view(self.defined_products@))
    }
}

pub open spec fn defs_view(defs: Seq<&ProductDefinition>) -> Seq<ProductDefinition> {
    defs.map_values(|d: &ProductDefinition| *d)
}

/// The value that an optional reference points to.
pub open spec fn deref_opt<T>(r: Option<&T>) -> Option<T> {
    match r {
        Some(x) => Some(*x),
        None => None,
    }
}

pub open spec fn days_view(days: Seq<(Date, GMDDay)>) -> Seq<(Date, DayView)> {
    days.map_values(|e: (Date, GMDDay)| (e.0, e.1@))
}

/// The latest definition of `name` among `defs`.
pub open spec fn find_in_day(defs: Seq<ProductDefinition>, name: Seq<char>) -> Option<
    ProductDefinition,
>
    decreases defs.len(),
{
    if defs.len() == 0 {
        None
    } else if defs.last().name@ == name {
        Some(defs.last())
    } else {
        find_in_day(defs.drop_last(), name)
    }
}

/// The definition of `name` in effect on `today`: that of the latest day on or
/// before `today` that defines it.
pub open spec fn resolve(days: Seq<(Date, DayView)>, today: Date, name: Seq<char>) -> Option<
    ProductDefinition,
>
    decreases days.len(),
{
    if days.len() == 0 {
        None
    } else if date_on_or_before(days.last().0, today) && find_in_day(days.last().1.1, name) is Some {
        find_in_day(days.last().1.1, name)
    } else {
        resolve(days.drop_last(), today, name)
    }
}

/// The ratio of `a` to `b`, when they share a unit.
pub open spec fn ratio_spec(a: Quantity, b: Quantity) -> Option<(int, nat)> {
    if a.unit == b.unit {
        decimal_quotient(a.amount@, b.amount@)
    } else {
        None
    }
}

/// `q` scaled by the ratio `r`: the unit stays.
pub open spec fn scaled(q: Quantity, r: (int, nat)) -> Option<Quantity> {
    match decimal_product(r, q.amount@) {
        Some(a) => Some(Quantity { amount: Decimal::from_view(a), unit: q.unit }),
        None => None,
    }
}

/// The share of `eaten` that each ingredient of a batch accounts for, in the order
/// of the ingredients.
pub open spec fn shares(eaten: Quantity, batch: Quantity, ings: Seq<AmountOf<ProductName>>) -> Result<
    Seq<(Quantity, Seq<char>)>,
    FlattenError,
>
    decreases ings.len(),
{
    if ings.len() == 0 {
        Ok(Seq::empty())
    } else {
        match shares(eaten, batch, ings.drop_last()) {
            Err(e) => Err(e),
            Ok(prev) => match ratio_spec(ings.last().quantity, batch) {
                None => if ings.last().quantity.unit != batch.unit {
                    Err(FlattenError::UnitMismatch)
                } else {
                    Err(FlattenError::Arithmetic)
                },
                Some(r) => match scaled(eaten, r) {
                    None => Err(FlattenError::Arithmetic),
                    Some(q) => Ok(prev.push((q, ings.last().inner@))),
                },
            },
        }
    }
}

/// A failure on some first ingredients is the failure of the whole list.
proof fn lemma_shares_prefix_err(
    eaten: Quantity,
    batch: Quantity,
    ings: Seq<AmountOf<ProductName>>,
    k: int,
)
    requires
        0 <= k <= ings.len(),
        shares(eaten, batch, ings.subrange(0, k)) is Err,
    ensures
        shares(eaten, batch, ings) == shares(eaten, batch, ings.subrange(0, k)),
    decreases ings.len(),
{
    if k < ings.len() {
        assert(ings.drop_last().subrange(0, k) =~= ings.subrange(0, k));
        lemma_shares_prefix_err(eaten, batch, ings.drop_last(), k);
    } else {
        assert(ings.subrange(0, k) =~= ings);
    }
}

pub open spec fn of_ingredient_spec(eaten: Quantity, p: ProductDefinition) -> Result<
    Seq<(Quantity, Seq<char>)>,
    FlattenError,
> {
    match p.ingredients {
        None => Err(FlattenError::NoIngredients),
        Some(batch) => if batch.inner@.len() == 0 {
            Err(FlattenError::NoIngredients)
        } else {
            shares(eaten, batch.quantity, batch.inner@)
        },
    }
}

pub open spec fn shares_view(v: Seq<AmountOf<&ProductName>>) -> Seq<(Quantity, Seq<char>)> {
    v.map_values(|a: AmountOf<&ProductName>| (a.quantity, a.inner@))
}

impl Quantity {
    /// The ratio of `self` to `other`; `None` when the units differ or the
    /// division fails.
    pub fn ratio(self, other: Quantity) -> (r: Option<Ratio>)
        ensures
            r matches Some(x) ==> ratio_spec(self, other) == Some(x.0@),
            r is None ==> ratio_spec(self, other) is None,
    {
        if self.unit != other.unit {
            return None;
        }
        match self.amount.checked_div(other.amount) {
            Some(d) => Some(Ratio(d)),
            None => None,
        }
    }

    /// `self` scaled by `ratio`, in the same unit; `None` on overflow.
    pub fn scale_by(self, ratio: Ratio) -> (r: Option<Quantity>)
        ensures
            r == scaled(self, ratio.0@),
    {
        match ratio.0.checked_mul(self.amount) {
            Some(a) => {
                proof {
                    Decimal::lemma_view_determines(a, a);
                }
                Some(Quantity { amount: a, unit: self.unit })
            },
            None => None,
        }
    }

    /// The share of `self`, an eaten amount of `product`, that each of its
    /// ingredients accounts for.
    pub fn of_ingredient<'p>(self, product: &'p ProductDefinition) -> (r: Result<
        Vec<AmountOf<&'p ProductName>>,
        FlattenError,
    >)
        ensures
            r matches Ok(v) ==> of_ingredient_spec(self, *product) == Ok::<
                Seq<(Quantity, Seq<char>)>,
                FlattenError,
            >(shares_view(v@)),
            r matches Err(e) ==> of_ingredient_spec(self, *product) == Err::<
                Seq<(Quantity, Seq<char>)>,
                FlattenError,
            >(e),
    {
        let batch = match &product.ingredients {
            None => return Err(FlattenError::NoIngredients),
            Some(b) => b,
        };
        if batch.inner.len() == 0 {
            return Err(FlattenError::NoIngredients);
        }
        let ghost ings = batch.inner@;
        let mut out: Vec<AmountOf<&'p ProductName>> = Vec::new();
        let mut i: usize = 0;
        proof {
            assert(shares_view(out@) =~= Seq::<(Quantity, Seq<char>)>::empty());
            assert(ings.subrange(0, 0).len() == 0);
        }
        while i < batch.inner.len()
            invariant
                i <= ings.len(),
                ings == batch.inner@,
                product.ingredients == Some(*batch),
                shares(self, batch.quantity, ings.subrange(0, i as int)) == Ok::<
                    Seq<(Quantity, Seq<char>)>,
                    FlattenError,
                >(shares_view(out@)),
            decreases ings.len() - i,
        {
            let ing = &batch.inner[i];
            let ghost prev = out@;
            proof {
                assert(ings.subrange(0, i + 1).drop_last() =~= ings.subrange(0, i as int));
                assert(ings.subrange(0, i + 1).last() == ings[i as int]);
                assert(ings.subrange(0, i + 1).len() > 0);
            }
            let r = match ing.quantity.ratio(batch.quantity) {
                Some(r) => r,
                None => {
                    if ing.quantity.unit != batch.quantity.unit {
                        proof {
                            lemma_shares_prefix_err(self, batch.quantity, ings, i + 1);
                        }
                        return Err(FlattenError::UnitMismatch);
                    }
                    proof {
                        lemma_shares_prefix_err(self, batch.quantity, ings, i + 1);
                    }
                    return Err(FlattenError::Arithmetic);
                },
            };
            let q = match self.scale_by(r) {
                Some(q) => q,
                None => {
                    proof {
                        lemma_shares_prefix_err(self, batch.quantity, ings, i + 1);
                    }
                    return Err(FlattenError::Arithmetic);
                },
            };
            out.push(AmountOf { quantity: q, inner: &ing.inner });
            proof {
                assert(shares_view(out@) =~= shares_view(prev).push((q, ing.inner@)));
            }
            i = i + 1;
        }
        proof {
            assert(ings.subrange(0, ings.len() as int) == ings);
        }
        Ok(out)
    }
}


/// A product that was counted as primitive because it could not be broken down.
#[derive(Debug)]
pub struct FlattenWarning {
    pub product: ProductName,
    pub error: FlattenError,
}

/// The consumption of each day, ordered by date.
#[derive(Debug)]
pub struct GMDSummary<'input> {
    pub days: Vec<(Date, GMDDay<'input>)>,
    /// The products that were counted as primitive, in the order it happened.
    pub warnings: Vec<FlattenWarning>,
}

/// The state of the fold over a log: the summary so far and the current day.
pub struct GMDSummaryBuilder<'input> {
    pub current: GMDSummary<'input>,
    pub current_day: Date,
    /// How deep flattening may go; a chain of distinct products is never longer
    /// than the number of entries of the log.
    pub depth_limit: usize,
}

pub open spec fn names_view(path: Seq<&ProductName>) -> Seq<Seq<char>> {
    path.map_values(|n: &ProductName| n@)
}

pub open spec fn children_view(v: Seq<AmountOf<&ProductDefinition>>) -> Seq<
    (Quantity, ProductDefinition),
> {
    v.map_values(|a: AmountOf<&ProductDefinition>| (a.quantity, *a.inner))
}


/// The definition of each share, as seen on `today`; an ingredient that is on
/// `path` is a cycle.
pub open spec fn resolve_all(
    days: Seq<(Date, DayView)>,
    today: Date,
    sh: Seq<(Quantity, Seq<char>)>,
    path: Seq<Seq<char>>,
) -> Result<Seq<(Quantity, ProductDefinition)>, FlattenError>
    decreases sh.len(),
{
    if sh.len() == 0 {
        Ok(Seq::empty())
    } else {
        match resolve_all(days, today, sh.drop_last(), path) {
            Err(e) => Err(e),
            Ok(prev) => match resolve(days, today, sh.last().1) {
                None => Err(FlattenError::UndefinedProduct),
                Some(p) => if path.contains(p.name@) {
                    Err(FlattenError::Cycle)
                } else {
                    Ok(prev.push((sh.last().0, p)))
                },
            },
        }
    }
}

proof fn lemma_resolve_all_prefix_err(
    days: Seq<(Date, DayView)>,
    today: Date,
    sh: Seq<(Quantity, Seq<char>)>,
    path: Seq<Seq<char>>,
    k: int,
)
    requires
        0 <= k <= sh.len(),
        resolve_all(days, today, sh.subrange(0, k), path) is Err,
    ensures
        resolve_all(days, today, sh, path) == resolve_all(days, today, sh.subrange(0, k), path),
    decreases sh.len(),
{
    if k < sh.len() {
        assert(sh.drop_last().subrange(0, k) =~= sh.subrange(0, k));
        lemma_resolve_all_prefix_err(days, today, sh.drop_last(), path, k);
    } else {
        assert(sh.subrange(0, k) =~= sh);
    }
}

/// One level of breaking `p` down: each ingredient with its share of `q` and its
/// definition.
pub open spec fn once_spec(
    days: Seq<(Date, DayView)>,
    today: Date,
    p: ProductDefinition,
    q: Quantity,
    path: Seq<Seq<char>>,
) -> Result<Seq<(Quantity, ProductDefinition)>, FlattenError> {
    match of_ingredient_spec(q, p) {
        Err(e) => Err(e),
        Ok(sh) => resolve_all(days, today, sh, path),
    }
}

/// The primitive contributions of eating `q` of `p`: where `p` cannot be broken
/// down, or the depth is used up, `p` itself stands as one contribution.
pub open spec fn flatten_spec(
    days: Seq<(Date, DayView)>,
    today: Date,
    p: ProductDefinition,
    q: Quantity,
    path: Seq<Seq<char>>,
    fuel: nat,
) -> Seq<(Quantity, Seq<char>)>
    decreases fuel, 0nat,
{
    if fuel == 0 {
        seq![(q, p.name@)]
    } else {
        match once_spec(days, today, p, q, path.push(p.name@)) {
            Ok(ch) => flatten_children(days, today, ch, path.push(p.name@), (fuel - 1) as nat),
            Err(_) => seq![(q, p.name@)],
        }
    }
}

pub open spec fn flatten_children(
    days: Seq<(Date, DayView)>,
    today: Date,
    ch: Seq<(Quantity, ProductDefinition)>,
    path: Seq<Seq<char>>,
    fuel: nat,
) -> Seq<(Quantity, Seq<char>)>
    decreases fuel, ch.len(),
{
    if ch.len() == 0 {
        Seq::empty()
    } else {
        flatten_children(days, today, ch.drop_last(), path, fuel) + flatten_spec(
            days,
            today,
            ch.last().1,
            ch.last().0,
            path,
            fuel,
        )
    }
}

/// The latest definition of `name` among `defs`.
fn find_in_day_exec<'a>(defs: &Vec<&'a ProductDefinition>, name: &ProductName) -> (r: Option<
    &'a ProductDefinition,
>)
    ensures
        deref_opt(r) == find_in_day(defs_view(defs@), name@),
{
    let mut j: usize = defs.len();
    proof {
        assert(defs_view(defs@).subrange(0, defs@.len() as int) =~= defs_view(defs@));
    }
    while j > 0
        invariant
            j <= defs@.len(),
            find_in_day(defs_view(defs@), name@) == find_in_day(defs_view(defs@).subrange(0, j as int), name@),
        decreases j,
    {
        proof {
            assert(defs_view(defs@).subrange(0, j as int).drop_last() =~= defs_view(defs@).subrange(0, j - 1));
            assert(defs_view(defs@).subrange(0, j as int).last() == *defs@[j - 1]);
        }
        if defs[j - 1].name.same_name(name) {
            return Some(defs[j - 1]);
        }
        j = j - 1;
    }
    None
}

fn contains_name(path: &Vec<&ProductName>, name: &ProductName) -> (r: bool)
    ensures
        r == names_view(path@).contains(name@),
{
    let mut i: usize = 0;
    while i < path.len()
        invariant
            i <= path@.len(),
            forall|k: int| 0 <= k < i ==> path@[k]@ != name@,
        decreases path@.len() - i,
    {
        if path[i].same_name(name) {
            proof {
                assert(names_view(path@)[i as int] == name@);
            }
            return true;
        }
        i = i + 1;
    }
    proof {
        if names_view(path@).contains(name@) {
            let k = choose|k: int| 0 <= k < names_view(path@).len() && names_view(path@)[k] == name@;
            assert(path@[k]@ == name@);
        }
    }
    false
}

impl<'input> GMDSummaryBuilder<'input> {
    /// The definition of `product_name` in effect on the current day.
    pub fn definition(&self, product_name: &ProductName) -> (r: Option<&'input ProductDefinition>)
        ensures
            deref_opt(r) == resolve(days_view(self.current.days@), self.current_day, product_name@),
    {
        let days = &self.current.days;
        let mut j: usize = days.len();
        proof {
            assert(days_view(days@).subrange(0, days@.len() as int) =~= days_view(days@));
        }
        while j > 0
            invariant
                j <= days@.len(),
                days@ == self.current.days@,
                resolve(days_view(days@), self.current_day, product_name@) == resolve(
                    days_view(days@).subrange(0, j as int),
                    self.current_day,
                    product_name@,
                ),
            decreases j,
        {
            proof {
                assert(days_view(days@).subrange(0, j as int).drop_last() =~= days_view(days@).subrange(0, j - 1));
                assert(days_view(days@).subrange(0, j as int).last() == (days@[j - 1].0, days@[j - 1].1@));
            }
            let entry = &days[j - 1];
            if entry.0.is_before(&self.current_day) || entry.0 == self.current_day {
                let found = find_in_day_exec(&entry.1.defined_products, product_name);
                if found.is_some() {
                    return found;
                }
            }
            j = j - 1;
        }
        None
    }

    /// Each ingredient of `product` with its share of `amount` and its definition
    /// on the current day.
    pub fn flatten_product_once(
        &self,
        product: &'input ProductDefinition,
        amount: Quantity,
        path: &Vec<&'input ProductName>,
    ) -> (r: Result<Vec<AmountOf<&'input ProductDefinition>>, FlattenError>)
        ensures
            r matches Ok(v) ==> once_spec(days_view(self.current.days@), self.current_day, *product, amount, names_view(path@))
                == Ok::<Seq<(Quantity, ProductDefinition)>, FlattenError>(children_view(v@)),
            r matches Err(e) ==> once_spec(days_view(self.current.days@), self.current_day, *product, amount, names_view(path@))
                == Err::<Seq<(Quantity, ProductDefinition)>, FlattenError>(e),
    {
        let shares = match amount.of_ingredient(product) {
            Ok(v) => v,
            Err(e) => return Err(e),
        };
        let ghost sh = shares_view(shares@);
        let ghost days = days_view(self.current.days@);
        let ghost pv = names_view(path@);
        let mut out: Vec<AmountOf<&'input ProductDefinition>> = Vec::new();
        let mut i: usize = 0;
        proof {
            assert(children_view(out@) =~= Seq::<(Quantity, ProductDefinition)>::empty());
            assert(sh.subrange(0, 0).len() == 0);
        }
        while i < shares.len()
            invariant
                i <= sh.len(),
                sh == shares_view(shares@),
                of_ingredient_spec(amount, *product) == Ok::<Seq<(Quantity, Seq<char>)>, FlattenError>(sh),
                days == days_view(self.current.days@),
                pv == names_view(path@),
                resolve_all(days, self.current_day, sh.subrange(0, i as int), pv) == Ok::<
                    Seq<(Quantity, ProductDefinition)>,
                    FlattenError,
                >(children_view(out@)),
            decreases sh.len() - i,
        {
            let share = &shares[i];
            let ghost prev = out@;
            proof {
                assert(sh.subrange(0, i + 1).drop_last() =~= sh.subrange(0, i as int));
                assert(sh.subrange(0, i + 1).last() == sh[i as int]);
                assert(sh[i as int] == (share.quantity, share.inner@));
            }
            let def = match self.definition(share.inner) {
                Some(d) => d,
                None => {
                    proof {
                        lemma_resolve_all_prefix_err(days, self.current_day, sh, pv, i + 1);
                    }
                    return Err(FlattenError::UndefinedProduct);
                },
            };
            if contains_name(path, &def.name) {
                proof {
                    lemma_resolve_all_prefix_err(days, self.current_day, sh, pv, i + 1);
                }
                return Err(FlattenError::Cycle);
            }
            out.push(AmountOf { quantity: share.quantity, inner: def });
            proof {
                assert(children_view(out@) =~= children_view(prev).push((share.quantity, *def)));
            }
            i = i + 1;
        }
        proof {
            assert(sh.subrange(0, sh.len() as int) =~= sh);
        }
        Ok(out)
    }
}

impl<'input> GMDSummaryBuilder<'input> {
    /// The primitive contributions of eating `quantity` of `product`, where `path`
    /// holds the products being broken down around it. A composite product that
    /// cannot be broken down counts as primitive, and a warning names it.
    fn flatten_at(
        &self,
        product: &'input ProductDefinition,
        quantity: Quantity,
        path: &mut Vec<&'input ProductName>,
        fuel: usize,
        warnings: &mut Vec<FlattenWarning>,
    ) -> (r: Vec<AmountOf<&'input ProductName>>)
        ensures
            shares_view(r@) == flatten_spec(
                days_view(self.current.days@),
                self.current_day,
                *product,
                quantity,
                names_view(old(path)@),
                fuel as nat,
            ),
            final(path)@ == old(path)@,
            warnings_view(final(warnings)@) == warnings_view(old(warnings)@) + fallbacks(
                days_view(self.current.days@),
                self.current_day,
                *product,
                quantity,
                names_view(old(path)@),
                fuel as nat,
            ),
        decreases fuel, 0nat,
    {
        let ghost w0 = warnings_view(warnings@);
        if product.ingredients.is_none() {
            let r = vec![quantity.of(&product.name)];
            proof {
                assert(shares_view(r@) =~= seq![(quantity, product.name@)]);
                assert(w0 + Seq::<(Seq<char>, FlattenError)>::empty() =~= w0);
            }
            return r;
        }
        if fuel == 0 {
            let w = FlattenWarning { product: product.name.duplicate(), error: FlattenError::Cycle };
            warnings.push(w);
            proof {
                assert(warnings_view(warnings@) =~= w0 + seq![(product.name@, FlattenError::Cycle)]);
            }
            let r = vec![quantity.of(&product.name)];
            proof {
                assert(shares_view(r@) =~= seq![(quantity, product.name@)]);
            }
            return r;
        }
        let ghost pv = names_view(path@);
        path.push(&product.name);
        proof {
            assert(names_view(path@) =~= pv.push(product.name@));
        }
        match self.flatten_product_once(product, quantity, path) {
            Ok(children) => {
                let r = self.flatten_children(&children, path, fuel - 1, warnings);
                path.pop();
                r
            },
            Err(e) => {
                path.pop();
                warnings.push(FlattenWarning { product: product.name.duplicate(), error: e });
                proof {
                    assert(warnings_view(warnings@) =~= w0 + seq![(product.name@, e)]);
                }
                let r = vec![quantity.of(&product.name)];
                proof {
                    assert(shares_view(r@) =~= seq![(quantity, product.name@)]);
                }
                r
            },
        }
    }

    fn flatten_children(
        &self,
        children: &Vec<AmountOf<&'input ProductDefinition>>,
        path: &mut Vec<&'input ProductName>,
        fuel: usize,
        warnings: &mut Vec<FlattenWarning>,
    ) -> (r: Vec<AmountOf<&'input ProductName>>)
        ensures
            shares_view(r@) == flatten_children(
                days_view(self.current.days@),
                self.current_day,
                children_view(children@),
                names_view(old(path)@),
                fuel as nat,
            ),
            final(path)@ == old(path)@,
            warnings_view(final(warnings)@) == warnings_view(old(warnings)@) + children_fallbacks(
                days_view(self.current.days@),
                self.current_day,
                children_view(children@),
                names_view(old(path)@),
                fuel as nat,
            ),
        decreases fuel, 1nat,
    {
        let ghost ch = children_view(children@);
        let ghost pv = names_view(path@);
        let ghost w0 = warnings_view(warnings@);
        let ghost p0 = path@;
        let mut out: Vec<AmountOf<&'input ProductName>> = Vec::new();
        let mut i: usize = 0;
        proof {
            assert(shares_view(out@) =~= Seq::<(Quantity, Seq<char>)>::empty());
            assert(ch.subrange(0, 0).len() == 0);
            assert(w0 + Seq::<(Seq<char>, FlattenError)>::empty() =~= w0);
        }
        while i < children.len()
            invariant
                i <= ch.len(),
                ch == children_view(children@),
                pv == names_view(path@),
                p0 == path@,
                warnings_view(warnings@) == w0 + children_fallbacks(
                    days_view(self.current.days@),
                    self.current_day,
                    ch.subrange(0, i as int),
                    pv,
                    fuel as nat,
                ),
                shares_view(out@) == flatten_children(
                    days_view(self.current.days@),
                    self.current_day,
                    ch.subrange(0, i as int),
                    pv,
                    fuel as nat,
                ),
            decreases ch.len() - i,
        {
            let child = &children[i];
            let ghost prev = out@;
            let ghost wprev = warnings_view(warnings@);
            proof {
                assert(ch.subrange(0, i + 1).drop_last() =~= ch.subrange(0, i as int));
                assert(ch.subrange(0, i + 1).last() == ch[i as int]);
                assert(ch[i as int] == (child.quantity, *child.inner));
            }
            let mut more = self.flatten_at(child.inner, child.quantity, path, fuel, warnings);
            let ghost got = more@;
            out.append(&mut more);
            proof {
                assert(shares_view(out@) =~= shares_view(prev) + shares_view(got)) by {
                    assert(out@ =~= prev + got);
                };
                let cf = children_fallbacks(
                    days_view(self.current.days@),
                    self.current_day,
                    ch.subrange(0, i as int),
                    pv,
                    fuel as nat,
                );
                let f = fallbacks(
                    days_view(self.current.days@),
                    self.current_day,
                    *child.inner,
                    child.quantity,
                    pv,
                    fuel as nat,
                );
                assert(w0 + cf + f =~= w0 + (cf + f));
            }
            i = i + 1;
        }
        proof {
            assert(ch.subrange(0, ch.len() as int) =~= ch);
        }
        out
    }

    /// The primitive contributions of eating `quantity` of `product` on the
    /// current day; each composite product that could not be broken down counts
    /// as primitive, and `warnings` gets one entry for it, in order.
    pub fn flatten_product(
        &self,
        product: &'input ProductDefinition,
        quantity: Quantity,
        warnings: &mut Vec<FlattenWarning>,
    ) -> (r: Vec<AmountOf<&'input ProductName>>)
        ensures
            shares_view(r@) == flatten_spec(
                days_view(self.current.days@),
                self.current_day,
                *product,
                quantity,
                Seq::empty(),
                self.depth_limit as nat,
            ),
            warnings_view(final(warnings)@) == warnings_view(old(warnings)@) + fallbacks(
                days_view(self.current.days@),
                self.current_day,
                *product,
                quantity,
                Seq::empty(),
                self.depth_limit as nat,
            ),
    {
        let mut path: Vec<&'input ProductName> = Vec::new();
        proof {
            assert(names_view(path@) =~= Seq::<Seq<char>>::empty());
        }
        self.flatten_at(product, quantity, &mut path, self.depth_limit, warnings)
    }
}

/// What a warning says: the product counted as primitive, and why.
pub open spec fn warnings_view(ws: Seq<FlattenWarning>) -> Seq<(Seq<char>, FlattenError)> {
    ws.map_values(|w: FlattenWarning| (w.product@, w.error))
}

/// The products that flattening `q` of `p` counts as primitive after a failure,
/// each with its reason, in the order `flatten_spec` meets them. A primitive
/// product is no failure.
pub open spec fn fallbacks(
    days: Seq<(Date, DayView)>,
    today: Date,
    p: ProductDefinition,
    q: Quantity,
    path: Seq<Seq<char>>,
    fuel: nat,
) -> Seq<(Seq<char>, FlattenError)>
    decreases fuel, 0nat,
{
    if p.ingredients is None {
        Seq::empty()
    } else if fuel == 0 {
        seq![(p.name@, FlattenError::Cycle)]
    } else {
        match once_spec(days, today, p, q, path.push(p.name@)) {
            Ok(ch) => children_fallbacks(days, today, ch, path.push(p.name@), (fuel - 1) as nat),
            Err(e) => seq![(p.name@, e)],
        }
    }
}

pub open spec fn children_fallbacks(
    days: Seq<(Date, DayView)>,
    today: Date,
    ch: Seq<(Quantity, ProductDefinition)>,
    path: Seq<Seq<char>>,
    fuel: nat,
) -> Seq<(Seq<char>, FlattenError)>
    decreases fuel, ch.len(),
{
    if ch.len() == 0 {
        Seq::empty()
    } else {
        children_fallbacks(days, today, ch.drop_last(), path, fuel) + fallbacks(
            days,
            today,
            ch.last().1,
            ch.last().0,
            path,
            fuel,
        )
    }
}

/// A day with nothing eaten and nothing defined.
pub open spec fn empty_day() -> DayView {
    (Seq::empty(), Seq::empty())
}

/// The number of leading days that come before `d`: where `d` stands or belongs.
pub open spec fn insertion_point(days: Seq<(Date, DayView)>, d: Date) -> nat
    decreases days.len(),
{
    if days.len() == 0 {
        0
    } else if date_before(days[0].0, d) {
        1 + insertion_point(days.drop_first(), d)
    } else {
        0
    }
}

/// `days` with an entry for `d`: unchanged where it has one, else with an empty
/// day for `d` at its place.
pub open spec fn with_day(days: Seq<(Date, DayView)>, d: Date) -> Seq<(Date, DayView)> {
    let i = insertion_point(days, d) as int;
    if i < days.len() && days[i].0 == d {
        days
    } else {
        days.insert(i, (d, empty_day()))
    }
}

/// The index of the first entry for `name`, or the length where there is none.
pub open spec fn state_index(state: Seq<(Seq<char>, Seq<Quantity>)>, name: Seq<char>) -> nat
    decreases state.len(),
{
    if state.len() == 0 {
        0
    } else if state[0].0 == name {
        0
    } else {
        1 + state_index(state.drop_first(), name)
    }
}

/// `state` with `q` appended to the list of `name`.
pub open spec fn add_to_state(state: Seq<(Seq<char>, Seq<Quantity>)>, name: Seq<char>, q: Quantity) -> Seq<
    (Seq<char>, Seq<Quantity>),
> {
    let k = state_index(state, name) as int;
    if k < state.len() {
        state.update(k, (name, state[k].1.push(q)))
    } else {
        state.push((name, seq![q]))
    }
}

/// `state` with each contribution appended, in order.
pub open spec fn add_all(state: Seq<(Seq<char>, Seq<Quantity>)>, cs: Seq<(Quantity, Seq<char>)>) -> Seq<
    (Seq<char>, Seq<Quantity>),
>
    decreases cs.len(),
{
    if cs.len() == 0 {
        state
    } else {
        add_to_state(add_all(state, cs.drop_last()), cs.last().1, cs.last().0)
    }
}

/// `days` after `p` is defined on `d`.
pub open spec fn define_on(days: Seq<(Date, DayView)>, d: Date, p: ProductDefinition) -> Seq<
    (Date, DayView),
> {
    let ds = with_day(days, d);
    let i = insertion_point(days, d) as int;
    ds.update(i, (d, (ds[i].1.0, ds[i].1.1.push(p))))
}

/// `days` after the contributions `cs` are eaten on `d`.
pub open spec fn eat_on(days: Seq<(Date, DayView)>, d: Date, cs: Seq<(Quantity, Seq<char>)>) -> Seq<
    (Date, DayView),
> {
    let ds = with_day(days, d);
    let i = insertion_point(days, d) as int;
    ds.update(i, (d, (add_all(ds[i].1.0, cs), ds[i].1.1)))
}

/// One entry of the fold: the days and the current day after it, or the name of
/// a product that was eaten without a visible definition.
pub open spec fn step(days: Seq<(Date, DayView)>, cur: Date, e: LogEntry, fuel: nat) -> Result<
    (Seq<(Date, DayView)>, Date),
    Seq<char>,
> {
    match e {
        LogEntry::StartDay(StartDay(d)) => Ok((with_day(days, d), d)),
        LogEntry::Define(p) => Ok((define_on(days, cur, p), cur)),
        LogEntry::Eat(Eat(a)) => match resolve(days, cur, a.inner@) {
            None => Err(a.inner@),
            Some(p) => Ok(
                (eat_on(days, cur, flatten_spec(days, cur, p, a.quantity, Seq::empty(), fuel)), cur),
            ),
        },
    }
}

/// The fold over `entries` from the state `(days, cur)`.
pub open spec fn fold_log(
    entries: Seq<LogEntry>,
    days: Seq<(Date, DayView)>,
    cur: Date,
    fuel: nat,
) -> Result<(Seq<(Date, DayView)>, Date), Seq<char>>
    decreases entries.len(),
{
    if entries.len() == 0 {
        Ok((days, cur))
    } else {
        match fold_log(entries.drop_last(), days, cur, fuel) {
            Err(n) => Err(n),
            Ok(st) => step(st.0, st.1, entries.last(), fuel),
        }
    }
}

/// The warnings of one entry: those of flattening what it eats.
pub open spec fn step_warnings(days: Seq<(Date, DayView)>, cur: Date, e: LogEntry, fuel: nat) -> Seq<
    (Seq<char>, FlattenError),
> {
    match e {
        LogEntry::Eat(Eat(a)) => match resolve(days, cur, a.inner@) {
            Some(p) => fallbacks(days, cur, p, a.quantity, Seq::empty(), fuel),
            None => Seq::empty(),
        },
        _ => Seq::empty(),
    }
}

/// The warnings of the fold over `entries`, in order.
pub open spec fn log_warnings(
    entries: Seq<LogEntry>,
    days: Seq<(Date, DayView)>,
    cur: Date,
    fuel: nat,
) -> Seq<(Seq<char>, FlattenError)>
    decreases entries.len(),
{
    if entries.len() == 0 {
        Seq::empty()
    } else {
        match fold_log(entries.drop_last(), days, cur, fuel) {
            Err(_) => Seq::empty(),
            Ok(st) => log_warnings(entries.drop_last(), days, cur, fuel) + step_warnings(
                st.0,
                st.1,
                entries.last(),
                fuel,
            ),
        }
    }
}

/// The summary of `entries`, starting on `today` with no days: the days of the
/// fold, or the product that was eaten undefined.
pub open spec fn summarize(entries: Seq<LogEntry>, today: Date) -> Result<Seq<(Date, DayView)>, Seq<char>> {
    match fold_log(entries, Seq::empty(), today, entries.len()) {
        Ok(st) => Ok(st.0),
        Err(n) => Err(n),
    }
}

proof fn lemma_fold_prefix_err(entries: Seq<LogEntry>, days: Seq<(Date, DayView)>, cur: Date, fuel: nat, k: int)
    requires
        0 <= k <= entries.len(),
        fold_log(entries.subrange(0, k), days, cur, fuel) is Err,
    ensures
        fold_log(entries, days, cur, fuel) == fold_log(entries.subrange(0, k), days, cur, fuel),
    decreases entries.len(),
{
    if k < entries.len() {
        assert(entries.drop_last().subrange(0, k) =~= entries.subrange(0, k));
        lemma_fold_prefix_err(entries.drop_last(), days, cur, fuel, k);
    } else {
        assert(entries.subrange(0, k) =~= entries);
    }
}

/// Why a log could not be summarized.
#[derive(Debug)]
pub enum CalcError {
    /// A product was eaten with no definition visible on that day.
    UndefinedProduct(ProductName),
}

/// Appends `q` to the list of `name` in `state`.
fn add_contribution(state: &mut Vec<(ProductName, Vec<Quantity>)>, name: &ProductName, q: Quantity)
    ensures
        state_view(final(state)@) == add_to_state(state_view(old(state)@), name@, q),
{
    let ghost sv = state_view(state@);
    let mut i: usize = 0;
    proof {
        assert(sv.subrange(0, sv.len() as int) =~= sv);
    }
    while i < state.len()
        invariant
            i <= sv.len(),
            sv == state_view(state@),
            sv == state_view(old(state)@),
            state_index(sv, name@) == i + state_index(sv.subrange(i as int, sv.len() as int), name@),
        decreases sv.len() - i,
    {
        proof {
            assert(sv.subrange(i as int, sv.len() as int).drop_first() =~= sv.subrange(i + 1, sv.len() as int));
            assert(sv.subrange(i as int, sv.len() as int)[0] == sv[i as int]);
        }
        if state[i].0.same_name(name) {
            proof {
                assert(sv[i as int].0 == name@);
                assert(state_index(sv, name@) == i);
            }
            let (n, mut qs) = state.remove(i);
            qs.push(q);
            state.insert(i, (n, qs));
            proof {
                assert(state_view(state@) =~= sv.update(i as int, (name@, sv[i as int].1.push(q))));
            }
            return;
        }
        i = i + 1;
    }
    proof {
        assert(sv.subrange(sv.len() as int, sv.len() as int).len() == 0);
    }
    let qs = vec![q];
    proof {
        assert(qs@ =~= seq![q]);
    }
    state.push((name.duplicate(), qs));
    proof {
        assert(state_view(state@) =~= sv.push((name@, seq![q])));
    }
}

impl<'input> GMDSummaryBuilder<'input> {
    /// The index of the day `d`, which is added, empty, where it is missing.
    fn day_slot(&mut self, d: Date) -> (r: usize)
        ensures
            days_view(final(self).current.days@) == with_day(days_view(old(self).current.days@), d),
            r == insertion_point(days_view(old(self).current.days@), d),
            r < final(self).current.days@.len(),
            final(self).current.days@[r as int].0 == d,
            final(self).current_day == old(self).current_day,
            final(self).depth_limit == old(self).depth_limit,
    {
        let ghost dv = days_view(self.current.days@);
        let mut i: usize = 0;
        proof {
            assert(dv.subrange(0, dv.len() as int) =~= dv);
        }
        while i < self.current.days.len() && self.current.days[i].0.is_before(&d)
            invariant
                i <= dv.len(),
                dv == days_view(self.current.days@),
                insertion_point(dv, d) == i + insertion_point(dv.subrange(i as int, dv.len() as int), d),
            decreases dv.len() - i,
        {
            proof {
                assert(dv.subrange(i as int, dv.len() as int).drop_first() =~= dv.subrange(i + 1, dv.len() as int));
                assert(dv.subrange(i as int, dv.len() as int)[0] == dv[i as int]);
            }
            i = i + 1;
        }
        proof {
            if i < dv.len() {
                assert(dv.subrange(i as int, dv.len() as int)[0] == dv[i as int]);
            } else {
                assert(dv.subrange(i as int, dv.len() as int).len() == 0);
            }
        }
        if i < self.current.days.len() && self.current.days[i].0 == d {
            return i;
        }
        self.current.days.insert(i, (d, GMDDay { state: Vec::new(), defined_products: Vec::new() }));
        proof {
            assert(state_view(Seq::<(ProductName, Vec<Quantity>)>::empty()) =~= Seq::<(Seq<char>, Seq<Quantity>)>::empty());
            assert(defs_view(Seq::<&ProductDefinition>::empty()) =~= Seq::<ProductDefinition>::empty());
            assert(days_view(self.current.days@) =~= dv.insert(i as int, (d, empty_day())));
        }
        i
    }
}

/// `r` is what summarizing `entries` from `today` gives.
pub open spec fn summarizes(entries: Seq<LogEntry>, today: Date, r: Result<GMDSummary, CalcError>) -> bool {
    match r {
        Ok(s) => summarize(entries, today) == Ok::<Seq<(Date, DayView)>, Seq<char>>(days_view(s.days@))
            && warnings_view(s.warnings@) == log_warnings(entries, Seq::empty(), today, entries.len()),
        Err(CalcError::UndefinedProduct(n)) => summarize(entries, today) == Err::<
            Seq<(Date, DayView)>,
            Seq<char>,
        >(n@),
    }
}

/// Relies on chrono's `Local::now` and `DateTime::date_naive`: the date of today
/// in the local time zone.
#[verifier::external_body]
fn local_today() -> (r: Date) {
    let d = chrono::Local::now().date_naive();
    Date { year: d.year(), month: d.month(), day: d.day() }
}

impl<'input> GMDSummaryBuilder<'input> {
    /// An empty summary whose current day is today's date.
    pub fn new() -> (r: GMDSummaryBuilder<'input>)
        ensures
            r.current.days@.len() == 0,
            r.current.warnings@.len() == 0,
            r.depth_limit == usize::MAX,
    {
        GMDSummaryBuilder {
            current: GMDSummary { days: Vec::new(), warnings: Vec::new() },
            current_day: local_today(),
            depth_limit: usize::MAX,
        }
    }

    /// Records that `p` is defined on the current day.
    fn define_product(&mut self, p: &'input ProductDefinition)
        ensures
            days_view(final(self).current.days@) == define_on(
                days_view(old(self).current.days@),
                old(self).current_day,
                *p,
            ),
            final(self).current_day == old(self).current_day,
            final(self).depth_limit == old(self).depth_limit,
    {
        let ghost before = days_view(self.current.days@);
        let cur = self.current_day;
        let k = self.day_slot(cur);
        let (dd, mut day) = self.current.days.remove(k);
        let ghost defs0 = day.defined_products@;
        day.defined_products.push(p);
        proof {
            assert(defs_view(day.defined_products@) =~= defs_view(defs0).push(*p));
        }
        self.current.days.insert(k, (dd, day));
        proof {
            assert(days_view(self.current.days@) =~= define_on(before, cur, *p));
        }
    }

    /// Records the contributions `eaten` on the current day.
    fn record_eaten(&mut self, eaten: &Vec<AmountOf<&'input ProductName>>)
        ensures
            days_view(final(self).current.days@) == eat_on(
                days_view(old(self).current.days@),
                old(self).current_day,
                shares_view(eaten@),
            ),
            final(self).current_day == old(self).current_day,
            final(self).depth_limit == old(self).depth_limit,
    {
        let ghost before = days_view(self.current.days@);
        let ghost cs = shares_view(eaten@);
        let cur = self.current_day;
        let k = self.day_slot(cur);
        let ghost ds = days_view(self.current.days@);
        let (dd, mut day) = self.current.days.remove(k);
        let ghost s0 = state_view(day.state@);
        let mut j: usize = 0;
        proof {
            assert(cs.subrange(0, 0).len() == 0);
        }
        while j < eaten.len()
            invariant
                j <= cs.len(),
                cs == shares_view(eaten@),
                k < ds.len(),
                defs_view(day.defined_products@) == ds[k as int].1.1,
                state_view(day.state@) == add_all(s0, cs.subrange(0, j as int)),
            decreases cs.len() - j,
        {
            proof {
                assert(cs.subrange(0, j + 1).drop_last() =~= cs.subrange(0, j as int));
                assert(cs.subrange(0, j + 1).last() == cs[j as int]);
            }
            add_contribution(&mut day.state, eaten[j].inner, eaten[j].quantity);
            j = j + 1;
        }
        proof {
            assert(cs.subrange(0, cs.len() as int) =~= cs);
        }
        self.current.days.insert(k, (dd, day));
        proof {
            assert(days_view(self.current.days@) =~= eat_on(before, cur, cs));
        }
    }

    /// Folds one entry into the state.
    pub fn apply(&mut self, entry: &'input LogEntry, warnings: &mut Vec<FlattenWarning>) -> (r: Result<
        (),
        CalcError,
    >)
        ensures
            final(self).depth_limit == old(self).depth_limit,
            match step(
                days_view(old(self).current.days@),
                old(self).current_day,
                *entry,
                old(self).depth_limit as nat,
            ) {
                Ok(st) => r is Ok && st == (days_view(final(self).current.days@), final(self).current_day),
                Err(n) => r matches Err(CalcError::UndefinedProduct(m)) && m@ == n,
            },
            r is Ok ==> warnings_view(final(warnings)@) == warnings_view(old(warnings)@) + step_warnings(
                days_view(old(self).current.days@),
                old(self).current_day,
                *entry,
                old(self).depth_limit as nat,
            ),
    {
        let ghost w0 = warnings_view(warnings@);
        proof {
            assert(w0 + Seq::<(Seq<char>, FlattenError)>::empty() =~= w0);
        }
        match entry {
            LogEntry::StartDay(StartDay(d)) => {
                self.day_slot(*d);
                self.current_day = *d;
                Ok(())
            },
            LogEntry::Define(p) => {
                self.define_product(p);
                Ok(())
            },
            LogEntry::Eat(Eat(a)) => {
                match self.definition(&a.inner) {
                    None => Err(CalcError::UndefinedProduct(a.inner.duplicate())),
                    Some(p) => {
                        let eaten = self.flatten_product(p, a.quantity, warnings);
                        self.record_eaten(&eaten);
                        Ok(())
                    },
                }
            },
        }
    }
}

impl<'input> GMDSummary<'input> {
    /// The summary of `log`, where entries before the first start of a day
    /// belong to `today`.
    pub fn from_log_on(log: &'input GMDLog, today: Date) -> (r: Result<GMDSummary<'input>, CalcError>)
        ensures
            summarizes(log.0@, today, r),
            r matches Ok(s) ==> days_wf(days_view(s.days@)),
    {
        let mut b = GMDSummaryBuilder {
            current: GMDSummary { days: Vec::new(), warnings: Vec::new() },
            current_day: today,
            depth_limit: log.0.len(),
        };
        let mut warnings: Vec<FlattenWarning> = Vec::new();
        let ghost entries = log.0@;
        let ghost fuel = log.0@.len();
        let ghost empty = Seq::<(Date, DayView)>::empty();
        let mut i: usize = 0;
        proof {
            assert(days_view(b.current.days@) =~= empty);
            assert(entries.subrange(0, 0).len() == 0);
            assert(warnings_view(warnings@) =~= Seq::<(Seq<char>, FlattenError)>::empty());
        }
        while i < log.0.len()
            invariant
                i <= entries.len(),
                entries == log.0@,
                fuel == entries.len(),
                empty == Seq::<(Date, DayView)>::empty(),
                b.depth_limit == fuel,
                warnings_view(warnings@) == log_warnings(entries.subrange(0, i as int), empty, today, fuel),
                fold_log(entries.subrange(0, i as int), empty, today, fuel) == Ok::<
                    (Seq<(Date, DayView)>, Date),
                    Seq<char>,
                >((days_view(b.current.days@), b.current_day)),
            decreases entries.len() - i,
        {
            proof {
                assert(entries.subrange(0, i + 1).drop_last() =~= entries.subrange(0, i as int));
                assert(entries.subrange(0, i + 1).last() == entries[i as int]);
            }
            let ghost st0 = (days_view(b.current.days@), b.current_day);
            let ghost wv0 = warnings_view(warnings@);
            match b.apply(&log.0[i], &mut warnings) {
                Ok(()) => {
                    proof {
                        assert(warnings_view(warnings@) == wv0 + step_warnings(st0.0, st0.1, entries[i as int], fuel));
                    }
                },
                Err(e) => {
                    proof {
                        let res = step(st0.0, st0.1, entries[i as int], fuel);
                        assert(res is Err);
                        assert(fold_log(entries.subrange(0, i + 1), empty, today, fuel) == res);
                        lemma_fold_prefix_err(entries, empty, today, fuel, i + 1);
                    }
                    return Err(e);
                },
            }
            i = i + 1;
        }
        proof {
            assert(entries.subrange(0, entries.len() as int) =~= entries);
            lemma_fold_wf(entries, today, fuel);
        }
        Ok(GMDSummary { days: b.current.days, warnings })
    }

    /// The summary of `log`, where entries before the first start of a day
    /// belong to the date of today.
    pub fn from_log(log: &'input GMDLog) -> (r: Result<GMDSummary<'input>, CalcError>)
        ensures
            exists|today: Date| summarizes(log.0@, today, r),
            r matches Ok(s) ==> days_wf(days_view(s.days@)),
    {
        let today = local_today();
        GMDSummary::from_log_on(log, today)
    }
}

impl<'input> GMDSummary<'input> {
    /// What was recorded on the day `d`.
    pub fn day(&self, d: &Date) -> (r: Option<&GMDDay<'input>>)
        ensures
            r matches Some(x) ==> exists|i: int| 0 <= i < self.days@.len() && self.days@[i] == (*d, *x),
            r is None ==> forall|i: int| 0 <= i < self.days@.len() ==> #[trigger] self.days@[i].0 != *d,
    {
        let mut i: usize = 0;
        while i < self.days.len()
            invariant
                i <= self.days@.len(),
                forall|k: int| 0 <= k < i ==> #[trigger] self.days@[k].0 != *d,
            decreases self.days@.len() - i,
        {
            if self.days[i].0 == *d {
                return Some(&self.days[i].1);
            }
            i = i + 1;
        }
        None
    }
}

impl<'input> GMDDay<'input> {
    /// The quantities of `name` eaten on the day, one per contribution.
    pub fn state_of(&self, name: &str) -> (r: Option<&Vec<Quantity>>)
        ensures
            r matches Some(v) ==> exists|i: int|
                0 <= i < self.state@.len() && self.state@[i].0@ == name@ && self.state@[i].1 == *v,
            r is None ==> forall|i: int| 0 <= i < self.state@.len() ==> #[trigger] self.state@[i].0@ != name@,
    {
        let key = ProductName::new(name);
        let mut i: usize = 0;
        while i < self.state.len()
            invariant
                i <= self.state@.len(),
                key@ == name@,
                forall|k: int| 0 <= k < i ==> #[trigger] self.state@[k].0@ != name@,
            decreases self.state@.len() - i,
        {
            if self.state[i].0.same_name(&key) {
                return Some(&self.state[i].1);
            }
            i = i + 1;
        }
        None
    }
}

/// The days are in strictly increasing order of date.
pub open spec fn sorted_days(days: Seq<(Date, DayView)>) -> bool {
    forall|a: int, b: int| 0 <= a < b < days.len() ==> date_before(#[trigger] days[a].0, #[trigger] days[b].0)
}

/// No product has two entries in the state of a day.
pub open spec fn unique_names(state: Seq<(Seq<char>, Seq<Quantity>)>) -> bool {
    forall|a: int, b: int| 0 <= a < b < state.len() ==> (#[trigger] state[a]).0 != (#[trigger] state[b]).0
}

/// The days are in order of date, each date once, and each day holds each
/// product at most once.
pub open spec fn days_wf(days: Seq<(Date, DayView)>) -> bool {
    &&& sorted_days(days)
    &&& forall|i: int| 0 <= i < days.len() ==> unique_names(#[trigger] days[i].1.0)
}

proof fn lemma_insertion_point(days: Seq<(Date, DayView)>, d: Date)
    ensures
        insertion_point(days, d) <= days.len(),
        forall|j: int| 0 <= j < insertion_point(days, d) ==> date_before(#[trigger] days[j].0, d),
        insertion_point(days, d) < days.len() ==> !date_before(days[insertion_point(days, d) as int].0, d),
    decreases days.len(),
{
    if days.len() > 0 && date_before(days[0].0, d) {
        lemma_insertion_point(days.drop_first(), d);
        assert forall|j: int| 0 <= j < insertion_point(days, d) implies date_before(#[trigger] days[j].0, d) by {
            if j > 0 {
                assert(days[j] == days.drop_first()[j - 1]);
            }
        };
    }
}

proof fn lemma_with_day_wf(days: Seq<(Date, DayView)>, d: Date)
    requires
        days_wf(days),
    ensures
        days_wf(with_day(days, d)),
        insertion_point(days, d) < with_day(days, d).len(),
        with_day(days, d)[insertion_point(days, d) as int].0 == d,
{
    lemma_insertion_point(days, d);
    let i = insertion_point(days, d) as int;
    if !(i < days.len() && days[i].0 == d) {
        let ds = days.insert(i, (d, empty_day()));
        assert forall|a: int, b: int| 0 <= a < b < ds.len() implies date_before(#[trigger] ds[a].0, #[trigger] ds[b].0) by {
            if b == i {
                assert(ds[a] == days[a]);
            } else if a == i {
                assert(ds[b] == days[b - 1]);
                if b - 1 > i {
                    assert(date_before(days[i].0, days[b - 1].0));
                }
            } else if a < i && b > i {
                assert(ds[a] == days[a]);
                assert(ds[b] == days[b - 1]);
            } else if a > i {
                assert(ds[a] == days[a - 1]);
                assert(ds[b] == days[b - 1]);
            } else {
                assert(ds[a] == days[a]);
                assert(ds[b] == days[b]);
            }
        };
        assert forall|k: int| 0 <= k < ds.len() implies unique_names(#[trigger] ds[k].1.0) by {
            if k < i {
                assert(ds[k] == days[k]);
            } else if k > i {
                assert(ds[k] == days[k - 1]);
            }
        };
    }
}

proof fn lemma_state_index(state: Seq<(Seq<char>, Seq<Quantity>)>, name: Seq<char>)
    ensures
        state_index(state, name) <= state.len(),
        state_index(state, name) < state.len() ==> state[state_index(state, name) as int].0 == name,
        state_index(state, name) == state.len() ==> forall|j: int| 0 <= j < state.len() ==> (#[trigger] state[j]).0 != name,
    decreases state.len(),
{
    if state.len() > 0 && state[0].0 != name {
        lemma_state_index(state.drop_first(), name);
        if state_index(state, name) == state.len() {
            assert forall|j: int| 0 <= j < state.len() implies (#[trigger] state[j]).0 != name by {
                if j > 0 {
                    assert(state[j] == state.drop_first()[j - 1]);
                }
            };
        }
    }
}

proof fn lemma_add_all_unique(state: Seq<(Seq<char>, Seq<Quantity>)>, cs: Seq<(Quantity, Seq<char>)>)
    requires
        unique_names(state),
    ensures
        unique_names(add_all(state, cs)),
    decreases cs.len(),
{
    if cs.len() > 0 {
        lemma_add_all_unique(state, cs.drop_last());
        let st = add_all(state, cs.drop_last());
        lemma_state_index(st, cs.last().1);
        let r = add_to_state(st, cs.last().1, cs.last().0);
        assert forall|a: int, b: int| 0 <= a < b < r.len() implies (#[trigger] r[a]).0 != (#[trigger] r[b]).0 by {
            if b == st.len() {
                assert(r[a] == st[a]);
            }
        };
    }
}

/// Every state that the fold reaches from no days is well formed.
proof fn lemma_fold_wf(entries: Seq<LogEntry>, cur: Date, fuel: nat)
    ensures
        fold_log(entries, Seq::empty(), cur, fuel) matches Ok(st) ==> days_wf(st.0),
    decreases entries.len(),
{
    if entries.len() > 0 {
        lemma_fold_wf(entries.drop_last(), cur, fuel);
        if let Ok(st) = fold_log(entries.drop_last(), Seq::empty(), cur, fuel) {
            let days = st.0;
            match entries.last() {
                LogEntry::StartDay(StartDay(d)) => {
                    lemma_with_day_wf(days, d);
                },
                LogEntry::Define(p) => {
                    lemma_with_day_wf(days, st.1);
                    let ds = with_day(days, st.1);
                    let r = define_on(days, st.1, p);
                    assert forall|k: int| 0 <= k < r.len() implies unique_names(#[trigger] r[k].1.0) by {
                        assert(r[k].1.0 == ds[k].1.0);
                    };
                    assert forall|a: int, b: int| 0 <= a < b < r.len() implies date_before(#[trigger] r[a].0, #[trigger] r[b].0) by {
                        assert(r[a].0 == ds[a].0 && r[b].0 == ds[b].0);
                    };
                },
                LogEntry::Eat(Eat(x)) => {
                    if let Some(p) = resolve(days, st.1, x.inner@) {
                        lemma_with_day_wf(days, st.1);
                        let ds = with_day(days, st.1);
                        let i = insertion_point(days, st.1) as int;
                        let cs = flatten_spec(days, st.1, p, x.quantity, Seq::empty(), fuel);
                        lemma_add_all_unique(ds[i].1.0, cs);
                        let r = eat_on(days, st.1, cs);
                        assert forall|k: int| 0 <= k < r.len() implies unique_names(#[trigger] r[k].1.0) by {
                            if k != i {
                                assert(r[k] == ds[k]);
                            }
                        };
                        assert forall|a: int, b: int| 0 <= a < b < r.len() implies date_before(#[trigger] r[a].0, #[trigger] r[b].0) by {
                            assert(r[a].0 == ds[a].0 && r[b].0 == ds[b].0);
                        };
                    }
                },
            }
        }
    }
}

} // verus!

