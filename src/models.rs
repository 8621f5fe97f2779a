use crate::decimal::{same_value, Decimal};
use vstd::prelude::*;

verus! {

/// The gram.
#[derive(Clone, Copy, Debug, PartialEq, Eq, Structural)]
pub struct Gram;

/// The kilocalorie.
#[derive(Clone, Copy, Debug, PartialEq, Eq, Structural)]
pub struct Kcal;

#[derive(Clone, Copy, Debug, PartialEq, Eq, Structural)]
pub enum UnitOfMeasure {
    Gram(Gram),
    Kcal(Kcal),
}

impl UnitOfMeasure {
    /// The short token that a unit is written with.
    pub fn symbol(&self) -> (r: &'static str)
        ensures
            r@ == (match self {
                UnitOfMeasure::Gram(_) => "g"@,
                UnitOfMeasure::Kcal(_) => "kcal"@,
            }),
    {
        proof {
            reveal_strlit("g");
            reveal_strlit("kcal");
        }
        match self {
            UnitOfMeasure::Gram(_) => "g",
            UnitOfMeasure::Kcal(_) => "kcal",
        }
    }
}

/// An amount in a unit of measure.
#[derive(Clone, Copy, Debug)]
pub struct Quantity {
    pub amount: Decimal,
    pub unit: UnitOfMeasure,
}

/// Two quantities are equal when their units are and their amounts denote one number.
pub open spec fn same_quantity(a: Quantity, b: Quantity) -> bool {
    a.unit == b.unit && same_value(a.amount@, b.amount@)
}

impl PartialEq for Quantity {
    fn eq(&self, other: &Quantity) -> (r: bool) {
        self.unit == other.unit && self.amount.same_value(&other.amount)
    }
}

impl vstd::std_specs::cmp::PartialEqSpecImpl for Quantity {
    open spec fn obeys_eq_spec() -> bool {
        true
    }

    open spec fn eq_spec(&self, other: &Quantity) -> bool {
        same_quantity(*self, *other)
    }
}

/// Why two quantities could not be added.
#[derive(Clone, Copy, Debug, PartialEq, Eq, Structural)]
pub enum QuantityError {
    IncompatibleUnits,
    Overflow,
}

impl Quantity {
    /// Adds `other` to `self`; the units must be the same.
    pub fn try_add(&mut self, other: Quantity) -> (r: Result<(), QuantityError>)
        ensures
            old(self).unit != other.unit <==> r == Err::<(), QuantityError>(QuantityError::IncompatibleUnits),
            old(self).unit == other.unit && crate::decimal::decimal_sum(old(self).amount@, other.amount@) is None
                <==> r == Err::<(), QuantityError>(QuantityError::Overflow),
            r is Ok ==> final(self).unit == old(self).unit
                && crate::decimal::decimal_sum(old(self).amount@, other.amount@) == Some(final(self).amount@),
            r is Err ==> *final(self) == *old(self),
            r is Err ==> old(self).unit != other.unit || crate::decimal::decimal_sum(old(self).amount@, other.amount@) is None,
    {
        if self.unit != other.unit {
            return Err(QuantityError::IncompatibleUnits);
        }
        match self.amount.checked_add(other.amount) {
            Some(sum) => {
                self.amount = sum;
                Ok(())
            },
            None => Err(QuantityError::Overflow),
        }
    }

    /// Attaches the quantity to `inner`.
    pub fn of<T>(self, inner: T) -> (r: AmountOf<T>)
        ensures
            r.quantity == self,
            r.inner == inner,
    {
        AmountOf { quantity: self, inner }
    }
}

/// The name of a product.
#[derive(Clone, Debug)]
pub struct ProductName(pub String);

impl View for ProductName {
    type V = Seq<char>;

    open spec fn view(&self) -> Seq<char> {
        self.0@
    }
}

impl ProductName {
    pub fn new(name: &str) -> (r: ProductName)
        ensures
            r@ == name@,
    {
        ProductName(name.to_owned())
    }

    /// A copy of the name.
    pub fn duplicate(&self) -> (r: ProductName)
        ensures
            r@ == self@,
    {
        ProductName(self.0.clone())
    }

    pub fn same_name(&self, other: &ProductName) -> (r: bool)
        ensures
            r == (self@ == other@),
    {
        self.0 == other.0
    }
}

/// A quantity of something.
#[derive(Clone, Copy, Debug)]
pub struct AmountOf<Inner> {
    pub quantity: Quantity,
    pub inner: Inner,
}

impl<Inner> AmountOf<Inner> {
    pub fn as_ref_inner(&self) -> (r: AmountOf<&Inner>)
        ensures
            r.quantity == self.quantity,
            *r.inner == self.inner,
    {
        AmountOf { quantity: self.quantity, inner: &self.inner }
    }
}

/// What a name with its quantity says: the quantity and the characters of the name.
pub open spec fn amount_view(a: AmountOf<ProductName>) -> (Quantity, Seq<char>) {
    (a.quantity, a.inner@)
}

pub open spec fn amounts_view(v: Seq<AmountOf<ProductName>>) -> Seq<(Quantity, Seq<char>)> {
    v.map_values(|a: AmountOf<ProductName>| amount_view(a))
}

/// What a definition says: its name, and, for a composite product, the batch
/// quantity with the quantity of each ingredient in one batch.
pub type DefinitionView = (Seq<char>, Option<(Quantity, Seq<(Quantity, Seq<char>)>)>);

/// A product: primitive when it has no ingredients, else composite.
#[derive(Clone, Debug)]
pub struct ProductDefinition {
    pub name: ProductName,
    pub ingredients: Option<AmountOf<Vec<AmountOf<ProductName>>>>,
}

impl View for ProductDefinition {
    type V = DefinitionView;

    open spec fn view(&self) -> DefinitionView {
        (
            self.name@,
            match self.ingredients {
                None => None,
                Some(batch) => Some((batch.quantity, amounts_view(batch.inner@))),
            },
        )
    }
}

impl ProductDefinition {
    /// The list of ingredients of a composite product is never empty.
    pub open spec fn wf(&self) -> bool {
        self.ingredients matches Some(batch) ==> batch.inner@.len() > 0
    }

    pub fn primitive(name: &str) -> (r: ProductDefinition)
        ensures
            r@ == (name@, None::<(Quantity, Seq<(Quantity, Seq<char>)>)>),
            r.wf(),
    {
        ProductDefinition { name: ProductName::new(name), ingredients: None }
    }
}

/// A calendar date.
#[derive(Clone, Copy, Debug, PartialEq, Eq, Structural)]
pub struct Date {
    pub year: i32,
    pub month: u32,
    pub day: u32,
}

/// The Gregorian leap-year rule.
pub open spec fn is_leap_year(y: int) -> bool {
    (y % 4 == 0 && y % 100 != 0) || y % 400 == 0
}

pub open spec fn days_in_month(y: int, m: int) -> int {
    if m == 2 {
        if is_leap_year(y) {
            29
        } else {
            28
        }
    } else if m == 4 || m == 6 || m == 9 || m == 11 {
        30
    } else {
        31
    }
}

/// `d` names a day of the Gregorian calendar.
pub open spec fn is_valid_date(d: Date) -> bool {
    1 <= d.month <= 12 && 1 <= d.day <= days_in_month(d.year as int, d.month as int)
}

/// `a` comes before `b` in the calendar.
pub open spec fn date_before(a: Date, b: Date) -> bool {
    a.year < b.year || (a.year == b.year && (a.month < b.month || (a.month == b.month && a.day < b.day)))
}

pub open spec fn date_on_or_before(a: Date, b: Date) -> bool {
    date_before(a, b) || a == b
}

impl Date {
    pub fn new(year: i32, month: u32, day: u32) -> (r: Date)
        ensures
            r == (Date { year, month, day }),
    {
        Date { year, month, day }
    }

    pub fn is_before(&self, other: &Date) -> (r: bool)
        ensures
            r == date_before(*self, *other),
    {
        self.year < other.year || (self.year == other.year && (self.month < other.month || (
        self.month == other.month && self.day < other.day)))
    }
}

/// Consumption of an amount of a product.
#[derive(Clone, Debug)]
pub struct Eat(pub AmountOf<ProductName>);

/// The start of a day: what follows happened on that day.
#[derive(Clone, Copy, Debug)]
pub struct StartDay(pub Date);

#[derive(Clone, Debug)]
pub enum LogEntry {
    StartDay(StartDay),
    Define(ProductDefinition),
    Eat(Eat),
}

/// The entries of a diary, in the order they were written.
#[derive(Clone, Debug)]
pub struct GMDLog(pub Vec<LogEntry>);

impl LogEntry {
    pub open spec fn wf(&self) -> bool {
        &&& (self matches LogEntry::Define(p) ==> p.wf())
        &&& (self matches LogEntry::StartDay(StartDay(d)) ==> is_valid_date(*d))
    }
}

impl GMDLog {
    pub open spec fn wf(&self) -> bool {
        forall|i: int| 0 <= i < self.0@.len() ==> #[trigger] self.0@[i].wf()
    }
}

/// What an entry of a log says.
pub enum EntryView {
    StartDay(Date),
    Define(DefinitionView),
    Eat((Quantity, Seq<char>)),
}

impl View for LogEntry {
    type V = EntryView;

    open spec fn view(&self) -> EntryView {
        match self {
            LogEntry::StartDay(StartDay(d)) => EntryView::StartDay(*d),
            LogEntry::Define(p) => EntryView::Define(p@),
            LogEntry::Eat(Eat(a)) => EntryView::Eat(amount_view(*a)),
        }
    }
}

pub open spec fn entries_view(v: Seq<LogEntry>) -> Seq<EntryView> {
    v.map_values(|e: LogEntry| e@)
}

} // verus!
