use crate::decimal::{decimal_from_str, decimal_product, parse_decimal, Decimal};
use crate::keyword::{matches_at, Keyword};
use crate::models::{
    amount_view, entries_view, is_valid_date, AmountOf, Date, DefinitionView, Eat, EntryView, GMDLog, Gram, Kcal, LogEntry,
    ProductDefinition, ProductName, Quantity, StartDay, UnitOfMeasure,
};
use chrono::Datelike;
use vstd::prelude::*;
use vstd::string::StrSliceExecFns;

verus! {

/// The kinds of characters that the grammar reads in runs.
#[derive(Clone, Copy, Debug, PartialEq, Eq, Structural)]
pub enum CharClass {
    /// Unicode white space.
    Space,
    /// The characters of a decimal number: `-`, `.` and the digits.
    Number,
    /// The characters of a date: `.`, `-`, `/` and the digits.
    DateText,
    /// Anything but a line break.
    Line,
}

/// Characters with the Unicode `White_Space` property.
pub open spec fn is_space(c: char) -> bool {
    let u = c as u32;
    (0x9 <= u <= 0xD) || u == 0x20 || u == 0x85 || u == 0xA0 || u == 0x1680 || (0x2000 <= u
        <= 0x200A) || u == 0x2028 || u == 0x2029 || u == 0x202F || u == 0x205F || u == 0x3000
}

pub open spec fn is_digit(c: char) -> bool {
    '0' <= c <= '9'
}

pub open spec fn in_class(cls: CharClass, c: char) -> bool {
    match cls {
        CharClass::Space => is_space(c),
        CharClass::Number => c == '-' || c == '.' || is_digit(c),
        CharClass::DateText => c == '.' || c == '-' || c == '/' || is_digit(c),
        CharClass::Line => c != '\n',
    }
}

fn is_in_class(cls: CharClass, c: char) -> (r: bool)
    ensures
        r == in_class(cls, c),
{
    match cls {
        CharClass::Space => {
            let u = c as u32;
            (0x9 <= u && u <= 0xD) || u == 0x20 || u == 0x85 || u == 0xA0 || u == 0x1680 || (0x2000
                <= u && u <= 0x200A) || u == 0x2028 || u == 0x2029 || u == 0x202F || u == 0x205F
                || u == 0x3000
        },
        CharClass::Number => c == '-' || c == '.' || ('0' <= c && c <= '9'),
        CharClass::DateText => c == '.' || c == '-' || c == '/' || ('0' <= c && c <= '9'),
        CharClass::Line => c != '\n',
    }
}

/// The end of the longest run of `cls` characters of `s` that starts at `pos`.
pub open spec fn run_end(s: Seq<char>, pos: int, cls: CharClass) -> int
    decreases s.len() - pos,
{
    if 0 <= pos < s.len() && in_class(cls, s[pos]) {
        run_end(s, pos + 1, cls)
    } else {
        pos
    }
}

proof fn lemma_run_end_bounds(s: Seq<char>, pos: int, cls: CharClass)
    requires
        0 <= pos <= s.len(),
    ensures
        pos <= run_end(s, pos, cls) <= s.len(),
    decreases s.len() - pos,
{
    if pos < s.len() && in_class(cls, s[pos]) {
        lemma_run_end_bounds(s, pos + 1, cls);
    }
}

/// The end of the run of `cls` characters at `pos`.
pub fn scan(s: &Vec<char>, pos: usize, cls: CharClass) -> (r: usize)
    requires
        pos <= s@.len(),
    ensures
        r == run_end(s@, pos as int, cls),
        pos <= r <= s@.len(),
{
    let mut i = pos;
    while i < s.len() && is_in_class(cls, s[i])
        invariant
            pos <= i <= s@.len(),
            run_end(s@, pos as int, cls) == run_end(s@, i as int, cls),
        decreases s@.len() - i,
    {
        i = i + 1;
    }
    i
}

/// One or more white-space characters at `pos`: the position after them.
pub open spec fn whitespace_at(s: Seq<char>, pos: int) -> Option<int> {
    let e = run_end(s, pos, CharClass::Space);
    if e > pos {
        Some(e)
    } else {
        None
    }
}

pub fn whitespace(s: &Vec<char>, pos: usize) -> (r: Option<usize>)
    requires
        pos <= s@.len(),
    ensures
        r matches Some(e) ==> whitespace_at(s@, pos as int) == Some(e as int) && e <= s@.len(),
        r is None ==> whitespace_at(s@, pos as int) is None,
{
    let e = scan(s, pos, CharClass::Space);
    if e > pos {
        Some(e)
    } else {
        None
    }
}

/// A decimal number at `pos`: the longest run of its characters, which must
/// spell a number.
pub open spec fn decimal_at(s: Seq<char>, pos: int) -> Option<((int, nat), int)> {
    let e = run_end(s, pos, CharClass::Number);
    if e > pos {
        match decimal_from_str(s.subrange(pos, e)) {
            Some(v) => Some((v, e)),
            None => None,
        }
    } else {
        None
    }
}

/// The text `t` whose characters `s` holds; parsers read `s` and cut pieces of `t`.
pub open spec fn same_text(s: Seq<char>, t: &str) -> bool {
    s == t@
}

pub fn parse_decimal_at(s: &Vec<char>, t: &str, pos: usize) -> (r: Option<(Decimal, usize)>)
    requires
        pos <= s@.len(),
        same_text(s@, t),
    ensures
        r matches Some(x) ==> decimal_at(s@, pos as int) == Some((x.0@, x.1 as int)) && x.1 <= s@.len(),
        r is None ==> decimal_at(s@, pos as int) is None,
{
    let e = scan(s, pos, CharClass::Number);
    if e == pos {
        return None;
    }
    let piece = t.substring_char(pos, e);
    match parse_decimal(piece) {
        Some(d) => Some((d, e)),
        None => None,
    }
}

/// A unit of measure at `pos`.
pub open spec fn unit_at(s: Seq<char>, pos: int) -> Option<(UnitOfMeasure, int)> {
    if matches_at(s, pos, "g"@) {
        Some((UnitOfMeasure::Gram(Gram), pos + 1))
    } else if matches_at(s, pos, "kcal"@) {
        Some((UnitOfMeasure::Kcal(Kcal), pos + 4))
    } else {
        None
    }
}

/// Sub-units of the gram, which are read and at once turned into grams.
#[derive(Clone, Copy, Debug, PartialEq, Eq, Structural)]
pub enum SpecialUnitOfMeasure {
    Milligram,
    Microgram,
}

pub open spec fn special_at(s: Seq<char>, pos: int) -> Option<(SpecialUnitOfMeasure, int)> {
    if matches_at(s, pos, "mg"@) {
        Some((SpecialUnitOfMeasure::Milligram, pos + 2))
    } else if matches_at(s, pos, "\u{b5}g"@) {
        Some((SpecialUnitOfMeasure::Microgram, pos + 2))
    } else {
        None
    }
}

/// The factor of a sub-unit: one thousandth or one millionth.
pub open spec fn factor(u: SpecialUnitOfMeasure) -> (int, nat) {
    match u {
        SpecialUnitOfMeasure::Milligram => (1, 3),
        SpecialUnitOfMeasure::Microgram => (1, 6),
    }
}

/// `amount` of the sub-unit `u`, in grams.
pub open spec fn convert_spec(u: SpecialUnitOfMeasure, amount: (int, nat)) -> Option<Quantity> {
    match decimal_product(amount, factor(u)) {
        Some(a) => Some(Quantity { amount: Decimal::from_view(a), unit: UnitOfMeasure::Gram(Gram) }),
        None => None,
    }
}

impl SpecialUnitOfMeasure {
    pub fn convert(self, amount: Decimal) -> (r: Option<Quantity>)
        ensures
            r == convert_spec(self, amount@),
    {
        let f = match self {
            SpecialUnitOfMeasure::Milligram => Decimal::new(1, 3),
            SpecialUnitOfMeasure::Microgram => Decimal::new(1, 6),
        };
        match amount.checked_mul(f) {
            Some(a) => {
                proof {
                    Decimal::lemma_view_determines(a, a);
                }
                Some(Quantity { amount: a, unit: UnitOfMeasure::Gram(Gram) })
            },
            None => None,
        }
    }
}

/// A quantity at `pos`: a number followed at once by a unit; a sub-unit is read
/// first.
pub open spec fn quantity_at(s: Seq<char>, pos: int) -> Option<(Quantity, int)> {
    match decimal_at(s, pos) {
        None => None,
        Some((v, e)) => match special_at(s, e) {
            Some((u, e2)) => match convert_spec(u, v) {
                Some(q) => Some((q, e2)),
                None => None,
            },
            None => match unit_at(s, e) {
                Some((u, e2)) => Some((Quantity { amount: Decimal::from_view(v), unit: u }, e2)),
                None => None,
            },
        },
    }
}

fn word_at(s: &Vec<char>, pos: usize, w: &'static str) -> (r: Option<usize>)
    ensures
        matches_at(s@, pos as int, w@) ==> (r matches Some(e) && e == pos + w@.len()),
        !matches_at(s@, pos as int, w@) ==> r is None,
{
    Keyword { value: w }.tag(s, pos)
}

pub fn parse_unit(s: &Vec<char>, pos: usize) -> (r: Option<(UnitOfMeasure, usize)>)
    ensures
        r matches Some(x) ==> unit_at(s@, pos as int) == Some((x.0, x.1 as int)) && x.1 <= s@.len(),
        r is None ==> unit_at(s@, pos as int) is None,
{
    proof {
        reveal_strlit("g");
        reveal_strlit("kcal");
    }
    if let Some(e) = word_at(s, pos, "g") {
        return Some((UnitOfMeasure::Gram(Gram), e));
    }
    if let Some(e) = word_at(s, pos, "kcal") {
        return Some((UnitOfMeasure::Kcal(Kcal), e));
    }
    None
}

pub fn parse_special(s: &Vec<char>, pos: usize) -> (r: Option<(SpecialUnitOfMeasure, usize)>)
    ensures
        r matches Some(x) ==> special_at(s@, pos as int) == Some((x.0, x.1 as int)) && x.1 <= s@.len(),
        r is None ==> special_at(s@, pos as int) is None,
{
    proof {
        reveal_strlit("mg");
        reveal_strlit("\u{b5}g");
    }
    if let Some(e) = word_at(s, pos, "mg") {
        return Some((SpecialUnitOfMeasure::Milligram, e));
    }
    if let Some(e) = word_at(s, pos, "\u{b5}g") {
        return Some((SpecialUnitOfMeasure::Microgram, e));
    }
    None
}

pub fn parse_quantity_at(s: &Vec<char>, t: &str, pos: usize) -> (r: Option<(Quantity, usize)>)
    requires
        pos <= s@.len(),
        same_text(s@, t),
    ensures
        r matches Some(x) ==> quantity_at(s@, pos as int) == Some((x.0, x.1 as int)) && x.1 <= s@.len(),
        r is None ==> quantity_at(s@, pos as int) is None,
{
    let (v, e) = match parse_decimal_at(s, t, pos) {
        Some(x) => x,
        None => return None,
    };
    proof {
        Decimal::lemma_view_determines(v, v);
    }
    match parse_special(s, e) {
        Some((u, e2)) => match u.convert(v) {
            Some(q) => Some((q, e2)),
            None => None,
        },
        None => match parse_unit(s, e) {
            Some((u, e2)) => Some((Quantity { amount: v, unit: u }, e2)),
            None => None,
        },
    }
}

/// A product name at `pos`: the rest of the line, which may not be empty.
pub open spec fn name_at(s: Seq<char>, pos: int) -> Option<(Seq<char>, int)> {
    let e = run_end(s, pos, CharClass::Line);
    if e > pos {
        Some((s.subrange(pos, e), e))
    } else {
        None
    }
}

/// A quantity of a named product at `pos`: `<quantity> of <name>`.
pub open spec fn amount_at(s: Seq<char>, pos: int) -> Option<((Quantity, Seq<char>), int)> {
    match quantity_at(s, pos) {
        None => None,
        Some((q, e1)) => match whitespace_at(s, e1) {
            None => None,
            Some(e2) => if matches_at(s, e2, "of"@) {
                match whitespace_at(s, e2 + 2) {
                    None => None,
                    Some(e4) => match name_at(s, e4) {
                        None => None,
                        Some((n, e5)) => Some(((q, n), e5)),
                    },
                }
            } else {
                None
            },
        },
    }
}

proof fn lemma_whitespace_bounds(s: Seq<char>, pos: int)
    requires
        0 <= pos <= s.len(),
    ensures
        whitespace_at(s, pos) matches Some(e) ==> pos < e <= s.len(),
{
    lemma_run_end_bounds(s, pos, CharClass::Space);
}

pub fn parse_amount_at(s: &Vec<char>, t: &str, pos: usize) -> (r: Option<(AmountOf<ProductName>, usize)>)
    requires
        pos <= s@.len(),
        same_text(s@, t),
    ensures
        r matches Some(x) ==> amount_at(s@, pos as int) == Some((amount_view(x.0), x.1 as int))
            && pos < x.1 <= s@.len(),
        r is None ==> amount_at(s@, pos as int) is None,
{
    proof {
        reveal_strlit("of");
    }
    let (q, e1) = match parse_quantity_at(s, t, pos) {
        Some(x) => x,
        None => return None,
    };
    let e2 = match whitespace(s, e1) {
        Some(e) => e,
        None => return None,
    };
    let e3 = match Keyword::of().tag(s, e2) {
        Some(e) => e,
        None => return None,
    };
    let e4 = match whitespace(s, e3) {
        Some(e) => e,
        None => return None,
    };
    let e5 = scan(s, e4, CharClass::Line);
    if e5 == e4 {
        return None;
    }
    let name = ProductName(t.substring_char(e4, e5).to_owned());
    proof {
        lemma_run_end_bounds(s@, pos as int, CharClass::Number);
    }
    Some((AmountOf { quantity: q, inner: name }, e5))
}

/// An ingredient line at `pos`: optional white space, `-`, optional white
/// space, then a quantity of a named product.
pub open spec fn ingredient_at(s: Seq<char>, pos: int) -> Option<((Quantity, Seq<char>), int)> {
    let e1 = run_end(s, pos, CharClass::Space);
    if matches_at(s, e1, "-"@) {
        amount_at(s, run_end(s, e1 + 1, CharClass::Space))
    } else {
        None
    }
}

/// As many ingredient lines as follow `pos`, and the position after them.
pub open spec fn ingredients_from(s: Seq<char>, pos: int) -> (Seq<(Quantity, Seq<char>)>, int)
    decreases s.len() - pos,
{
    match ingredient_at(s, pos) {
        Some((a, e)) => if pos < e <= s.len() {
            let rest = ingredients_from(s, e);
            (seq![a] + rest.0, rest.1)
        } else {
            (Seq::empty(), pos)
        },
        None => (Seq::empty(), pos),
    }
}

fn parse_ingredient_at(s: &Vec<char>, t: &str, pos: usize) -> (r: Option<(AmountOf<ProductName>, usize)>)
    requires
        pos <= s@.len(),
        same_text(s@, t),
    ensures
        r matches Some(x) ==> ingredient_at(s@, pos as int) == Some((amount_view(x.0), x.1 as int))
            && pos < x.1 <= s@.len(),
        r is None ==> ingredient_at(s@, pos as int) is None,
{
    proof {
        reveal_strlit("-");
    }
    let e1 = scan(s, pos, CharClass::Space);
    let e2 = match Keyword::minus().tag(s, e1) {
        Some(e) => e,
        None => return None,
    };
    let e3 = scan(s, e2, CharClass::Space);
    parse_amount_at(s, t, e3)
}

/// The ingredient lines that follow `pos`, and the position after them.
fn parse_ingredients(s: &Vec<char>, t: &str, pos: usize) -> (r: (Vec<AmountOf<ProductName>>, usize))
    requires
        pos <= s@.len(),
        same_text(s@, t),
    ensures
        ingredients_from(s@, pos as int) == (r.0@.map_values(|a: AmountOf<ProductName>| amount_view(a)), r.1 as int),
        r.1 <= s@.len(),
{
    let mut out: Vec<AmountOf<ProductName>> = Vec::new();
    let mut cur = pos;
    proof {
        assert(out@.map_values(|a: AmountOf<ProductName>| amount_view(a)) =~= Seq::<(Quantity, Seq<char>)>::empty());
    }
    loop
        invariant
            pos <= cur <= s@.len(),
            same_text(s@, t),
            ingredients_from(s@, pos as int) == (
                out@.map_values(|a: AmountOf<ProductName>| amount_view(a)) + ingredients_from(s@, cur as int).0,
                ingredients_from(s@, cur as int).1,
            ),
        decreases s@.len() - cur,
    {
        match parse_ingredient_at(s, t, cur) {
            Some((a, e)) => {
                let ghost before = out@.map_values(|a: AmountOf<ProductName>| amount_view(a));
                let ghost av = amount_view(a);
                out.push(a);
                proof {
                    assert(out@.map_values(|a: AmountOf<ProductName>| amount_view(a)) =~= before.push(av));
                    assert(before + ingredients_from(s@, cur as int).0 =~= before.push(av) + ingredients_from(s@, e as int).0);
                }
                cur = e;
            },
            None => {
                proof {
                    assert(out@.map_values(|a: AmountOf<ProductName>| amount_view(a)) + Seq::<(Quantity, Seq<char>)>::empty()
                        =~= out@.map_values(|a: AmountOf<ProductName>| amount_view(a)));
                }
                return (out, cur);
            },
        }
    }
}

/// A definition at `pos`: the keyword, white space, the batch quantity and the
/// name, then the ingredient lines; with none the product is primitive.
pub open spec fn definition_at(s: Seq<char>, pos: int) -> Option<(DefinitionView, int)> {
    if matches_at(s, pos, "of"@) {
        match whitespace_at(s, pos + 2) {
            None => None,
            Some(e1) => match amount_at(s, e1) {
                None => None,
                Some(((q, n), e2)) => {
                    let ings = ingredients_from(s, e2);
                    if ings.0.len() == 0 {
                        Some(((n, None), ings.1))
                    } else {
                        Some(((n, Some((q, ings.0))), ings.1))
                    }
                },
            },
        }
    } else {
        None
    }
}

pub fn parse_definition_at(s: &Vec<char>, t: &str, pos: usize) -> (r: Option<(ProductDefinition, usize)>)
    requires
        pos <= s@.len(),
        same_text(s@, t),
    ensures
        r matches Some(x) ==> definition_at(s@, pos as int) == Some((x.0@, x.1 as int)) && pos < x.1
            <= s@.len() && x.0.wf(),
        r is None ==> definition_at(s@, pos as int) is None,
{
    proof {
        reveal_strlit("of");
    }
    let e1 = match Keyword::define().tag(s, pos) {
        Some(e) => e,
        None => return None,
    };
    let e2 = match whitespace(s, e1) {
        Some(e) => e,
        None => return None,
    };
    let (head, e3) = match parse_amount_at(s, t, e2) {
        Some(x) => x,
        None => return None,
    };
    let (ings, e4) = parse_ingredients(s, t, e3);
    proof {
        lemma_ingredients_progress(s@, e3 as int);
    }
    if ings.len() == 0 {
        Some((ProductDefinition { name: head.inner, ingredients: None }, e4))
    } else {
        Some((ProductDefinition { name: head.inner, ingredients: Some(AmountOf { quantity: head.quantity, inner: ings }) }, e4))
    }
}

proof fn lemma_ingredients_progress(s: Seq<char>, pos: int)
    ensures
        ingredients_from(s, pos).1 >= pos,
    decreases s.len() - pos,
{
    if let Some((a, e)) = ingredient_at(s, pos) {
        if pos < e <= s.len() {
            lemma_ingredients_progress(s, e);
        }
    }
}

/// A consumption at `pos`: `eat`, white space, then a quantity of a named product.
pub open spec fn eat_at(s: Seq<char>, pos: int) -> Option<((Quantity, Seq<char>), int)> {
    if matches_at(s, pos, "eat"@) {
        match whitespace_at(s, pos + 3) {
            None => None,
            Some(e1) => amount_at(s, e1),
        }
    } else {
        None
    }
}

pub fn parse_eat_at(s: &Vec<char>, t: &str, pos: usize) -> (r: Option<(Eat, usize)>)
    requires
        pos <= s@.len(),
        same_text(s@, t),
    ensures
        r matches Some(x) ==> eat_at(s@, pos as int) == Some((amount_view(x.0.0), x.1 as int)) && pos < x.1
            <= s@.len(),
        r is None ==> eat_at(s@, pos as int) is None,
{
    proof {
        reveal_strlit("eat");
    }
    let e1 = match Keyword::eat().tag(s, pos) {
        Some(e) => e,
        None => return None,
    };
    let e2 = match whitespace(s, e1) {
        Some(e) => e,
        None => return None,
    };
    match parse_amount_at(s, t, e2) {
        Some((a, e)) => Some((Eat(a), e)),
        None => None,
    }
}

/// The date that `s` spells in the format `fmt`, as year, month and day.
pub uninterp spec fn date_from_str(s: Seq<char>, fmt: Seq<char>) -> Option<(int, int, int)>;

/// Relies on chrono's `NaiveDate::parse_from_str`: the calendar date that `s`
/// spells in the format `fmt`, or nothing; a `NaiveDate` is always a valid
/// Gregorian date.
#[verifier::external_body]
fn parse_date_with(s: &str, fmt: &str) -> (r: Option<Date>)
    ensures
        r matches Some(d) ==> date_from_str(s@, fmt@) == Some((d.year as int, d.month as int, d.day as int))
            && is_valid_date(d),
        r is None ==> date_from_str(s@, fmt@) is None,
{
    chrono::NaiveDate::parse_from_str(s, fmt).ok().map(
        |d| Date { year: d.year(), month: d.month(), day: d.day() },
    )
}

pub open spec fn date_of(t: (int, int, int)) -> Date {
    Date { year: t.0 as i32, month: t.1 as u32, day: t.2 as u32 }
}

/// `text` read in the first of the formats `%Y-%m-%d`, `%Y.%m.%d` and `%Y/%m/%d`
/// that fits it.
pub open spec fn date_in_formats(text: Seq<char>) -> Option<Date> {
    match date_from_str(text, "%Y-%m-%d"@) {
        Some(t) => Some(date_of(t)),
        None => match date_from_str(text, "%Y.%m.%d"@) {
            Some(t) => Some(date_of(t)),
            None => match date_from_str(text, "%Y/%m/%d"@) {
                Some(t) => Some(date_of(t)),
                None => None,
            },
        },
    }
}

/// A date at `pos`: the longest run of digits, `.`, `-` and `/`.
pub open spec fn date_at(s: Seq<char>, pos: int) -> Option<(Date, int)> {
    let e = run_end(s, pos, CharClass::DateText);
    if e > pos {
        match date_in_formats(s.subrange(pos, e)) {
            Some(d) => Some((d, e)),
            None => None,
        }
    } else {
        None
    }
}

pub fn parse_date_at(s: &Vec<char>, t: &str, pos: usize) -> (r: Option<(Date, usize)>)
    requires
        pos <= s@.len(),
        same_text(s@, t),
    ensures
        r matches Some(x) ==> date_at(s@, pos as int) == Some((x.0, x.1 as int)) && pos < x.1 <= s@.len()
            && is_valid_date(x.0),
        r is None ==> date_at(s@, pos as int) is None,
{
    let e = scan(s, pos, CharClass::DateText);
    if e == pos {
        return None;
    }
    let text = t.substring_char(pos, e);
    if let Some(d) = parse_date_with(text, "%Y-%m-%d") {
        return Some((d, e));
    }
    if let Some(d) = parse_date_with(text, "%Y.%m.%d") {
        return Some((d, e));
    }
    if let Some(d) = parse_date_with(text, "%Y/%m/%d") {
        return Some((d, e));
    }
    None
}

/// An entry at `pos`: a consumption, else a definition, else the start of a day.
pub open spec fn entry_at(s: Seq<char>, pos: int) -> Option<(EntryView, int)> {
    match eat_at(s, pos) {
        Some((a, e)) => Some((EntryView::Eat(a), e)),
        None => match definition_at(s, pos) {
            Some((d, e)) => Some((EntryView::Define(d), e)),
            None => match date_at(s, pos) {
                Some((d, e)) => Some((EntryView::StartDay(d), e)),
                None => None,
            },
        },
    }
}

pub fn parse_entry_at(s: &Vec<char>, t: &str, pos: usize) -> (r: Option<(LogEntry, usize)>)
    requires
        pos <= s@.len(),
        same_text(s@, t),
    ensures
        r matches Some(x) ==> entry_at(s@, pos as int) == Some((x.0@, x.1 as int)) && pos < x.1 <= s@.len()
            && x.0.wf(),
        r is None ==> entry_at(s@, pos as int) is None,
{
    if let Some((a, e)) = parse_eat_at(s, t, pos) {
        return Some((LogEntry::Eat(a), e));
    }
    if let Some((d, e)) = parse_definition_at(s, t, pos) {
        return Some((LogEntry::Define(d), e));
    }
    if let Some((d, e)) = parse_date_at(s, t, pos) {
        return Some((LogEntry::StartDay(StartDay(d)), e));
    }
    None
}

/// The entries that follow `pos`, each after white space, and the position after
/// them.
pub open spec fn entries_from(s: Seq<char>, pos: int) -> (Seq<EntryView>, int)
    decreases s.len() - pos,
{
    match whitespace_at(s, pos) {
        None => (Seq::empty(), pos),
        Some(e1) => match entry_at(s, e1) {
            Some((x, e2)) => if pos < e2 <= s.len() {
                let rest = entries_from(s, e2);
                (seq![x] + rest.0, rest.1)
            } else {
                (Seq::empty(), pos)
            },
            None => (Seq::empty(), pos),
        },
    }
}

/// A whole log: one entry or more, separated by white space, that take up all of `s`.
pub open spec fn log_at(s: Seq<char>) -> Option<Seq<EntryView>> {
    match entry_at(s, 0) {
        None => None,
        Some((x, e)) => if 0 <= e <= s.len() {
            let rest = entries_from(s, e);
            if rest.1 == s.len() {
                Some(seq![x] + rest.0)
            } else {
                None
            }
        } else {
            None
        },
    }
}

fn parse_entries(s: &Vec<char>, t: &str, pos: usize) -> (r: (Vec<LogEntry>, usize))
    requires
        pos <= s@.len(),
        same_text(s@, t),
    ensures
        entries_from(s@, pos as int) == (entries_view(r.0@), r.1 as int),
        r.1 <= s@.len(),
        forall|i: int| 0 <= i < r.0@.len() ==> #[trigger] r.0@[i].wf(),
{
    let mut out: Vec<LogEntry> = Vec::new();
    let mut cur = pos;
    proof {
        assert(entries_view(out@) =~= Seq::<EntryView>::empty());
    }
    loop
        invariant
            pos <= cur <= s@.len(),
            same_text(s@, t),
            forall|i: int| 0 <= i < out@.len() ==> #[trigger] out@[i].wf(),
            entries_from(s@, pos as int) == (
                entries_view(out@) + entries_from(s@, cur as int).0,
                entries_from(s@, cur as int).1,
            ),
        decreases s@.len() - cur,
    {
        let e1 = match whitespace(s, cur) {
            Some(e) => e,
            None => {
                proof {
                    assert(entries_view(out@) + Seq::<EntryView>::empty() =~= entries_view(out@));
                }
                return (out, cur);
            },
        };
        proof {
            lemma_whitespace_bounds(s@, cur as int);
        }
        match parse_entry_at(s, t, e1) {
            Some((x, e2)) => {
                let ghost before = entries_view(out@);
                let ghost xv = x@;
                out.push(x);
                proof {
                    assert(entries_view(out@) =~= before.push(xv));
                    assert(before + entries_from(s@, cur as int).0 =~= before.push(xv) + entries_from(s@, e2 as int).0);
                }
                cur = e2;
            },
            None => {
                proof {
                    assert(entries_view(out@) + Seq::<EntryView>::empty() =~= entries_view(out@));
                }
                return (out, cur);
            },
        }
    }
}

/// The productions of the grammar that a reading can stop in.
#[derive(Debug, Clone, Copy, PartialEq, Eq, Structural)]
pub enum Production {
    /// A whole log: text is left over after the last entry.
    GMDLog,
    /// An entry: the text starts with no consumption, definition or date.
    LogEntry,
    Quantity,
    UnitOfMeasure,
    Decimal,
}

/// Where a text could not be read.
#[derive(Debug, Clone, Copy, PartialEq, Eq, Structural)]
pub struct ParseError {
    /// The production that could not be read.
    pub production: Production,
    /// The position, in characters of the trimmed text, of the first one that
    /// was not read.
    pub position: usize,
}

/// The position after the trailing white space of `s[from..to]`.
pub open spec fn back_end(s: Seq<char>, from: int, to: int) -> int
    decreases to,
{
    if to > from && to > 0 && is_space(s[to - 1]) {
        back_end(s, from, to - 1)
    } else {
        to
    }
}

/// `s` without the white space at either end.
pub open spec fn trimmed(s: Seq<char>) -> Seq<char> {
    let a = run_end(s, 0, CharClass::Space);
    s.subrange(a, back_end(s, a, s.len() as int))
}

/// Relies on `str::chars`: the characters of `s`, in order.
#[verifier::external_body]
fn chars_of(s: &str) -> (r: Vec<char>)
    ensures
        r@ == s@,
{
    s.chars().collect()
}

/// The text without white space at either end, with its characters.
fn trim(input: &str) -> (r: (Vec<char>, &str))
    ensures
        r.0@ == trimmed(input@),
        r.1@ == trimmed(input@),
{
    let cs = chars_of(input);
    let a = scan(&cs, 0, CharClass::Space);
    let mut b = cs.len();
    while b > a && is_in_class(CharClass::Space, cs[b - 1])
        invariant
            a <= b <= cs@.len(),
            back_end(cs@, a as int, cs@.len() as int) == back_end(cs@, a as int, b as int),
        decreases b,
    {
        b = b - 1;
    }
    let t = input.substring_char(a, b);
    (chars_of(t), t)
}

impl GMDLog {
    /// Reads a whole log; white space around it is ignored.
    pub fn from_gmd(input: &str) -> (r: Result<GMDLog, ParseError>)
        ensures
            log_at(trimmed(input@)) matches Some(v) ==> (r matches Ok(l) && entries_view(l.0@) == v && l.wf()),
            log_at(trimmed(input@)) is None ==> r is Err,
    {
        let (s, t) = trim(input);
        let (first, e) = match parse_entry_at(&s, t, 0) {
            Some(x) => x,
            None => return Err(ParseError { production: Production::LogEntry, position: 0 }),
        };
        let (rest, end) = parse_entries(&s, t, e);
        if end != s.len() {
            return Err(ParseError { production: Production::GMDLog, position: end });
        }
        let mut entries: Vec<LogEntry> = Vec::new();
        entries.push(first);
        let mut rest = rest;
        let ghost fv = entries_view(entries@);
        let ghost rv = entries_view(rest@);
        let ghost rest0 = rest@;
        entries.append(&mut rest);
        proof {
            assert(entries_view(entries@) =~= fv + rv);
            assert(fv =~= seq![entries@[0]@]);
            assert forall|i: int| 0 <= i < entries@.len() implies #[trigger] entries@[i].wf() by {
                if i > 0 {
                    assert(entries@[i] == rest0[i - 1]);
                }
            };
        }
        Ok(GMDLog(entries))
    }
}

/// The value of a production that ends at `len`, the end of the text.
pub open spec fn whole<T>(p: Option<(T, int)>, len: nat) -> Option<T> {
    match p {
        Some((v, e)) => if e == len {
            Some(v)
        } else {
            None
        },
        None => None,
    }
}

impl UnitOfMeasure {
    /// Reads a unit of measure; white space around it is ignored.
    pub fn from_gmd(input: &str) -> (r: Result<UnitOfMeasure, ParseError>)
        ensures
            r matches Ok(u) ==> whole(unit_at(trimmed(input@), 0), trimmed(input@).len()) == Some(u),
            r is Err ==> whole(unit_at(trimmed(input@), 0), trimmed(input@).len()) is None,
    {
        let (s, _t) = trim(input);
        match parse_unit(&s, 0) {
            Some((u, e)) => if e == s.len() {
                Ok(u)
            } else {
                Err(ParseError { production: Production::UnitOfMeasure, position: e })
            },
            None => Err(ParseError { production: Production::UnitOfMeasure, position: 0 }),
        }
    }
}

impl Decimal {
    /// Reads a decimal number; white space around it is ignored.
    pub fn from_gmd(input: &str) -> (r: Result<Decimal, ParseError>)
        ensures
            r matches Ok(d) ==> whole(decimal_at(trimmed(input@), 0), trimmed(input@).len()) == Some(d@),
            r is Err ==> whole(decimal_at(trimmed(input@), 0), trimmed(input@).len()) is None,
    {
        let (s, t) = trim(input);
        match parse_decimal_at(&s, t, 0) {
            Some((d, e)) => if e == s.len() {
                Ok(d)
            } else {
                Err(ParseError { production: Production::Decimal, position: e })
            },
            None => Err(ParseError { production: Production::Decimal, position: 0 }),
        }
    }
}

impl Quantity {
    /// Reads a quantity; white space around it is ignored.
    pub fn from_gmd(input: &str) -> (r: Result<Quantity, ParseError>)
        ensures
            r matches Ok(q) ==> whole(quantity_at(trimmed(input@), 0), trimmed(input@).len()) == Some(q),
            r is Err ==> whole(quantity_at(trimmed(input@), 0), trimmed(input@).len()) is None,
    {
        let (s, t) = trim(input);
        match parse_quantity_at(&s, t, 0) {
            Some((q, e)) => if e == s.len() {
                Ok(q)
            } else {
                Err(ParseError { production: Production::Quantity, position: e })
            },
            None => Err(ParseError { production: Production::Quantity, position: 0 }),
        }
    }
}

} // verus!
