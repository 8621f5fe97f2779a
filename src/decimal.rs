use vstd::prelude::*;

verus! {

/// The largest number of digits after the decimal point.
pub const MAX_SCALE: u32 = 28;

/// The largest magnitude of a mantissa (96 bits).
pub const MAX_MANTISSA: i128 = 0xFFFF_FFFF_FFFF_FFFF_FFFF_FFFF;

pub open spec fn pow10(n: nat) -> int
    decreases n,
{
    if n == 0 {
        1
    } else {
        10 * pow10((n - 1) as nat)
    }
}

/// A pair `(mantissa, scale)` that a decimal can hold.
pub open spec fn representable(v: (int, nat)) -> bool {
    v.1 <= MAX_SCALE && -MAX_MANTISSA <= v.0 <= MAX_MANTISSA
}

/// `a` and `b` denote the same number: `a.0 / 10^a.1 == b.0 / 10^b.1`.
pub open spec fn same_value(a: (int, nat), b: (int, nat)) -> bool {
    a.0 * pow10(b.1) == b.0 * pow10(a.1)
}

/// The number `v` denotes, counted in units of `10^-28`.
pub open spec fn at_max_scale(v: (int, nat)) -> int {
    v.0 * pow10((MAX_SCALE - v.1) as nat)
}

/// The number that `s` spells, with the scale it is written with.
pub uninterp spec fn decimal_from_str(s: Seq<char>) -> Option<(int, nat)>;

/// The rounded product of two decimals, or `None` when it overflows.
pub uninterp spec fn decimal_product(a: (int, nat), b: (int, nat)) -> Option<(int, nat)>;

/// The rounded quotient of two decimals, or `None` on a zero divisor or an overflow.
pub uninterp spec fn decimal_quotient(a: (int, nat), b: (int, nat)) -> Option<(int, nat)>;

/// The rounded sum of two decimals, or `None` when it overflows.
pub uninterp spec fn decimal_sum(a: (int, nat), b: (int, nat)) -> Option<(int, nat)>;

/// An exact decimal number `mantissa / 10^scale`.
#[derive(Clone, Copy, Debug)]
pub struct Decimal {
    mantissa: i128,
    scale: u32,
}

impl View for Decimal {
    type V = (int, nat);

    closed spec fn view(&self) -> (int, nat) {
        (self.mantissa as int, self.scale as nat)
    }
}

impl Decimal {
    /// The decimal that holds `v`, for a `v` that is representable.
    pub closed spec fn from_view(v: (int, nat)) -> Decimal {
        Decimal { mantissa: v.0 as i128, scale: v.1 as u32 }
    }

    pub proof fn lemma_view_determines(a: Decimal, b: Decimal)
        ensures
            a@ == b@ ==> a == b,
            Decimal::from_view(a@) == a,
    {
    }

    #[verifier::type_invariant]
    spec fn inv(self) -> bool {
        representable(self@)
    }

    /// `num / 10^scale`.
    pub fn new(num: i64, scale: u32) -> (r: Decimal)
        requires
            scale <= MAX_SCALE,
        ensures
            r@ == (num as int, scale as nat),
    {
        Decimal { mantissa: num as i128, scale }
    }

    pub fn mantissa(&self) -> (r: i128)
        ensures
            r as int == self@.0,
    {
        self.mantissa
    }

    pub fn scale(&self) -> (r: u32)
        ensures
            r as nat == self@.1,
    {
        self.scale
    }

    /// Whether the two denote the same number, whatever their scales.
    pub fn same_value(&self, other: &Decimal) -> (r: bool)
        ensures
            r == same_value(self@, other@),
    {
        proof {
            use_type_invariant(self);
            use_type_invariant(other);
        }
        values_equal(self.mantissa, self.scale, other.mantissa, other.scale)
    }

    /// Whether `self` denotes a smaller number than `other`.
    pub fn less_than(&self, other: &Decimal) -> (r: bool)
        ensures
            r == (at_max_scale(self@) < at_max_scale(other@)),
    {
        proof {
            use_type_invariant(self);
            use_type_invariant(other);
        }
        value_less(self.mantissa, self.scale, other.mantissa, other.scale)
    }

    pub fn checked_mul(self, other: Decimal) -> (r: Option<Decimal>)
        ensures
            r matches Some(v) ==> decimal_product(self@, other@) == Some(v@),
            r is None ==> decimal_product(self@, other@) is None,
            self@.1 + other@.1 <= MAX_SCALE && -MAX_MANTISSA <= self@.0 * other@.0 <= MAX_MANTISSA
                ==> (r matches Some(v) && same_value(v@, (self@.0 * other@.0, self@.1 + other@.1))),
    {
        proof {
            use_type_invariant(&self);
            use_type_invariant(&other);
        }
        match multiply(self.mantissa, self.scale, other.mantissa, other.scale) {
            Some((m, s)) => Some(Decimal { mantissa: m, scale: s }),
            None => None,
        }
    }

    pub fn checked_div(self, other: Decimal) -> (r: Option<Decimal>)
        ensures
            r matches Some(v) ==> decimal_quotient(self@, other@) == Some(v@),
            r is None ==> decimal_quotient(self@, other@) is None,
            other@.0 == 0 ==> r is None,
            other@.0 != 0 && same_value(self@, other@) ==> (r matches Some(v) && same_value(v@, (1, 0))),
    {
        proof {
            use_type_invariant(&self);
            use_type_invariant(&other);
        }
        match divide(self.mantissa, self.scale, other.mantissa, other.scale) {
            Some((m, s)) => Some(Decimal { mantissa: m, scale: s }),
            None => None,
        }
    }

    pub fn checked_add(self, other: Decimal) -> (r: Option<Decimal>)
        ensures
            r matches Some(v) ==> decimal_sum(self@, other@) == Some(v@),
            r is None ==> decimal_sum(self@, other@) is None,
    {
        proof {
            use_type_invariant(&self);
            use_type_invariant(&other);
        }
        match sum(self.mantissa, self.scale, other.mantissa, other.scale) {
            Some((m, s)) => Some(Decimal { mantissa: m, scale: s }),
            None => None,
        }
    }
}

impl PartialEq for Decimal {
    fn eq(&self, other: &Decimal) -> (r: bool) {
        self.same_value(other)
    }
}

impl vstd::std_specs::cmp::PartialEqSpecImpl for Decimal {
    open spec fn obeys_eq_spec() -> bool {
        true
    }

    open spec fn eq_spec(&self, other: &Decimal) -> bool {
        same_value(self@, other@)
    }
}

/// Parses the text of a decimal number exactly, without rounding.
pub fn parse_decimal(s: &str) -> (r: Option<Decimal>)
    ensures
        r matches Some(v) ==> decimal_from_str(s@) == Some(v@),
        r is None ==> decimal_from_str(s@) is None,
{
    match from_str_exact(s) {
        Some((m, sc)) => Some(Decimal { mantissa: m, scale: sc }),
        None => None,
    }
}

/// Relies on `rust_decimal::Decimal::from_str_exact`: it parses the number written
/// in `s`, or fails; a decimal it returns has a scale of at most 28 and a 96-bit
/// mantissa.
#[verifier::external_body]
fn from_str_exact(s: &str) -> (r: Option<(i128, u32)>)
    ensures
        r matches Some(v) ==> decimal_from_str(s@) == Some((v.0 as int, v.1 as nat))
            && representable((v.0 as int, v.1 as nat)),
        r is None ==> decimal_from_str(s@) is None,
{
    rust_decimal::Decimal::from_str_exact(s).ok().map(|d| (d.mantissa(), d.scale()))
}

/// Relies on `rust_decimal::Decimal`'s `PartialEq`, which compares the numbers
/// the two decimals denote.
#[verifier::external_body]
fn values_equal(am: i128, ascale: u32, bm: i128, bscale: u32) -> (r: bool)
    requires
        representable((am as int, ascale as nat)),
        representable((bm as int, bscale as nat)),
    ensures
        r == same_value((am as int, ascale as nat), (bm as int, bscale as nat)),
{
    rust_decimal::Decimal::from_i128_with_scale(am, ascale)
        == rust_decimal::Decimal::from_i128_with_scale(bm, bscale)
}

/// Relies on `rust_decimal::Decimal`'s `Ord`, which orders decimals by the
/// numbers they denote.
#[verifier::external_body]
fn value_less(am: i128, ascale: u32, bm: i128, bscale: u32) -> (r: bool)
    requires
        representable((am as int, ascale as nat)),
        representable((bm as int, bscale as nat)),
    ensures
        r == (at_max_scale((am as int, ascale as nat)) < at_max_scale((bm as int, bscale as nat))),
{
    rust_decimal::Decimal::from_i128_with_scale(am, ascale)
        < rust_decimal::Decimal::from_i128_with_scale(bm, bscale)
}

/// Relies on `rust_decimal::Decimal::checked_mul`: `None` on overflow; a product
/// that fits in 28 digits of scale and a 96-bit mantissa is exact.
#[verifier::external_body]
fn multiply(am: i128, ascale: u32, bm: i128, bscale: u32) -> (r: Option<(i128, u32)>)
    requires
        representable((am as int, ascale as nat)),
        representable((bm as int, bscale as nat)),
    ensures
        r matches Some(v) ==> representable((v.0 as int, v.1 as nat))
            && decimal_product((am as int, ascale as nat), (bm as int, bscale as nat))
                == Some((v.0 as int, v.1 as nat)),
        r is None ==> decimal_product((am as int, ascale as nat), (bm as int, bscale as nat)) is None,
        r matches Some(v) ==> (ascale + bscale <= MAX_SCALE && -MAX_MANTISSA <= am * bm <= MAX_MANTISSA
            ==> same_value((v.0 as int, v.1 as nat), (am * bm, (ascale + bscale) as nat))),
        r is None ==> !(ascale + bscale <= MAX_SCALE && -MAX_MANTISSA <= am * bm <= MAX_MANTISSA),
{
    rust_decimal::Decimal::from_i128_with_scale(am, ascale)
        .checked_mul(rust_decimal::Decimal::from_i128_with_scale(bm, bscale))
        .map(|d| (d.mantissa(), d.scale()))
}

/// Relies on `rust_decimal::Decimal::checked_div`: `None` on a zero divisor or an
/// overflow; a number divided by an equal one gives one.
#[verifier::external_body]
fn divide(am: i128, ascale: u32, bm: i128, bscale: u32) -> (r: Option<(i128, u32)>)
    requires
        representable((am as int, ascale as nat)),
        representable((bm as int, bscale as nat)),
    ensures
        r matches Some(v) ==> representable((v.0 as int, v.1 as nat))
            && decimal_quotient((am as int, ascale as nat), (bm as int, bscale as nat))
                == Some((v.0 as int, v.1 as nat)),
        r is None ==> decimal_quotient((am as int, ascale as nat), (bm as int, bscale as nat)) is None,
        bm == 0 ==> r is None,
        r matches Some(v) ==> (same_value((am as int, ascale as nat), (bm as int, bscale as nat))
            ==> same_value((v.0 as int, v.1 as nat), (1, 0))),
        r is None ==> (bm == 0 || !same_value((am as int, ascale as nat), (bm as int, bscale as nat))),
{
    rust_decimal::Decimal::from_i128_with_scale(am, ascale)
        .checked_div(rust_decimal::Decimal::from_i128_with_scale(bm, bscale))
        .map(|d| (d.mantissa(), d.scale()))
}

/// Relies on `rust_decimal::Decimal::checked_add`: `None` on overflow.
#[verifier::external_body]
fn sum(am: i128, ascale: u32, bm: i128, bscale: u32) -> (r: Option<(i128, u32)>)
    requires
        representable((am as int, ascale as nat)),
        representable((bm as int, bscale as nat)),
    ensures
        r matches Some(v) ==> representable((v.0 as int, v.1 as nat))
            && decimal_sum((am as int, ascale as nat), (bm as int, bscale as nat))
                == Some((v.0 as int, v.1 as nat)),
        r is None ==> decimal_sum((am as int, ascale as nat), (bm as int, bscale as nat)) is None,
{
    rust_decimal::Decimal::from_i128_with_scale(am, ascale)
        .checked_add(rust_decimal::Decimal::from_i128_with_scale(bm, bscale))
        .map(|d| (d.mantissa(), d.scale()))
}

} // verus!
