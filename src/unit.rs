//! Units of measurement in closed families, their decoding from text and their
//! conversion to a base unit of the family, and quantities (an amount with a unit).
use vstd::prelude::*;
use crate::amount::{
    Amount, ParseAmountError, has_decimal_form, is_amount_char, parse_amount, parse_amount_chars, render_amount,
};
use crate::text::{
    all_ws, char_ci_eq, chars_of, ci_eq, ci_eq_str, is_alpha, is_alphabetic, is_ascii_lower, is_ascii_upper, is_ws,
    lemma_trim_padded, lemma_trim_ws_suffix, string_of, trim, trim_chars,
};

verus! {

/// Conversion of `a` by the factor `f = (offset, mul, div)`: `(a + offset) * mul / div`.
pub open spec fn converts(a: Amount, f: (int, int, int), r: Amount) -> bool {
    &&& r.numer == (a.numer + f.0 * a.denom) * f.1
    &&& r.denom == a.denom * f.2
}

/// The factor that changes nothing.
pub open spec fn unit_factor() -> (int, int, int) {
    (0, 1, 1)
}

/// A family of units: decoding from a token, and conversion to the family's base unit.
pub trait UnitTrait: Sized + Copy {
    /// The unit that a token names, compared without regard to ASCII case.
    spec fn spec_decode(t: Seq<char>) -> Option<Self>;

    /// The base unit that this unit converts to.
    spec fn spec_base(self) -> Self;

    /// The factor `(offset, mul, div)` of the conversion to the base unit.
    spec fn spec_factor(self) -> (int, int, int);

    /// The same unit in the enum of all units.
    spec fn spec_unit(self) -> Unit;

    fn decode(t: &[char]) -> (r: Option<Self>)
        ensures
            r == Self::spec_decode(t@),
    ;

    fn from_str(s: &str) -> (r: Result<Self, ()>)
        ensures
            r == (match Self::spec_decode(s@) {
                Some(u) => Ok(u),
                None => Err(()),
            }),
    ;

    /// The base unit and the amount expressed in it.
    fn sanitize(&self, amount: Amount) -> (r: (Self, Amount))
        requires
            self.spec_factor() == unit_factor() || amount.in_range(),
        ensures
            r.0 == self.spec_base(),
            converts(amount, self.spec_factor(), r.1),
    ;

    fn to_unit(self) -> (r: Unit)
        ensures
            r == self.spec_unit(),
    ;

    /// The base unit is its own base unit and converts with the factor that
    /// changes nothing.
    proof fn lemma_base_fixed(self)
        ensures
            self.spec_base().spec_base() == self.spec_base(),
            self.spec_base().spec_factor() == unit_factor(),
    ;
}

/// Multiplies `a` by `mul / div` after adding `offset`, within the bounds of `in_range`.
fn convert(a: Amount, offset: i128, mul: i128, div: u128) -> (r: Amount)
    requires
        a.in_range(),
        -32 <= offset <= 0,
        1 <= mul <= 3785,
        1 <= div <= 1000,
    ensures
        converts(a, (offset as int, mul as int, div as int), r),
{
    proof {
        crate::amount::lemma_pow10_values();
        let lim = crate::amount::amount_limit();
        assert(-32 * lim <= offset * a.denom <= 0) by (nonlinear_arith)
            requires
                -32 <= offset <= 0,
                0 < a.denom <= lim,
        ;
        let s = a.numer + offset * a.denom;
        assert(-33 * lim <= s <= lim);
        assert(-33 * lim * 3785 <= s * mul <= lim * 3785) by (nonlinear_arith)
            requires
                -33 * lim <= s <= lim,
                1 <= mul <= 3785,
                lim > 0,
        ;
        assert(a.denom * div <= lim * 1000) by (nonlinear_arith)
            requires
                0 < a.denom <= lim,
                1 <= div <= 1000,
        ;
        assert(lim == 1000000000000000000000000000000000int);
        assert(lim * 3785 * 33 < 0x7fff_ffff_ffff_ffff_ffff_ffff_ffff_ffffint);
        assert(0 < a.denom * div <= lim * 1000) by (nonlinear_arith)
            requires
                0 < a.denom,
                1 <= div,
                a.denom * div <= lim * 1000,
        ;
    }
    let shifted: i128 = a.numer + offset * (a.denom as i128);
    Amount { numer: shifted * mul, denom: a.denom * div }
}

/// No unit: a plain count, written with no unit token.
#[derive(Clone, Copy, Debug, PartialEq, Eq, Structural)]
pub struct Nominal;

#[derive(Clone, Copy, Debug, PartialEq, Eq, Structural)]
pub enum Mass {
    Gram,
    Kilogram,
    Ounce,
    Pound,
}

#[derive(Clone, Copy, Debug, PartialEq, Eq, Structural)]
pub enum Volume {
    Milliliter,
    Centiliter,
    Liter,
    Teaspoon,
    Tablespoon,
    FluidOunce,
    Cup,
    Gallon,
}

#[derive(Clone, Copy, Debug, PartialEq, Eq, Structural)]
pub enum Distance {
    Millimeter,
    Centimeter,
    Inches,
}

#[derive(Clone, Copy, Debug, PartialEq, Eq, Structural)]
pub enum Temperature {
    Celsius,
    Farenheit,
}

#[derive(Clone, Copy, Debug, PartialEq, Eq, Structural)]
pub enum Time {
    Second,
    Minute,
    Hour,
}

/// Any unit: one of the families, or a token that no family knows.
#[derive(Clone, Debug, PartialEq)]
pub enum Unit {
    Nominal(Nominal),
    Mass(Mass),
    Volume(Volume),
    Distance(Distance),
    Temperature(Temperature),
    Time(Time),
    Custom(String),
}

pub open spec fn spec_nominal(t: Seq<char>) -> Option<Nominal> {
    if t.len() == 0 {
        Some(Nominal)
    } else {
        None
    }
}

pub open spec fn spec_mass(t: Seq<char>) -> Option<Mass> {
    if ci_eq(t, "g"@) {
        Some(Mass::Gram)
    } else if ci_eq(t, "kg"@) {
        Some(Mass::Kilogram)
    } else if ci_eq(t, "oz"@) {
        Some(Mass::Ounce)
    } else if ci_eq(t, "lbs"@) {
        Some(Mass::Pound)
    } else {
        None
    }
}

pub open spec fn spec_volume(t: Seq<char>) -> Option<Volume> {
    if ci_eq(t, "ml"@) {
        Some(Volume::Milliliter)
    } else if ci_eq(t, "cl"@) {
        Some(Volume::Centiliter)
    } else if ci_eq(t, "l"@) {
        Some(Volume::Liter)
    } else if ci_eq(t, "tsp"@) {
        Some(Volume::Teaspoon)
    } else if ci_eq(t, "tbsp"@) {
        Some(Volume::Tablespoon)
    } else if ci_eq(t, "fl oz"@) || ci_eq(t, "fl. oz."@) {
        Some(Volume::FluidOunce)
    } else if ci_eq(t, "cup"@) {
        Some(Volume::Cup)
    } else if ci_eq(t, "gal"@) {
        Some(Volume::Gallon)
    } else {
        None
    }
}

pub open spec fn spec_distance(t: Seq<char>) -> Option<Distance> {
    if ci_eq(t, "mm"@) {
        Some(Distance::Millimeter)
    } else if ci_eq(t, "cm"@) {
        Some(Distance::Centimeter)
    } else if ci_eq(t, "in"@) {
        Some(Distance::Inches)
    } else {
        None
    }
}

pub open spec fn spec_temperature(t: Seq<char>) -> Option<Temperature> {
    if ci_eq(t, "°c"@) || ci_eq(t, "c"@) {
        Some(Temperature::Celsius)
    } else if ci_eq(t, "°f"@) || ci_eq(t, "f"@) {
        Some(Temperature::Farenheit)
    } else {
        None
    }
}

pub open spec fn spec_time(t: Seq<char>) -> Option<Time> {
    if ci_eq(t, "s"@) || ci_eq(t, "sec"@) || ci_eq(t, "sec."@) || ci_eq(t, "second"@) || ci_eq(
        t,
        "seconds"@,
    ) {
        Some(Time::Second)
    } else if ci_eq(t, "min"@) || ci_eq(t, "min."@) || ci_eq(t, "minute"@) || ci_eq(
        t,
        "minutes"@,
    ) {
        Some(Time::Minute)
    } else if ci_eq(t, "h"@) || ci_eq(t, "hour"@) || ci_eq(t, "hours"@) {
        Some(Time::Hour)
    } else {
        None
    }
}

fn result_of<T>(o: Option<T>) -> (r: Result<T, ()>)
    ensures
        r == (match o {
            Some(u) => Ok(u),
            None => Err(()),
        }),
{
    match o {
        Some(u) => Ok(u),
        None => Err(()),
    }
}

impl UnitTrait for Nominal {
    open spec fn spec_decode(t: Seq<char>) -> Option<Self> {
        spec_nominal(t)
    }

    open spec fn spec_base(self) -> Self {
        self
    }

    open spec fn spec_factor(self) -> (int, int, int) {
        unit_factor()
    }

    open spec fn spec_unit(self) -> Unit {
        Unit::Nominal(self)
    }

    fn decode(t: &[char]) -> (r: Option<Self>) {
        if t.len() == 0 {
            Some(Nominal)
        } else {
            None
        }
    }

    fn from_str(s: &str) -> (r: Result<Self, ()>) {
        result_of(Self::decode(chars_of(s).as_slice()))
    }

    fn sanitize(&self, amount: Amount) -> (r: (Self, Amount)) {
        (*self, amount)
    }

    fn to_unit(self) -> (r: Unit) {
        Unit::Nominal(self)
    }

    proof fn lemma_base_fixed(self) {
    }
}

impl UnitTrait for Mass {
    open spec fn spec_decode(t: Seq<char>) -> Option<Self> {
        spec_mass(t)
    }

    open spec fn spec_base(self) -> Self {
        match self {
            Mass::Ounce | Mass::Pound => Mass::Gram,
            _ => self,
        }
    }

    open spec fn spec_factor(self) -> (int, int, int) {
        match self {
            Mass::Ounce => (0, 28, 1),
            Mass::Pound => (0, 450, 1),
            _ => unit_factor(),
        }
    }

    open spec fn spec_unit(self) -> Unit {
        Unit::Mass(self)
    }

    fn decode(t: &[char]) -> (r: Option<Self>) {
        if ci_eq_str(t, "g") {
            Some(Mass::Gram)
        } else if ci_eq_str(t, "kg") {
            Some(Mass::Kilogram)
        } else if ci_eq_str(t, "oz") {
            Some(Mass::Ounce)
        } else if ci_eq_str(t, "lbs") {
            Some(Mass::Pound)
        } else {
            None
        }
    }

    fn from_str(s: &str) -> (r: Result<Self, ()>) {
        result_of(Self::decode(chars_of(s).as_slice()))
    }

    fn sanitize(&self, amount: Amount) -> (r: (Self, Amount)) {
        match self {
            Mass::Ounce => (Mass::Gram, convert(amount, 0, 28, 1)),
            Mass::Pound => (Mass::Gram, convert(amount, 0, 450, 1)),
            _ => (*self, amount),
        }
    }

    fn to_unit(self) -> (r: Unit) {
        Unit::Mass(self)
    }

    proof fn lemma_base_fixed(self) {
    }
}

impl UnitTrait for Volume {
    open spec fn spec_decode(t: Seq<char>) -> Option<Self> {
        spec_volume(t)
    }

    open spec fn spec_base(self) -> Self {
        match self {
            Volume::Teaspoon | Volume::Tablespoon | Volume::Cup | Volume::FluidOunce => Volume::Milliliter,
            Volume::Gallon => Volume::Liter,
            _ => self,
        }
    }

    open spec fn spec_factor(self) -> (int, int, int) {
        match self {
            Volume::Teaspoon => (0, 5, 1),
            Volume::Tablespoon => (0, 15, 1),
            Volume::Cup => (0, 240, 1),
            Volume::FluidOunce => (0, 29, 1),
            Volume::Gallon => (0, 3785, 1000),
            _ => unit_factor(),
        }
    }

    open spec fn spec_unit(self) -> Unit {
        Unit::Volume(self)
    }

    fn decode(t: &[char]) -> (r: Option<Self>) {
        if ci_eq_str(t, "ml") {
            Some(Volume::Milliliter)
        } else if ci_eq_str(t, "cl") {
            Some(Volume::Centiliter)
        } else if ci_eq_str(t, "l") {
            Some(Volume::Liter)
        } else if ci_eq_str(t, "tsp") {
            Some(Volume::Teaspoon)
        } else if ci_eq_str(t, "tbsp") {
            Some(Volume::Tablespoon)
        } else if ci_eq_str(t, "fl oz") || ci_eq_str(t, "fl. oz.") {
            Some(Volume::FluidOunce)
        } else if ci_eq_str(t, "cup") {
            Some(Volume::Cup)
        } else if ci_eq_str(t, "gal") {
            Some(Volume::Gallon)
        } else {
            None
        }
    }

    fn from_str(s: &str) -> (r: Result<Self, ()>) {
        result_of(Self::decode(chars_of(s).as_slice()))
    }

    fn sanitize(&self, amount: Amount) -> (r: (Self, Amount)) {
        match self {
            Volume::Teaspoon => (Volume::Milliliter, convert(amount, 0, 5, 1)),
            Volume::Tablespoon => (Volume::Milliliter, convert(amount, 0, 15, 1)),
            Volume::Cup => (Volume::Milliliter, convert(amount, 0, 240, 1)),
            // Halfway between the US and UK fluid ounce.
            Volume::FluidOunce => (Volume::Milliliter, convert(amount, 0, 29, 1)),
            Volume::Gallon => (Volume::Liter, convert(amount, 0, 3785, 1000)),
            _ => (*self, amount),
        }
    }

    fn to_unit(self) -> (r: Unit) {
        Unit::Volume(self)
    }

    proof fn lemma_base_fixed(self) {
    }
}

impl UnitTrait for Distance {
    open spec fn spec_decode(t: Seq<char>) -> Option<Self> {
        spec_distance(t)
    }

    open spec fn spec_base(self) -> Self {
        match self {
            Distance::Inches => Distance::Centimeter,
            _ => self,
        }
    }

    open spec fn spec_factor(self) -> (int, int, int) {
        match self {
            Distance::Inches => (0, 25, 10),
            _ => unit_factor(),
        }
    }

    open spec fn spec_unit(self) -> Unit {
        Unit::Distance(self)
    }

    fn decode(t: &[char]) -> (r: Option<Self>) {
        if ci_eq_str(t, "mm") {
            Some(Distance::Millimeter)
        } else if ci_eq_str(t, "cm") {
            Some(Distance::Centimeter)
        } else if ci_eq_str(t, "in") {
            Some(Distance::Inches)
        } else {
            None
        }
    }

    fn from_str(s: &str) -> (r: Result<Self, ()>) {
        result_of(Self::decode(chars_of(s).as_slice()))
    }

    fn sanitize(&self, amount: Amount) -> (r: (Self, Amount)) {
        match self {
            Distance::Inches => (Distance::Centimeter, convert(amount, 0, 25, 10)),
            _ => (*self, amount),
        }
    }

    fn to_unit(self) -> (r: Unit) {
        Unit::Distance(self)
    }

    proof fn lemma_base_fixed(self) {
    }
}

impl UnitTrait for Temperature {
    open spec fn spec_decode(t: Seq<char>) -> Option<Self> {
        spec_temperature(t)
    }

    open spec fn spec_base(self) -> Self {
        Temperature::Celsius
    }

    open spec fn spec_factor(self) -> (int, int, int) {
        match self {
            Temperature::Farenheit => (-32, 5, 9),
            _ => unit_factor(),
        }
    }

    open spec fn spec_unit(self) -> Unit {
        Unit::Temperature(self)
    }

    fn decode(t: &[char]) -> (r: Option<Self>) {
        if ci_eq_str(t, "°c") || ci_eq_str(t, "c") {
            Some(Temperature::Celsius)
        } else if ci_eq_str(t, "°f") || ci_eq_str(t, "f") {
            Some(Temperature::Farenheit)
        } else {
            None
        }
    }

    fn from_str(s: &str) -> (r: Result<Self, ()>) {
        result_of(Self::decode(chars_of(s).as_slice()))
    }

    fn sanitize(&self, amount: Amount) -> (r: (Self, Amount)) {
        match self {
            Temperature::Farenheit => (Temperature::Celsius, convert(amount, -32, 5, 9)),
            _ => (*self, amount),
        }
    }

    fn to_unit(self) -> (r: Unit) {
        Unit::Temperature(self)
    }

    proof fn lemma_base_fixed(self) {
    }
}

impl UnitTrait for Time {
    open spec fn spec_decode(t: Seq<char>) -> Option<Self> {
        spec_time(t)
    }

    open spec fn spec_base(self) -> Self {
        self
    }

    open spec fn spec_factor(self) -> (int, int, int) {
        unit_factor()
    }

    open spec fn spec_unit(self) -> Unit {
        Unit::Time(self)
    }

    fn decode(t: &[char]) -> (r: Option<Self>) {
        if ci_eq_str(t, "s") || ci_eq_str(t, "sec") || ci_eq_str(t, "sec.") || ci_eq_str(
            t,
            "second",
        ) || ci_eq_str(t, "seconds") {
            Some(Time::Second)
        } else if ci_eq_str(t, "min") || ci_eq_str(t, "min.") || ci_eq_str(t, "minute")
            || ci_eq_str(t, "minutes") {
            Some(Time::Minute)
        } else if ci_eq_str(t, "h") || ci_eq_str(t, "hour") || ci_eq_str(t, "hours") {
            Some(Time::Hour)
        } else {
            None
        }
    }

    fn from_str(s: &str) -> (r: Result<Self, ()>) {
        result_of(Self::decode(chars_of(s).as_slice()))
    }

    fn sanitize(&self, amount: Amount) -> (r: (Self, Amount)) {
        (*self, amount)
    }

    fn to_unit(self) -> (r: Unit) {
        Unit::Time(self)
    }

    proof fn lemma_base_fixed(self) {
    }
}


/// The unit that a token names in one of the families, tried in the order
/// Nominal, Mass, Volume, Distance, Temperature, Time.
pub open spec fn spec_known_unit(t: Seq<char>) -> Option<Unit> {
    match spec_nominal(t) {
        Some(u) => Some(Unit::Nominal(u)),
        None => match spec_mass(t) {
            Some(u) => Some(Unit::Mass(u)),
            None => match spec_volume(t) {
                Some(u) => Some(Unit::Volume(u)),
                None => match spec_distance(t) {
                    Some(u) => Some(Unit::Distance(u)),
                    None => match spec_temperature(t) {
                        Some(u) => Some(Unit::Temperature(u)),
                        None => match spec_time(t) {
                            Some(u) => Some(Unit::Time(u)),
                            None => None,
                        },
                    },
                },
            },
        },
    }
}

/// `u` is what the token `t` decodes to: the family unit it names, else `Custom(t)`.
pub open spec fn decodes_to(u: Unit, t: Seq<char>) -> bool {
    match spec_known_unit(t) {
        Some(k) => u == k,
        None => u matches Unit::Custom(s) && s@ == t,
    }
}

impl Unit {
    pub fn from_chars(t: &[char]) -> (r: Option<Unit>)
        ensures
            r == spec_known_unit(t@),
    {
        if let Some(u) = Nominal::decode(t) {
            Some(Unit::Nominal(u))
        } else if let Some(u) = Mass::decode(t) {
            Some(Unit::Mass(u))
        } else if let Some(u) = Volume::decode(t) {
            Some(Unit::Volume(u))
        } else if let Some(u) = Distance::decode(t) {
            Some(Unit::Distance(u))
        } else if let Some(u) = Temperature::decode(t) {
            Some(Unit::Temperature(u))
        } else if let Some(u) = Time::decode(t) {
            Some(Unit::Time(u))
        } else {
            None
        }
    }

    /// The family unit that `s` names; `Err` when no family knows it.
    pub fn from_str(s: &str) -> (r: Result<Unit, ()>)
        ensures
            r == (match spec_known_unit(s@) {
                Some(u) => Ok(u),
                None => Err(()),
            }),
    {
        result_of(Self::from_chars(chars_of(s).as_slice()))
    }

    pub fn decode_chars(t: &[char]) -> (r: Unit)
        ensures
            decodes_to(r, t@),
    {
        match Self::from_chars(t) {
            Some(u) => u,
            None => Unit::Custom(string_of(t)),
        }
    }

    /// Decodes a token; a token that no family knows becomes `Custom`.
    pub fn decode(s: &str) -> (r: Unit)
        ensures
            decodes_to(r, s@),
    {
        Self::decode_chars(chars_of(s).as_slice())
    }

    /// The base unit that this unit converts to; units without conversion stay.
    pub open spec fn spec_base(self) -> Unit {
        match self {
            Unit::Mass(u) => Unit::Mass(u.spec_base()),
            Unit::Volume(u) => Unit::Volume(u.spec_base()),
            Unit::Distance(u) => Unit::Distance(u.spec_base()),
            Unit::Temperature(u) => Unit::Temperature(u.spec_base()),
            _ => self,
        }
    }

    pub open spec fn spec_factor(self) -> (int, int, int) {
        match self {
            Unit::Mass(u) => u.spec_factor(),
            Unit::Volume(u) => u.spec_factor(),
            Unit::Distance(u) => u.spec_factor(),
            Unit::Temperature(u) => u.spec_factor(),
            _ => unit_factor(),
        }
    }

    /// The unit is its own base unit.
    pub open spec fn is_base(self) -> bool {
        self.spec_base() == self
    }

    /// The base unit, and the amount expressed in it.
    pub fn sanitize(&self, amount: Amount) -> (r: (Unit, Amount))
        requires
            self.spec_factor() == unit_factor() || amount.in_range(),
        ensures
            r.0 == self.spec_base(),
            converts(amount, self.spec_factor(), r.1),
    {
        match self {
            Unit::Nominal(u) => (Unit::Nominal(*u), amount),
            Unit::Mass(u) => {
                let (b, a) = u.sanitize(amount);
                (Unit::Mass(b), a)
            },
            Unit::Volume(u) => {
                let (b, a) = u.sanitize(amount);
                (Unit::Volume(b), a)
            },
            Unit::Distance(u) => {
                let (b, a) = u.sanitize(amount);
                (Unit::Distance(b), a)
            },
            Unit::Temperature(u) => {
                let (b, a) = u.sanitize(amount);
                (Unit::Temperature(b), a)
            },
            Unit::Time(u) => (Unit::Time(*u), amount),
            Unit::Custom(s) => (Unit::Custom(s.clone()), amount),
        }
    }
}

/// A base unit converts with the factor that changes nothing.
pub proof fn lemma_base_factor(u: Unit)
    requires
        u.is_base(),
    ensures
        u.spec_factor() == unit_factor(),
{
    match u {
        Unit::Mass(m) => assert(m.spec_base() == m),
        Unit::Volume(v) => assert(v.spec_base() == v),
        Unit::Distance(d) => assert(d.spec_base() == d),
        Unit::Temperature(t) => assert(t.spec_base() == t),
        _ => {},
    }
}

/// Sanitizing a base unit, or a custom one, changes neither the unit nor the amount.
pub proof fn lemma_sanitize_identity(u: Unit, a: Amount, r: (Unit, Amount))
    requires
        u.is_base() || u is Custom,
        r.0 == u.spec_base(),
        converts(a, u.spec_factor(), r.1),
    ensures
        r == (u, a),
{
    if u.is_base() {
        lemma_base_factor(u);
    }
    assert(u.spec_factor() == unit_factor());
    assert(r.1.numer == a.numer && r.1.denom == a.denom) by (nonlinear_arith)
        requires
            converts(a, unit_factor(), r.1),
    ;
}

/// Sanitizing the result of a sanitization gives it back: sanitizing twice is
/// sanitizing once.
pub proof fn lemma_sanitize_idempotent(u: Unit, a: Amount, r1: (Unit, Amount), r2: (Unit, Amount))
    requires
        r1.0 == u.spec_base(),
        converts(a, u.spec_factor(), r1.1),
        r2.0 == r1.0.spec_base(),
        converts(r1.1, r1.0.spec_factor(), r2.1),
    ensures
        r2 == r1,
{
    assert(r1.0.is_base()) by {
        match u {
            Unit::Mass(m) => assert(m.spec_base().spec_base() == m.spec_base()),
            Unit::Volume(v) => assert(v.spec_base().spec_base() == v.spec_base()),
            Unit::Distance(d) => assert(d.spec_base().spec_base() == d.spec_base()),
            Unit::Temperature(t) => assert(t.spec_base().spec_base() == t.spec_base()),
            _ => {},
        }
    }
    lemma_base_factor(r1.0);
    assert(r2.1.numer == r1.1.numer && r2.1.denom == r1.1.denom) by (nonlinear_arith)
        requires
            converts(r1.1, unit_factor(), r2.1),
    ;
}

/// Whether `c` starts a unit token: a letter or the degree sign.
pub open spec fn is_split_char(c: char) -> bool {
    is_alpha(c) || c == '°'
}

pub fn f_split_quantity(c: char) -> (r: bool)
    ensures
        r == is_split_char(c),
{
    is_alphabetic(c) || c == '°'
}

/// Where the unit token of a written quantity starts: the first letter or degree
/// sign, else the end.
#[verifier::opaque]
pub open spec fn split_index(s: Seq<char>) -> int {
    if exists|i: int| 0 <= i < s.len() && is_split_char(s[i]) {
        choose|i: int|
            0 <= i < s.len() && is_split_char(s[i]) && forall|k: int|
                0 <= k < i ==> !is_split_char(#[trigger] s[k])
    } else {
        s.len() as int
    }
}

/// The amount of a written quantity, without surrounding white space.
pub open spec fn amount_part(s: Seq<char>) -> Seq<char> {
    trim(s.subrange(0, split_index(s)))
}

/// The unit token of a written quantity, without surrounding white space.
pub open spec fn unit_part(s: Seq<char>) -> Seq<char> {
    trim(s.subrange(split_index(s), s.len() as int))
}

fn find_split(t: &[char]) -> (r: usize)
    ensures
        r as int == split_index(t@),
        r <= t@.len(),
{
    let mut i: usize = 0;
    while i < t.len()
        invariant
            i <= t@.len(),
            forall|k: int| 0 <= k < i ==> !is_split_char(#[trigger] t@[k]),
        decreases t@.len() - i,
    {
        if f_split_quantity(t[i]) {
            proof {
                lemma_split_index_at(t@, i as int);
            }
            return i;
        }
        i = i + 1;
    }
    proof {
        lemma_split_index_at(t@, i as int);
    }
    i
}

/// An amount with a unit of any family.
#[derive(Clone, Debug, PartialEq)]
pub struct Quantity {
    pub unit: Unit,
    pub amount: Amount,
}

impl Quantity {
    pub fn new(unit: Unit, amount: Amount) -> (r: Quantity)
        ensures
            r.unit == unit,
            r.amount == amount,
    {
        Quantity { unit, amount }
    }

    /// Reads `<amount> <unit>`: the unit starts at the first letter or degree sign
    /// and may be absent (Nominal); white space around either part is ignored. A
    /// refused amount comes back with its text. The unit always decodes, so the
    /// error is never `InvalidUnit`.
    pub fn from_chars(t: &[char]) -> (r: Result<Quantity, ParseQuantityOfError>)
        ensures
            match parse_amount(amount_part(t@)) {
                Ok(a) => r matches Ok(q) && q.amount == a && decodes_to(q.unit, unit_part(t@)),
                Err(e) => r matches Err(ParseQuantityOfError::InvalidAmount(text, e2)) && text@ == amount_part(
                    t@,
                ) && e2 == e,
            },
            r matches Ok(q) ==> q.amount.in_range(),
    {
        let i = find_split(t);
        let amount_text = trim_chars(&t[0..i]);
        let amount = match parse_amount_chars(amount_text) {
            Ok(a) => a,
            Err(e) => return Err(ParseQuantityOfError::InvalidAmount(string_of(amount_text), e)),
        };
        let unit = Unit::decode_chars(trim_chars(&t[i..t.len()]));
        Ok(Quantity { unit, amount })
    }

    pub fn from_str(s: &str) -> (r: Result<Quantity, ParseQuantityOfError>)
        ensures
            match parse_amount(amount_part(s@)) {
                Ok(a) => r matches Ok(q) && q.amount == a && decodes_to(q.unit, unit_part(s@)),
                Err(e) => r matches Err(ParseQuantityOfError::InvalidAmount(text, e2)) && text@ == amount_part(
                    s@,
                ) && e2 == e,
            },
            r matches Ok(q) ==> q.amount.in_range(),
    {
        Self::from_chars(chars_of(s).as_slice())
    }

    /// The same quantity in the base unit of its family.
    pub fn sanitize(&self) -> (r: Quantity)
        requires
            self.unit.spec_factor() == unit_factor() || self.amount.in_range(),
        ensures
            r.unit == self.unit.spec_base(),
            converts(self.amount, self.unit.spec_factor(), r.amount),
    {
        let (unit, amount) = self.unit.sanitize(self.amount);
        Quantity { unit, amount }
    }
}

/// Why a quantity of one family was refused.
#[derive(Clone, Debug, PartialEq)]
pub enum ParseQuantityOfError {
    /// The unit token, which the family does not know.
    InvalidUnit(String),
    /// The amount text, and why it was refused.
    InvalidAmount(String, ParseAmountError),
}

impl ParseQuantityOfError {
    /// A sentence that says what went wrong.
    pub fn message(&self) -> (r: String)
        ensures
            self matches ParseQuantityOfError::InvalidUnit(u) ==> r@ == "unknown unit \""@ + u@ + "\""@,
            self matches ParseQuantityOfError::InvalidAmount(a, e) ==> r@ == "could not parse amount \""@ + a@
                + "\": "@ + crate::amount::error_words(*e),
    {
        match self {
            ParseQuantityOfError::InvalidUnit(u) => {
                let mut m = String::from_str("unknown unit \"");
                m.append(u.as_str());
                m.append("\"");
                m
            },
            ParseQuantityOfError::InvalidAmount(a, e) => {
                let mut m = String::from_str("could not parse amount \"");
                m.append(a.as_str());
                m.append("\": ");
                m.append(crate::amount::error_text(*e));
                m
            },
        }
    }
}

/// An amount with a unit of the family `T` alone.
#[derive(Clone, Copy, Debug, PartialEq)]
pub struct QuantityOf<T: UnitTrait> {
    pub unit: T,
    pub amount: Amount,
}

impl<T: UnitTrait> QuantityOf<T> {
    /// Reads `<amount> <unit>` where the unit must belong to `T`. The unit is
    /// checked first.
    pub fn from_chars(t: &[char]) -> (r: Result<Self, ParseQuantityOfError>)
        ensures
            match T::spec_decode(unit_part(t@)) {
                None => r matches Err(ParseQuantityOfError::InvalidUnit(u)) && u@ == unit_part(t@),
                Some(unit) => match parse_amount(amount_part(t@)) {
                    Err(e) => r matches Err(ParseQuantityOfError::InvalidAmount(a, e2)) && a@
                        == amount_part(t@) && e2 == e,
                    Ok(amount) => r == Ok::<Self, ParseQuantityOfError>(QuantityOf { unit, amount }),
                },
            },
            r matches Ok(q) ==> q.amount.in_range(),
    {
        let i = find_split(t);
        let amount_text = trim_chars(&t[0..i]);
        let unit_text = trim_chars(&t[i..t.len()]);
        let unit = match T::decode(unit_text) {
            Some(u) => u,
            None => return Err(ParseQuantityOfError::InvalidUnit(string_of(unit_text))),
        };
        match parse_amount_chars(amount_text) {
            Ok(amount) => Ok(QuantityOf { unit, amount }),
            Err(e) => Err(ParseQuantityOfError::InvalidAmount(string_of(amount_text), e)),
        }
    }

    pub fn from_str(s: &str) -> (r: Result<Self, ParseQuantityOfError>)
        ensures
            match T::spec_decode(unit_part(s@)) {
                None => r matches Err(ParseQuantityOfError::InvalidUnit(u)) && u@ == unit_part(s@),
                Some(unit) => match parse_amount(amount_part(s@)) {
                    Err(e) => r matches Err(ParseQuantityOfError::InvalidAmount(a, e2)) && a@
                        == amount_part(s@) && e2 == e,
                    Ok(amount) => r == Ok::<Self, ParseQuantityOfError>(QuantityOf { unit, amount }),
                },
            },
            r matches Ok(q) ==> q.amount.in_range(),
    {
        Self::from_chars(chars_of(s).as_slice())
    }

    /// The same quantity with its unit among all units.
    pub fn to_quantity(self) -> (r: Quantity)
        ensures
            r.unit == self.unit.spec_unit(),
            r.amount == self.amount,
    {
        Quantity { unit: self.unit.to_unit(), amount: self.amount }
    }

    /// The same quantity in the base unit of the family.
    pub fn sanitize(&self) -> (r: Self)
        requires
            self.unit.spec_factor() == unit_factor() || self.amount.in_range(),
        ensures
            r.unit == self.unit.spec_base(),
            converts(self.amount, self.unit.spec_factor(), r.amount),
    {
        let (unit, amount) = self.unit.sanitize(self.amount);
        QuantityOf { unit, amount }
    }
}

/// The tokens that name `u`, in lower case; Nominal is named by the empty token.
pub open spec fn unit_tokens(u: Unit) -> Seq<Seq<char>> {
    match u {
        Unit::Nominal(_) => seq![Seq::empty()],
        Unit::Mass(m) => match m {
            Mass::Gram => seq!["g"@],
            Mass::Kilogram => seq!["kg"@],
            Mass::Ounce => seq!["oz"@],
            Mass::Pound => seq!["lbs"@],
        },
        Unit::Volume(v) => match v {
            Volume::Milliliter => seq!["ml"@],
            Volume::Centiliter => seq!["cl"@],
            Volume::Liter => seq!["l"@],
            Volume::Teaspoon => seq!["tsp"@],
            Volume::Tablespoon => seq!["tbsp"@],
            Volume::FluidOunce => seq!["fl oz"@, "fl. oz."@],
            Volume::Cup => seq!["cup"@],
            Volume::Gallon => seq!["gal"@],
        },
        Unit::Distance(d) => match d {
            Distance::Millimeter => seq!["mm"@],
            Distance::Centimeter => seq!["cm"@],
            Distance::Inches => seq!["in"@],
        },
        Unit::Temperature(t) => match t {
            Temperature::Celsius => seq!["°c"@, "c"@],
            Temperature::Farenheit => seq!["°f"@, "f"@],
        },
        Unit::Time(t) => match t {
            Time::Second => seq!["s"@, "sec"@, "sec."@, "second"@, "seconds"@],
            Time::Minute => seq!["min"@, "min."@, "minute"@, "minutes"@],
            Time::Hour => seq!["h"@, "hour"@, "hours"@],
        },
        Unit::Custom(_) => seq![],
    }
}

/// No upper-case ASCII letter in `t`.
pub open spec fn no_upper(t: Seq<char>) -> bool
    decreases t.len(),
{
    t.len() == 0 || (!is_ascii_upper(t[0]) && no_upper(t.drop_first()))
}

proof fn lemma_no_upper_index(t: Seq<char>, i: int)
    requires
        no_upper(t),
        0 <= i < t.len(),
    ensures
        !is_ascii_upper(t[i]),
    decreases t.len(),
{
    if i > 0 {
        lemma_no_upper_index(t.drop_first(), i - 1);
    }
}

proof fn lemma_char_ci_unique(c: char, l1: char, l2: char)
    requires
        char_ci_eq(c, l1),
        char_ci_eq(c, l2),
        !is_ascii_upper(l1),
        !is_ascii_upper(l2),
    ensures
        l1 == l2,
{
}

/// A text matches at most one lower-case token without regard to case.
proof fn lemma_ci_eq_unique(s: Seq<char>, t1: Seq<char>, t2: Seq<char>)
    requires
        ci_eq(s, t1),
        ci_eq(s, t2),
        no_upper(t1),
        no_upper(t2),
    ensures
        t1 == t2,
{
    assert forall|i: int| 0 <= i < t1.len() implies t1[i] == t2[i] by {
        lemma_no_upper_index(t1, i);
        lemma_no_upper_index(t2, i);
        lemma_char_ci_unique(s[i], t1[i], t2[i]);
    }
    assert(t1 =~= t2);
}

proof fn lemma_tokens_facts(u: Unit, k: int)
    requires
        0 <= k < unit_tokens(u).len(),
    ensures
        no_upper(unit_tokens(u)[k]),
        unit_tokens(u)[k].len() > 0 ==> !is_ws(unit_tokens(u)[k][0]) && !is_ws(unit_tokens(u)[k].last()),
{
    reveal_strlit("g");
    reveal_strlit("kg");
    reveal_strlit("oz");
    reveal_strlit("lbs");
    reveal_strlit("ml");
    reveal_strlit("cl");
    reveal_strlit("l");
    reveal_strlit("tsp");
    reveal_strlit("tbsp");
    reveal_strlit("fl oz");
    reveal_strlit("fl. oz.");
    reveal_strlit("cup");
    reveal_strlit("gal");
    reveal_strlit("mm");
    reveal_strlit("cm");
    reveal_strlit("in");
    reveal_strlit("°c");
    reveal_strlit("c");
    reveal_strlit("°f");
    reveal_strlit("f");
    reveal_strlit("s");
    reveal_strlit("sec");
    reveal_strlit("sec.");
    reveal_strlit("second");
    reveal_strlit("seconds");
    reveal_strlit("min");
    reveal_strlit("min.");
    reveal_strlit("minute");
    reveal_strlit("minutes");
    reveal_strlit("h");
    reveal_strlit("hour");
    reveal_strlit("hours");
    reveal_with_fuel(no_upper, 8);
}

/// Every token in the table of a unit, written in any ASCII case and with white
/// space around it, decodes to that unit.
pub proof fn lemma_decode_table(u: Unit, k: int, s: Seq<char>, w1: Seq<char>, w2: Seq<char>)
    requires
        0 <= k < unit_tokens(u).len(),
        ci_eq(s, unit_tokens(u)[k]),
        all_ws(w1),
        all_ws(w2),
    ensures
        trim(w1 + s + w2) == s,
        spec_known_unit(trim(w1 + s + w2)) == Some(u),
{
    let t = unit_tokens(u)[k];
    lemma_tokens_facts(u, k);
    if s.len() > 0 {
        assert(char_ci_eq(s[0], t[0]));
        assert(char_ci_eq(s[s.len() - 1], t[t.len() - 1]));
    }
    lemma_trim_padded(w1, s, w2);
    assert forall|t2: Seq<char>| no_upper(t2) && #[trigger] ci_eq(s, t2) implies t2 == t by {
        lemma_ci_eq_unique(s, t, t2);
    }
    reveal_strlit("g");
    reveal_strlit("kg");
    reveal_strlit("oz");
    reveal_strlit("lbs");
    reveal_strlit("ml");
    reveal_strlit("cl");
    reveal_strlit("l");
    reveal_strlit("tsp");
    reveal_strlit("tbsp");
    reveal_strlit("fl oz");
    reveal_strlit("fl. oz.");
    reveal_strlit("cup");
    reveal_strlit("gal");
    reveal_strlit("mm");
    reveal_strlit("cm");
    reveal_strlit("in");
    reveal_strlit("°c");
    reveal_strlit("c");
    reveal_strlit("°f");
    reveal_strlit("f");
    reveal_strlit("s");
    reveal_strlit("sec");
    reveal_strlit("sec.");
    reveal_strlit("second");
    reveal_strlit("seconds");
    reveal_strlit("min");
    reveal_strlit("min.");
    reveal_strlit("minute");
    reveal_strlit("minutes");
    reveal_strlit("h");
    reveal_strlit("hour");
    reveal_strlit("hours");
    reveal_with_fuel(no_upper, 8);
    match u {
        Unit::Nominal(_) => {},
        Unit::Mass(_) => {},
        Unit::Volume(_) => {},
        Unit::Distance(_) => {},
        Unit::Temperature(_) => {},
        Unit::Time(_) => {},
        Unit::Custom(_) => {},
    }
}

/// The text of a quantity as it is written out: the amount, a space, and the
/// first token of the unit.
pub open spec fn quantity_text(amount: Seq<char>, u: Unit) -> Seq<char> {
    amount + seq![' '] + unit_tokens(u)[0]
}

proof fn lemma_token_starts_unit(u: Unit)
    requires
        unit_tokens(u).len() > 0,
    ensures
        unit_tokens(u)[0].len() > 0 ==> is_split_char(unit_tokens(u)[0][0]),
{
    reveal_strlit("g");
    reveal_strlit("kg");
    reveal_strlit("oz");
    reveal_strlit("lbs");
    reveal_strlit("ml");
    reveal_strlit("cl");
    reveal_strlit("l");
    reveal_strlit("tsp");
    reveal_strlit("tbsp");
    reveal_strlit("fl oz");
    reveal_strlit("cup");
    reveal_strlit("gal");
    reveal_strlit("mm");
    reveal_strlit("cm");
    reveal_strlit("in");
    reveal_strlit("°c");
    reveal_strlit("°f");
    reveal_strlit("s");
    reveal_strlit("min");
    reveal_strlit("h");
}

proof fn lemma_split_after_space(a: Seq<char>, t: Seq<char>)
    requires
        forall|i: int| 0 <= i < a.len() ==> is_amount_char(#[trigger] a[i]),
        t.len() > 0 ==> is_split_char(t[0]),
    ensures
        split_index(a + seq![' '] + t) == a.len() + 1,
{
    reveal(split_index);
    let s = a + seq![' '] + t;
    let n = a.len() as int;
    assert forall|i: int| 0 <= i <= n implies !is_split_char(#[trigger] s[i]) by {
        if i < n {
            assert(s[i] == a[i]);
            assert(is_amount_char(a[i]));
        }
    }
    if t.len() > 0 {
        assert(s[n + 1] == t[0]);
        let w = choose|i: int|
            0 <= i < s.len() && is_split_char(s[i]) && forall|k: int|
                0 <= k < i ==> !is_split_char(#[trigger] s[k]);
        assert(w == n + 1) by {
            if w > n + 1 {
                assert(!is_split_char(s[n + 1]));
            }
        }
    }
}

/// Writing out an amount with a base unit and reading the text back as a
/// quantity gives that amount and that unit.
pub proof fn lemma_quantity_round_trip(a: Seq<char>, u: Unit)
    requires
        u.is_base(),
        unit_tokens(u).len() > 0,
        parse_amount(a) is Ok,
        forall|i: int| 0 <= i < a.len() ==> is_amount_char(#[trigger] a[i]),
    ensures
        parse_amount(amount_part(quantity_text(a, u))) == parse_amount(a),
        spec_known_unit(unit_part(quantity_text(a, u))) == Some(u),
{
    let t = unit_tokens(u)[0];
    let s = quantity_text(a, u);
    let n = a.len() as int;
    lemma_tokens_facts(u, 0);
    lemma_token_starts_unit(u);
    lemma_split_after_space(a, t);
    assert(s.subrange(0, n + 1) =~= Seq::<char>::empty() + a + seq![' ']);
    assert(s.subrange(n + 1, s.len() as int) =~= Seq::<char>::empty() + t + Seq::<char>::empty());
    assert(all_ws(seq![' ']));
    assert(all_ws(Seq::<char>::empty()));
    assert(a.len() > 0);
    assert(is_amount_char(a[0]) && is_amount_char(a.last()));
    lemma_trim_padded(Seq::<char>::empty(), a, seq![' ']);
    lemma_trim_padded(Seq::<char>::empty(), t, Seq::<char>::empty());
    assert(ci_eq(t, t));
    lemma_decode_table(u, 0, t, Seq::<char>::empty(), Seq::<char>::empty());
}

impl Unit {
    /// The first token of the unit's table; none for a custom unit.
    pub fn token(&self) -> (r: Option<&'static str>)
        ensures
            r is Some <==> unit_tokens(*self).len() > 0,
            r matches Some(t) ==> t@ == unit_tokens(*self)[0],
    {
        proof {
            reveal_strlit("");
        }
        match self {
            Unit::Nominal(_) => Some(""),
            Unit::Mass(m) => Some(
                match m {
                    Mass::Gram => "g",
                    Mass::Kilogram => "kg",
                    Mass::Ounce => "oz",
                    Mass::Pound => "lbs",
                },
            ),
            Unit::Volume(v) => Some(
                match v {
                    Volume::Milliliter => "ml",
                    Volume::Centiliter => "cl",
                    Volume::Liter => "l",
                    Volume::Teaspoon => "tsp",
                    Volume::Tablespoon => "tbsp",
                    Volume::FluidOunce => "fl oz",
                    Volume::Cup => "cup",
                    Volume::Gallon => "gal",
                },
            ),
            Unit::Distance(d) => Some(
                match d {
                    Distance::Millimeter => "mm",
                    Distance::Centimeter => "cm",
                    Distance::Inches => "in",
                },
            ),
            Unit::Temperature(t) => Some(
                match t {
                    Temperature::Celsius => "°c",
                    Temperature::Farenheit => "°f",
                },
            ),
            Unit::Time(t) => Some(
                match t {
                    Time::Second => "s",
                    Time::Minute => "min",
                    Time::Hour => "h",
                },
            ),
            Unit::Custom(_) => None,
        }
    }
}

/// `t` is a written form of `q`: an amount text that reads as its amount, a
/// space, and the first token of its unit.
pub open spec fn renders(q: Quantity, t: Seq<char>) -> bool {
    &&& unit_tokens(q.unit).len() > 0
    &&& exists|a: Seq<char>|
        (forall|i: int| 0 <= i < a.len() ==> is_amount_char(#[trigger] a[i])) && parse_amount(a)
            == Ok::<Amount, ParseAmountError>(q.amount) && t == quantity_text(a, q.unit)
}

impl Quantity {
    /// The quantity written out, when its amount has a decimal form and its unit
    /// is not custom.
    pub fn to_text(&self) -> (r: Option<String>)
        ensures
            r is Some <==> has_decimal_form(self.amount) && unit_tokens(self.unit).len() > 0,
            r matches Some(t) ==> renders(*self, t@),
    {
        let token = match self.unit.token() {
            Some(t) => t,
            None => return None,
        };
        let mut text = match render_amount(self.amount) {
            Some(t) => t,
            None => return None,
        };
        let ghost a = text@;
        text.push(' ');
        let tc = chars_of(token);
        let mut i: usize = 0;
        while i < tc.len()
            invariant
                i <= tc@.len(),
                text@ == a + seq![' '] + tc@.subrange(0, i as int),
            decreases tc@.len() - i,
        {
            text.push(tc[i]);
            assert(text@ =~= a + seq![' '] + tc@.subrange(0, i + 1));
            i = i + 1;
        }
        assert(tc@.subrange(0, tc@.len() as int) =~= tc@);
        let r = string_of(text.as_slice());
        assert(r@ == quantity_text(a, self.unit));
        Some(r)
    }
}

/// Reading back the written form of a quantity whose unit is a base unit gives
/// that amount and that unit: `from_str` after `to_text` gives the quantity back.
pub proof fn lemma_text_round_trip(q: Quantity, t: Seq<char>)
    requires
        q.unit.is_base(),
        renders(q, t),
    ensures
        parse_amount(amount_part(t)) == Ok::<Amount, ParseAmountError>(q.amount),
        spec_known_unit(unit_part(t)) == Some(q.unit),
{
    let a = choose|a: Seq<char>|
        (forall|i: int| 0 <= i < a.len() ==> is_amount_char(#[trigger] a[i])) && parse_amount(a)
            == Ok::<Amount, ParseAmountError>(q.amount) && t == quantity_text(a, q.unit);
    lemma_quantity_round_trip(a, q.unit);
}

proof fn lemma_split_least(s: Seq<char>, j: int)
    requires
        0 <= j < s.len(),
        is_split_char(s[j]),
    ensures
        exists|i: int|
            0 <= i < s.len() && is_split_char(s[i]) && forall|k: int| 0 <= k < i ==> !is_split_char(#[trigger] s[k]),
    decreases j,
{
    if exists|k: int| 0 <= k < j && is_split_char(s[k]) {
        let k = choose|k: int| 0 <= k < j && is_split_char(s[k]);
        lemma_split_least(s, k);
    } else {
        assert(forall|k: int| 0 <= k < j ==> !is_split_char(#[trigger] s[k]));
    }
}

proof fn lemma_split_index_props(s: Seq<char>)
    ensures
        0 <= split_index(s) <= s.len(),
        forall|k: int| 0 <= k < split_index(s) ==> !is_split_char(#[trigger] s[k]),
        split_index(s) < s.len() ==> is_split_char(s[split_index(s)]),
{
    reveal(split_index);
    if exists|i: int| 0 <= i < s.len() && is_split_char(s[i]) {
        let j = choose|i: int| 0 <= i < s.len() && is_split_char(s[i]);
        lemma_split_least(s, j);
    }
}

proof fn lemma_split_index_at(s: Seq<char>, j: int)
    requires
        0 <= j <= s.len(),
        forall|k: int| 0 <= k < j ==> !is_split_char(#[trigger] s[k]),
        j < s.len() ==> is_split_char(s[j]),
    ensures
        split_index(s) == j,
{
    lemma_split_index_props(s);
    let c = split_index(s);
    if c < j {
        assert(!is_split_char(s[c]));
    } else if c > j {
        assert(!is_split_char(s[j]));
    }
}

proof fn lemma_split_index_suffix(v: Seq<char>, w: Seq<char>)
    requires
        all_ascii_ws(w),
    ensures
        0 <= split_index(v) <= v.len(),
        split_index(v + w) == (if split_index(v) < v.len() {
            split_index(v)
        } else {
            (v.len() + w.len()) as int
        }),
{
    let s = v + w;
    lemma_ascii_ws(w);
    lemma_split_index_props(v);
    let i = split_index(v);
    let j = if i < v.len() { i } else { s.len() as int };
    assert forall|k: int| 0 <= k < j implies !is_split_char(#[trigger] s[k]) by {
        if k < v.len() {
            assert(s[k] == v[k]);
        } else {
            assert(s[k] == w[k - v.len()]);
        }
    }
    if i < v.len() {
        assert(s[i] == v[i]);
    }
    lemma_split_index_at(s, j);
}

/// ASCII white space after a written quantity changes neither its amount nor
/// its unit.
pub proof fn lemma_parts_space_suffix(v: Seq<char>, w: Seq<char>)
    requires
        all_ascii_ws(w),
    ensures
        amount_part(v + w) == amount_part(v),
        unit_part(v + w) == unit_part(v),
{
    let s = v + w;
    lemma_ascii_ws(w);
    lemma_split_index_suffix(v, w);
    let i = split_index(v);
    let j = split_index(s);
    let vl = v.len() as int;
    let sl = s.len() as int;
    if i < vl {
        assert(j == i);
        let head_s = s.subrange(0, j);
        let head_v = v.subrange(0, i);
        assert(head_s =~= head_v);
        let tail_v = v.subrange(i, vl);
        let tail_s = s.subrange(j, sl);
        assert(tail_s =~= tail_v + w);
        lemma_trim_ws_suffix(tail_v, w);
        assert(amount_part(s) == trim(head_s));
        assert(unit_part(s) == trim(tail_s));
        assert(amount_part(v) == trim(head_v));
        assert(unit_part(v) == trim(tail_v));
    } else {
        assert(i == vl);
        assert(j == sl);
        let head_v = v.subrange(0, vl);
        let head_s = s.subrange(0, sl);
        assert(head_v =~= v);
        assert(head_s =~= v + w);
        lemma_trim_ws_suffix(v, w);
        let tail_v = v.subrange(vl, vl);
        let tail_s = s.subrange(sl, sl);
        assert(tail_v =~= tail_s);
        assert(amount_part(s) == trim(head_s));
        assert(unit_part(s) == trim(tail_s));
        assert(amount_part(v) == trim(head_v));
        assert(unit_part(v) == trim(tail_v));
    }
}

proof fn lemma_token_first_char(u: Unit, k: int)
    requires
        0 <= k < unit_tokens(u).len(),
    ensures
        unit_tokens(u)[k].len() > 0 ==> is_ascii_lower(unit_tokens(u)[k][0]) || unit_tokens(u)[k][0] == '°',
{
    reveal_strlit("g");
    reveal_strlit("kg");
    reveal_strlit("oz");
    reveal_strlit("lbs");
    reveal_strlit("ml");
    reveal_strlit("cl");
    reveal_strlit("l");
    reveal_strlit("tsp");
    reveal_strlit("tbsp");
    reveal_strlit("fl oz");
    reveal_strlit("fl. oz.");
    reveal_strlit("cup");
    reveal_strlit("gal");
    reveal_strlit("mm");
    reveal_strlit("cm");
    reveal_strlit("in");
    reveal_strlit("°c");
    reveal_strlit("c");
    reveal_strlit("°f");
    reveal_strlit("f");
    reveal_strlit("s");
    reveal_strlit("sec");
    reveal_strlit("sec.");
    reveal_strlit("second");
    reveal_strlit("seconds");
    reveal_strlit("min");
    reveal_strlit("min.");
    reveal_strlit("minute");
    reveal_strlit("minutes");
    reveal_strlit("h");
    reveal_strlit("hour");
    reveal_strlit("hours");
}

/// ASCII white space: the space and the controls from tab to carriage return.
pub open spec fn is_ascii_ws(c: char) -> bool {
    c == ' ' || (9 <= (c as u32) && (c as u32) <= 13)
}

pub open spec fn all_ascii_ws(s: Seq<char>) -> bool {
    forall|i: int| 0 <= i < s.len() ==> is_ascii_ws(#[trigger] s[i])
}

proof fn lemma_ascii_ws(s: Seq<char>)
    requires
        all_ascii_ws(s),
    ensures
        all_ws(s),
        forall|i: int| 0 <= i < s.len() ==> !is_split_char(#[trigger] s[i]),
{
    assert forall|i: int| 0 <= i < s.len() implies is_ws(#[trigger] s[i]) by {
        assert(is_ascii_ws(s[i]));
    }
    assert forall|i: int| 0 <= i < s.len() implies !is_split_char(#[trigger] s[i]) by {
        assert(is_ascii_ws(s[i]));
    }
}

proof fn lemma_padded_parts(w0: Seq<char>, a: Seq<char>, w1: Seq<char>, s: Seq<char>, w2: Seq<char>)
    requires
        all_ascii_ws(w0),
        all_ascii_ws(w1),
        all_ascii_ws(w2),
        a.len() > 0,
        forall|i: int| 0 <= i < a.len() ==> is_amount_char(#[trigger] a[i]),
        s.len() > 0 ==> is_split_char(s[0]) && !is_ws(s[0]) && !is_ws(s.last()),
    ensures
        amount_part(w0 + a + w1 + s + w2) == a,
        unit_part(w0 + a + w1 + s + w2) == s,
{
    let e = Seq::<char>::empty();
    let text = w0 + a + w1 + s + w2;
    let n = (w0 + a + w1).len() as int;
    lemma_ascii_ws(w0);
    lemma_ascii_ws(w1);
    lemma_ascii_ws(w2);
    assert forall|i: int| 0 <= i < n implies !is_split_char(#[trigger] text[i]) by {
        if i < w0.len() {
            assert(text[i] == w0[i]);
        } else if i < w0.len() + a.len() {
            assert(text[i] == a[i - w0.len()]);
            assert(is_amount_char(a[i - w0.len()]));
        } else {
            assert(text[i] == w1[i - w0.len() - a.len()]);
        }
    }
    assert(is_amount_char(a[0]) && is_amount_char(a.last()));
    if s.len() > 0 {
        assert(text[n] == s[0]);
        lemma_split_index_at(text, n);
        assert(text.subrange(0, n) =~= w0 + a + w1);
        assert(text.subrange(n, text.len() as int) =~= e + s + w2);
        lemma_trim_padded(e, s, w2);
        lemma_trim_padded(w0, a, w1);
    } else {
        assert forall|i: int| 0 <= i < text.len() implies !is_split_char(#[trigger] text[i]) by {
            if i >= n {
                assert(text[i] == w2[i - n]);
            }
        }
        lemma_split_index_at(text, text.len() as int);
        assert(text.subrange(0, text.len() as int) =~= w0 + a + (w1 + w2));
        assert(all_ws(w1 + w2)) by {
            assert forall|i: int| 0 <= i < (w1 + w2).len() implies is_ws(#[trigger] (w1 + w2)[i]) by {
                if i < w1.len() {
                    assert((w1 + w2)[i] == w1[i]);
                } else {
                    assert((w1 + w2)[i] == w2[i - w1.len()]);
                }
            }
        }
        assert(text.subrange(text.len() as int, text.len() as int) =~= e + e + e);
        lemma_trim_padded(e, e, e);
        lemma_trim_padded(w0, a, w1 + w2);
        assert(s =~= e);
    }
}

/// An amount and any token of a unit's table, in any ASCII case, with ASCII white
/// space before, between and after them, read as that amount and that unit.
pub proof fn lemma_quantity_padded(
    w0: Seq<char>,
    a: Seq<char>,
    w1: Seq<char>,
    s: Seq<char>,
    w2: Seq<char>,
    u: Unit,
    k: int,
)
    requires
        all_ascii_ws(w0),
        all_ascii_ws(w1),
        all_ascii_ws(w2),
        parse_amount(a) is Ok,
        forall|i: int| 0 <= i < a.len() ==> is_amount_char(#[trigger] a[i]),
        0 <= k < unit_tokens(u).len(),
        ci_eq(s, unit_tokens(u)[k]),
    ensures
        parse_amount(amount_part(w0 + a + w1 + s + w2)) == parse_amount(a),
        spec_known_unit(unit_part(w0 + a + w1 + s + w2)) == Some(u),
{
    let e = Seq::<char>::empty();
    let t = unit_tokens(u)[k];
    lemma_token_first_char(u, k);
    lemma_tokens_facts(u, k);
    if s.len() > 0 {
        assert(char_ci_eq(s[0], t[0]));
        assert(char_ci_eq(s[s.len() - 1], t[t.len() - 1]));
    }
    assert(a.len() > 0);
    lemma_padded_parts(w0, a, w1, s, w2);
    lemma_decode_table(u, k, s, e, e);
    assert(e + s + e =~= s);
}

/// Within a family, sanitizing a base unit changes neither the unit nor the amount.
pub proof fn lemma_family_sanitize_identity<T: UnitTrait>(u: T, a: Amount, r: (T, Amount))
    requires
        u.spec_base() == u,
        r.0 == u.spec_base(),
        converts(a, u.spec_factor(), r.1),
    ensures
        r == (u, a),
{
    u.lemma_base_fixed();
    assert(r.1.numer == a.numer && r.1.denom == a.denom) by (nonlinear_arith)
        requires
            converts(a, unit_factor(), r.1),
    ;
}

/// Within a family, sanitizing the result of a sanitization gives it back.
pub proof fn lemma_family_sanitize_idempotent<T: UnitTrait>(
    u: T,
    a: Amount,
    r1: (T, Amount),
    r2: (T, Amount),
)
    requires
        r1.0 == u.spec_base(),
        converts(a, u.spec_factor(), r1.1),
        r2.0 == r1.0.spec_base(),
        converts(r1.1, r1.0.spec_factor(), r2.1),
    ensures
        r2 == r1,
{
    u.lemma_base_fixed();
    assert(r2.1.numer == r1.1.numer && r2.1.denom == r1.1.denom) by (nonlinear_arith)
        requires
            converts(r1.1, unit_factor(), r2.1),
    ;
}

} // verus!
