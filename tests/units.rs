use recipe_md::amount::{Amount, ParseAmountError};
use recipe_md::unit::{
    Distance, Mass, Nominal, ParseQuantityOfError, Quantity, QuantityOf, Temperature, Time, Unit,
    UnitTrait, Volume,
};

fn amt(numer: i128, denom: u128) -> Amount {
    Amount { numer, denom }
}

fn assert_quantity(text: &str, unit: Unit, amount: Amount) {
    assert_eq!(Quantity::from_str(text), Ok(Quantity { unit, amount }), "text: {:?}", text);
}

fn assert_quantity_of<T: UnitTrait + std::fmt::Debug + PartialEq>(text: &str, unit: T, amount: Amount) {
    assert_eq!(QuantityOf::<T>::from_str(text), Ok(QuantityOf { unit, amount }), "text: {:?}", text);
}

#[test]
fn parse_quantity() {
    assert_quantity("1", Unit::Nominal(Nominal), amt(1, 1));
    assert_quantity("10 g", Unit::Mass(Mass::Gram), amt(10, 1));
    assert_quantity("50 mL", Unit::Volume(Volume::Milliliter), amt(50, 1));
    assert_quantity("50ML", Unit::Volume(Volume::Milliliter), amt(50, 1));
    assert_quantity("  50.111 Ml    ", Unit::Volume(Volume::Milliliter), amt(50111, 1000));
    assert_quantity("2.5cm", Unit::Distance(Distance::Centimeter), amt(25, 10));
    assert_quantity("180°C", Unit::Temperature(Temperature::Celsius), amt(180, 1));
    assert_quantity("60 sec.", Unit::Time(Time::Second), amt(60, 1));
    assert_quantity("  0.5 bunch    ", Unit::Custom("bunch".to_string()), amt(5, 10));
}

#[test]
fn parse_quantity_failures() {
    // The empty string does not represent a valid quantity.
    assert!(Quantity::from_str("").is_err());
    // The decimal separator should be a '.', not a ','".
    assert!(Quantity::from_str("1,5 g").is_err());
    // Invalid float.
    assert!(Quantity::from_str("1.5.1 g").is_err());
}

#[test]
fn parse_quantity_of() {
    assert_quantity_of::<Nominal>("1", Nominal, amt(1, 1));
    assert_quantity_of::<Volume>("50 mL", Volume::Milliliter, amt(50, 1));
    assert_quantity_of::<Volume>("50ML", Volume::Milliliter, amt(50, 1));
    assert_quantity_of::<Volume>("  50 Ml    ", Volume::Milliliter, amt(50, 1));
    assert_quantity_of::<Temperature>("180°C", Temperature::Celsius, amt(180, 1));
}

#[test]
fn parse_quantity_of_failures() {
    // The empty string does not represent a valid quantity of anything.
    assert!(QuantityOf::<Mass>::from_str("").is_err());
    // The decimal separator should be a '.', not a ','".
    assert_eq!(
        QuantityOf::<Mass>::from_str("1,0 g").unwrap_err(),
        ParseQuantityOfError::InvalidAmount("1,0".to_string(), ParseAmountError::Invalid)
    );
    // 'mL' does not represent a mass.
    assert_eq!(
        QuantityOf::<Mass>::from_str("1 mL").unwrap_err(),
        ParseQuantityOfError::InvalidUnit("mL".to_string())
    );
    // Spaces around and between amount and unit should not change error string.
    assert_eq!(
        QuantityOf::<Mass>::from_str("    1mL  ").unwrap_err(),
        ParseQuantityOfError::InvalidUnit("mL".to_string())
    );
}

#[test]
fn quantity_amount_errors() {
    assert_eq!(
        Quantity::from_str("   g"),
        Err(ParseQuantityOfError::InvalidAmount(String::new(), ParseAmountError::Empty))
    );
    assert_eq!(
        Quantity::from_str(" . "),
        Err(ParseQuantityOfError::InvalidAmount(".".to_string(), ParseAmountError::Invalid))
    );
    assert_eq!(
        Quantity::from_str("+"),
        Err(ParseQuantityOfError::InvalidAmount("+".to_string(), ParseAmountError::Invalid))
    );
    assert_eq!(
        Quantity::from_str("1,5 g"),
        Err(ParseQuantityOfError::InvalidAmount("1,5".to_string(), ParseAmountError::Invalid))
    );
    assert_eq!(
        Quantity::from_str("1234567890123456789012345678901 g"),
        Err(ParseQuantityOfError::InvalidAmount(
            "1234567890123456789012345678901".to_string(),
            ParseAmountError::TooManyDigits
        ))
    );
    assert_eq!(
        QuantityOf::<Mass>::from_str("g").unwrap_err(),
        ParseQuantityOfError::InvalidAmount(String::new(), ParseAmountError::Empty)
    );
}

#[test]
fn quantity_amount_forms() {
    assert_quantity("-4 °C", Unit::Temperature(Temperature::Celsius), amt(-4, 1));
    assert_quantity("+.5 l", Unit::Volume(Volume::Liter), amt(5, 10));
    assert_quantity("3. kg", Unit::Mass(Mass::Kilogram), amt(3, 1));
    assert_quantity("007", Unit::Nominal(Nominal), amt(7, 1));
    // A unit checked before the amount: an unknown unit with a bad amount is an amount error.
    assert_eq!(
        QuantityOf::<Mass>::from_str("1,0 mL").unwrap_err(),
        ParseQuantityOfError::InvalidUnit("mL".to_string())
    );
}

#[test]
fn decode_table_in_any_case() {
    let table: Vec<(&str, Unit)> = vec![
        ("g", Unit::Mass(Mass::Gram)),
        ("kg", Unit::Mass(Mass::Kilogram)),
        ("oz", Unit::Mass(Mass::Ounce)),
        ("lbs", Unit::Mass(Mass::Pound)),
        ("ml", Unit::Volume(Volume::Milliliter)),
        ("cl", Unit::Volume(Volume::Centiliter)),
        ("l", Unit::Volume(Volume::Liter)),
        ("tsp", Unit::Volume(Volume::Teaspoon)),
        ("tbsp", Unit::Volume(Volume::Tablespoon)),
        ("fl oz", Unit::Volume(Volume::FluidOunce)),
        ("fl. oz.", Unit::Volume(Volume::FluidOunce)),
        ("cup", Unit::Volume(Volume::Cup)),
        ("gal", Unit::Volume(Volume::Gallon)),
        ("mm", Unit::Distance(Distance::Millimeter)),
        ("cm", Unit::Distance(Distance::Centimeter)),
        ("in", Unit::Distance(Distance::Inches)),
        ("°c", Unit::Temperature(Temperature::Celsius)),
        ("c", Unit::Temperature(Temperature::Celsius)),
        ("°f", Unit::Temperature(Temperature::Farenheit)),
        ("f", Unit::Temperature(Temperature::Farenheit)),
        ("s", Unit::Time(Time::Second)),
        ("sec", Unit::Time(Time::Second)),
        ("sec.", Unit::Time(Time::Second)),
        ("second", Unit::Time(Time::Second)),
        ("seconds", Unit::Time(Time::Second)),
        ("min", Unit::Time(Time::Minute)),
        ("min.", Unit::Time(Time::Minute)),
        ("minute", Unit::Time(Time::Minute)),
        ("minutes", Unit::Time(Time::Minute)),
        ("h", Unit::Time(Time::Hour)),
        ("hour", Unit::Time(Time::Hour)),
        ("hours", Unit::Time(Time::Hour)),
    ];
    for (token, unit) in table {
        assert_eq!(Unit::decode(token), unit, "token {:?}", token);
        assert_eq!(Unit::decode(&token.to_uppercase()), unit, "token {:?}", token);
        assert_eq!(Unit::from_str(token), Ok(unit.clone()));
        let text = format!("2 \t{}  ", token.to_uppercase());
        assert_eq!(Quantity::from_str(&text).unwrap().unit, unit, "text {:?}", text);
    }
    assert_eq!(Unit::decode(""), Unit::Nominal(Nominal));
    assert_eq!(Unit::decode("pinch"), Unit::Custom("pinch".to_string()));
    assert_eq!(Unit::from_str("pinch"), Err(()));
    assert_eq!(Mass::from_str("KG"), Ok(Mass::Kilogram));
    assert_eq!(Mass::from_str("ml"), Err(()));
}

#[test]
fn rendered_quantity_reads_back() {
    let base: Vec<(&str, Unit)> = vec![
        ("", Unit::Nominal(Nominal)),
        ("g", Unit::Mass(Mass::Gram)),
        ("kg", Unit::Mass(Mass::Kilogram)),
        ("ml", Unit::Volume(Volume::Milliliter)),
        ("cl", Unit::Volume(Volume::Centiliter)),
        ("l", Unit::Volume(Volume::Liter)),
        ("mm", Unit::Distance(Distance::Millimeter)),
        ("cm", Unit::Distance(Distance::Centimeter)),
        ("°c", Unit::Temperature(Temperature::Celsius)),
        ("s", Unit::Time(Time::Second)),
        ("min", Unit::Time(Time::Minute)),
        ("h", Unit::Time(Time::Hour)),
    ];
    for (token, unit) in base {
        let text = format!("12.75 {}", token);
        assert_eq!(Quantity::from_str(&text), Ok(Quantity { unit, amount: amt(1275, 100) }));
    }
}

#[test]
fn sanitize_converts_to_base_units() {
    assert_eq!(Mass::Ounce.sanitize(amt(2, 1)), (Mass::Gram, amt(56, 1)));
    assert_eq!(Mass::Pound.sanitize(amt(1, 1)), (Mass::Gram, amt(450, 1)));
    assert_eq!(Volume::Teaspoon.sanitize(amt(3, 1)), (Volume::Milliliter, amt(15, 1)));
    assert_eq!(Volume::Tablespoon.sanitize(amt(1, 1)), (Volume::Milliliter, amt(15, 1)));
    assert_eq!(Volume::Cup.sanitize(amt(1, 2)), (Volume::Milliliter, amt(240, 2)));
    assert_eq!(Volume::FluidOunce.sanitize(amt(1, 1)), (Volume::Milliliter, amt(29, 1)));
    assert_eq!(Volume::Gallon.sanitize(amt(2, 1)), (Volume::Liter, amt(7570, 1000)));
    assert_eq!(Distance::Inches.sanitize(amt(4, 1)), (Distance::Centimeter, amt(100, 10)));
    assert_eq!(Temperature::Farenheit.sanitize(amt(212, 1)), (Temperature::Celsius, amt(900, 9)));
    assert_eq!(Time::Hour.sanitize(amt(2, 1)), (Time::Hour, amt(2, 1)));
}

#[test]
fn sanitize_is_identity_on_base_units_and_idempotent() {
    let units = vec![
        Unit::Nominal(Nominal),
        Unit::Mass(Mass::Gram),
        Unit::Mass(Mass::Ounce),
        Unit::Volume(Volume::Gallon),
        Unit::Volume(Volume::Liter),
        Unit::Distance(Distance::Inches),
        Unit::Temperature(Temperature::Farenheit),
        Unit::Time(Time::Minute),
        Unit::Custom("bunch".to_string()),
    ];
    for unit in units {
        let once = unit.sanitize(amt(7, 2));
        let twice = once.0.sanitize(once.1);
        assert_eq!(once, twice);
    }
    assert_eq!(Unit::Mass(Mass::Gram).sanitize(amt(7, 2)), (Unit::Mass(Mass::Gram), amt(7, 2)));
    assert_eq!(
        Unit::Custom("bunch".to_string()).sanitize(amt(7, 2)),
        (Unit::Custom("bunch".to_string()), amt(7, 2))
    );
    let q = Quantity::from_str("3 tsp").unwrap().sanitize();
    assert_eq!(q, Quantity { unit: Unit::Volume(Volume::Milliliter), amount: amt(15, 1) });
    let t = QuantityOf::<Temperature>::from_str("50 °F").unwrap().sanitize();
    assert_eq!(t, QuantityOf { unit: Temperature::Celsius, amount: amt(90, 9) });
    assert_eq!(
        QuantityOf::<Time>::from_str("10 minutes").unwrap().to_quantity(),
        Quantity { unit: Unit::Time(Time::Minute), amount: amt(10, 1) }
    );
}

#[test]
fn error_messages() {
    assert_eq!(ParseQuantityOfError::InvalidUnit("mL".to_string()).message(), "unknown unit \"mL\"");
    assert_eq!(
        ParseQuantityOfError::InvalidAmount("1,0".to_string(), ParseAmountError::Invalid).message(),
        "could not parse amount \"1,0\": invalid float literal"
    );
    assert_eq!(
        Quantity::from_str("1.5.1 g").unwrap_err().message(),
        "could not parse amount \"1.5.1\": invalid float literal"
    );
}

#[test]
fn written_quantity_reads_back() {
    let cases = vec![
        Quantity { unit: Unit::Nominal(Nominal), amount: amt(3, 1) },
        Quantity { unit: Unit::Mass(Mass::Gram), amount: amt(1275, 100) },
        Quantity { unit: Unit::Volume(Volume::Liter), amount: amt(-5, 1000) },
        Quantity { unit: Unit::Temperature(Temperature::Celsius), amount: amt(-40, 1) },
        Quantity { unit: Unit::Time(Time::Minute), amount: amt(0, 10) },
        Quantity { unit: Unit::Distance(Distance::Centimeter), amount: amt(25, 10) },
    ];
    for q in cases {
        let text = q.to_text().unwrap();
        assert_eq!(Quantity::from_str(&text), Ok(q.clone()), "text {:?}", text);
    }
    assert_eq!(
        Quantity { unit: Unit::Mass(Mass::Gram), amount: amt(1275, 100) }.to_text().unwrap(),
        "12.75 g"
    );
    assert_eq!(
        Quantity { unit: Unit::Volume(Volume::Liter), amount: amt(-5, 1000) }.to_text().unwrap(),
        "-0.005 l"
    );
    assert_eq!(Quantity { unit: Unit::Nominal(Nominal), amount: amt(3, 1) }.to_text().unwrap(), "3 ");
    assert_eq!(Quantity { unit: Unit::Mass(Mass::Gram), amount: amt(1, 3) }.to_text(), None);
    assert_eq!(Quantity { unit: Unit::Custom("bunch".to_string()), amount: amt(1, 1) }.to_text(), None);
    assert_eq!(Unit::Volume(Volume::FluidOunce).token(), Some("fl oz"));
}
