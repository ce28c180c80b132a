use ina219_rs::error::PhysicError;
use ina219_rs::physic::{
    atod, format_quantity, maxElectricCurrent, minElectricCurrent, nanoAsString, normalize,
    parseSIPrefix, prefixZeros, reverse, set_current, set_power, set_quantity, set_resistance,
    set_voltage, value_of_unit_string, decimal, Quantity, ToStringPhysic_current,
    ToStringPhysic_potential, ToStringPhysic_power, ToStringPhysic_resistance, GigaAmpere,
    KiloOhm, MilliAmpere, MilliVolt, Volt, Watt,
};

#[test]
fn current_plus_15_milliampere() {
    let v = set_current("+15mA").unwrap();
    assert_eq!(v, 15_000_000);
    assert_eq!(v, 15 * MilliAmpere);
    assert_eq!(v.to_string_physic_current(), "15mA");
}

#[test]
fn power_150_milliwatt() {
    let p = set_power("150mW").unwrap();
    assert_eq!(p, 150_000_000);
    assert_eq!(p.to_string_physic_power(), "150mW");
}

#[test]
fn power_250_watt() {
    let p = set_power("250W").unwrap();
    assert_eq!(p, 250_000_000_000);
    assert_eq!(p, 250 * Watt);
    assert_eq!(p.to_string_physic_power(), "250W");
}

#[test]
fn voltage_100_volt() {
    let v = set_voltage("100V").unwrap();
    assert_eq!(v, 100_000_000_000);
    assert_eq!(v, 100 * Volt);
    assert_eq!(v.to_string_physic_potential(), "100V");
}

#[test]
fn voltage_100_millivolt() {
    let v = set_voltage("100mV").unwrap();
    assert_eq!(v, 100_000_000);
    assert_eq!(v, 100 * MilliVolt);
    assert_eq!(v.to_string_physic_potential(), "100mV");
}

#[test]
fn current_without_number_or_unit() {
    assert_eq!(set_current("abc"), Err(PhysicError::NotNumberUnitErr("A".to_string())));
}

#[test]
fn current_beyond_maximum() {
    let expected = format_quantity(maxElectricCurrent, Quantity::Current);
    assert_eq!(expected, "9.223GA");
    assert_eq!(set_current("99999999999999999999A"), Err(PhysicError::MaxValueErr(expected)));
}

#[test]
fn current_beyond_minimum() {
    let expected = format_quantity(minElectricCurrent, Quantity::Current);
    assert_eq!(expected, "-9.223GA");
    assert_eq!(set_current("-99999999999999999999A"), Err(PhysicError::MinValueErr(expected)));
}

#[test]
fn current_scaled_beyond_maximum() {
    assert_eq!(set_current("10GA"), Err(PhysicError::MaxValueErr("9.223GA".to_string())));
    assert_eq!(set_current("9GA"), Ok(9 * GigaAmpere));
}

#[test]
fn two_decimal_points() {
    assert_eq!(set_current("1.2.3A"), Err(PhysicError::MultipleDecimalPoints));
}

#[test]
fn both_signs() {
    assert_eq!(set_voltage("+-5V"), Err(PhysicError::BothPlusAndMinusSymbols));
    assert_eq!(set_voltage("-+5V"), Err(PhysicError::BothPlusAndMinusSymbols));
}

#[test]
fn repeated_signs() {
    assert_eq!(set_current("++5A"), Err(PhysicError::MultiplePlusSymbols));
    assert_eq!(set_current("--5A"), Err(PhysicError::MultipleMinusSymbols));
}

#[test]
fn zero_formats_plainly() {
    assert_eq!(format_quantity(0, Quantity::Current), "0A");
    assert_eq!(0i64.to_string_physic_current(), "0A");
}

#[test]
fn unit_errors() {
    assert_eq!(set_current("5"), Err(PhysicError::NotUnitErr("A".to_string())));
    assert_eq!(set_current("5m"), Err(PhysicError::NotUnitErr("A".to_string())));
    assert_eq!(set_current("5V"), Err(PhysicError::IncorrectUnitErr("A".to_string())));
    assert_eq!(
        set_current("5xA"),
        Err(PhysicError::UnknownUnitPrefixErr(
            "x".to_string(),
            "p,n,u,\u{b5},m,k,M,G or T".to_string()
        ))
    );
}

#[test]
fn malformed_numeral_with_unit() {
    assert_eq!(set_current(".A"), Err(PhysicError::ErrNotANumber));
    assert_eq!(set_current("A"), Err(PhysicError::ErrNotANumber));
    assert_eq!(set_voltage("v"), Err(PhysicError::ErrNotANumber));
    assert_eq!(set_resistance("Ohm"), Err(PhysicError::ErrNotANumber));
    assert_eq!(set_resistance("\u{3a9}"), Err(PhysicError::ErrNotANumber));
    assert_eq!(set_current(""), Err(PhysicError::NotNumberUnitErr("A".to_string())));
}

#[test]
fn string_ends_where_prefix_expected() {
    assert_eq!(
        set_current("5\u{0}"),
        Err(PhysicError::UnexpectedEndOfString("\u{0}".to_string()))
    );
}

#[test]
fn lower_case_units() {
    assert_eq!(set_current("2a"), Ok(2_000_000_000));
    assert_eq!(set_voltage("2v"), Ok(2_000_000_000));
    assert_eq!(set_power("2w"), Ok(2_000_000_000));
}

#[test]
fn resistance_spellings() {
    assert_eq!(set_resistance("10kOhm"), Ok(10 * KiloOhm));
    assert_eq!(set_resistance("10kohm"), Ok(10 * KiloOhm));
    assert_eq!(set_resistance("4.7\u{3a9}"), Ok(4_700_000_000));
    assert_eq!(set_resistance("10k"), Err(PhysicError::NotUnitErr("\u{3a9}".to_string())));
    assert_eq!(4_700_000_000i64.to_string_physic_resistance(), "4.700\u{3a9}");
    assert_eq!((10 * KiloOhm).to_string_physic_resistance(), "10k\u{3a9}");
}

#[test]
fn micro_prefix_both_spellings() {
    assert_eq!(set_current("5uA"), Ok(5000));
    assert_eq!(set_current("5\u{b5}A"), Ok(5000));
    assert_eq!(5000i64.to_string_physic_current(), "5\u{b5}A");
}

#[test]
fn fractions_and_prefixes() {
    assert_eq!(set_voltage("1.5kV"), Ok(1_500_000_000_000));
    assert_eq!(1_500_000_000_000i64.to_string_physic_potential(), "1.500kV");
    assert_eq!(set_current("-0.05A"), Ok(-50_000_000));
    assert_eq!(set_power("2MW"), Ok(2_000_000_000_000_000));
    assert_eq!(set_power("2TW"), Err(PhysicError::MaxValueErr("9.223GW".to_string())));
}

#[test]
fn rounding_half_away_from_zero() {
    assert_eq!(set_current("1.5nA"), Ok(2));
    assert_eq!(set_current("-1.5nA"), Ok(-2));
    assert_eq!(set_current("1.4nA"), Ok(1));
    assert_eq!(set_current("1.5pA"), Ok(0));
    assert_eq!(set_current("500pA"), Ok(1));
}

#[test]
fn value_and_consumed_length() {
    assert_eq!(value_of_unit_string("15mA"), Ok((15_000_000, 3)));
    assert_eq!(value_of_unit_string("15A"), Ok((15_000_000_000, 2)));
    assert_eq!(value_of_unit_string("1.2.3"), Err(PhysicError::MultipleDecimalPoints));
    assert_eq!(value_of_unit_string("20GA"), Err(PhysicError::ErrOverFlowsInt64));
    assert_eq!(value_of_unit_string("-20GA"), Err(PhysicError::ErrOverFlowsInt64Negative));
}

#[test]
fn set_quantity_matches_setters() {
    assert_eq!(set_quantity("3mW", Quantity::Power), set_power("3mW"));
    assert_eq!(set_quantity("3mA", Quantity::Power), Err(PhysicError::IncorrectUnitErr("W".to_string())));
}

#[test]
fn decompose_numerals() {
    let (d, n, e) = atod("+0012.3400xyz");
    assert_eq!(e, PhysicError::Null);
    assert_eq!((d.base, d.exp, d.neg, n), (1234, -2, false, 10));

    let (d, n, e) = atod("-0.05");
    assert_eq!(e, PhysicError::Null);
    assert_eq!((d.base, d.exp, d.neg, n), (5, -2, true, 5));

    let (d, n, e) = atod("250W");
    assert_eq!(e, PhysicError::Null);
    assert_eq!((d.base, d.exp, d.neg, n), (25, 1, false, 3));

    let (d, n, e) = atod("0.000");
    assert_eq!(e, PhysicError::Null);
    assert_eq!((d.base, d.exp, d.neg, n), (0, 0, false, 5));
}

#[test]
fn decompose_errors() {
    assert_eq!(atod("99999999999999999999").2, PhysicError::ErrOverFlowsInt64);
    assert_eq!(atod("-99999999999999999999").2, PhysicError::ErrOverFlowsInt64Negative);
    assert_eq!(atod("9223372036854775807").0.base, 9223372036854775807);
    assert_eq!(atod("9223372036854775808").2, PhysicError::ErrOverFlowsInt64);
    assert_eq!(atod("").2, PhysicError::ErrNotANumber);
    assert_eq!(atod("+").2, PhysicError::ErrNotANumber);
    assert_eq!(atod("x1").2, PhysicError::ErrNotANumber);
    assert_eq!(atod("1..").2, PhysicError::MultipleDecimalPoints);
    assert_eq!(atod("1..").1, 0);
}

#[test]
fn prefix_symbols() {
    assert_eq!(parseSIPrefix('p'), (-12, 1));
    assert_eq!(parseSIPrefix('n'), (-9, 1));
    assert_eq!(parseSIPrefix('u'), (-6, 1));
    assert_eq!(parseSIPrefix('\u{b5}'), (-6, 2));
    assert_eq!(parseSIPrefix('m'), (-3, 1));
    assert_eq!(parseSIPrefix('k'), (3, 1));
    assert_eq!(parseSIPrefix('M'), (6, 1));
    assert_eq!(parseSIPrefix('G'), (9, 1));
    assert_eq!(parseSIPrefix('T'), (12, 1));
    assert_eq!(parseSIPrefix('A'), (0, 0));
}

#[test]
fn normalize_scales_and_rounds() {
    let d = decimal { base: 15, exp: 0, neg: false };
    assert_eq!(normalize(d, 6), (15_000_000, false));
    let d = decimal { base: 15, exp: -1, neg: true };
    assert_eq!(normalize(d, 0), (-2, false));
    let d = decimal { base: 1, exp: 19, neg: false };
    assert_eq!(normalize(d, 0), (0, true));
    let d = decimal { base: 1, exp: -19, neg: false };
    assert_eq!(normalize(d, 0), (0, true));
    let d = decimal { base: 0, exp: 40, neg: false };
    assert_eq!(normalize(d, 0), (0, false));
    let d = decimal { base: 10, exp: 18, neg: false };
    assert_eq!(normalize(d, 0), (0, true));
}

#[test]
fn format_bands() {
    assert_eq!(nanoAsString(0), "0");
    assert_eq!(nanoAsString(5), "5n");
    assert_eq!(nanoAsString(-1), "-1n");
    assert_eq!(nanoAsString(1500), "1.500\u{b5}");
    assert_eq!(nanoAsString(999_999), "999.999\u{b5}");
    assert_eq!(nanoAsString(1_000_000), "1m");
    assert_eq!(nanoAsString(1_999_999), "2m");
    assert_eq!(nanoAsString(999_999_499), "999.999m");
    assert_eq!(nanoAsString(999_999_500), "1");
    assert_eq!(nanoAsString(999_999_501), "1");
    assert_eq!(nanoAsString(1_234_567_890_123), "1.235k");
    assert_eq!(nanoAsString(12_000_000_000_000_000), "12M");
    assert_eq!(nanoAsString(i64::MIN), "-9.223G");
    assert_eq!(nanoAsString(i64::MAX), "9.223G");
}

#[test]
fn format_rounds_halves_up() {
    assert_eq!(nanoAsString(1_000_500), "1.001m");
    assert_eq!(nanoAsString(1_000_499), "1m");
    assert_eq!(nanoAsString(-1_000_500), "-1.001m");
    assert_eq!(nanoAsString(1_000_500_000), "1.001");
    assert_eq!(nanoAsString(999_999_500_000), "1k");
    assert_eq!(nanoAsString(999_999_499_999), "999.999");
    assert_eq!(nanoAsString(999_999_500_000_000), "1M");
    assert_eq!(nanoAsString(999_999_500_000_000_000), "1G");
    assert_eq!(nanoAsString(999_999_499_999_999_999), "999.999M");
}

#[test]
fn zero_padding() {
    assert_eq!(prefixZeros(3, 5), "005");
    assert_eq!(prefixZeros(3, 123), "123");
    assert_eq!(prefixZeros(2, 12345), "12345");
    assert_eq!(prefixZeros(4, -5), "00-5");
    assert_eq!(prefixZeros(0, 0), "0");
}

#[test]
fn reversed_text() {
    assert_eq!(reverse("abc"), "cba");
    assert_eq!(reverse(""), "");
    assert_eq!(reverse("a\u{b5}b"), "b\u{b5}a");
}

#[test]
fn format_parse_round_trip() {
    let values: [i64; 8] = [0, 7, -1500, 999_999_501, 1_234_567_890_123, -42_000_000, i64::MAX, i64::MIN];
    for v in values {
        let text = format_quantity(v, Quantity::Potential);
        let back = set_voltage(&text).unwrap();
        assert_eq!(format_quantity(back, Quantity::Potential), text);
    }
}

#[test]
fn error_messages() {
    assert_eq!(PhysicError::NotUnitErr("A".to_string()).message(), "no unit provided; need A");
    assert_eq!(PhysicError::MaxValueErr("9.223GA".to_string()).message(), "maximum value is 9.223GA");
    assert_eq!(PhysicError::BothPlusAndMinusSymbols.message(), "contains both plus and minus symbol");
    assert_eq!(
        PhysicError::UnknownUnitPrefixErr("x".to_string(), "p".to_string()).message(),
        "unknown unit prefix; valid prefixes for x are p"
    );
    assert_eq!(PhysicError::Null.message(), "");
}
