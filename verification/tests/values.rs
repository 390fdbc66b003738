use objmask_balance::bytes::{bytes_eq, dec_repr, normalize_name};
use objmask_balance::categories::{category_for, is_ignored};
use objmask_balance::modifier::{
    apply_modifier, cell_attr, cell_rounded, parse_decimal, Cell, Modifier,
};

#[test]
fn normalize_replaces_spaces_and_strips_apostrophes() {
    assert_eq!(normalize_name(b"King's Guard"), b"Kings_Guard".to_vec());
    assert_eq!(normalize_name(b"plain"), b"plain".to_vec());
    assert_eq!(normalize_name(b""), Vec::<u8>::new());
    assert_eq!(normalize_name(b"' '"), b"_".to_vec());
}

#[test]
fn bytes_eq_compares_contents() {
    assert!(bytes_eq(b"abc", b"abc"));
    assert!(!bytes_eq(b"abc", b"abd"));
    assert!(!bytes_eq(b"abc", b"ab"));
    assert!(bytes_eq(b"", b""));
}

#[test]
fn dec_repr_renders_sign_and_digits() {
    assert_eq!(dec_repr(false, 0), b"0".to_vec());
    assert_eq!(dec_repr(false, 105), b"105".to_vec());
    assert_eq!(dec_repr(true, 13), b"-13".to_vec());
}

#[test]
fn category_table_maps_known_codes() {
    assert_eq!(
        category_for(b'A').unwrap(),
        b"Flag_A_OBJMASK_ARMORED".to_vec()
    );
    assert_eq!(
        category_for(b'Z').unwrap(),
        b"Flag_Z_OBJMASK_DETECT".to_vec()
    );
    assert_eq!(
        category_for(b'1').unwrap(),
        b"Flag_1_OBJMASK_UNUSED".to_vec()
    );
    assert_eq!(
        category_for(b'6').unwrap(),
        b"Flag_6_OBJMASK_ANTI_AIR".to_vec()
    );
    assert!(category_for(b'0').is_none());
    assert!(category_for(b'a').is_none());
    assert!(category_for(b'#').is_none());
}

#[test]
fn ignore_list_membership() {
    assert!(is_ignored(b"Fur_Trapper"));
    assert!(is_ignored(b"Herd_Peacock"));
    assert!(!is_ignored(b"Pikeman"));
    assert!(!is_ignored(b"SIEGE"));
}

#[test]
fn parse_decimal_accepts_plain_integers() {
    let m = parse_decimal(b"50").unwrap();
    assert!(!m.neg);
    assert_eq!(m.mant, 50);
    assert_eq!(m.den, 1);
}

#[test]
fn parse_decimal_accepts_fractions_and_signs() {
    let m = parse_decimal(b"12.5").unwrap();
    assert_eq!((m.neg, m.mant, m.den), (false, 125, 10));
    let m = parse_decimal(b"-3.25").unwrap();
    assert_eq!((m.neg, m.mant, m.den), (true, 325, 100));
    let m = parse_decimal(b"+7").unwrap();
    assert_eq!((m.neg, m.mant, m.den), (false, 7, 1));
    let m = parse_decimal(b".5").unwrap();
    assert_eq!((m.neg, m.mant, m.den), (false, 5, 10));
    let m = parse_decimal(b"5.").unwrap();
    assert_eq!((m.neg, m.mant, m.den), (false, 5, 1));
}

#[test]
fn parse_decimal_accepts_exponents() {
    let m = parse_decimal(b"2e1").unwrap();
    assert_eq!((m.neg, m.mant, m.den), (false, 20, 1));
    let m = parse_decimal(b"1.5e2").unwrap();
    assert_eq!((m.neg, m.mant, m.den), (false, 150, 1));
    let m = parse_decimal(b"5e-3").unwrap();
    assert_eq!((m.neg, m.mant, m.den), (false, 5, 1000));
    let m = parse_decimal(b"-2E+2").unwrap();
    assert_eq!((m.neg, m.mant, m.den), (true, 200, 1));
    let m = parse_decimal(b"1e15").unwrap();
    assert_eq!((m.neg, m.mant, m.den), (false, 1000000000000000, 1));
    // A zero digit string is zero under any exponent.
    let m = parse_decimal(b"0e99").unwrap();
    assert_eq!((m.neg, m.mant, m.den), (false, 0, 1));
    // The digits shifted by the exponent still count their decimal places.
    let m = parse_decimal(b"1.2345678e7").unwrap();
    assert_eq!((m.neg, m.mant, m.den), (false, 12345678, 1));
}

#[test]
fn parse_decimal_rejects_what_is_not_representable() {
    assert!(parse_decimal(b"").is_none());
    assert!(parse_decimal(b"-").is_none());
    assert!(parse_decimal(b".").is_none());
    assert!(parse_decimal(b"fast").is_none());
    assert!(parse_decimal(b"1.2.3").is_none());
    assert!(parse_decimal(b"1 0").is_none());
    // An exponent marker without digits, or with a malformed exponent.
    assert!(parse_decimal(b"5e").is_none());
    assert!(parse_decimal(b"e5").is_none());
    assert!(parse_decimal(b"2e1.5").is_none());
    // More decimal places than the representation carries.
    assert!(parse_decimal(b"1.1234567").is_none());
    assert!(parse_decimal(b"1e-7").is_none());
    // A mantissa beyond the representable bound.
    assert!(parse_decimal(b"99999999999999999999").is_none());
    assert!(parse_decimal(b"1e16").is_none());
}

#[test]
fn composition_applies_percentages_exactly() {
    let start = Cell { neg: false, mag: 100_000_000 };
    let half = Modifier { neg: false, mant: 50, den: 1 };
    let one = apply_modifier(&start, &half);
    assert_eq!(cell_rounded(&one), 50);
    let two = apply_modifier(&one, &half);
    assert_eq!(cell_rounded(&two), 25);
    let three = apply_modifier(&two, &half);
    // 12.5 rounds half away from zero.
    assert_eq!(cell_rounded(&three), 13);
    assert_eq!(cell_attr(&three), b"13".to_vec());
}

#[test]
fn composition_tracks_sign() {
    let start = Cell { neg: false, mag: 100_000_000 };
    let neg = Modifier { neg: true, mant: 50, den: 1 };
    let one = apply_modifier(&start, &neg);
    assert_eq!(cell_rounded(&one), -50);
    let two = apply_modifier(&one, &neg);
    assert_eq!(cell_rounded(&two), 25);
    assert_eq!(cell_attr(&one), b"-50".to_vec());
}

#[test]
fn fractional_modifiers_compose() {
    let start = Cell { neg: false, mag: 100_000_000 };
    let m = Modifier { neg: false, mant: 125, den: 10 };
    let one = apply_modifier(&start, &m);
    // 100 * 12.5 / 100 = 12.5, rounds to 13.
    assert_eq!(cell_rounded(&one), 13);
}

#[test]
fn fractional_hundred_is_neutral() {
    let m = parse_decimal(b"100.0").unwrap();
    assert_eq!((m.neg, m.mant, m.den), (false, 1000, 10));
    let start = Cell { neg: false, mag: 100_000_000 };
    let one = apply_modifier(&start, &m);
    assert_eq!(cell_rounded(&one), 100);
    assert_eq!(one.mag, 100_000_000);
}
