use ss7_mtp3::{PointCode, PointCodeError, Variant};

#[test]
fn itu_widths_and_range() {
    assert_eq!(Variant::Itu.bits(), 14);
    assert_eq!(Variant::Itu.octets(), 2);
    assert_eq!(Variant::Itu.max_value(), 0x3FFF);
    assert_eq!(Variant::Ansi.bits(), 24);
    assert_eq!(Variant::Ansi.octets(), 3);
    assert_eq!(Variant::Ansi.max_value(), 0xFF_FFFF);
}

#[test]
fn itu_components_roundtrip() {
    // 2-1-3 ITU = (2<<11)|(1<<3)|3 = 4096 + 8 + 3 = 4107
    let pc = PointCode::from_components([2, 1, 3], Variant::Itu).unwrap();
    assert_eq!(pc.value(), 4107);
    assert_eq!(pc.components(), [2, 1, 3]);
    assert_eq!(pc.to_string(), "2-1-3");
}

#[test]
fn itu_decimal_parse_matches_structured() {
    let a = PointCode::parse("5687", Variant::Itu).unwrap();
    assert_eq!(a.value(), 5687);
    let b = PointCode::parse(&a.to_string(), Variant::Itu).unwrap();
    assert_eq!(a, b); // decimal → structured → decimal is stable
}

#[test]
fn ansi_888_layout() {
    // 1-1-5 ANSI = (1<<16)|(1<<8)|5 = 65536 + 256 + 5 = 65797
    let pc = PointCode::parse("1-1-5", Variant::Ansi).unwrap();
    assert_eq!(pc.value(), 65797);
    assert_eq!(pc.components(), [1, 1, 5]);
}

#[test]
fn rejects_out_of_range() {
    // 0x3FFF is the ITU max; one more overflows.
    assert!(PointCode::from_value(0x4000, Variant::Itu).is_err());
    // ITU sp component is 3 bits → 8 is too large.
    assert_eq!(
        PointCode::from_components([0, 0, 8], Variant::Itu),
        Err(PointCodeError::ComponentTooLarge {
            value: 8,
            bits: 3,
            variant: Variant::Itu
        })
    );
}

#[test]
fn rejects_garbage() {
    assert!(PointCode::parse("nope", Variant::Itu).is_err());
    assert!(PointCode::parse("1-2", Variant::Itu).is_err());
}

// ── Further cases ───────────────────────────────────────────────────────────

#[test]
fn china_widths_match_ansi() {
    assert_eq!(Variant::China.widths(), [8, 8, 8]);
    assert_eq!(Variant::Itu.widths(), [3, 8, 3]);
    assert_eq!(Variant::China.bits(), 24);
    assert_eq!(Variant::China.octets(), 3);
    assert_eq!(Variant::China.max_value(), 0xFF_FFFF);
}

#[test]
fn variant_names() {
    assert_eq!(Variant::Itu.name(), "Itu");
    assert_eq!(Variant::Ansi.name(), "Ansi");
    assert_eq!(Variant::China.name(), "China");
}

#[test]
fn from_value_accepts_the_maximum() {
    let pc = PointCode::from_value(0x3FFF, Variant::Itu).unwrap();
    assert_eq!(pc.value(), 0x3FFF);
    assert_eq!(pc.variant(), Variant::Itu);
    assert_eq!(pc.components(), [7, 255, 7]);
    assert_eq!(pc.to_string(), "7-255-7");
    assert_eq!(
        PointCode::from_value(0x100_0000, Variant::Ansi),
        Err(PointCodeError::OutOfRange {
            value: 0x100_0000,
            bits: 24,
            variant: Variant::Ansi
        })
    );
}

#[test]
fn from_components_reports_the_first_oversized_field() {
    assert_eq!(
        PointCode::from_components([8, 300, 9], Variant::Itu),
        Err(PointCodeError::ComponentTooLarge {
            value: 8,
            bits: 3,
            variant: Variant::Itu
        })
    );
    assert_eq!(
        PointCode::from_components([1, 256, 0], Variant::China),
        Err(PointCodeError::ComponentTooLarge {
            value: 256,
            bits: 8,
            variant: Variant::China
        })
    );
}

#[test]
fn components_round_trip_every_field_edge() {
    for parts in [[0, 0, 0], [7, 0, 0], [0, 255, 0], [0, 0, 7], [7, 255, 7], [3, 17, 5]] {
        let pc = PointCode::from_components(parts, Variant::Itu).unwrap();
        assert_eq!(pc.components(), parts);
        assert_eq!(PointCode::from_components(pc.components(), Variant::Itu).unwrap(), pc);
    }
    for parts in [[255, 255, 255], [1, 2, 3], [0, 0, 1]] {
        let pc = PointCode::from_components(parts, Variant::Ansi).unwrap();
        assert_eq!(pc.components(), parts);
    }
}

#[test]
fn text_round_trip_for_each_variant() {
    for variant in [Variant::Itu, Variant::Ansi, Variant::China] {
        for value in [0, 1, 9, 10, 4107, 0x3FFF] {
            let pc = PointCode::from_value(value, variant).unwrap();
            assert_eq!(PointCode::parse(&pc.to_string(), variant).unwrap(), pc);
            assert_eq!(PointCode::parse(&value.to_string(), variant).unwrap(), pc);
        }
    }
    let pc = PointCode::from_value(0xFF_FFFF, Variant::Ansi).unwrap();
    assert_eq!(pc.to_string(), "255-255-255");
    assert_eq!(PointCode::parse("255-255-255", Variant::Ansi).unwrap(), pc);
}

#[test]
fn parse_accepts_dots_spaces_and_plus() {
    let a = PointCode::parse("2.1.3", Variant::Itu).unwrap();
    assert_eq!(a.value(), 4107);
    let b = PointCode::parse(" 2 -\t1- 3\n", Variant::Itu).unwrap();
    assert_eq!(b, a);
    let c = PointCode::parse("+4107", Variant::Itu).unwrap();
    assert_eq!(c, a);
    let d = PointCode::parse("2-+1.3", Variant::Itu).unwrap();
    assert_eq!(d, a);
    // Unicode white space (an ideographic space) is trimmed too.
    let e = PointCode::parse("\u{3000}4107\u{a0}", Variant::Itu).unwrap();
    assert_eq!(e, a);
    let f = PointCode::parse("004107", Variant::Itu).unwrap();
    assert_eq!(f, a);
}

#[test]
fn parse_errors_name_the_field_as_written() {
    assert_eq!(
        PointCode::parse("nope", Variant::Itu),
        Err(PointCodeError::NotANumber("nope".to_string()))
    );
    assert_eq!(
        PointCode::parse("", Variant::Itu),
        Err(PointCodeError::NotANumber(String::new()))
    );
    assert_eq!(
        PointCode::parse("1- x -3", Variant::Itu),
        Err(PointCodeError::NotANumber(" x ".to_string()))
    );
    assert_eq!(
        PointCode::parse("1--3", Variant::Itu),
        Err(PointCodeError::NotANumber(String::new()))
    );
    assert_eq!(
        PointCode::parse("+", Variant::Itu),
        Err(PointCodeError::NotANumber("+".to_string()))
    );
    assert_eq!(
        PointCode::parse("-", Variant::Itu),
        Err(PointCodeError::Components("-".to_string(), 2))
    );
    assert_eq!(
        PointCode::parse("4294967296", Variant::Ansi),
        Err(PointCodeError::NotANumber("4294967296".to_string()))
    );
    assert_eq!(
        PointCode::parse("1-2", Variant::Itu),
        Err(PointCodeError::Components("1-2".to_string(), 2))
    );
    assert_eq!(
        PointCode::parse("1.2.3.4", Variant::Itu),
        Err(PointCodeError::Components("1.2.3.4".to_string(), 4))
    );
}

#[test]
fn parse_range_errors() {
    assert_eq!(
        PointCode::parse("16384", Variant::Itu),
        Err(PointCodeError::OutOfRange {
            value: 16384,
            bits: 14,
            variant: Variant::Itu
        })
    );
    assert_eq!(
        PointCode::parse("4294967295", Variant::Ansi),
        Err(PointCodeError::OutOfRange {
            value: 4294967295,
            bits: 24,
            variant: Variant::Ansi
        })
    );
    assert_eq!(
        PointCode::parse("1-256-0", Variant::Ansi),
        Err(PointCodeError::ComponentTooLarge {
            value: 256,
            bits: 8,
            variant: Variant::Ansi
        })
    );
}

#[test]
fn parse_itu_and_from_str_use_itu() {
    let a = PointCode::parse_itu("2-1-3").unwrap();
    assert_eq!(a.variant(), Variant::Itu);
    assert_eq!(a.value(), 4107);
    let b: PointCode = "515".parse().unwrap();
    assert_eq!(b, PointCode::from_value(515, Variant::Itu).unwrap());
    assert!("1-2".parse::<PointCode>().is_err());
}

#[test]
fn error_messages() {
    assert_eq!(
        PointCodeError::Components("1-2".to_string(), 2).to_string(),
        "point code '1-2' has 2 components, expected 1 (decimal) or 3 (a-b-c)"
    );
    assert_eq!(
        PointCodeError::NotANumber("x".to_string()).to_string(),
        "point code component 'x' is not a number"
    );
    assert_eq!(
        PointCodeError::ComponentTooLarge {
            value: 8,
            bits: 3,
            variant: Variant::Itu
        }
        .to_string(),
        "point code component 8 exceeds 3-bit field for Itu"
    );
    assert_eq!(
        PointCodeError::OutOfRange {
            value: 16384,
            bits: 14,
            variant: Variant::China
        }
        .to_string(),
        "point code 16384 exceeds the 14-bit range for China"
    );
}
