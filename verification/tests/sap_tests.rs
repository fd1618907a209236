use ss7_mtp3::{
    Mtp3Error, Mtp3Event, Mtp3Msu, Mtp3Status, NetworkIndicator, PointCode, ServiceIndicator,
    Variant,
};

/// The well-known service indicator values, as associated constants.
trait WellKnown {
    const SNM: ServiceIndicator;
    const SNT: ServiceIndicator;
    const SCCP: ServiceIndicator;
    const TUP: ServiceIndicator;
    const ISUP: ServiceIndicator;
}

impl WellKnown for ServiceIndicator {
    const SNM: ServiceIndicator = ServiceIndicator(0);
    const SNT: ServiceIndicator = ServiceIndicator(1);
    const SCCP: ServiceIndicator = ServiceIndicator(3);
    const TUP: ServiceIndicator = ServiceIndicator(4);
    const ISUP: ServiceIndicator = ServiceIndicator(5);
}

#[test]
fn service_indicator_names() {
    assert_eq!(ServiceIndicator::SCCP.0, 3);
    assert_eq!(ServiceIndicator::ISUP.name(), Some("ISUP"));
    assert_eq!(ServiceIndicator(9).name(), None);
}

#[test]
fn network_indicator_bits() {
    assert_eq!(
        NetworkIndicator::from_bits(0),
        NetworkIndicator::International
    );
    assert_eq!(NetworkIndicator::from_bits(2), NetworkIndicator::National);
    assert_eq!(NetworkIndicator::National.bits(), 2);
}

#[test]
fn msu_construct() {
    let msu = Mtp3Msu {
        si: ServiceIndicator::SCCP,
        ni: NetworkIndicator::International,
        mp: 0,
        opc: PointCode::from_value(1, Variant::Itu).unwrap(),
        dpc: PointCode::from_value(2, Variant::Itu).unwrap(),
        sls: 5,
        data: vec![0x09, 0x80, 0x03],
    };
    assert_eq!(msu.si, ServiceIndicator::SCCP);
    assert_eq!(msu.dpc.value(), 2);
}

// ── On-wire codec (Q.704 ITU / T1.111 ANSI) ─────────────────────────────

/// OPC 2-1-3 (4107), DPC 4-2-1 (8209), SLS 7, SI SCCP, NI international, over
/// an SCCP SIF. SIO = 0x03; the 32-bit little-endian label is
/// `8209 | (4107 << 14) | (7 << 28) = 0x7402_E011` → `11 E0 02 74`.
fn itu_kav() -> (Mtp3Msu, [u8; 10]) {
    let msu = Mtp3Msu {
        si: ServiceIndicator::SCCP,
        ni: NetworkIndicator::International,
        mp: 0,
        opc: PointCode::from_components([2, 1, 3], Variant::Itu).unwrap(),
        dpc: PointCode::from_components([4, 2, 1], Variant::Itu).unwrap(),
        sls: 7,
        data: vec![0x09, 0x81, 0x03, 0x0e, 0x19],
    };
    let wire = [
        0x03, // SIO: NI=0 (intl), spare=0, SI=3 (SCCP)
        0x11, 0xe0, 0x02, 0x74, // routing label, little-endian
        0x09, 0x81, 0x03, 0x0e, 0x19, // SIF
    ];
    (msu, wire)
}

#[test]
fn itu_encode_is_byte_exact() {
    let (msu, wire) = itu_kav();
    assert_eq!(msu.encode(Variant::Itu), wire);
}

/// Independently reproduce the routing-label formula and confirm the crate
/// emits the same bytes.
#[test]
fn itu_encode_matches_hand_rolled_formula() {
    let (msu, _) = itu_kav();
    let (dpc, opc, sls) = (8209u32, 4107u32, 7u32);
    let label: u32 = dpc | (opc << 14) | (sls << 28);
    let mut expected = vec![0x03];
    expected.extend_from_slice(&label.to_le_bytes());
    expected.extend_from_slice(&msu.data);
    assert_eq!(msu.encode(Variant::Itu), expected);
}

#[test]
fn itu_decode_recovers_fields() {
    let (msu, wire) = itu_kav();
    let back = Mtp3Msu::decode(&wire, Variant::Itu).unwrap();
    assert_eq!(back, msu);
    assert_eq!(back.opc.value(), 4107);
    assert_eq!(back.dpc.value(), 8209);
    assert_eq!(back.sls, 7);
    assert_eq!(back.si, ServiceIndicator::SCCP);
    assert_eq!(back.ni, NetworkIndicator::International);
}

#[test]
fn itu_round_trip() {
    let (msu, _) = itu_kav();
    assert_eq!(
        Mtp3Msu::decode(&msu.encode(Variant::Itu), Variant::Itu).unwrap(),
        msu
    );
}

/// OPC 1-2-3 laid out as `03 02 01`; DPC 4-5-6 as `06 05 04`. SI SCCP, NI
/// national (2), priority 1 → SIO = 0x93. SLS 0x1F in its own octet.
fn ansi_kav() -> (Mtp3Msu, [u8; 10]) {
    let msu = Mtp3Msu {
        si: ServiceIndicator::SCCP,
        ni: NetworkIndicator::National,
        mp: 1,
        opc: PointCode::from_components([1, 2, 3], Variant::Ansi).unwrap(),
        dpc: PointCode::from_components([4, 5, 6], Variant::Ansi).unwrap(),
        sls: 0x1F,
        data: vec![0xaa, 0xbb],
    };
    let wire = [
        0x93, // SIO: NI=2 (national), MP=1, SI=3 (SCCP)
        0x06, 0x05, 0x04, // DPC 4-5-6, LSO first
        0x03, 0x02, 0x01, // OPC 1-2-3, LSO first
        0x1F, // SLS
        0xaa, 0xbb, // SIF
    ];
    (msu, wire)
}

#[test]
fn ansi_encode_is_byte_exact() {
    let (msu, wire) = ansi_kav();
    assert_eq!(msu.encode(Variant::Ansi), wire);
}

#[test]
fn ansi_decode_recovers_fields() {
    let (msu, wire) = ansi_kav();
    let back = Mtp3Msu::decode(&wire, Variant::Ansi).unwrap();
    assert_eq!(back, msu);
    assert_eq!(back.opc.components(), [1, 2, 3]);
    assert_eq!(back.dpc.components(), [4, 5, 6]);
    assert_eq!(back.mp, 1);
    assert_eq!(back.sls, 0x1F);
    assert_eq!(back.ni, NetworkIndicator::National);
}

#[test]
fn ansi_round_trip() {
    let (msu, _) = ansi_kav();
    assert_eq!(
        Mtp3Msu::decode(&msu.encode(Variant::Ansi), Variant::Ansi).unwrap(),
        msu
    );
}

/// China takes the 24-bit ANSI-style layout, so the wire bytes match.
#[test]
fn china_matches_ansi_layout() {
    let msu = Mtp3Msu {
        si: ServiceIndicator::ISUP,
        ni: NetworkIndicator::National,
        mp: 0,
        opc: PointCode::from_components([7, 8, 9], Variant::China).unwrap(),
        dpc: PointCode::from_components([1, 2, 3], Variant::China).unwrap(),
        sls: 5,
        data: vec![0x01],
    };
    let ansi_shaped = Mtp3Msu {
        opc: PointCode::from_value(msu.opc.value(), Variant::Ansi).unwrap(),
        dpc: PointCode::from_value(msu.dpc.value(), Variant::Ansi).unwrap(),
        ..msu.clone()
    };
    assert_eq!(
        msu.encode(Variant::China),
        ansi_shaped.encode(Variant::Ansi)
    );
    assert_eq!(
        Mtp3Msu::decode(&msu.encode(Variant::China), Variant::China).unwrap(),
        msu
    );
}

#[test]
fn sio_packs_si_ni_mp() {
    // SI/NI/priority land in the right SIO fields and survive the round trip.
    for (si, ni, mp, want) in [
        (
            ServiceIndicator::SCCP,
            NetworkIndicator::International,
            0u8,
            0x03u8,
        ),
        (ServiceIndicator::ISUP, NetworkIndicator::National, 0, 0x85),
        (ServiceIndicator::SCCP, NetworkIndicator::National, 3, 0xB3),
        (
            ServiceIndicator(0),
            NetworkIndicator::NationalSpare,
            2,
            0xE0,
        ),
    ] {
        let msu = Mtp3Msu {
            si,
            ni,
            mp,
            opc: PointCode::from_value(1, Variant::Itu).unwrap(),
            dpc: PointCode::from_value(2, Variant::Itu).unwrap(),
            sls: 0,
            data: vec![],
        };
        let wire = msu.encode(Variant::Itu);
        assert_eq!(wire[0], want, "SIO for si={si:?} ni={ni:?} mp={mp}");
        let back = Mtp3Msu::decode(&wire, Variant::Itu).unwrap();
        assert_eq!((back.si, back.ni, back.mp), (si, ni, mp));
    }
}

#[test]
fn empty_sif_round_trips() {
    for variant in [Variant::Itu, Variant::Ansi, Variant::China] {
        let msu = Mtp3Msu {
            si: ServiceIndicator::SCCP,
            ni: NetworkIndicator::International,
            mp: 0,
            opc: PointCode::from_value(1, variant).unwrap(),
            dpc: PointCode::from_value(2, variant).unwrap(),
            sls: 0,
            data: vec![],
        };
        let wire = msu.encode(variant);
        // SIO + routing label, no SIF. ITU packs the label into 4 octets;
        // ANSI/China lay it out as DPC(3) + OPC(3) + SLS(1) = 7.
        let label_len = if variant == Variant::Itu { 4 } else { 7 };
        assert_eq!(wire.len(), 1 + label_len);
        let back = Mtp3Msu::decode(&wire, variant).unwrap();
        assert!(back.data.is_empty());
        assert_eq!(back, msu);
    }
}

#[test]
fn decode_rejects_short_input() {
    // ITU needs 5 octets for SIO + label; ANSI/China need 8.
    assert!(matches!(
        Mtp3Msu::decode(&[0x03, 0x11, 0xe0, 0x02], Variant::Itu),
        Err(Mtp3Error::Decode(_))
    ));
    assert!(Mtp3Msu::decode(&[0x03, 0x11, 0xe0, 0x02, 0x74], Variant::Itu).is_ok());
    assert!(matches!(
        Mtp3Msu::decode(&[0x93, 0x06, 0x05, 0x04, 0x03, 0x02, 0x01], Variant::Ansi),
        Err(Mtp3Error::Decode(_))
    ));
}

// ── Further cases ───────────────────────────────────────────────────────────

#[test]
fn every_well_known_service_indicator_is_named() {
    assert_eq!(ServiceIndicator::SNM.name(), Some("SNM"));
    assert_eq!(ServiceIndicator::SNT.name(), Some("SNT"));
    assert_eq!(ServiceIndicator::SCCP.name(), Some("SCCP"));
    assert_eq!(ServiceIndicator::TUP.name(), Some("TUP"));
    assert_eq!(ServiceIndicator::ISUP.name(), Some("ISUP"));
    assert_eq!(ServiceIndicator(2).name(), None);
    assert_eq!(ServiceIndicator(255).name(), None);
}

#[test]
fn network_indicator_masks_to_two_bits() {
    for ni in [
        NetworkIndicator::International,
        NetworkIndicator::InternationalSpare,
        NetworkIndicator::National,
        NetworkIndicator::NationalSpare,
    ] {
        assert_eq!(NetworkIndicator::from_bits(ni.bits()), ni);
    }
    assert_eq!(NetworkIndicator::from_bits(1), NetworkIndicator::InternationalSpare);
    assert_eq!(NetworkIndicator::from_bits(3), NetworkIndicator::NationalSpare);
    assert_eq!(NetworkIndicator::from_bits(0xFE), NetworkIndicator::National);
    assert_eq!(NetworkIndicator::from_bits(0xFF).bits(), 3);
}

#[test]
fn encode_masks_out_of_width_fields() {
    // ANSI point codes encoded under ITU keep only their low 14 bits, and the
    // SLS keeps 4 bits; the priority keeps 2 bits and the SI 4 bits.
    let msu = Mtp3Msu {
        si: ServiceIndicator(0x13),
        ni: NetworkIndicator::International,
        mp: 5,
        opc: PointCode::from_value(0xFF_FFFF, Variant::Ansi).unwrap(),
        dpc: PointCode::from_value(0x4001, Variant::Ansi).unwrap(),
        sls: 0x1F,
        data: vec![],
    };
    let wire = msu.encode(Variant::Itu);
    let label: u32 = 0x0001 | (0x3FFF << 14) | (0xF << 28);
    let mut expected = vec![0x13];
    expected.extend_from_slice(&label.to_le_bytes());
    assert_eq!(wire, expected);
}

#[test]
fn decode_then_encode_gives_back_the_octets() {
    let itu = [0xFF, 0x12, 0x34, 0x56, 0x78, 0x01, 0x02];
    let msu = Mtp3Msu::decode(&itu, Variant::Itu).unwrap();
    assert_eq!(msu.encode(Variant::Itu), itu);
    assert_eq!(msu.si, ServiceIndicator(0x0F));
    assert_eq!(msu.mp, 3);
    assert_eq!(msu.ni, NetworkIndicator::NationalSpare);
    assert_eq!(msu.dpc.value(), 0x78563412 & 0x3FFF);
    assert_eq!(msu.opc.value(), (0x78563412 >> 14) & 0x3FFF);
    assert_eq!(msu.sls, 7);
    let ansi = [0x40, 0xFF, 0xFF, 0xFF, 0x00, 0x01, 0x02, 0x99];
    let msu = Mtp3Msu::decode(&ansi, Variant::China).unwrap();
    assert_eq!(msu.encode(Variant::China), ansi);
    assert_eq!(msu.dpc.value(), 0xFF_FFFF);
    assert_eq!(msu.opc.components(), [2, 1, 0]);
    assert_eq!(msu.sls, 0x99);
    assert!(msu.data.is_empty());
}

#[test]
fn decode_error_message_names_the_shortfall() {
    match Mtp3Msu::decode(&[0x03, 0x11, 0xe0, 0x02], Variant::Itu) {
        Err(Mtp3Error::Decode(msg)) => assert_eq!(
            msg,
            "need at least 5 octets for the SIO + Itu routing label, got 4"
        ),
        other => panic!("expected a decode error, got {other:?}"),
    }
    match Mtp3Msu::decode(&[], Variant::China) {
        Err(Mtp3Error::Decode(msg)) => assert_eq!(
            msg,
            "need at least 8 octets for the SIO + China routing label, got 0"
        ),
        other => panic!("expected a decode error, got {other:?}"),
    }
}

#[test]
fn mtp3_error_messages() {
    let pc = PointCode::from_components([2, 1, 3], Variant::Itu).unwrap();
    assert_eq!(
        Mtp3Error::Unreachable(pc).to_string(),
        "destination 2-1-3 is unreachable"
    );
    assert_eq!(
        Mtp3Error::Transport("closed".to_string()).to_string(),
        "transport error: closed"
    );
    assert_eq!(
        Mtp3Error::OutOfService.to_string(),
        "mtp3-user part is not in service"
    );
    assert_eq!(
        Mtp3Error::Decode("short".to_string()).to_string(),
        "MSU decode: short"
    );
}

#[test]
fn events_carry_their_fields() {
    let pc = PointCode::from_value(7, Variant::Itu).unwrap();
    let status = Mtp3Event::Status {
        affected: pc,
        status: Mtp3Status::UserPartUnavailable {
            si: ServiceIndicator::ISUP,
            cause: 1,
        },
    };
    assert_eq!(status.clone(), status);
    assert_ne!(Mtp3Event::Pause { affected: pc }, Mtp3Event::Resume { affected: pc });
    assert_eq!(
        Mtp3Status::Congested { level: 2 },
        Mtp3Status::Congested { level: 2 }
    );
}
