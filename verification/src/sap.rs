//! The values that cross the MTP3-User Service Access Point (Q.701
//! MTP-TRANSFER and network management), and the on-wire MSU codec.
//!
//! An MSU on the wire is the SIO octet, then the routing label, then the SIF
//! (the MTP3-user payload). The routing label is variant-specific:
//!
//! * ITU (Q.704) — one 32-bit little-endian word,
//!   `DPC(14) | OPC(14) << 14 | SLS(4) << 28`.
//! * ANSI / China (T1.111) — DPC (3 octets) then OPC (3 octets), each point
//!   code least-significant octet first, then a one-octet SLS.

use vstd::prelude::*;
use vstd::arithmetic::power2::lemma2_to64;
use vstd::slice::{slice_subrange, slice_to_vec};

use crate::point_code::{
    spec_max_value, spec_text, spec_variant_name, PointCode, PointCodeView, Variant,
};
use crate::text::{decimal_text, push_decimal, push_str};

verus! {

/// Service Indicator — the low nibble of the SIO, naming the MTP3-user that
/// owns the message. Opaque `u8`; the well-known values are SNM (0), SNT (1),
/// SCCP (3), TUP (4) and ISUP (5).
#[derive(Debug, Clone, Copy, PartialEq, Eq, Hash, Structural)]
pub struct ServiceIndicator(pub u8);

/// The well-known name of a service indicator value, if any.
pub open spec fn spec_si_name(v: u8) -> Option<Seq<char>> {
    if v == 0 {
        Some("SNM"@)
    } else if v == 1 {
        Some("SNT"@)
    } else if v == 3 {
        Some("SCCP"@)
    } else if v == 4 {
        Some("TUP"@)
    } else if v == 5 {
        Some("ISUP"@)
    } else {
        None
    }
}

impl ServiceIndicator {
    /// The well-known name, if any.
    pub fn name(self) -> (n: Option<&'static str>)
        ensures
            match n {
                Some(t) => spec_si_name(self.0) == Some(t@),
                None => spec_si_name(self.0) is None,
            },
    {
        match self.0 {
            0 => Some("SNM"),
            1 => Some("SNT"),
            3 => Some("SCCP"),
            4 => Some("TUP"),
            5 => Some("ISUP"),
            _ => None,
        }
    }
}

/// Network Indicator — the top two bits of the SIO.
#[derive(Debug, Clone, Copy, PartialEq, Eq, Hash, Structural)]
pub enum NetworkIndicator {
    International,
    InternationalSpare,
    National,
    NationalSpare,
}

/// The two-bit SIO encoding of a network indicator.
pub open spec fn spec_ni_bits(n: NetworkIndicator) -> u8 {
    match n {
        NetworkIndicator::International => 0,
        NetworkIndicator::InternationalSpare => 1,
        NetworkIndicator::National => 2,
        NetworkIndicator::NationalSpare => 3,
    }
}

/// The network indicator that the low two bits of `v` encode.
pub open spec fn spec_ni_from_bits(v: u8) -> NetworkIndicator {
    let b = v & 0b11;
    if b == 0 {
        NetworkIndicator::International
    } else if b == 1 {
        NetworkIndicator::InternationalSpare
    } else if b == 2 {
        NetworkIndicator::National
    } else {
        NetworkIndicator::NationalSpare
    }
}

impl NetworkIndicator {
    /// Build from the raw two-bit SIO field (masked to 2 bits).
    pub fn from_bits(v: u8) -> (n: Self)
        ensures
            n == spec_ni_from_bits(v),
    {
        match v & 0b11 {
            0 => Self::International,
            1 => Self::InternationalSpare,
            2 => Self::National,
            _ => Self::NationalSpare,
        }
    }

    /// The two-bit SIO encoding.
    pub fn bits(self) -> (b: u8)
        ensures
            b == spec_ni_bits(self),
    {
        match self {
            Self::International => 0,
            Self::InternationalSpare => 1,
            Self::National => 2,
            Self::NationalSpare => 3,
        }
    }
}

/// An MTP3 Message Signal Unit as seen at the MTP3-user boundary — the routing
/// label (OPC/DPC/SLS), the SIO fields (SI/NI/priority), and the user payload.
/// The parameters of the MTP-TRANSFER primitive (Q.701).
#[derive(Debug, Clone, PartialEq, Eq)]
pub struct Mtp3Msu {
    /// Service Indicator (which MTP3-user; SCCP = 3).
    pub si: ServiceIndicator,
    /// Network Indicator (international / national).
    pub ni: NetworkIndicator,
    /// Message priority (0–3; ANSI/China use it, ITU ignores it).
    pub mp: u8,
    /// Originating Point Code.
    pub opc: PointCode,
    /// Destination Point Code.
    pub dpc: PointCode,
    /// Signalling Link Selection (load-sharing / sequencing key).
    pub sls: u8,
    /// The MTP3-user payload (e.g. an encoded SCCP message).
    pub data: Vec<u8>,
}

/// The mathematical content of an [`Mtp3Msu`].
pub struct MsuView {
    pub si: ServiceIndicator,
    pub ni: NetworkIndicator,
    pub mp: u8,
    pub opc: PointCodeView,
    pub dpc: PointCodeView,
    pub sls: u8,
    pub data: Seq<u8>,
}

impl View for Mtp3Msu {
    type V = MsuView;

    open spec fn view(&self) -> MsuView {
        MsuView {
            si: self.si,
            ni: self.ni,
            mp: self.mp,
            opc: self.opc@,
            dpc: self.dpc@,
            sls: self.sls,
            data: self.data@,
        }
    }
}

/// Exactly the service indicators 0 (SNM), 1 (SNT), 3 (SCCP), 4 (TUP) and
/// 5 (ISUP) have names, and each name belongs to its value alone.
pub proof fn lemma_si_names(v: u8)
    ensures
        spec_si_name(v) is Some <==> (v == 0 || v == 1 || v == 3 || v == 4 || v == 5),
        spec_si_name(v) == Some("SNM"@) <==> v == 0,
        spec_si_name(v) == Some("SNT"@) <==> v == 1,
        spec_si_name(v) == Some("SCCP"@) <==> v == 3,
        spec_si_name(v) == Some("TUP"@) <==> v == 4,
        spec_si_name(v) == Some("ISUP"@) <==> v == 5,
{
    reveal_strlit("SNM");
    reveal_strlit("SNT");
    reveal_strlit("SCCP");
    reveal_strlit("TUP");
    reveal_strlit("ISUP");
    assert("SNM"@[2] != "SNT"@[2] && "SNM"@[0] != "TUP"@[0] && "SNT"@[0] != "TUP"@[0]);
    assert("SNM"@.len() != "SCCP"@.len() && "SNM"@.len() != "ISUP"@.len());
    assert("SNT"@.len() != "SCCP"@.len() && "SNT"@.len() != "ISUP"@.len());
    assert("TUP"@.len() != "SCCP"@.len() && "TUP"@.len() != "ISUP"@.len());
    assert("SCCP"@[0] != "ISUP"@[0]);
    assert("SNM"@ != "SNT"@ && "SNM"@ != "SCCP"@ && "SNM"@ != "TUP"@ && "SNM"@ != "ISUP"@);
    assert("SNT"@ != "SCCP"@ && "SNT"@ != "TUP"@ && "SNT"@ != "ISUP"@);
    assert("SCCP"@ != "TUP"@ && "SCCP"@ != "ISUP"@);
    assert("TUP"@ != "ISUP"@);
}

/// The SIO octet: SI in bits 0..3, message priority in bits 4..5, NI in bits 6..7.
pub open spec fn spec_sio(si: u8, ni: NetworkIndicator, mp: u8) -> u8 {
    (spec_ni_bits(ni) << 6u8) | ((mp & 0x03) << 4u8) | (si & 0x0F)
}

/// The four octets of `x`, least-significant first.
pub open spec fn spec_le_bytes(x: u32) -> Seq<u8> {
    seq![
        (x & 0xff) as u8,
        ((x >> 8u32) & 0xff) as u8,
        ((x >> 16u32) & 0xff) as u8,
        ((x >> 24u32) & 0xff) as u8,
    ]
}

/// The 32-bit value of four octets, least-significant first.
pub open spec fn spec_le_value(b0: u8, b1: u8, b2: u8, b3: u8) -> u32 {
    (b0 as u32) | ((b1 as u32) << 8u32) | ((b2 as u32) << 16u32) | ((b3 as u32) << 24u32)
}

/// The ITU routing label `DPC(14) | OPC(14) << 14 | SLS(4) << 28`, each field
/// masked to its width.
pub open spec fn spec_itu_label(dpc: u32, opc: u32, sls: u8) -> u32 {
    (dpc & 0x3FFF) | ((opc & 0x3FFF) << 14u32) | (((sls as u32) & 0x0F) << 28u32)
}

/// The number of routing-label octets of a variant.
pub open spec fn spec_label_len(v: Variant) -> nat {
    match v {
        Variant::Itu => 4,
        _ => 7,
    }
}

/// The on-wire MSU: SIO octet, routing label, SIF. For ANSI/China each point
/// code is masked to 24 bits and laid out in three octets, least-significant
/// first.
pub open spec fn spec_encode(m: MsuView, variant: Variant) -> Seq<u8> {
    let head = seq![spec_sio(m.si.0, m.ni, m.mp)];
    match variant {
        Variant::Itu => head + spec_le_bytes(spec_itu_label(m.dpc.value, m.opc.value, m.sls))
            + m.data,
        _ => head + spec_le_bytes(m.dpc.value & 0xFF_FFFF).take(3) + spec_le_bytes(
            m.opc.value & 0xFF_FFFF,
        ).take(3) + seq![m.sls] + m.data,
    }
}

/// The MSU that the octets `b` encode under `variant`, or `None` when they
/// are too short for the SIO and the routing label.
pub open spec fn spec_decode(b: Seq<u8>, variant: Variant) -> Option<MsuView> {
    let header = 1 + spec_label_len(variant);
    if b.len() < header {
        None
    } else {
        let sio = b[0];
        let label = spec_le_value(b[1], b[2], b[3], b[4]);
        let (opc, dpc, sls) = match variant {
            Variant::Itu => (
                (label >> 14u32) & 0x3FFF,
                label & 0x3FFF,
                ((label >> 28u32) & 0x0F) as u8,
            ),
            _ => (spec_le_value(b[4], b[5], b[6], 0), spec_le_value(b[1], b[2], b[3], 0), b[7]),
        };
        Some(
            MsuView {
                si: ServiceIndicator(sio & 0x0F),
                ni: spec_ni_from_bits(sio >> 6u8),
                mp: (sio >> 4u8) & 0x03,
                opc: PointCodeView { value: opc, variant },
                dpc: PointCodeView { value: dpc, variant },
                sls,
                data: b.subrange(header as int, b.len() as int),
            },
        )
    }
}

/// The message of a decode that got too few octets.
pub open spec fn spec_short_input_text(header: nat, variant: Variant, got: nat) -> Seq<char> {
    "need at least "@ + decimal_text(header) + " octets for the SIO + "@ + spec_variant_name(
        variant,
    ) + " routing label, got "@ + decimal_text(got)
}

/// Appends the first `n` little-endian octets of `x`.
fn push_le_octets(out: &mut Vec<u8>, x: u32, n: usize)
    requires
        n == 3 || n == 4,
    ensures
        final(out)@ == old(out)@ + spec_le_bytes(x).take(n as int),
{
    let ghost start = out@;
    out.push((x & 0xff) as u8);
    out.push(((x >> 8) & 0xff) as u8);
    out.push(((x >> 16) & 0xff) as u8);
    if n == 4 {
        out.push(((x >> 24) & 0xff) as u8);
    }
    assert(out@ =~= start + spec_le_bytes(x).take(n as int));
}

impl Mtp3Msu {
    /// The SIO octet: SI in bits 0..3, message priority in bits 4..5 (spare, so
    /// zero, for ITU international; the priority field for ANSI), NI in bits 6..7.
    fn sio(&self) -> (s: u8)
        ensures
            s == spec_sio(self.si.0, self.ni, self.mp),
    {
        (self.ni.bits() << 6) | ((self.mp & 0x03) << 4) | (self.si.0 & 0x0F)
    }

    /// Encode to the on-wire MSU: SIO octet, then the routing label, then the SIF
    /// (the MTP3-user payload). The routing-label layout is variant-specific;
    /// the point codes are masked to the variant width, so an over-wide value
    /// can't bleed into an adjacent field.
    pub fn encode(&self, variant: Variant) -> (w: Vec<u8>)
        ensures
            w@ == spec_encode(self@, variant),
    {
        let sio = self.sio();
        let mut out: Vec<u8> = Vec::new();
        out.push(sio);
        match variant {
            Variant::Itu => {
                let dpc = self.dpc.value() & 0x3FFF;
                let opc = self.opc.value() & 0x3FFF;
                let sls = (self.sls as u32) & 0x0F;
                let label = dpc | (opc << 14) | (sls << 28);
                push_le_octets(&mut out, label, 4);
            },
            Variant::Ansi | Variant::China => {
                let dpc = self.dpc.value() & 0x00FF_FFFF;
                let opc = self.opc.value() & 0x00FF_FFFF;
                push_le_octets(&mut out, dpc, 3);
                push_le_octets(&mut out, opc, 3);
                out.push(self.sls);
            },
        }
        let ghost before = out@;
        out.extend_from_slice(self.data.as_slice());
        assert(out@ =~= before + self.data@);
        out
    }

    /// Decode an on-wire MSU (as produced by [`encode`](Mtp3Msu::encode)) under
    /// the given `variant`. Recovers the SIO fields, the OPC/DPC/SLS routing
    /// label, and the SIF as the payload.
    ///
    /// Errors with [`Mtp3Error::Decode`] if the input is shorter than the SIO
    /// plus the variant's routing label (5 octets for ITU, 8 for ANSI/China).
    pub fn decode(bytes: &[u8], variant: Variant) -> (r: Result<Self, Mtp3Error>)
        ensures
            match r {
                Ok(m) => spec_decode(bytes@, variant) == Some(m@),
                Err(e) => {
                    &&& spec_decode(bytes@, variant) is None
                    &&& e matches Mtp3Error::Decode(t)
                    &&& t@ == spec_short_input_text(
                        1 + spec_label_len(variant),
                        variant,
                        bytes@.len(),
                    )
                },
            },
    {
        let label_len: usize = match variant {
            Variant::Itu => 4,
            Variant::Ansi | Variant::China => 7,
        };
        let header = 1 + label_len;
        if bytes.len() < header {
            let mut msg = String::new();
            push_str(&mut msg, "need at least ");
            push_decimal(&mut msg, header as u64);
            push_str(&mut msg, " octets for the SIO + ");
            push_str(&mut msg, variant.name());
            push_str(&mut msg, " routing label, got ");
            push_decimal(&mut msg, bytes.len() as u64);
            assert(msg@ =~= spec_short_input_text(header as nat, variant, bytes@.len()));
            return Err(Mtp3Error::Decode(msg));
        }
        let sio = bytes[0];
        let si = ServiceIndicator(sio & 0x0F);
        let mp = (sio >> 4) & 0x03;
        let ni = NetworkIndicator::from_bits(sio >> 6);

        let (opc, dpc, sls) = match variant {
            Variant::Itu => {
                let label = (bytes[1] as u32) | ((bytes[2] as u32) << 8) | ((bytes[3] as u32) << 16)
                    | ((bytes[4] as u32) << 24);
                let dpc = label & 0x3FFF;
                let opc = (label >> 14) & 0x3FFF;
                let sls = ((label >> 28) & 0x0F) as u8;
                assert(dpc <= 0x3FFF && opc <= 0x3FFF) by (bit_vector)
                    requires
                        dpc == label & 0x3FFF,
                        opc == (label >> 14u32) & 0x3FFF,
                ;
                (opc, dpc, sls)
            },
            Variant::Ansi | Variant::China => {
                let dpc = (bytes[1] as u32) | ((bytes[2] as u32) << 8) | ((bytes[3] as u32) << 16);
                let opc = (bytes[4] as u32) | ((bytes[5] as u32) << 8) | ((bytes[6] as u32) << 16);
                let (d0, d1, d2, o0, o1, o2) = (bytes[1], bytes[2], bytes[3], bytes[4], bytes[5], bytes[6]);
                assert(dpc == spec_le_value(d0, d1, d2, 0) && dpc <= 0xFF_FFFF) by (bit_vector)
                    requires
                        dpc == (d0 as u32) | ((d1 as u32) << 8u32) | ((d2 as u32) << 16u32),
                ;
                assert(opc == spec_le_value(o0, o1, o2, 0) && opc <= 0xFF_FFFF) by (bit_vector)
                    requires
                        opc == (o0 as u32) | ((o1 as u32) << 8u32) | ((o2 as u32) << 16u32),
                ;
                (opc, dpc, bytes[7])
            },
        };
        proof {
            lemma2_to64();
            assert(spec_max_value(Variant::Itu) == 0x3FFF);
            assert(spec_max_value(Variant::Ansi) == 0xFF_FFFF);
            assert(spec_max_value(Variant::China) == 0xFF_FFFF);
        }
        let opc = match PointCode::from_value(opc, variant) {
            Ok(p) => p,
            Err(e) => {
                return Err(Mtp3Error::Decode(e.to_string()));
            },
        };
        let dpc = match PointCode::from_value(dpc, variant) {
            Ok(p) => p,
            Err(e) => {
                return Err(Mtp3Error::Decode(e.to_string()));
            },
        };
        let data = slice_to_vec(slice_subrange(bytes, header, bytes.len()));
        let m = Self { si, ni, mp, opc, dpc, sls, data };
        assert(spec_decode(bytes@, variant) == Some(m@));
        Ok(m)
    }
}

/// Network-management status for a destination.
#[derive(Debug, Clone, PartialEq, Eq)]
pub enum Mtp3Status {
    /// The destination is congested (transfer-controlled) at the given level.
    Congested { level: u8 },
    /// A user part at the destination is unavailable (MTP3 UPU / M3UA DUPU).
    UserPartUnavailable { si: ServiceIndicator, cause: u8 },
}

/// An inbound event from the network layer: a delivered MSU (MTP-TRANSFER
/// indication) or a network-management indication (PAUSE/RESUME/STATUS).
#[derive(Debug, Clone, PartialEq, Eq)]
pub enum Mtp3Event {
    /// MTP-TRANSFER.indication — an MSU addressed to us.
    Transfer(Mtp3Msu),
    /// The destination became inaccessible (MTP-PAUSE / M3UA DUNA).
    Pause { affected: PointCode },
    /// The destination became accessible (MTP-RESUME / M3UA DAVA).
    Resume { affected: PointCode },
    /// A status change for the destination (MTP-STATUS / M3UA SCON / DUPU).
    Status { affected: PointCode, status: Mtp3Status },
}

/// Errors surfaced by an MTP3-user part.
#[derive(Debug)]
pub enum Mtp3Error {
    /// The destination point code has no route / is unreachable.
    Unreachable(PointCode),
    /// The underlying transport failed.
    Transport(String),
    /// The provider is shutting down / the link is out of service.
    OutOfService,
    /// The bytes handed to [`Mtp3Msu::decode`] are not a well-formed MSU.
    Decode(String),
}

impl Mtp3Error {
    /// The human-readable message of this error.
    pub fn to_string(&self) -> (t: String)
        ensures
            t@ == match self {
                Mtp3Error::Unreachable(p) => "destination "@ + spec_text(p@) + " is unreachable"@,
                Mtp3Error::Transport(s) => "transport error: "@ + s@,
                Mtp3Error::OutOfService => "mtp3-user part is not in service"@,
                Mtp3Error::Decode(s) => "MSU decode: "@ + s@,
            },
    {
        let mut out = String::new();
        match self {
            Mtp3Error::Unreachable(p) => {
                push_str(&mut out, "destination ");
                let t = p.to_string();
                push_str(&mut out, t.as_str());
                push_str(&mut out, " is unreachable");
            },
            Mtp3Error::Transport(s) => {
                push_str(&mut out, "transport error: ");
                push_str(&mut out, s.as_str());
            },
            Mtp3Error::OutOfService => {
                push_str(&mut out, "mtp3-user part is not in service");
            },
            Mtp3Error::Decode(s) => {
                push_str(&mut out, "MSU decode: ");
                push_str(&mut out, s.as_str());
            },
        }
        out
    }
}

// ---------------------------------------------------------------------------
// Laws
// ---------------------------------------------------------------------------

/// The two-bit encoding of a network indicator reads back as the same
/// indicator, and reading any octet keeps exactly its low two bits.
pub proof fn lemma_ni_bits_round_trip(n: NetworkIndicator, v: u8)
    ensures
        spec_ni_from_bits(spec_ni_bits(n)) == n,
        spec_ni_bits(spec_ni_from_bits(v)) == v & 0b11,
{
    assert(0u8 & 0b11 == 0 && 1u8 & 0b11 == 1 && 2u8 & 0b11 == 2 && 3u8 & 0b11 == 3) by (bit_vector);
    assert(v & 0b11 <= 3) by (bit_vector);
}

/// An SIO octet is the repacking of the three fields read from it.
proof fn lemma_sio_rebuild(s: u8)
    ensures
        ((s >> 6u8) << 6u8) | ((((s >> 4u8) & 0x03) & 0x03) << 4u8) | ((s & 0x0F) & 0x0F) == s,
        s >> 6u8 < 4,
{
    assert(((s >> 6u8) << 6u8) | ((((s >> 4u8) & 0x03) & 0x03) << 4u8) | ((s & 0x0F) & 0x0F) == s
        && s >> 6u8 < 4) by (bit_vector);
}

/// Reading back the little-endian octets of a value gives the value.
proof fn lemma_le_round_trip(x: u32)
    ensures
        spec_le_value(
            spec_le_bytes(x)[0],
            spec_le_bytes(x)[1],
            spec_le_bytes(x)[2],
            spec_le_bytes(x)[3],
        ) == x,
        x <= 0xFF_FFFF ==> spec_le_value(
            spec_le_bytes(x)[0],
            spec_le_bytes(x)[1],
            spec_le_bytes(x)[2],
            0,
        ) == x,
{
    assert((((x & 0xff) as u8) as u32) | ((((x >> 8u32) & 0xff) as u8) as u32) << 8u32 | ((((x
        >> 16u32) & 0xff) as u8) as u32) << 16u32 | ((((x >> 24u32) & 0xff) as u8) as u32)
        << 24u32 == x) by (bit_vector);
    assert(x <= 0xFF_FFFF ==> (((x & 0xff) as u8) as u32) | ((((x >> 8u32) & 0xff) as u8) as u32)
        << 8u32 | ((((x >> 16u32) & 0xff) as u8) as u32) << 16u32 | ((0u8 as u32) << 24u32) == x)
        by (bit_vector);
}

/// The little-endian octets of the value of four octets are those octets.
proof fn lemma_le_bytes_of_value(b0: u8, b1: u8, b2: u8, b3: u8)
    ensures
        spec_le_bytes(spec_le_value(b0, b1, b2, b3)) == seq![b0, b1, b2, b3],
{
    let x = spec_le_value(b0, b1, b2, b3);
    assert(((x & 0xff) as u8) == b0 && (((x >> 8u32) & 0xff) as u8) == b1 && (((x >> 16u32)
        & 0xff) as u8) == b2 && (((x >> 24u32) & 0xff) as u8) == b3) by (bit_vector)
        requires
            x == (b0 as u32) | ((b1 as u32) << 8u32) | ((b2 as u32) << 16u32) | ((b3 as u32)
                << 24u32),
    ;
    assert(spec_le_bytes(x) =~= seq![b0, b1, b2, b3]);
}

/// An ITU routing label is the repacking of the three fields read from it.
proof fn lemma_itu_label_rebuild(l: u32)
    ensures
        spec_itu_label(l & 0x3FFF, (l >> 14u32) & 0x3FFF, ((l >> 28u32) & 0x0F) as u8) == l,
{
    assert(((l & 0x3FFF) & 0x3FFF) | ((((l >> 14u32) & 0x3FFF) & 0x3FFF) << 14u32) | ((((((l
        >> 28u32) & 0x0F) as u8) as u32) & 0x0F) << 28u32) == l) by (bit_vector);
}

/// The width mask of a variant's point codes in the routing label.
pub open spec fn spec_pc_mask(variant: Variant) -> u32 {
    match variant {
        Variant::Itu => 0x3FFF,
        _ => 0xFF_FFFF,
    }
}

/// What a decode of an encoded MSU recovers: every field masked to its
/// width on the wire, and nothing else changed. In particular an over-wide
/// field never changes an adjacent one.
pub open spec fn spec_wire_fields(m: MsuView, variant: Variant) -> MsuView {
    MsuView {
        si: ServiceIndicator(m.si.0 & 0x0F),
        ni: m.ni,
        mp: m.mp & 0x03,
        opc: PointCodeView { value: m.opc.value & spec_pc_mask(variant), variant },
        dpc: PointCodeView { value: m.dpc.value & spec_pc_mask(variant), variant },
        sls: if variant == Variant::Itu {
            m.sls & 0x0F
        } else {
            m.sls
        },
        data: m.data,
    }
}

/// Four octets read least-significant first, as a number.
proof fn lemma_le_value_arith(b0: u8, b1: u8, b2: u8, b3: u8)
    ensures
        spec_le_value(b0, b1, b2, b3) as int == b0 + 256 * b1 + 65536 * b2 + 16777216 * b3,
{
    assert(((b0 as u32) | ((b1 as u32) << 8u32) | ((b2 as u32) << 16u32) | ((b3 as u32) << 24u32))
        as int == b0 + 256 * b1 + 65536 * b2 + 16777216 * b3) by (bit_vector);
}

/// The first three little-endian octets of `x`, as a number, are `x` modulo
/// 2^24; all four are `x` itself.
proof fn lemma_le_bytes_arith(x: u32)
    ensures
        spec_le_bytes(x).len() == 4,
        spec_le_bytes(x)[0] + 256 * spec_le_bytes(x)[1] + 65536 * spec_le_bytes(x)[2] == x
            % 16777216,
        spec_le_bytes(x)[0] + 256 * spec_le_bytes(x)[1] + 65536 * spec_le_bytes(x)[2] + 16777216
            * spec_le_bytes(x)[3] == x,
{
    assert(((x & 0xff) as u8) + 256 * (((x >> 8u32) & 0xff) as u8) + 65536 * (((x >> 16u32)
        & 0xff) as u8) == x % 16777216) by (bit_vector);
    assert(((x & 0xff) as u8) + 256 * (((x >> 8u32) & 0xff) as u8) + 65536 * (((x >> 16u32)
        & 0xff) as u8) + 16777216 * (((x >> 24u32) & 0xff) as u8) == x) by (bit_vector);
}

/// The SIO fields by arithmetic: SI is the low four bits, the priority the
/// next two, the network indicator the top two.
proof fn lemma_sio_arith(s: u8)
    ensures
        s & 0x0F == s % 16,
        (s >> 4u8) & 0x03 == (s / 16) % 4,
        s >> 6u8 == s / 64,
{
    assert(s & 0x0F == s % 16 && (s >> 4u8) & 0x03 == (s / 16) % 4 && s >> 6u8 == s / 64)
        by (bit_vector);
}

/// The ITU routing-label fields by arithmetic.
proof fn lemma_itu_label_arith(l: u32)
    ensures
        l & 0x3FFF == l % 16384,
        (l >> 14u32) & 0x3FFF == (l / 16384) % 16384,
        ((l >> 28u32) & 0x0F) == l / 268435456,
{
    assert(l & 0x3FFF == l % 16384 && (l >> 14u32) & 0x3FFF == (l / 16384) % 16384 && ((l >> 28u32)
        & 0x0F) == l / 268435456) by (bit_vector);
}

/// The on-wire layout of every encoded MSU, field by field:
///
/// * octet 0, the SIO, is `NI * 64 + (MP mod 4) * 16 + (SI mod 16)`;
/// * ITU: octets 1..5, read least-significant first, are the label
///   `DPC mod 2^14 + (OPC mod 2^14) * 2^14 + (SLS mod 16) * 2^28`, so the low
///   14 bits are always the DPC; the SIF follows from octet 5;
/// * ANSI/China: octets 1..4 are the DPC modulo 2^24 and octets 4..7 the OPC
///   modulo 2^24, each least-significant first, octet 7 is the SLS, and the
///   SIF follows from octet 8.
pub proof fn lemma_encode_layout(m: MsuView, variant: Variant)
    ensures
        ({
            let w = spec_encode(m, variant);
            let ni: int = match m.ni {
                NetworkIndicator::International => 0,
                NetworkIndicator::InternationalSpare => 1,
                NetworkIndicator::National => 2,
                NetworkIndicator::NationalSpare => 3,
            };
            &&& w.len() >= 5
            &&& w[0] == ni * 64 + (m.mp % 4) * 16 + m.si.0 % 16
            &&& variant == Variant::Itu ==> {
                &&& w.len() == 5 + m.data.len()
                &&& w[1] + 256 * w[2] + 65536 * w[3] + 16777216 * w[4] == m.dpc.value % 16384
                    + (m.opc.value % 16384) * 16384 + (m.sls % 16) * 268435456
                &&& w.subrange(5, w.len() as int) == m.data
            }
            &&& variant != Variant::Itu ==> {
                &&& w.len() == 8 + m.data.len()
                &&& w[1] + 256 * w[2] + 65536 * w[3] == m.dpc.value % 16777216
                &&& w[4] + 256 * w[5] + 65536 * w[6] == m.opc.value % 16777216
                &&& w[7] == m.sls
                &&& w.subrange(8, w.len() as int) == m.data
            }
        }),
{
    let w = spec_encode(m, variant);
    let nb = spec_ni_bits(m.ni);
    let (si, mp) = (m.si.0, m.mp);
    assert((nb << 6u8) | ((mp & 0x03) << 4u8) | (si & 0x0F) == nb * 64 + (mp % 4) * 16 + si % 16)
        by (bit_vector)
        requires
            nb < 4,
    ;
    if variant == Variant::Itu {
        let (d, o, sl) = (m.dpc.value, m.opc.value, m.sls);
        let label = spec_itu_label(d, o, sl);
        assert(label == d % 16384 + (o % 16384) * 16384 + (sl % 16) * 268435456) by (bit_vector)
            requires
                label == (d & 0x3FFF) | ((o & 0x3FFF) << 14u32) | (((sl as u32) & 0x0F) << 28u32),
        ;
        lemma_le_bytes_arith(label);
        let lb = spec_le_bytes(label);
        assert(w =~= seq![spec_sio(si, m.ni, mp), lb[0], lb[1], lb[2], lb[3]] + m.data);
        assert(w.subrange(5, w.len() as int) =~= m.data);
    } else {
        let (d, o) = (m.dpc.value, m.opc.value);
        let (dm, om) = (d & 0xFF_FFFF, o & 0xFF_FFFF);
        assert(dm == d % 16777216 && om == o % 16777216) by (bit_vector)
            requires
                dm == d & 0xFF_FFFF,
                om == o & 0xFF_FFFF,
        ;
        lemma_le_bytes_arith(dm);
        lemma_le_bytes_arith(om);
        assert(dm % 16777216 == dm);
        assert(om % 16777216 == om);
        let db = spec_le_bytes(dm);
        let ob = spec_le_bytes(om);
        assert(w =~= seq![spec_sio(si, m.ni, mp), db[0], db[1], db[2], ob[0], ob[1], ob[2], m.sls]
            + m.data);
        assert(w.subrange(8, w.len() as int) =~= m.data);
    }
}

/// What decoding reads from the octets, field by field, whatever they hold:
///
/// * fewer than 5 octets (ITU) or 8 (ANSI/China) is an error;
/// * SI is octet 0 mod 16, the priority (octet 0 / 16) mod 4, the network
///   indicator octet 0 / 64 (International, InternationalSpare, National,
///   NationalSpare for 0..3); both point codes take the decoding variant;
/// * ITU: with `L` the value of octets 1..5 least-significant first, the DPC
///   is `L mod 2^14`, the OPC `(L / 2^14) mod 2^14` and the SLS `L / 2^28`;
///   the SIF is everything from octet 5;
/// * ANSI/China: the DPC is octets 1..4 and the OPC octets 4..7, each
///   least-significant first, the SLS is octet 7, whatever its value, and the
///   SIF is everything from octet 8.
pub proof fn lemma_decode_layout(b: Seq<u8>, variant: Variant)
    ensures
        b.len() < (if variant == Variant::Itu { 5int } else { 8int }) ==> spec_decode(
            b,
            variant,
        ) is None,
        b.len() >= (if variant == Variant::Itu { 5int } else { 8int }) ==> ({
            &&& spec_decode(b, variant) is Some
            &&& ({
                let m = spec_decode(b, variant)->Some_0;
                &&& m.si.0 == b[0] % 16
                &&& m.mp == (b[0] / 16) % 4
                &&& m.ni == (if b[0] / 64 == 0 {
                    NetworkIndicator::International
                } else if b[0] / 64 == 1 {
                    NetworkIndicator::InternationalSpare
                } else if b[0] / 64 == 2 {
                    NetworkIndicator::National
                } else {
                    NetworkIndicator::NationalSpare
                })
                &&& m.opc.variant == variant
                &&& m.dpc.variant == variant
                &&& variant == Variant::Itu ==> {
                    let l = b[1] + 256 * b[2] + 65536 * b[3] + 16777216 * b[4];
                    &&& m.dpc.value == l % 16384
                    &&& m.opc.value == (l / 16384) % 16384
                    &&& m.sls == l / 268435456
                    &&& m.data == b.subrange(5, b.len() as int)
                }
                &&& variant != Variant::Itu ==> {
                    &&& m.dpc.value == b[1] + 256 * b[2] + 65536 * b[3]
                    &&& m.opc.value == b[4] + 256 * b[5] + 65536 * b[6]
                    &&& m.sls == b[7]
                    &&& m.data == b.subrange(8, b.len() as int)
                }
            })
        }),
{
    if b.len() >= 1 + spec_label_len(variant) {
        let s = b[0];
        lemma_sio_arith(s);
        let nb = s >> 6u8;
        assert(nb & 0b11 == nb) by (bit_vector)
            requires
                nb == s >> 6u8,
        ;
        if variant == Variant::Itu {
            let l = spec_le_value(b[1], b[2], b[3], b[4]);
            lemma_le_value_arith(b[1], b[2], b[3], b[4]);
            lemma_itu_label_arith(l);
            assert(((l >> 28u32) & 0x0F) < 16) by (bit_vector);
        } else {
            lemma_le_value_arith(b[1], b[2], b[3], 0);
            lemma_le_value_arith(b[4], b[5], b[6], 0);
        }
    }
}

/// Decoding what `encode` produced gives every field back masked to its
/// width on the wire, whatever the MSU held.
pub proof fn lemma_decode_encode_masks(m: MsuView, variant: Variant)
    ensures
        spec_decode(spec_encode(m, variant), variant) == Some(spec_wire_fields(m, variant)),
{
    let w = spec_encode(m, variant);
    let (si, mp) = (m.si.0, m.mp);
    let nb = spec_ni_bits(m.ni);
    lemma_ni_bits_round_trip(m.ni, 0);
    let s = spec_sio(si, m.ni, mp);
    assert(s & 0x0F == si & 0x0F && (s >> 4u8) & 0x03 == mp & 0x03 && s >> 6u8 == nb) by (bit_vector)
        requires
            nb < 4,
            s == (nb << 6u8) | ((mp & 0x03) << 4u8) | (si & 0x0F),
    ;
    let f = spec_wire_fields(m, variant);
    if variant == Variant::Itu {
        let label = spec_itu_label(m.dpc.value, m.opc.value, m.sls);
        let lb = spec_le_bytes(label);
        assert(w =~= seq![s, lb[0], lb[1], lb[2], lb[3]] + m.data);
        lemma_le_round_trip(label);
        let (dv, ov, sl) = (m.dpc.value, m.opc.value, m.sls);
        assert(label & 0x3FFF == dv & 0x3FFF && (label >> 14u32) & 0x3FFF == ov & 0x3FFF && ((label
            >> 28u32) & 0x0F) as u8 == sl & 0x0F) by (bit_vector)
            requires
                label == (dv & 0x3FFF) | ((ov & 0x3FFF) << 14u32) | (((sl as u32) & 0x0F) << 28u32),
        ;
        assert(w.subrange(5, w.len() as int) =~= m.data);
    } else {
        let (dv, ov) = (m.dpc.value & 0xFF_FFFF, m.opc.value & 0xFF_FFFF);
        let db = spec_le_bytes(dv);
        let ob = spec_le_bytes(ov);
        assert(w =~= seq![s, db[0], db[1], db[2], ob[0], ob[1], ob[2], m.sls] + m.data);
        let (d, o) = (m.dpc.value, m.opc.value);
        assert(d & 0xFF_FFFF <= 0xFF_FFFF && o & 0xFF_FFFF <= 0xFF_FFFF) by (bit_vector);
        lemma_le_round_trip(dv);
        lemma_le_round_trip(ov);
        assert(w.subrange(8, w.len() as int) =~= m.data);
    }
    assert(spec_decode(w, variant) == Some(f));
}

/// Decoding what `encode` produced gives the MSU back, for every MSU whose
/// fields fit the wire format: both point codes valid and of the variant it
/// is encoded under, the service indicator below 16, the priority below 4,
/// and, for ITU, the SLS below 16 (ITU carries four SLS bits).
pub proof fn lemma_decode_encode(m: MsuView, variant: Variant)
    requires
        m.opc.wf(),
        m.dpc.wf(),
        m.opc.variant == variant,
        m.dpc.variant == variant,
        m.si.0 < 16,
        m.mp < 4,
        variant == Variant::Itu ==> m.sls < 16,
    ensures
        spec_decode(spec_encode(m, variant), variant) == Some(m),
{
    lemma2_to64();
    lemma_decode_encode_masks(m, variant);
    let (si, mp, sls, d, o) = (m.si.0, m.mp, m.sls, m.dpc.value, m.opc.value);
    assert(si < 16 ==> si & 0x0F == si) by (bit_vector);
    assert(mp < 4 ==> mp & 0x03 == mp) by (bit_vector);
    assert(sls < 16 ==> sls & 0x0F == sls) by (bit_vector);
    assert(d <= 0x3FFF ==> d & 0x3FFF == d) by (bit_vector);
    assert(o <= 0x3FFF ==> o & 0x3FFF == o) by (bit_vector);
    assert(d <= 0xFF_FFFF ==> d & 0xFF_FFFF == d) by (bit_vector);
    assert(o <= 0xFF_FFFF ==> o & 0xFF_FFFF == o) by (bit_vector);
    assert(spec_wire_fields(m, variant) == m);
}

/// Encoding what `decode` accepted gives back exactly the octets it read:
/// every bit of the SIO and of the routing label is a field of the MSU.
pub proof fn lemma_encode_decode(b: Seq<u8>, variant: Variant)
    ensures
        spec_decode(b, variant) is None <==> b.len() < 1 + spec_label_len(variant),
        spec_decode(b, variant) matches Some(m) ==> spec_encode(m, variant) == b,
{
    if let Some(m) = spec_decode(b, variant) {
        let s = b[0];
        lemma_sio_rebuild(s);
        lemma_ni_bits_round_trip(m.ni, s >> 6u8);
        assert((s >> 6u8) & 0b11 == s >> 6u8) by (bit_vector);
        assert(spec_ni_bits(m.ni) == s >> 6u8);
        assert(spec_sio(m.si.0, m.ni, m.mp) == s);
        if variant == Variant::Itu {
            let l = spec_le_value(b[1], b[2], b[3], b[4]);
            lemma_itu_label_rebuild(l);
            lemma_le_bytes_of_value(b[1], b[2], b[3], b[4]);
            assert(spec_encode(m, variant) =~= b);
        } else {
            let dv = spec_le_value(b[1], b[2], b[3], 0);
            let ov = spec_le_value(b[4], b[5], b[6], 0);
            let (d0, d1, d2, o0, o1, o2) = (b[1], b[2], b[3], b[4], b[5], b[6]);
            assert(dv & 0xFF_FFFF == dv) by (bit_vector)
                requires
                    dv == (d0 as u32) | ((d1 as u32) << 8u32) | ((d2 as u32) << 16u32) | ((0u8 as u32) << 24u32),
            ;
            assert(ov & 0xFF_FFFF == ov) by (bit_vector)
                requires
                    ov == (o0 as u32) | ((o1 as u32) << 8u32) | ((o2 as u32) << 16u32) | ((0u8 as u32) << 24u32),
            ;
            lemma_le_bytes_of_value(d0, d1, d2, 0);
            lemma_le_bytes_of_value(o0, o1, o2, 0);
            assert(spec_encode(m, variant) =~= b);
        }
    }
}

/// An encoded MSU is one SIO octet, the variant's routing label, and the SIF.
pub proof fn lemma_encode_len(m: MsuView, variant: Variant)
    ensures
        spec_encode(m, variant).len() == 1 + spec_label_len(variant) + m.data.len(),
{
}

/// China takes the 24-bit ANSI layout: the same MSU encodes to the same
/// octets under both.
pub proof fn lemma_china_matches_ansi(m: MsuView)
    ensures
        spec_encode(m, Variant::China) == spec_encode(m, Variant::Ansi),
{
}

} // verus!
