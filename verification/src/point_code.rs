//! SS7 point codes and the ITU/ANSI variants.
//!
//! A point code is the network address of a signalling point. Its bit width
//! and structured form depend on the SS7 variant:
//!
//! * ITU — 14-bit, structured `zone-region-sp` as `3-8-3`.
//! * ANSI — 24-bit, structured `network-cluster-member` as `8-8-8`.
//! * China — 24-bit, same `8-8-8` layout as ANSI.

use vstd::prelude::*;
use vstd::arithmetic::power2::{pow2, lemma2_to64, lemma_pow2_adds, lemma_pow2_strictly_increases};
use vstd::arithmetic::mul::lemma_mul_inequality;
use vstd::arithmetic::div_mod::{
    lemma_div_denominator, lemma_fundamental_div_mod, lemma_fundamental_div_mod_converse,
};
use vstd::bits::lemma_u32_shl_is_mul;

use crate::text::{
    all_digits, chars_of, decimal_text, decimal_value, field_bounds, lemma_digits_read, lemma_decimal_text_digits, lemma_parse_decimal_text,
    lemma_split_fields_nonempty, lemma_split_no_separator, lemma_split_three, parse_u32,
    parse_u32_at, push_char, push_decimal, push_str, split_fields, trim, trim_bounds,
};

verus! {

/// SS7 variant — fixes the point-code width and structured layout.
#[derive(Debug, Clone, Copy, PartialEq, Eq, Hash, Structural)]
pub enum Variant {
    Itu,
    Ansi,
    China,
}

/// Component bit widths of a variant, most-significant first.
pub open spec fn spec_widths(v: Variant) -> Seq<u8> {
    match v {
        Variant::Itu => seq![3u8, 8u8, 3u8],
        _ => seq![8u8, 8u8, 8u8],
    }
}

/// Total point-code width in bits: the sum of the component widths.
pub open spec fn spec_bits(v: Variant) -> nat {
    let w = spec_widths(v);
    (w[0] + w[1] + w[2]) as nat
}

/// Largest point-code value of a variant: `2^bits - 1`.
pub open spec fn spec_max_value(v: Variant) -> nat {
    (pow2(spec_bits(v)) - 1) as nat
}

impl Variant {
    /// Component bit widths, most-significant first.
    pub fn widths(self) -> (w: [u8; 3])
        ensures
            w@ == spec_widths(self),
    {
        match self {
            Variant::Itu => [3, 8, 3],
            Variant::Ansi | Variant::China => [8, 8, 8],
        }
    }

    /// Total point-code width in bits (14 for ITU, 24 for ANSI/China).
    pub fn bits(self) -> (b: u8)
        ensures
            b == spec_bits(self),
    {
        let w = self.widths();
        w[0] + w[1] + w[2]
    }

    /// Number of octets a point code occupies on the wire (rounded up).
    pub fn octets(self) -> (n: usize)
        ensures
            n == (spec_bits(self) + 7) / 8,
    {
        let b = self.bits() as usize;
        (b + 7) / 8
    }

    /// Largest value representable in this variant.
    pub fn max_value(self) -> (m: u32)
        ensures
            m == spec_max_value(self),
    {
        let b = self.bits();
        proof {
            lemma2_to64();
            if b == 14 {
                assert((1u32 << 14u8) == 0x4000) by (bit_vector);
            } else {
                assert((1u32 << 24u8) == 0x100_0000) by (bit_vector);
            }
        }
        (1u32 << b) - 1
    }
}

/// Why a point code could not be built or parsed.
#[derive(Debug, PartialEq, Eq)]
pub enum PointCodeError {
    /// The text split into a number of components other than 1 or 3.
    Components(String, usize),
    /// A component is not a decimal number that fits in a `u32`.
    NotANumber(String),
    /// A structured component does not fit its bit field.
    ComponentTooLarge { value: u32, bits: u8, variant: Variant },
    /// A raw value does not fit the variant's width.
    OutOfRange { value: u32, bits: u8, variant: Variant },
}

/// The mathematical content of a [`PointCodeError`], with its text as characters.
pub enum PointCodeErrorView {
    Components(Seq<char>, usize),
    NotANumber(Seq<char>),
    ComponentTooLarge { value: u32, bits: u8, variant: Variant },
    OutOfRange { value: u32, bits: u8, variant: Variant },
}

impl View for PointCodeError {
    type V = PointCodeErrorView;

    open spec fn view(&self) -> PointCodeErrorView {
        match self {
            PointCodeError::Components(s, n) => PointCodeErrorView::Components(s@, *n),
            PointCodeError::NotANumber(s) => PointCodeErrorView::NotANumber(s@),
            PointCodeError::ComponentTooLarge { value, bits, variant } =>
                PointCodeErrorView::ComponentTooLarge { value: *value, bits: *bits, variant: *variant },
            PointCodeError::OutOfRange { value, bits, variant } =>
                PointCodeErrorView::OutOfRange { value: *value, bits: *bits, variant: *variant },
        }
    }
}

/// A point code plus the variant that gives it meaning.
///
/// Its value always fits the variant's width.
#[derive(Debug, Clone, Copy, PartialEq, Eq, Hash)]
pub struct PointCode {
    value: u32,
    variant: Variant,
}

/// The mathematical content of a [`PointCode`].
pub struct PointCodeView {
    pub value: u32,
    pub variant: Variant,
}

impl PointCodeView {
    /// The value fits the variant's width.
    pub open spec fn wf(self) -> bool {
        self.value <= spec_max_value(self.variant)
    }
}

impl View for PointCode {
    type V = PointCodeView;

    closed spec fn view(&self) -> PointCodeView {
        PointCodeView { value: self.value, variant: self.variant }
    }
}

/// A construction or parse outcome, taken by its view.
pub open spec fn outcome_view(r: Result<PointCode, PointCodeError>) -> Result<PointCodeView, PointCodeErrorView> {
    match r {
        Ok(p) => Ok(p@),
        Err(e) => Err(e@),
    }
}

/// What building from a raw integer gives.
pub open spec fn spec_from_value(value: u32, variant: Variant) -> Result<PointCodeView, PointCodeErrorView> {
    if value > spec_max_value(variant) {
        Err(PointCodeErrorView::OutOfRange { value, bits: spec_bits(variant) as u8, variant })
    } else {
        Ok(PointCodeView { value, variant })
    }
}

/// The value packed from the first `n` components, most-significant first:
/// each step shifts the value so far left by the next field's width and adds
/// the next component.
pub open spec fn spec_pack(parts: Seq<u32>, widths: Seq<u8>, n: nat) -> nat
    decreases n,
{
    if n == 0 {
        0
    } else {
        (spec_pack(parts, widths, (n - 1) as nat) * pow2(widths[n - 1] as nat) + parts[n - 1]) as nat
    }
}

/// The first of the three components that does not fit its field, if any.
pub open spec fn spec_first_too_large(parts: Seq<u32>, widths: Seq<u8>) -> Option<int> {
    if parts[0] >= pow2(widths[0] as nat) {
        Some(0)
    } else if parts[1] >= pow2(widths[1] as nat) {
        Some(1)
    } else if parts[2] >= pow2(widths[2] as nat) {
        Some(2)
    } else {
        None
    }
}

/// What building from three structured components gives.
pub open spec fn spec_from_components(parts: Seq<u32>, variant: Variant) -> Result<PointCodeView, PointCodeErrorView> {
    let w = spec_widths(variant);
    match spec_first_too_large(parts, w) {
        Some(i) => Err(PointCodeErrorView::ComponentTooLarge { value: parts[i], bits: w[i], variant }),
        None => Ok(PointCodeView { value: spec_pack(parts, w, 3) as u32, variant }),
    }
}

/// The three structured components of a point code, most-significant first.
pub open spec fn spec_components(p: PointCodeView) -> Seq<u32> {
    let w = spec_widths(p.variant);
    let v = p.value as nat;
    seq![
        (v / pow2((w[1] + w[2]) as nat)) as u32,
        ((v / pow2(w[2] as nat)) % pow2(w[1] as nat)) as u32,
        (v % pow2(w[2] as nat)) as u32,
    ]
}

impl PointCode {
    #[verifier::type_invariant]
    spec fn fits(self) -> bool {
        self.value <= spec_max_value(self.variant)
    }

    /// Two point codes with the same view are the same point code.
    pub proof fn lemma_view_injective(p: PointCode, q: PointCode)
        ensures
            p@ == q@ ==> p == q,
    {
    }

    /// Build from a raw integer, validating it fits the variant's width.
    pub fn from_value(value: u32, variant: Variant) -> (r: Result<Self, PointCodeError>)
        ensures
            outcome_view(r) == spec_from_value(value, variant),
    {
        if value > variant.max_value() {
            return Err(PointCodeError::OutOfRange { value, bits: variant.bits(), variant });
        }
        Ok(Self { value, variant })
    }

    /// Build from three structured components (most-significant first).
    pub fn from_components(parts: [u32; 3], variant: Variant) -> (r: Result<Self, PointCodeError>)
        ensures
            outcome_view(r) == spec_from_components(parts@, variant),
    {
        let widths = variant.widths();
        let mut value = 0u32;
        let mut i: usize = 0;
        proof {
            lemma2_to64();
        }
        while i < 3
            invariant
                0 <= i <= 3,
                widths@ == spec_widths(variant),
                value == spec_pack(parts@, widths@, i as nat),
                value < pow2(spec_pack_bits(widths@, i as nat)),
                forall|j: int| 0 <= j < i ==> parts@[j] < pow2(widths@[j] as nat),
            decreases 3 - i,
        {
            let part = parts[i];
            let width = widths[i];
            proof {
                reveal_with_fuel(spec_pack_bits, 4);
                assert(spec_pack_bits(widths@, i as nat) + width <= 24);
                lemma2_to64();
                lemma_field_limit(width);
            }
            if part >= (1u32 << width) {
                return Err(PointCodeError::ComponentTooLarge { value: part, bits: width, variant });
            }
            proof {
                lemma_push_field(value, part, width, spec_pack_bits(widths@, i as nat));
            }
            value = (value << width) | part;
            i = i + 1;
        }
        proof {
            reveal_with_fuel(spec_pack_bits, 4);
            lemma2_to64();
        }
        Ok(Self { value, variant })
    }

    /// The raw integer value (as it sits in the routing label, right-aligned).
    pub fn value(self) -> (v: u32)
        ensures
            v == self@.value,
            self@.wf(),
    {
        proof {
            use_type_invariant(&self);
        }
        self.value
    }

    /// The variant this point code is interpreted under.
    pub fn variant(self) -> (v: Variant)
        ensures
            v == self@.variant,
            self@.wf(),
    {
        proof {
            use_type_invariant(&self);
        }
        self.variant
    }

    /// Decompose into the three structured components.
    pub fn components(self) -> (c: [u32; 3])
        ensures
            c@ == spec_components(self@),
    {
        proof {
            use_type_invariant(&self);
        }
        let w = self.variant.widths();
        let wb = w[1];
        let wc = w[2];
        let v = self.value;
        proof {
            lemma_field_limit(wb);
            lemma_field_limit(wc);
            lemma2_to64();
        }
        let a = v >> (wb + wc);
        let b = (v >> wc) & ((1u32 << wb) - 1);
        let c = v & ((1u32 << wc) - 1);
        proof {
            if wc == 3 {
                assert(v >> (11u8) == v / 2048 && (v >> 3u8) & (((1u32 << 8u8) - 1) as u32) == (v / 8) % 256
                    && v & (((1u32 << 3u8) - 1) as u32) == v % 8) by (bit_vector);
            } else {
                assert(v >> (16u8) == v / 65536 && (v >> 8u8) & (((1u32 << 8u8) - 1) as u32) == (v / 256) % 256
                    && v & (((1u32 << 8u8) - 1) as u32) == v % 256) by (bit_vector);
            }
        }
        let r = [a, b, c];
        assert(r@ =~= spec_components(self@));
        r
    }
}

/// The total width of the first `n` fields.
pub open spec fn spec_pack_bits(widths: Seq<u8>, n: nat) -> nat
    decreases n,
{
    if n == 0 {
        0
    } else {
        (spec_pack_bits(widths, (n - 1) as nat) + widths[n - 1]) as nat
    }
}

/// `1 << width` is `2^width` for the field widths in use.
proof fn lemma_field_limit(width: u8)
    requires
        width == 3 || width == 8,
    ensures
        (1u32 << width) == pow2(width as nat),
{
    lemma2_to64();
    if width == 3 {
        assert((1u32 << 3u8) == 8) by (bit_vector);
    } else {
        assert((1u32 << 8u8) == 256) by (bit_vector);
    }
}

/// Shifting a value of `acc` bits left by a field's width and or-ing in a
/// component that fits the field adds the component, and the result fits in
/// `acc + width` bits.
proof fn lemma_push_field(value: u32, part: u32, width: u8, acc: nat)
    requires
        width == 3 || width == 8,
        acc + width <= 24,
        value < pow2(acc),
        part < pow2(width as nat),
    ensures
        ((value << width) | part) == value * pow2(width as nat) + part,
        value * pow2(width as nat) + part < pow2((acc + width) as nat),
{
    lemma2_to64();
    lemma_field_limit(width);
    lemma_pow2_adds(acc, width as nat);
    let pw = pow2(width as nat);
    let pa = pow2(acc);
    lemma_mul_inequality(value + 1, pa as int, pw as int);
    assert((value + 1) * pw == value * pw + pw) by (nonlinear_arith);
    if acc + width < 24 {
        lemma_pow2_strictly_increases((acc + width) as nat, 24);
    }
    lemma_u32_shl_is_mul(value, width as u32);
    assert(value << width == value << (width as u32)) by (bit_vector);
    assert(part < (1u32 << width) ==> ((value << width) | part) == (value << width) + part)
        by (bit_vector);
}

/// What parsing `s` gives: one field is a plain decimal value, three fields
/// are the structured components; each field is read with its surrounding
/// white space trimmed, and a field that does not read as a `u32` is named
/// in the error as it stood, untrimmed.
pub open spec fn spec_parse(s: Seq<char>, variant: Variant) -> Result<PointCodeView, PointCodeErrorView> {
    let f = split_fields(s);
    if f.len() == 1 {
        match parse_u32(trim(f[0])) {
            None => Err(PointCodeErrorView::NotANumber(f[0])),
            Some(v) => spec_from_value(v, variant),
        }
    } else if f.len() == 3 {
        match (parse_u32(trim(f[0])), parse_u32(trim(f[1])), parse_u32(trim(f[2]))) {
            (None, _, _) => Err(PointCodeErrorView::NotANumber(f[0])),
            (Some(_), None, _) => Err(PointCodeErrorView::NotANumber(f[1])),
            (Some(_), Some(_), None) => Err(PointCodeErrorView::NotANumber(f[2])),
            (Some(a), Some(b), Some(c)) => spec_from_components(seq![a, b, c], variant),
        }
    } else {
        Err(PointCodeErrorView::Components(s, f.len() as usize))
    }
}

/// The structured `a-b-c` rendering of a point code.
pub open spec fn spec_text(p: PointCodeView) -> Seq<char> {
    let c = spec_components(p);
    decimal_text(c[0] as nat) + seq!['-'] + decimal_text(c[1] as nat) + seq!['-'] + decimal_text(
        c[2] as nat,
    )
}

/// Reads one field, trimmed, as a `u32`.
fn read_field(chars: &Vec<char>, lo: usize, hi: usize) -> (r: Option<u32>)
    requires
        lo <= hi <= chars@.len(),
    ensures
        r == parse_u32(trim(chars@.subrange(lo as int, hi as int))),
{
    let (a, b) = trim_bounds(chars, lo, hi);
    parse_u32_at(chars, a, b)
}

impl PointCode {
    /// Parse the dotted/dashed structured form (`"2-1-3"`) or a plain
    /// decimal (`"515"`). Accepts `-` or `.` separators.
    pub fn parse(s: &str, variant: Variant) -> (r: Result<Self, PointCodeError>)
        ensures
            outcome_view(r) == spec_parse(s@, variant),
    {
        let chars = chars_of(s);
        let fields = field_bounds(&chars);
        let ghost f = split_fields(s@);
        proof {
            lemma_split_fields_nonempty(s@);
        }
        assert(fields@.len() == f.len());
        if fields.len() == 1 {
            let (lo, hi) = fields[0];
            assert(f[0] == chars@.subrange(lo as int, hi as int));
            match read_field(&chars, lo, hi) {
                Some(value) => Self::from_value(value, variant),
                None => Err(PointCodeError::NotANumber(String::from_str(s.substring_char(lo, hi)))),
            }
        } else if fields.len() == 3 {
            let (lo0, hi0) = fields[0];
            let (lo1, hi1) = fields[1];
            let (lo2, hi2) = fields[2];
            assert(f[0] == chars@.subrange(lo0 as int, hi0 as int));
            assert(f[1] == chars@.subrange(lo1 as int, hi1 as int));
            assert(f[2] == chars@.subrange(lo2 as int, hi2 as int));
            let pa = match read_field(&chars, lo0, hi0) {
                Some(v) => v,
                None => {
                    return Err(PointCodeError::NotANumber(String::from_str(s.substring_char(lo0, hi0))));
                },
            };
            let pb = match read_field(&chars, lo1, hi1) {
                Some(v) => v,
                None => {
                    return Err(PointCodeError::NotANumber(String::from_str(s.substring_char(lo1, hi1))));
                },
            };
            let pc = match read_field(&chars, lo2, hi2) {
                Some(v) => v,
                None => {
                    return Err(PointCodeError::NotANumber(String::from_str(s.substring_char(lo2, hi2))));
                },
            };
            let parts = [pa, pb, pc];
            assert(parts@ =~= seq![pa, pb, pc]);
            Self::from_components(parts, variant)
        } else {
            Err(PointCodeError::Components(String::from_str(s), fields.len()))
        }
    }

    /// Convenience: parse with the ITU variant.
    pub fn parse_itu(s: &str) -> (r: Result<Self, PointCodeError>)
        ensures
            outcome_view(r) == spec_parse(s@, Variant::Itu),
    {
        Self::parse(s, Variant::Itu)
    }

    /// Render as the structured `a-b-c` form of its variant.
    pub fn to_string(&self) -> (t: String)
        ensures
            t@ == spec_text(self@),
    {
        let c = self.components();
        let mut out = String::new();
        push_decimal(&mut out, c[0] as u64);
        push_char(&mut out, '-');
        push_decimal(&mut out, c[1] as u64);
        push_char(&mut out, '-');
        push_decimal(&mut out, c[2] as u64);
        assert(out@ =~= spec_text(self@));
        out
    }
}

impl std::str::FromStr for PointCode {
    type Err = PointCodeError;

    /// Parses with the ITU variant, as [`PointCode::parse_itu`] does.
    fn from_str(s: &str) -> (r: Result<Self, PointCodeError>)
        ensures
            outcome_view(r) == spec_parse(s@, Variant::Itu),
    {
        PointCode::parse_itu(s)
    }
}

/// Taking a valid point code apart into its components and building it back
/// from them gives the same point code.
pub proof fn lemma_components_round_trip(p: PointCodeView)
    requires
        p.wf(),
    ensures
        spec_from_components(spec_components(p), p.variant) == Ok::<
            PointCodeView,
            PointCodeErrorView,
        >(p),
{
    lemma2_to64();
    reveal_with_fuel(spec_pack, 4);
    let c = spec_components(p);
    let v = p.value as nat;
    let w = spec_widths(p.variant);
    if p.variant == Variant::Itu {
        lemma_fields_split(v as int, 8, 256);
        assert(v / 2048 < 8) by (nonlinear_arith)
            requires
                v <= 0x3FFF,
        ;
        assert(c[0] == v / 2048 && c[1] == (v / 8) % 256 && c[2] == v % 8);
        assert(v == (c[0] * 256 + c[1]) * 8 + c[2]) by (nonlinear_arith)
            requires
                v == (v / 2048) * 2048 + ((v / 8) % 256) * 8 + v % 8,
                c[0] == v / 2048,
                c[1] == (v / 8) % 256,
                c[2] == v % 8,
        ;
        assert(spec_pack(c, w, 3) == (c[0] * 256 + c[1]) * 8 + c[2]);
    } else {
        lemma_fields_split(v as int, 256, 256);
        assert(v / 65536 < 256) by (nonlinear_arith)
            requires
                v <= 0xFF_FFFF,
        ;
        assert(c[0] == v / 65536 && c[1] == (v / 256) % 256 && c[2] == v % 256);
        assert(v == (c[0] * 256 + c[1]) * 256 + c[2]) by (nonlinear_arith)
            requires
                v == (v / 65536) * 65536 + ((v / 256) % 256) * 256 + v % 256,
                c[0] == v / 65536,
                c[1] == (v / 256) % 256,
                c[2] == v % 256,
        ;
        assert(spec_pack(c, w, 3) == (c[0] * 256 + c[1]) * 256 + c[2]);
    }
}

/// Components that fit their fields come back out of the point code built
/// from them, and that point code is valid.
pub proof fn lemma_from_components_round_trip(parts: Seq<u32>, variant: Variant)
    requires
        parts.len() == 3,
    ensures
        match spec_from_components(parts, variant) {
            Ok(p) => p.wf() && spec_components(p) == parts,
            Err(_) => true,
        },
{
    lemma2_to64();
    reveal_with_fuel(spec_pack, 4);
    if let Ok(p) = spec_from_components(parts, variant) {
        let (a, b, c) = (parts[0] as nat, parts[1] as nat, parts[2] as nat);
        if variant == Variant::Itu {
            lemma_fields_join(a as int, b as int, c as int, 8, 256);
        } else {
            lemma_fields_join(a as int, b as int, c as int, 256, 256);
        }
        assert(spec_components(p) =~= parts);
    }
}

/// Rendering a valid point code as `a-b-c` and parsing the text under its
/// variant gives the same point code.
pub proof fn lemma_text_round_trip(p: PointCodeView)
    requires
        p.wf(),
    ensures
        spec_parse(spec_text(p), p.variant) == Ok::<PointCodeView, PointCodeErrorView>(p),
{
    let c = spec_components(p);
    lemma_decimal_text_digits(c[0] as nat);
    lemma_decimal_text_digits(c[1] as nat);
    lemma_decimal_text_digits(c[2] as nat);
    lemma_parse_decimal_text(c[0]);
    lemma_parse_decimal_text(c[1]);
    lemma_parse_decimal_text(c[2]);
    lemma_split_three(
        decimal_text(c[0] as nat),
        decimal_text(c[1] as nat),
        decimal_text(c[2] as nat),
    );
    lemma_components_round_trip(p);
    assert(seq![c[0], c[1], c[2]] =~= c);
}

/// A plain decimal reads as the raw value it spells.
pub proof fn lemma_decimal_parse(value: u32, variant: Variant)
    ensures
        spec_parse(decimal_text(value as nat), variant) == spec_from_value(value, variant),
{
    let t = decimal_text(value as nat);
    let e = Seq::<char>::empty();
    lemma_decimal_text_digits(value as nat);
    lemma_parse_decimal_text(value);
    lemma_split_no_separator(e, t);
    assert(e + t =~= t);
    assert(split_fields(e) =~= seq![e]);
    assert(e + t =~= t);
    assert(split_fields(t) =~= seq![t]);
}

/// A value splits into a high part, a middle field of `y` values and a low
/// field of `x` values.
proof fn lemma_fields_split(v: int, x: int, y: int)
    requires
        v >= 0,
        x > 0,
        y > 0,
    ensures
        v == (v / (x * y)) * (x * y) + ((v / x) % y) * x + v % x,
{
    let q = v / x;
    lemma_fundamental_div_mod(v, x);
    lemma_fundamental_div_mod(q, y);
    lemma_div_denominator(v, x, y);
    assert(v == (q / y) * (x * y) + (q % y) * x + v % x) by (nonlinear_arith)
        requires
            v == x * q + v % x,
            q == y * (q / y) + q % y,
    ;
}

/// Packing a high part, a middle field and a low field that fit their widths
/// can be undone by division and remainder.
proof fn lemma_fields_join(a: int, b: int, c: int, x: int, y: int)
    requires
        a >= 0,
        0 <= b < y,
        0 <= c < x,
    ensures
        ((a * y + b) * x + c) / (x * y) == a,
        (((a * y + b) * x + c) / x) % y == b,
        ((a * y + b) * x + c) % x == c,
{
    let v = (a * y + b) * x + c;
    lemma_fundamental_div_mod_converse(v, x, a * y + b, c);
    lemma_fundamental_div_mod_converse(a * y + b, y, a, b);
    assert(v >= 0) by (nonlinear_arith)
        requires
            a >= 0,
            b >= 0,
            c >= 0,
            x > 0,
            y > 0,
            v == (a * y + b) * x + c,
    ;
    lemma_div_denominator(v, x, y);
}

/// The name of a variant as its debug rendering shows it.
pub open spec fn spec_variant_name(v: Variant) -> Seq<char> {
    match v {
        Variant::Itu => "Itu"@,
        Variant::Ansi => "Ansi"@,
        Variant::China => "China"@,
    }
}

impl Variant {
    /// The variant's name: `"Itu"`, `"Ansi"` or `"China"`.
    pub fn name(self) -> (n: &'static str)
        ensures
            n@ == spec_variant_name(self),
    {
        match self {
            Variant::Itu => "Itu",
            Variant::Ansi => "Ansi",
            Variant::China => "China",
        }
    }
}

/// The human-readable message of a point-code error.
pub open spec fn spec_error_text(e: PointCodeErrorView) -> Seq<char> {
    match e {
        PointCodeErrorView::Components(s, n) => "point code '"@ + s + "' has "@ + decimal_text(
            n as nat,
        ) + " components, expected 1 (decimal) or 3 (a-b-c)"@,
        PointCodeErrorView::NotANumber(s) => "point code component '"@ + s + "' is not a number"@,
        PointCodeErrorView::ComponentTooLarge { value, bits, variant } => "point code component "@
            + decimal_text(value as nat) + " exceeds "@ + decimal_text(bits as nat)
            + "-bit field for "@ + spec_variant_name(variant),
        PointCodeErrorView::OutOfRange { value, bits, variant } => "point code "@ + decimal_text(
            value as nat,
        ) + " exceeds the "@ + decimal_text(bits as nat) + "-bit range for "@ + spec_variant_name(
            variant,
        ),
    }
}

impl PointCodeError {
    /// The human-readable message of this error.
    pub fn to_string(&self) -> (t: String)
        ensures
            t@ == spec_error_text(self@),
    {
        let mut out = String::new();
        match self {
            PointCodeError::Components(s, n) => {
                push_str(&mut out, "point code '");
                push_str(&mut out, s.as_str());
                push_str(&mut out, "' has ");
                push_decimal(&mut out, *n as u64);
                push_str(&mut out, " components, expected 1 (decimal) or 3 (a-b-c)");
            },
            PointCodeError::NotANumber(s) => {
                push_str(&mut out, "point code component '");
                push_str(&mut out, s.as_str());
                push_str(&mut out, "' is not a number");
            },
            PointCodeError::ComponentTooLarge { value, bits, variant } => {
                push_str(&mut out, "point code component ");
                push_decimal(&mut out, *value as u64);
                push_str(&mut out, " exceeds ");
                push_decimal(&mut out, *bits as u64);
                push_str(&mut out, "-bit field for ");
                push_str(&mut out, variant.name());
            },
            PointCodeError::OutOfRange { value, bits, variant } => {
                push_str(&mut out, "point code ");
                push_decimal(&mut out, *value as u64);
                push_str(&mut out, " exceeds the ");
                push_decimal(&mut out, *bits as u64);
                push_str(&mut out, "-bit range for ");
                push_str(&mut out, variant.name());
            },
        }
        assert(out@ =~= spec_error_text(self@));
        out
    }
}

/// The rendering of every point code is its three components in decimal,
/// joined by `-`: for ITU the 3-bit zone (`value / 2^11`), the 8-bit region
/// (`(value / 2^3) mod 2^8`) and the 3-bit signalling point (`value mod 2^3`);
/// for ANSI and China the network, cluster and member octets, most
/// significant first.
pub proof fn lemma_text_layout(p: PointCodeView)
    ensures
        ({
            let v = p.value as nat;
            let (a, b, c) = if p.variant == Variant::Itu {
                (v / 2048, (v / 8) % 256, v % 8)
            } else {
                (v / 65536, (v / 256) % 256, v % 256)
            };
            &&& spec_components(p) == seq![a as u32, b as u32, c as u32]
            &&& spec_text(p) == decimal_text(a) + seq!['-'] + decimal_text(b) + seq!['-']
                + decimal_text(c)
        }),
{
    lemma2_to64();
    let v = p.value as nat;
    if p.variant == Variant::Itu {
        assert(v / 2048 <= u32::MAX) by (nonlinear_arith)
            requires
                v <= u32::MAX,
        ;
    } else {
        assert(v / 65536 <= u32::MAX) by (nonlinear_arith)
            requires
                v <= u32::MAX,
        ;
    }
    assert(spec_components(p) =~= seq![
        spec_components(p)[0],
        spec_components(p)[1],
        spec_components(p)[2],
    ]);
}

/// Three runs of digits joined by `-` parse as the point code whose
/// components are the numbers they spell, however they are written (leading
/// zeros included), whenever each number fits its field: for ITU the value is
/// `a * 2^11 + b * 2^3 + c`, for ANSI and China `a * 2^16 + b * 2^8 + c`.
pub proof fn lemma_parse_structured(da: Seq<char>, db: Seq<char>, dc: Seq<char>, variant: Variant)
    requires
        da.len() > 0,
        db.len() > 0,
        dc.len() > 0,
        all_digits(da),
        all_digits(db),
        all_digits(dc),
        variant == Variant::Itu ==> decimal_value(da) < 8 && decimal_value(db) < 256
            && decimal_value(dc) < 8,
        variant != Variant::Itu ==> decimal_value(da) < 256 && decimal_value(db) < 256
            && decimal_value(dc) < 256,
    ensures
        ({
            let (a, b, c) = (decimal_value(da), decimal_value(db), decimal_value(dc));
            let value = if variant == Variant::Itu {
                a * 2048 + b * 8 + c
            } else {
                a * 65536 + b * 256 + c
            };
            spec_parse(da + seq!['-'] + db + seq!['-'] + dc, variant) == Ok::<
                PointCodeView,
                PointCodeErrorView,
            >(PointCodeView { value: value as u32, variant })
        }),
{
    lemma2_to64();
    reveal_with_fuel(spec_pack, 4);
    lemma_digits_read(da);
    lemma_digits_read(db);
    lemma_digits_read(dc);
    lemma_split_three(da, db, dc);
    let (a, b, c) = (decimal_value(da) as u32, decimal_value(db) as u32, decimal_value(dc) as u32);
    lemma_pack3(a, b, c, variant);
}

/// A run of digits alone parses as the raw value it spells, leading zeros
/// included, whenever that value fits the variant's width.
pub proof fn lemma_parse_plain(d: Seq<char>, variant: Variant)
    requires
        d.len() > 0,
        all_digits(d),
        decimal_value(d) <= (if variant == Variant::Itu { 0x3FFFnat } else { 0xFF_FFFFnat }),
    ensures
        spec_parse(d, variant) == Ok::<PointCodeView, PointCodeErrorView>(
            PointCodeView { value: decimal_value(d) as u32, variant },
        ),
{
    lemma2_to64();
    lemma_digits_read(d);
    let e = Seq::<char>::empty();
    lemma_split_no_separator(e, d);
    assert(e + d =~= d);
    assert(split_fields(e) =~= seq![e]);
    assert(split_fields(d) =~= seq![d]);
}

/// ITU point codes are 14 bits (largest 16383) and ANSI/China 24 bits
/// (largest 16777215); a raw value is accepted exactly when it is at most the
/// largest, and is kept as it is; otherwise the error names the value, the
/// width and the variant.
pub proof fn lemma_value_range(value: u32, variant: Variant)
    ensures
        ({
            let (bits, max) = if variant == Variant::Itu {
                (14nat, 16383nat)
            } else {
                (24nat, 16777215nat)
            };
            &&& spec_bits(variant) == bits
            &&& spec_max_value(variant) == max
            &&& value <= max ==> spec_from_value(value, variant) == Ok::<
                PointCodeView,
                PointCodeErrorView,
            >(PointCodeView { value, variant })
            &&& value > max ==> spec_from_value(value, variant) == Err::<
                PointCodeView,
                PointCodeErrorView,
            >(PointCodeErrorView::OutOfRange { value, bits: bits as u8, variant })
        }),
{
    lemma2_to64();
}

/// Building from components `[a, b, c]`: when each fits its field (ITU 3, 8
/// and 3 bits; ANSI/China 8 bits each) the value is `a * 2^11 + b * 2^3 + c`
/// (ITU) or `a * 2^16 + b * 2^8 + c` (ANSI/China); otherwise the error names
/// the first component, most significant first, that does not fit, with its
/// field width.
pub proof fn lemma_from_components_layout(a: u32, b: u32, c: u32, variant: Variant)
    ensures
        ({
            let (wa, wb, wc) = if variant == Variant::Itu {
                (3u8, 8u8, 3u8)
            } else {
                (8u8, 8u8, 8u8)
            };
            let (la, lb, lc) = if variant == Variant::Itu {
                (8nat, 256nat, 8nat)
            } else {
                (256nat, 256nat, 256nat)
            };
            let r = spec_from_components(seq![a, b, c], variant);
            &&& a >= la ==> r == Err::<PointCodeView, PointCodeErrorView>(
                PointCodeErrorView::ComponentTooLarge { value: a, bits: wa, variant },
            )
            &&& a < la && b >= lb ==> r == Err::<PointCodeView, PointCodeErrorView>(
                PointCodeErrorView::ComponentTooLarge { value: b, bits: wb, variant },
            )
            &&& a < la && b < lb && c >= lc ==> r == Err::<PointCodeView, PointCodeErrorView>(
                PointCodeErrorView::ComponentTooLarge { value: c, bits: wc, variant },
            )
            &&& a < la && b < lb && c < lc ==> r == Ok::<PointCodeView, PointCodeErrorView>(
                PointCodeView { value: (a * lb * lc + b * lc + c) as u32, variant },
            )
        }),
{
    lemma2_to64();
    reveal_with_fuel(spec_pack, 4);
    lemma_pack3(a, b, c, variant);
    assert(256 * 8 == 2048 && 256 * 256 == 65536);
}

/// Packing three components, step by step, in numbers.
proof fn lemma_pack3(a: u32, b: u32, c: u32, variant: Variant)
    ensures
        variant == Variant::Itu ==> spec_pack(seq![a, b, c], spec_widths(variant), 3) == a * 2048
            + b * 8 + c,
        variant != Variant::Itu ==> spec_pack(seq![a, b, c], spec_widths(variant), 3) == a
            * 65536 + b * 256 + c,
{
    lemma2_to64();
    let parts = seq![a, b, c];
    let w = spec_widths(variant);
    let p0 = spec_pack(parts, w, 0);
    let p1 = spec_pack(parts, w, 1);
    let p2 = spec_pack(parts, w, 2);
    let p3 = spec_pack(parts, w, 3);
    assert(p0 == 0);
    assert(p1 == p0 * pow2(w[0] as nat) + a);
    assert(p1 == a);
    assert(p2 == p1 * pow2(w[1] as nat) + b);
    assert(p3 == p2 * pow2(w[2] as nat) + c);
    assert(pow2(w[1] as nat) == 256);
    if variant == Variant::Itu {
        assert(pow2(w[2] as nat) == 8);
        assert(p3 == (a * 256 + b) * 8 + c);
        assert((a * 256 + b) * 8 + c == a * 2048 + b * 8 + c) by (nonlinear_arith);
    } else {
        assert(pow2(w[2] as nat) == 256);
        assert(p3 == (a * 256 + b) * 256 + c);
        assert((a * 256 + b) * 256 + c == a * 65536 + b * 256 + c) by (nonlinear_arith);
    }
}

} // verus!
