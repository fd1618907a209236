//! Character-level pieces of the point-code text grammar: splitting on field
//! separators, trimming white space, reading and writing decimal numbers.

use vstd::prelude::*;

verus! {

// ---------------------------------------------------------------------------
// Specifications
// ---------------------------------------------------------------------------

/// Unicode `White_Space`, the set that `char::is_whitespace` recognises.
pub open spec fn is_white_space(c: char) -> bool {
    let u = c as u32;
    ||| 0x09 <= u <= 0x0D
    ||| u == 0x20
    ||| u == 0x85
    ||| u == 0xA0
    ||| u == 0x1680
    ||| 0x2000 <= u <= 0x200A
    ||| u == 0x2028
    ||| u == 0x2029
    ||| u == 0x202F
    ||| u == 0x205F
    ||| u == 0x3000
}

/// The field separators of a structured point code: `-` and `.`.
pub open spec fn is_separator(c: char) -> bool {
    c == '-' || c == '.'
}

/// An ASCII decimal digit.
pub open spec fn is_digit(c: char) -> bool {
    '0' <= c && c <= '9'
}

/// The number a decimal digit stands for.
pub open spec fn digit_value(c: char) -> nat {
    (c as u32 - '0' as u32) as nat
}

/// The digit character for a number below ten.
pub open spec fn digit_char(d: nat) -> char {
    (d + '0' as u32) as char
}

pub open spec fn all_digits(s: Seq<char>) -> bool {
    forall|i: int| 0 <= i < s.len() ==> #[trigger] is_digit(s[i])
}

pub open spec fn no_separator(s: Seq<char>) -> bool {
    forall|i: int| 0 <= i < s.len() ==> !is_separator(#[trigger] s[i])
}

/// The value of a string of decimal digits, most-significant first.
pub open spec fn decimal_value(s: Seq<char>) -> nat
    decreases s.len(),
{
    if s.len() == 0 {
        0
    } else {
        decimal_value(s.drop_last()) * 10 + digit_value(s.last())
    }
}

/// The shortest decimal rendering of `n`.
pub open spec fn decimal_text(n: nat) -> Seq<char>
    decreases n,
{
    if n < 10 {
        seq![digit_char(n)]
    } else {
        decimal_text(n / 10).push(digit_char(n % 10))
    }
}

/// `s` with its leading white space removed.
pub open spec fn trim_start(s: Seq<char>) -> Seq<char>
    decreases s.len(),
{
    if s.len() > 0 && is_white_space(s[0]) {
        trim_start(s.drop_first())
    } else {
        s
    }
}

/// `s` with its trailing white space removed.
pub open spec fn trim_end(s: Seq<char>) -> Seq<char>
    decreases s.len(),
{
    if s.len() > 0 && is_white_space(s.last()) {
        trim_end(s.drop_last())
    } else {
        s
    }
}

/// `s` with its leading and trailing white space removed (`str::trim`).
pub open spec fn trim(s: Seq<char>) -> Seq<char> {
    trim_end(trim_start(s))
}

/// Reading a `u32` from text as `<u32 as FromStr>` does: an optional `+`,
/// then one or more ASCII digits, with a value that fits in 32 bits.
pub open spec fn parse_u32(s: Seq<char>) -> Option<u32> {
    let d = if s.len() > 0 && s[0] == '+' {
        s.drop_first()
    } else {
        s
    };
    if d.len() > 0 && all_digits(d) && decimal_value(d) <= u32::MAX {
        Some(decimal_value(d) as u32)
    } else {
        None
    }
}

/// The pieces of `s` between separators, as `str::split(['-', '.'])` yields
/// them: always at least one, possibly empty.
pub open spec fn split_fields(s: Seq<char>) -> Seq<Seq<char>>
    decreases s.len(),
{
    if s.len() == 0 {
        seq![Seq::empty()]
    } else {
        let init = split_fields(s.drop_last());
        if is_separator(s.last()) {
            init.push(Seq::empty())
        } else {
            init.update(init.len() - 1, init.last().push(s.last()))
        }
    }
}

/// The pieces that a list of bounds cuts out of `s`.
pub open spec fn cut(s: Seq<char>, bounds: Seq<(usize, usize)>) -> Seq<Seq<char>> {
    bounds.map_values(|b: (usize, usize)| s.subrange(b.0 as int, b.1 as int))
}

// ---------------------------------------------------------------------------
// Lemmas
// ---------------------------------------------------------------------------

pub proof fn lemma_split_fields_nonempty(s: Seq<char>)
    ensures
        split_fields(s).len() >= 1,
    decreases s.len(),
{
    if s.len() > 0 {
        lemma_split_fields_nonempty(s.drop_last());
    }
}

/// Text without separators is a single field.
pub proof fn lemma_split_no_separator(p: Seq<char>, t: Seq<char>)
    requires
        no_separator(t),
    ensures
        split_fields(p + t).len() == split_fields(p).len(),
        split_fields(p + t) == split_fields(p).update(
            split_fields(p).len() - 1,
            split_fields(p).last() + t,
        ),
    decreases t.len(),
{
    lemma_split_fields_nonempty(p);
    if t.len() == 0 {
        assert(p + t =~= p);
        assert(split_fields(p).last() + t =~= split_fields(p).last());
        assert(split_fields(p).update(split_fields(p).len() - 1, split_fields(p).last())
            =~= split_fields(p));
    } else {
        let t0 = t.drop_last();
        assert(no_separator(t0));
        lemma_split_no_separator(p, t0);
        assert((p + t).drop_last() =~= p + t0);
        assert((p + t).last() == t.last());
        assert(!is_separator(t.last()));
        assert((split_fields(p).last() + t0).push(t.last()) =~= split_fields(p).last() + t);
        assert(split_fields(p + t) =~= split_fields(p).update(
            split_fields(p).len() - 1,
            split_fields(p).last() + t,
        ));
    }
}

/// A separator closes the current field and opens an empty one.
pub proof fn lemma_split_separator(p: Seq<char>, c: char)
    requires
        is_separator(c),
    ensures
        split_fields(p.push(c)) == split_fields(p).push(Seq::<char>::empty()),
{
    assert(p.push(c).drop_last() =~= p);
}

/// Fields joined by `-` split back into themselves.
pub proof fn lemma_split_three(a: Seq<char>, b: Seq<char>, c: Seq<char>)
    requires
        no_separator(a),
        no_separator(b),
        no_separator(c),
    ensures
        split_fields(a + seq!['-'] + b + seq!['-'] + c) == seq![a, b, c],
{
    let e = Seq::<char>::empty();
    lemma_split_no_separator(e, a);
    assert(e + a =~= a);
    assert(split_fields(e) =~= seq![e]);
    assert(split_fields(a) =~= seq![a]);
    lemma_split_separator(a, '-');
    assert(a + seq!['-'] =~= a.push('-'));
    lemma_split_no_separator(a + seq!['-'], b);
    assert(split_fields(a + seq!['-'] + b) =~= seq![a, b]);
    lemma_split_separator(a + seq!['-'] + b, '-');
    assert(a + seq!['-'] + b + seq!['-'] =~= (a + seq!['-'] + b).push('-'));
    lemma_split_no_separator(a + seq!['-'] + b + seq!['-'], c);
    assert(split_fields(a + seq!['-'] + b + seq!['-'] + c) =~= seq![a, b, c]);
}

/// The rendering of a number is a non-empty run of digits.
pub proof fn lemma_decimal_text_digits(n: nat)
    ensures
        decimal_text(n).len() > 0,
        all_digits(decimal_text(n)),
        no_separator(decimal_text(n)),
        !is_white_space(decimal_text(n)[0]),
        !is_white_space(decimal_text(n).last()),
        decimal_text(n)[0] != '+',
    decreases n,
{
    if n >= 10 {
        lemma_decimal_text_digits(n / 10);
        let t = decimal_text(n / 10);
        assert(decimal_text(n) == t.push(digit_char(n % 10)));
        assert(decimal_text(n)[0] == t[0]);
    }
}

/// Reading the rendering of a number gives the number back.
pub proof fn lemma_decimal_value_of_text(n: nat)
    ensures
        decimal_value(decimal_text(n)) == n,
    decreases n,
{
    if n >= 10 {
        lemma_decimal_value_of_text(n / 10);
        let t = decimal_text(n);
        assert(t.drop_last() =~= decimal_text(n / 10));
        assert(digit_value(digit_char(n % 10)) == n % 10);
        assert(t.last() == digit_char(n % 10));
        assert(decimal_value(t) == decimal_value(t.drop_last()) * 10 + digit_value(t.last()));
    } else {
        assert(digit_value(digit_char(n)) == n);
        assert(decimal_value(Seq::<char>::empty()) == 0);
        assert(decimal_text(n).drop_last() =~= Seq::<char>::empty());
    }
}

/// Text without white space at either end is its own trim.
pub proof fn lemma_trim_untouched(s: Seq<char>)
    requires
        s.len() > 0,
        !is_white_space(s[0]),
        !is_white_space(s.last()),
    ensures
        trim(s) == s,
{
}

/// Reading the rendering of a 32-bit number gives the number back.
pub proof fn lemma_parse_decimal_text(n: u32)
    ensures
        trim(decimal_text(n as nat)) == decimal_text(n as nat),
        parse_u32(trim(decimal_text(n as nat))) == Some(n),
{
    lemma_decimal_text_digits(n as nat);
    lemma_decimal_value_of_text(n as nat);
    lemma_trim_untouched(decimal_text(n as nat));
}

/// A non-empty run of digits is one field, is its own trim, and reads as the
/// number it spells.
pub proof fn lemma_digits_read(s: Seq<char>)
    requires
        s.len() > 0,
        all_digits(s),
        decimal_value(s) <= u32::MAX,
    ensures
        no_separator(s),
        trim(s) == s,
        parse_u32(s) == Some(decimal_value(s) as u32),
{
    assert forall|i: int| 0 <= i < s.len() implies !is_separator(#[trigger] s[i]) by {
        assert(is_digit(s[i]));
    }
    assert(is_digit(s[0]));
    assert(is_digit(s.last()));
    lemma_trim_untouched(s);
}

/// A run of digits is worth at least as much as any of its prefixes.
proof fn lemma_decimal_value_prefix(s: Seq<char>, k: int)
    requires
        0 <= k <= s.len(),
    ensures
        decimal_value(s.take(k)) <= decimal_value(s),
    decreases s.len(),
{
    if k < s.len() {
        assert(s.drop_last().take(k) =~= s.take(k));
        lemma_decimal_value_prefix(s.drop_last(), k);
    } else {
        assert(s.take(k) =~= s);
    }
}

// ---------------------------------------------------------------------------
// Executable pieces
// ---------------------------------------------------------------------------

/// The characters of `s`, in order.
pub(crate) fn chars_of(s: &str) -> (v: Vec<char>)
    ensures
        v@ == s@,
{
    let n = s.unicode_len();
    let mut v: Vec<char> = Vec::new();
    let mut i: usize = 0;
    while i < n
        invariant
            n == s@.len(),
            i <= n,
            v@ == s@.take(i as int),
        decreases n - i,
    {
        v.push(s.get_char(i));
        i = i + 1;
        assert(v@ =~= s@.take(i as int));
    }
    assert(s@.take(n as int) =~= s@);
    v
}

pub(crate) fn is_white_space_char(c: char) -> (b: bool)
    ensures
        b == is_white_space(c),
{
    let u = c as u32;
    (0x09 <= u && u <= 0x0D) || u == 0x20 || u == 0x85 || u == 0xA0 || u == 0x1680 || (0x2000
        <= u && u <= 0x200A) || u == 0x2028 || u == 0x2029 || u == 0x202F || u == 0x205F || u
        == 0x3000
}

/// The bounds of the fields of `chars` (see [`split_fields`]).
pub(crate) fn field_bounds(chars: &Vec<char>) -> (b: Vec<(usize, usize)>)
    ensures
        cut(chars@, b@) == split_fields(chars@),
        forall|k: int| 0 <= k < b@.len() ==> #[trigger] b@[k].0 <= b@[k].1 <= chars@.len(),
{
    let n = chars.len();
    let mut bounds: Vec<(usize, usize)> = Vec::new();
    let mut start: usize = 0;
    let mut i: usize = 0;
    assert(chars@.take(0) =~= Seq::<char>::empty());
    assert(cut(chars@, bounds@) =~= Seq::<Seq<char>>::empty());
    assert(cut(chars@, bounds@).push(chars@.subrange(0, 0)) =~= split_fields(chars@.take(0)));
    while i < n
        invariant
            n == chars@.len(),
            start <= i <= n,
            cut(chars@, bounds@).push(chars@.subrange(start as int, i as int)) == split_fields(
                chars@.take(i as int),
            ),
            forall|k: int| 0 <= k < bounds@.len() ==> #[trigger] bounds@[k].0 <= bounds@[k].1 <= n,
        decreases n - i,
    {
        let c = chars[i];
        let ghost before = chars@.take(i as int);
        let ghost old_cut = cut(chars@, bounds@);
        assert(chars@.take(i + 1).drop_last() =~= before);
        assert(chars@.take(i + 1).last() == c);
        if c == '-' || c == '.' {
            bounds.push((start, i));
            assert(cut(chars@, bounds@) =~= old_cut.push(chars@.subrange(start as int, i as int)));
            start = i + 1;
            assert(chars@.subrange(start as int, start as int) =~= Seq::<char>::empty());
        } else {
            assert(chars@.subrange(start as int, i + 1) =~= chars@.subrange(
                start as int,
                i as int,
            ).push(c));
            assert(old_cut.push(chars@.subrange(start as int, i + 1)) =~= old_cut.push(
                chars@.subrange(start as int, i as int),
            ).update(old_cut.len() as int, chars@.subrange(start as int, i as int).push(c)));
        }
        i = i + 1;
    }
    let ghost old_cut = cut(chars@, bounds@);
    bounds.push((start, n));
    assert(cut(chars@, bounds@) =~= old_cut.push(chars@.subrange(start as int, n as int)));
    assert(chars@.take(n as int) =~= chars@);
    bounds
}

/// Bounds of `chars[lo..hi]` with the white space at both ends left out.
pub(crate) fn trim_bounds(chars: &Vec<char>, lo: usize, hi: usize) -> (r: (usize, usize))
    requires
        lo <= hi <= chars@.len(),
    ensures
        lo <= r.0 <= r.1 <= hi,
        chars@.subrange(r.0 as int, r.1 as int) == trim(chars@.subrange(lo as int, hi as int)),
{
    let mut a = lo;
    while a < hi && is_white_space_char(chars[a])
        invariant
            lo <= a <= hi <= chars@.len(),
            trim_start(chars@.subrange(lo as int, hi as int)) == trim_start(
                chars@.subrange(a as int, hi as int),
            ),
        decreases hi - a,
    {
        assert(chars@.subrange(a as int, hi as int).drop_first() =~= chars@.subrange(
            a + 1,
            hi as int,
        ));
        a = a + 1;
    }
    assert(trim_start(chars@.subrange(a as int, hi as int)) == chars@.subrange(a as int, hi as int));
    let mut b = hi;
    while b > a && is_white_space_char(chars[b - 1])
        invariant
            a <= b <= hi <= chars@.len(),
            trim_end(chars@.subrange(a as int, hi as int)) == trim_end(
                chars@.subrange(a as int, b as int),
            ),
        decreases b - a,
    {
        assert(chars@.subrange(a as int, b as int).drop_last() =~= chars@.subrange(
            a as int,
            b - 1,
        ));
        b = b - 1;
    }
    (a, b)
}

/// Reads `chars[lo..hi]` as a `u32` (see [`parse_u32`]).
pub(crate) fn parse_u32_at(chars: &Vec<char>, lo: usize, hi: usize) -> (r: Option<u32>)
    requires
        lo <= hi <= chars@.len(),
    ensures
        r == parse_u32(chars@.subrange(lo as int, hi as int)),
{
    let ghost s = chars@.subrange(lo as int, hi as int);
    let mut start = lo;
    if lo < hi && chars[lo] == '+' {
        start = lo + 1;
        assert(s.drop_first() =~= chars@.subrange(start as int, hi as int));
    }
    let ghost d = chars@.subrange(start as int, hi as int);
    assert(d == (if s.len() > 0 && s[0] == '+' { s.drop_first() } else { s }));
    if start == hi {
        return None;
    }
    let mut acc: u64 = 0;
    let mut i = start;
    assert(chars@.subrange(start as int, start as int) =~= Seq::<char>::empty());
    while i < hi
        invariant
            lo <= start <= i <= hi <= chars@.len(),
            d == chars@.subrange(start as int, hi as int),
            d.len() > 0,
            s == chars@.subrange(lo as int, hi as int),
            d == (if s.len() > 0 && s[0] == '+' { s.drop_first() } else { s }),
            acc == decimal_value(chars@.subrange(start as int, i as int)),
            all_digits(chars@.subrange(start as int, i as int)),
            acc <= u32::MAX,
        decreases hi - i,
    {
        let c = chars[i];
        let ghost k = i - start;
        assert(d[k] == c);
        if !('0' <= c && c <= '9') {
            assert(!is_digit(d[k]));
            return None;
        }
        let digit = (c as u32 - '0' as u32) as u64;
        acc = acc * 10 + digit;
        let ghost next = chars@.subrange(start as int, i + 1);
        assert(next.drop_last() =~= chars@.subrange(start as int, i as int));
        assert(next =~= d.take(k + 1));
        if acc > u32::MAX as u64 {
            proof {
                if all_digits(d) {
                    lemma_decimal_value_prefix(d, k + 1);
                }
            }
            return None;
        }
        i = i + 1;
    }
    assert(chars@.subrange(start as int, hi as int) =~= d);
    Some(acc as u32)
}

/// Appends one character to a string.
///
/// Calls `String::push`, whose documentation says it appends the given `char`
/// to the end of the `String`; that is all this contract claims.
#[verifier::external_body]
pub(crate) fn push_char(out: &mut String, c: char)
    ensures
        final(out)@ == old(out)@.push(c),
{
    out.push(c)
}

/// Appends a string slice to a string.
pub(crate) fn push_str(out: &mut String, s: &str)
    ensures
        final(out)@ == old(out)@ + s@,
{
    out.append(s);
}

/// Appends the decimal rendering of `n` to `out`.
pub(crate) fn push_decimal(out: &mut String, n: u64)
    ensures
        final(out)@ == old(out)@ + decimal_text(n as nat),
    decreases n,
{
    let ghost start = out@;
    if n >= 10 {
        push_decimal(out, n / 10);
    }
    let d = (n % 10) as u8;
    let c = (48u8 + d) as char;
    assert(c == digit_char((n % 10) as nat));
    push_char(out, c);
    assert(out@ =~= start + decimal_text(n as nat));
}

} // verus!
