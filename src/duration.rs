//! Carrying addition of textual `HH:MM:SS` durations.
use vstd::prelude::*;

verus! {

/// Largest value a single duration field may hold; larger fields read as zero.
pub const FIELD_MAX: u64 = 9223372036854775807;

pub open spec fn is_digit(c: char) -> bool {
    '0' <= c && c <= '9'
}

pub open spec fn digit_of(c: char) -> nat {
    (c as nat - '0' as nat) as nat
}

pub open spec fn digit_char(d: nat) -> char {
    if d == 0 { '0' } else if d == 1 { '1' } else if d == 2 { '2' } else if d == 3 { '3' }
    else if d == 4 { '4' } else if d == 5 { '5' } else if d == 6 { '6' } else if d == 7 { '7' }
    else if d == 8 { '8' } else { '9' }
}

/// A non-empty run of ASCII digits.
pub open spec fn is_numeral(f: Seq<char>) -> bool {
    f.len() > 0 && forall|i: int| 0 <= i < f.len() ==> is_digit(#[trigger] f[i])
}

/// Decimal value of a run of digits.
pub open spec fn digits_value(f: Seq<char>) -> nat
    decreases f.len(),
{
    if f.len() == 0 {
        0
    } else {
        digits_value(f.drop_last()) * 10 + digit_of(f.last())
    }
}

/// Lenient reading of one field: a numeral within `FIELD_MAX`, anything else is zero.
pub open spec fn field_value(f: Seq<char>) -> nat {
    if is_numeral(f) && digits_value(f) <= FIELD_MAX as nat {
        digits_value(f)
    } else {
        0
    }
}

/// The last three `:`-separated fields of `s` (hours, minutes, seconds);
/// absent fields are empty.
pub open spec fn last_fields(s: Seq<char>) -> (Seq<char>, Seq<char>, Seq<char>)
    decreases s.len(),
{
    if s.len() == 0 {
        (Seq::empty(), Seq::empty(), Seq::empty())
    } else {
        let (a, b, c) = last_fields(s.drop_last());
        if s.last() == ':' {
            (b, c, Seq::empty())
        } else {
            (a, b, c.push(s.last()))
        }
    }
}

/// Hours, minutes and seconds as read from a duration string.
pub open spec fn hms(s: Seq<char>) -> (nat, nat, nat) {
    let (a, b, c) = last_fields(s);
    (field_value(a), field_value(b), field_value(c))
}

/// Decimal digits of `n`, without leading zeros.
pub open spec fn decimal(n: nat) -> Seq<char>
    decreases n,
{
    if n < 10 {
        seq![digit_char(n)]
    } else {
        decimal(n / 10).push(digit_char(n % 10))
    }
}

/// `n` zero-padded to at least two digits.
pub open spec fn pad2(n: nat) -> Seq<char> {
    if n < 10 {
        seq!['0', digit_char(n)]
    } else {
        decimal(n)
    }
}

/// The canonical text `HH:MM:SS` of three field values.
pub open spec fn fmt_hms(h: nat, m: nat, s: nat) -> Seq<char> {
    pad2(h) + seq![':'] + pad2(m) + seq![':'] + pad2(s)
}

/// Carrying addition: seconds carry into minutes, minutes into hours, hours
/// grow without bound.
pub open spec fn add_spec(a: Seq<char>, b: Seq<char>) -> Seq<char> {
    let (ha, ma, sa) = hms(a);
    let (hb, mb, sb) = hms(b);
    let s = sa + sb;
    let m = ma + mb + s / 60;
    fmt_hms(ha + hb + m / 60, m % 60, s % 60)
}

/// Text of a count of seconds.
pub open spec fn seconds_text(e: nat) -> Seq<char> {
    fmt_hms(e / 3600, (e / 60) % 60, e % 60)
}

/// Relies on String::push: appends one character.
#[verifier::external_body]
pub(crate) fn push_char(s: &mut String, c: char)
    ensures
        final(s)@ == old(s)@.push(c),
{
    s.push(c)
}

fn digit_to_char(d: u128) -> (c: char)
    requires
        d < 10,
    ensures
        c == digit_char(d as nat),
{
    if d == 0 { '0' } else if d == 1 { '1' } else if d == 2 { '2' } else if d == 3 { '3' }
    else if d == 4 { '4' } else if d == 5 { '5' } else if d == 6 { '6' } else if d == 7 { '7' }
    else if d == 8 { '8' } else { '9' }
}

fn write_decimal(out: &mut String, n: u128)
    ensures
        final(out)@ == old(out)@ + decimal(n as nat),
    decreases n,
{
    if n < 10 {
        push_char(out, digit_to_char(n));
        assert(final(out)@ =~= old(out)@ + decimal(n as nat));
    } else {
        write_decimal(out, n / 10);
        push_char(out, digit_to_char(n % 10));
        assert(final(out)@ =~= old(out)@ + decimal(n as nat));
    }
}

pub(crate) fn write_pad2(out: &mut String, n: u128)
    ensures
        final(out)@ == old(out)@ + pad2(n as nat),
{
    if n < 10 {
        push_char(out, '0');
        push_char(out, digit_to_char(n));
        assert(final(out)@ =~= old(out)@ + pad2(n as nat));
    } else {
        write_decimal(out, n);
    }
}

/// Formats three field values as `HH:MM:SS`.
pub fn format_fields(h: u128, m: u128, s: u128) -> (r: String)
    ensures
        r@ == fmt_hms(h as nat, m as nat, s as nat),
{
    let mut out = String::new();
    write_pad2(&mut out, h);
    push_char(&mut out, ':');
    write_pad2(&mut out, m);
    push_char(&mut out, ':');
    write_pad2(&mut out, s);
    assert(out@ =~= fmt_hms(h as nat, m as nat, s as nat));
    out
}

/// Formats a count of seconds as `HH:MM:SS` (hours zero-padded to at least two digits).
pub fn format_seconds(e: u64) -> (r: String)
    ensures
        r@ == seconds_text(e as nat),
{
    format_fields((e / 3600) as u128, ((e / 60) % 60) as u128, (e % 60) as u128)
}

proof fn lemma_digits_value_grows(f: Seq<char>, c: char)
    requires
        is_digit(c),
    ensures
        digits_value(f.push(c)) >= digits_value(f),
        digits_value(f.push(c)) == digits_value(f) * 10 + digit_of(c),
{
    assert(f.push(c).drop_last() =~= f);
}

/// Reads the field `s[lo..hi]` leniently.
fn read_field(s: &str, lo: usize, hi: usize) -> (r: u64)
    requires
        lo <= hi <= s@.len(),
    ensures
        r as nat == field_value(s@.subrange(lo as int, hi as int)),
{
    let mut ok: bool = lo < hi;
    let mut val: u64 = 0;
    let mut i: usize = lo;
    while i < hi
        invariant
            lo <= i <= hi <= s@.len(),
            ok ==> lo < hi,
            ok ==> (forall|k: int| lo <= k < i ==> is_digit(#[trigger] s@[k]))
                && digits_value(s@.subrange(lo as int, i as int)) == val as nat
                && val <= FIELD_MAX,
            !ok ==> lo == hi || !(forall|k: int| lo <= k < i ==> is_digit(#[trigger] s@[k]))
                || digits_value(s@.subrange(lo as int, i as int)) > FIELD_MAX as nat,
        decreases hi - i,
    {
        let c = s.get_char(i);
        proof {
            assert(s@.subrange(lo as int, i + 1) =~= s@.subrange(lo as int, i as int).push(c));
        }
        if ok {
            if '0' <= c && c <= '9' {
                proof { lemma_digits_value_grows(s@.subrange(lo as int, i as int), c); }
                let d: u64 = (c as u32 - '0' as u32) as u64;
                if val <= (FIELD_MAX - d) / 10 {
                    val = val * 10 + d;
                } else {
                    ok = false;
                }
            } else {
                ok = false;
            }
        } else if '0' <= c && c <= '9' {
            proof { lemma_digits_value_grows(s@.subrange(lo as int, i as int), c); }
        }
        i = i + 1;
    }
    let ghost f = s@.subrange(lo as int, hi as int);
    if ok {
        assert(is_numeral(f)) by {
            assert forall|k: int| 0 <= k < f.len() implies is_digit(#[trigger] f[k]) by {
                assert(f[k] == s@[k + lo]);
            }
        }
        val
    } else {
        assert(!is_numeral(f) || digits_value(f) > FIELD_MAX as nat) by {
            if lo < hi && is_numeral(f) {
                assert forall|k: int| lo <= k < hi implies is_digit(#[trigger] s@[k]) by {
                    assert(f[k - lo] == s@[k]);
                }
            }
        }
        0
    }
}

/// Reads hours, minutes and seconds from a duration string.
pub fn read_hms(s: &str) -> (r: (u64, u64, u64))
    ensures
        (r.0 as nat, r.1 as nat, r.2 as nat) == hms(s@),
{
    let n = s.unicode_len();
    let mut a: (usize, usize) = (0, 0);
    let mut b: (usize, usize) = (0, 0);
    let mut c0: usize = 0;
    let mut i: usize = 0;
    while i < n
        invariant
            n == s@.len(),
            i <= n,
            a.0 <= a.1 <= n, b.0 <= b.1 <= n, c0 <= i,
            last_fields(s@.subrange(0, i as int)) == (
                s@.subrange(a.0 as int, a.1 as int),
                s@.subrange(b.0 as int, b.1 as int),
                s@.subrange(c0 as int, i as int),
            ),
        decreases n - i,
    {
        let ch = s.get_char(i);
        proof {
            let t = s@.subrange(0, i + 1);
            assert(t.drop_last() =~= s@.subrange(0, i as int));
            assert(t.last() == ch);
            assert(s@.subrange(c0 as int, i + 1) =~= s@.subrange(c0 as int, i as int).push(ch));
            assert(s@.subrange(i + 1, i + 1) =~= Seq::<char>::empty());
        }
        if ch == ':' {
            a = b;
            b = (c0, i);
            c0 = i + 1;
        }
        i = i + 1;
    }
    assert(s@.subrange(0, n as int) =~= s@);
    (read_field(s, a.0, a.1), read_field(s, b.0, b.1), read_field(s, c0, n))
}

/// Adds two durations with carry; malformed fields count as zero.
pub fn add_durations(a: &str, b: &str) -> (r: String)
    ensures
        r@ == add_spec(a@, b@),
{
    let (ha, ma, sa) = read_hms(a);
    let (hb, mb, sb) = read_hms(b);
    let s: u128 = sa as u128 + sb as u128;
    let m: u128 = ma as u128 + mb as u128 + s / 60;
    let h: u128 = ha as u128 + hb as u128 + m / 60;
    format_fields(h, m % 60, s % 60)
}

} // verus!
