//! Algebraic laws of duration addition.
use vstd::prelude::*;
use crate::duration::{
    add_spec, decimal, digit_char, digit_of, digits_value, field_value, fmt_hms, hms, is_digit,
    is_numeral, last_fields, pad2, FIELD_MAX,
};

verus! {

/// A canonical duration: minutes and seconds below sixty.
pub open spec fn is_canonical(x: Seq<char>) -> bool {
    hms(x).1 < 60 && hms(x).2 < 60
}

/// The canonical text of a duration: seconds and minutes carried upwards.
pub open spec fn normalize(x: Seq<char>) -> Seq<char> {
    let (h, m, s) = hms(x);
    let mm = m + s / 60;
    fmt_hms(h + mm / 60, mm % 60, s % 60)
}

proof fn lemma_digit_char(d: nat)
    requires
        d < 10,
    ensures
        is_digit(digit_char(d)),
        digit_of(digit_char(d)) == d,
{
}

proof fn lemma_decimal(n: nat)
    ensures
        is_numeral(decimal(n)),
        digits_value(decimal(n)) == n,
    decreases n,
{
    lemma_digit_char(n % 10);
    if n >= 10 {
        lemma_decimal(n / 10);
        let d = decimal(n);
        assert(d.drop_last() == decimal(n / 10));
        assert(d.last() == digit_char(n % 10));
        assert(n == (n / 10) * 10 + n % 10);
        assert forall|i: int| 0 <= i < d.len() implies is_digit(#[trigger] d[i]) by {
            if i < d.len() - 1 {
                assert(d[i] == decimal(n / 10)[i]);
            }
        }
    } else {
        assert(decimal(n).drop_last() =~= Seq::<char>::empty());
        assert(digits_value(Seq::<char>::empty()) == 0);
        assert(decimal(n).last() == digit_char(n));
    }
}

proof fn lemma_leading_zero(x: Seq<char>)
    ensures
        digits_value(seq!['0'] + x) == digits_value(x),
    decreases x.len(),
{
    if x.len() == 0 {
        assert((seq!['0'] + x).drop_last() =~= Seq::<char>::empty());
        assert(digits_value(Seq::<char>::empty()) == 0);
        assert((seq!['0'] + x).last() == '0');
        assert(digit_of('0') == 0);
    } else {
        lemma_leading_zero(x.drop_last());
        assert((seq!['0'] + x).drop_last() =~= seq!['0'] + x.drop_last());
        assert((seq!['0'] + x).last() == x.last());
    }
}

proof fn lemma_pad2(n: nat)
    ensures
        is_numeral(pad2(n)),
        digits_value(pad2(n)) == n,
{
    lemma_decimal(n);
    if n < 10 {
        lemma_digit_char(n);
        assert(pad2(n) =~= seq!['0'] + decimal(n));
        lemma_leading_zero(decimal(n));
    }
}

proof fn lemma_last_fields_append(p: Seq<char>, c: Seq<char>)
    requires
        forall|i: int| 0 <= i < c.len() ==> #[trigger] c[i] != ':',
    ensures
        last_fields(p + c) == (last_fields(p).0, last_fields(p).1, last_fields(p).2 + c),
    decreases c.len(),
{
    if c.len() == 0 {
        assert(p + c =~= p);
        assert(last_fields(p).2 + c =~= last_fields(p).2);
    } else {
        lemma_last_fields_append(p, c.drop_last());
        assert((p + c).drop_last() =~= p + c.drop_last());
        assert(last_fields(p).2 + c =~= (last_fields(p).2 + c.drop_last()).push(c.last()));
    }
}

proof fn lemma_last_fields_colon(p: Seq<char>)
    ensures
        last_fields(p.push(':')) == (last_fields(p).1, last_fields(p).2, Seq::<char>::empty()),
{
    assert(p.push(':').drop_last() =~= p);
}

proof fn lemma_no_colon(n: nat)
    ensures
        forall|i: int| 0 <= i < pad2(n).len() ==> #[trigger] pad2(n)[i] != ':',
{
    lemma_pad2(n);
}

/// Reading back a formatted duration gives its fields.
pub proof fn lemma_hms_fmt(h: nat, m: nat, s: nat)
    requires
        h <= FIELD_MAX as nat,
        m <= FIELD_MAX as nat,
        s <= FIELD_MAX as nat,
    ensures
        hms(fmt_hms(h, m, s)) == (h, m, s),
{
    let (a, b, c) = (pad2(h), pad2(m), pad2(s));
    lemma_pad2(h);
    lemma_pad2(m);
    lemma_pad2(s);
    lemma_no_colon(h);
    lemma_no_colon(m);
    lemma_no_colon(s);
    let e = Seq::<char>::empty();
    assert(last_fields(e) == (e, e, e));
    lemma_last_fields_append(e, a);
    assert(e + a =~= a);
    lemma_last_fields_colon(a);
    lemma_last_fields_append(a.push(':'), b);
    assert(e + b =~= b);
    let ab = a.push(':') + b;
    lemma_last_fields_colon(ab);
    lemma_last_fields_append(ab.push(':'), c);
    assert(e + c =~= c);
    assert(fmt_hms(h, m, s) =~= ab.push(':') + c);
}

/// Addition of durations is commutative.
pub proof fn lemma_add_commutative(a: Seq<char>, b: Seq<char>)
    ensures
        add_spec(a, b) == add_spec(b, a),
{
}

/// Adding `00:00:00` normalizes a duration.
pub proof fn lemma_add_zero(x: Seq<char>)
    ensures
        add_spec(x, fmt_hms(0, 0, 0)) == normalize(x),
{
    lemma_hms_fmt(0, 0, 0);
}

/// One carrying step on fields below sixty.
pub open spec fn step(ha: nat, ma: nat, sa: nat, hb: nat, mb: nat, sb: nat) -> (nat, nat, nat) {
    let s = sa + sb;
    let m = ma + mb + s / 60;
    (ha + hb + m / 60, m % 60, s % 60)
}

proof fn lemma_step(ha: nat, ma: nat, sa: nat, hb: nat, mb: nat, sb: nat)
    requires
        ma < 60, sa < 60, mb < 60, sb < 60,
    ensures
        ({
            let cs: nat = if sa + sb >= 60 { 1 } else { 0 };
            let cm: nat = if ma + mb + cs >= 60 { 1 } else { 0 };
            step(ha, ma, sa, hb, mb, sb) == (ha + hb + cm, (ma + mb + cs - 60 * cm) as nat, (sa + sb - 60 * cs) as nat)
        }),
{
}

/// Addition of canonical durations is associative while the hours stay
/// within the readable range.
pub proof fn lemma_add_associative(a: Seq<char>, b: Seq<char>, c: Seq<char>)
    requires
        is_canonical(a),
        is_canonical(b),
        is_canonical(c),
        hms(a).0 + hms(b).0 + hms(c).0 + 2 <= FIELD_MAX as nat,
    ensures
        add_spec(add_spec(a, b), c) == add_spec(a, add_spec(b, c)),
{
    let (ha, ma, sa) = hms(a);
    let (hb, mb, sb) = hms(b);
    let (hc, mc, sc) = hms(c);
    let l = step(ha, ma, sa, hb, mb, sb);
    let r = step(hb, mb, sb, hc, mc, sc);
    lemma_step(ha, ma, sa, hb, mb, sb);
    lemma_step(hb, mb, sb, hc, mc, sc);
    lemma_step(l.0, l.1, l.2, hc, mc, sc);
    lemma_step(ha, ma, sa, r.0, r.1, r.2);
    lemma_hms_fmt(l.0, l.1, l.2);
    lemma_hms_fmt(r.0, r.1, r.2);
    assert(step(l.0, l.1, l.2, hc, mc, sc) == step(ha, ma, sa, r.0, r.1, r.2));
}

} // verus!
