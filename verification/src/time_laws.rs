//! Laws of times as they are written.
use vstd::prelude::*;

use crate::text;
use crate::time;

verus! {

/// The first nanosecond after the Unix epoch whose year has five digits.
pub const YEAR_10000: u128 = 253_402_300_800_000_000_000;

/// How many milliseconds after the Unix epoch the time is that an RFC 3339 text in UTC writes.
pub open spec fn millis_read(t: Seq<char>) -> int {
    let days = time::days_since_epoch(
        text::digits_value(t.subrange(0, 4)) as int,
        text::digits_value(t.subrange(5, 7)) as int,
        text::digits_value(t.subrange(8, 10)) as int,
    );
    let hours = text::digits_value(t.subrange(11, 13)) as int;
    let minutes = text::digits_value(t.subrange(14, 16)) as int;
    let seconds = text::digits_value(t.subrange(17, 19)) as int;
    let millis = text::digits_value(t.subrange(20, 23)) as int;
    (((days * 24 + hours) * 60 + minutes) * 60 + seconds) * 1_000 + millis
}

/// A number of at most this many digits is padded to as many, and reads back.
proof fn lemma_padded(n: nat, width: nat)
    requires
        1 <= width <= 4,
        width == 1 ==> n < 10,
        width == 2 ==> n < 100,
        width == 3 ==> n < 1_000,
        width == 4 ==> n < 10_000,
    ensures
        text::padded(n, width).len() == width,
        text::digits_value(text::padded(n, width)) == n,
    decreases width,
{
    let p = text::padded(n, width);
    if width == 1 {
        assert(text::decimal(n) =~= seq![text::digit(n)]);
        text::lemma_decimal_value(n);
    } else {
        text::lemma_padded_step(n, width);
        lemma_padded(n / 10, (width - 1) as nat);
        assert(p.drop_last() =~= text::padded(n / 10, (width - 1) as nat));
        assert(p.last() == text::digit(n % 10));
    }
}

/// Of two numbers padded to the same width the smaller one comes first.
proof fn lemma_padded_in_order(a: nat, b: nat, width: nat) -> (i: int)
    requires
        a < b,
        1 <= width,
        text::padded(a, width).len() == width,
        text::padded(b, width).len() == width,
    ensures
        text::parts_at(text::padded(a, width), text::padded(b, width), i),
        i < width,
    decreases width,
{
    let pa = text::padded(a, width);
    let pb = text::padded(b, width);
    if width == 1 {
        text::lemma_decimal_value(b / 10);
        assert(b < 10);
        assert(pa =~= seq![text::digit(a)]);
        assert(pb =~= seq![text::digit(b)]);
        0
    } else {
        text::lemma_padded_step(a, width);
        text::lemma_padded_step(b, width);
        let w1: nat = (width - 1) as nat;
        if a / 10 < b / 10 {
            let i = lemma_padded_in_order(a / 10, b / 10, w1);
            assert(pa[i] == text::padded(a / 10, w1)[i]);
            assert(pb[i] == text::padded(b / 10, w1)[i]);
            i
        } else {
            assert(a / 10 == b / 10);
            assert(a % 10 < b % 10);
            w1 as int
        }
    }
}

/// Of two texts that agree up to a number, the one with the smaller number comes first.
proof fn lemma_earlier_number(
    front: Seq<char>,
    a: nat,
    b: nat,
    width: nat,
    back_a: Seq<char>,
    back_b: Seq<char>,
)
    requires
        a < b,
        1 <= width,
        text::padded(a, width).len() == width,
        text::padded(b, width).len() == width,
    ensures
        text::precedes(
            front + text::padded(a, width) + back_a,
            front + text::padded(b, width) + back_b,
        ),
{
    let i = lemma_padded_in_order(a, b, width);
    let x = front + text::padded(a, width) + back_a;
    let y = front + text::padded(b, width) + back_b;
    let at = front.len() + i;
    assert forall|j: int| 0 <= j < at implies x[j] == y[j] by {
        if j >= front.len() {
            assert(x[j] == text::padded(a, width)[j - front.len()]);
            assert(y[j] == text::padded(b, width)[j - front.len()]);
        }
    }
    assert(x[at] == text::padded(a, width)[i]);
    assert(y[at] == text::padded(b, width)[i]);
    assert(text::parts_at(x, y, at));
}

/// The fields of an RFC 3339 text have their widths, and the year four digits.
proof fn lemma_fields(y: nat, m: nat, d: nat, nanos: int)
    requires
        0 <= nanos < YEAR_10000,
        time::is_date(y as int, m as int, d as int),
        time::days_since_epoch(y as int, m as int, d as int) == nanos / 86_400_000_000_000,
    ensures
        ({
            let s = (nanos / 1_000_000_000 % 86_400) as nat;
            let ms = (nanos / 1_000_000 % 1_000) as nat;
            &&& y < 10_000
            &&& text::padded(y, 4).len() == 4
            &&& text::padded(m, 2).len() == 2
            &&& text::padded(d, 2).len() == 2
            &&& text::padded(s / 3600, 2).len() == 2
            &&& text::padded(s / 60 % 60, 2).len() == 2
            &&& text::padded(s % 60, 2).len() == 2
            &&& text::padded(ms, 3).len() == 3
            &&& text::digits_value(text::padded(y, 4)) == y
            &&& text::digits_value(text::padded(m, 2)) == m
            &&& text::digits_value(text::padded(d, 2)) == d
            &&& text::digits_value(text::padded(s / 3600, 2)) == s / 3600
            &&& text::digits_value(text::padded(s / 60 % 60, 2)) == s / 60 % 60
            &&& text::digits_value(text::padded(s % 60, 2)) == s % 60
            &&& text::digits_value(text::padded(ms, 3)) == ms
        }),
{
    let s = (nanos / 1_000_000_000 % 86_400) as nat;
    let ms = (nanos / 1_000_000 % 1_000) as nat;
    assert(y < 10_000) by {
        time::lemma_days_before_year(y as int);
        lemma_days_before_month_from_zero(y as int, m as int);
        assert(nanos / 86_400_000_000_000 < 2_932_897);
    }
    lemma_padded(y, 4);
    lemma_padded(m, 2);
    lemma_padded(d, 2);
    lemma_padded(s / 3600, 2);
    lemma_padded(s / 60 % 60, 2);
    lemma_padded(s % 60, 2);
    lemma_padded(ms, 3);
}

/// No month starts before its year.
proof fn lemma_days_before_month_from_zero(y: int, m: int)
    ensures
        time::days_before_month(y, m) >= 0,
    decreases m,
{
    if m > 1 {
        lemma_days_before_month_from_zero(y, m - 1);
    }
}

/// The days, the second of the day and the millisecond of a time make up its milliseconds.
#[verifier::spinoff_prover]
proof fn lemma_millis(nanos: int)
    requires
        nanos >= 0,
    ensures
        ({
            let s = nanos / 1_000_000_000 % 86_400;
            let h = s / 3600;
            let mi = s / 60 % 60;
            &&& (((nanos / 86_400_000_000_000 * 24 + h) * 60 + mi) * 60 + s % 60) * 1_000 + nanos
                / 1_000_000 % 1_000 == nanos / 1_000_000
        }),
{
    vstd::arithmetic::div_mod::lemma_div_denominator(nanos, 1_000_000_000, 86_400);
    vstd::arithmetic::div_mod::lemma_div_denominator(nanos, 1_000_000, 1_000);
    let q = nanos / 1_000_000_000;
    let s = q % 86_400;
    assert(s / 60 / 60 == s / 3600) by {
        vstd::arithmetic::div_mod::lemma_div_denominator(s, 60, 60);
    }
    assert(s == s / 3600 * 3600 + s / 60 % 60 * 60 + s % 60);
    assert(q == q / 86_400 * 86_400 + s);
    assert(nanos / 1_000_000 == q * 1_000 + nanos / 1_000_000 % 1_000);
}

/// The RFC 3339 text of a time before the year 10000 has 29 characters, ends in `+00:00` and reads
/// back as the time, to the millisecond.
pub proof fn law_rfc3339_reads_back(t: Seq<char>, nanos: int)
    requires
        0 <= nanos < YEAR_10000,
        time::is_rfc3339_of(t, nanos),
    ensures
        t.len() == 29,
        t.subrange(23, 29) == "+00:00"@,
        millis_read(t) == nanos / 1_000_000,
{
    let s = (nanos / 1_000_000_000 % 86_400) as nat;
    let ms = (nanos / 1_000_000 % 1_000) as nat;
    let (y, m, d) = choose|y: nat, m: nat, d: nat|
        time::is_date(y as int, m as int, d as int) && time::days_since_epoch(
            y as int,
            m as int,
            d as int,
        ) == nanos / 86_400_000_000_000 && t == #[trigger] time::rfc3339_text(y, m, d, s, ms);
    lemma_fields(y, m, d, nanos);
    lemma_millis(nanos);
    reveal_strlit("+00:00");
    assert(t.subrange(0, 4) =~= text::padded(y, 4));
    assert(t.subrange(5, 7) =~= text::padded(m, 2));
    assert(t.subrange(8, 10) =~= text::padded(d, 2));
    assert(t.subrange(11, 13) =~= text::padded(s / 3600, 2));
    assert(t.subrange(14, 16) =~= text::padded(s / 60 % 60, 2));
    assert(t.subrange(17, 19) =~= text::padded(s % 60, 2));
    assert(t.subrange(20, 23) =~= text::padded(ms, 3));
    assert(t.subrange(23, 29) =~= "+00:00"@);
}

/// The RFC 3339 texts of two times before the year 10000 are in the order of the times: the same
/// where the times are in the same millisecond.
pub proof fn law_rfc3339_texts_in_order(t1: Seq<char>, nanos1: int, t2: Seq<char>, nanos2: int)
    requires
        0 <= nanos1 <= nanos2 < YEAR_10000,
        time::is_rfc3339_of(t1, nanos1),
        time::is_rfc3339_of(t2, nanos2),
    ensures
        if nanos1 / 1_000_000 == nanos2 / 1_000_000 {
            t1 == t2
        } else {
            text::precedes(t1, t2)
        },
{
    let s1 = (nanos1 / 1_000_000_000 % 86_400) as nat;
    let ms1 = (nanos1 / 1_000_000 % 1_000) as nat;
    let s2 = (nanos2 / 1_000_000_000 % 86_400) as nat;
    let ms2 = (nanos2 / 1_000_000 % 1_000) as nat;
    let (y1, m1, d1) = choose|y: nat, m: nat, d: nat|
        time::is_date(y as int, m as int, d as int) && time::days_since_epoch(
            y as int,
            m as int,
            d as int,
        ) == nanos1 / 86_400_000_000_000 && t1 == #[trigger] time::rfc3339_text(y, m, d, s1, ms1);
    let (y2, m2, d2) = choose|y: nat, m: nat, d: nat|
        time::is_date(y as int, m as int, d as int) && time::days_since_epoch(
            y as int,
            m as int,
            d as int,
        ) == nanos2 / 86_400_000_000_000 && t2 == #[trigger] time::rfc3339_text(y, m, d, s2, ms2);
    lemma_fields(y1, m1, d1, nanos1);
    lemma_fields(y2, m2, d2, nanos2);
    lemma_millis(nanos1);
    lemma_millis(nanos2);
    lemma_days_in_order(y1, m1, d1, nanos1, y2, m2, d2, nanos2);
    let dash = seq!['-'];
    let colon = seq![':'];
    let date1 = text::padded(y1, 4) + dash + text::padded(m1, 2) + dash + text::padded(d1, 2) + seq![
        'T',
    ];
    let hour1 = date1 + text::padded(s1 / 3600, 2) + colon;
    let minute1 = hour1 + text::padded(s1 / 60 % 60, 2) + colon;
    let second1 = minute1 + text::padded(s1 % 60, 2) + seq!['.'];
    if y1 != y2 {
        lemma_earlier_number(Seq::empty(), y1, y2, 4, t1.skip(4), t2.skip(4));
        assert(Seq::<char>::empty() + text::padded(y1, 4) + t1.skip(4) =~= t1);
        assert(Seq::<char>::empty() + text::padded(y2, 4) + t2.skip(4) =~= t2);
    } else if m1 != m2 {
        let front = text::padded(y1, 4) + dash;
        lemma_earlier_number(front, m1, m2, 2, t1.skip(7), t2.skip(7));
        assert(front + text::padded(m1, 2) + t1.skip(7) =~= t1);
        assert(front + text::padded(m2, 2) + t2.skip(7) =~= t2);
    } else if d1 != d2 {
        let front = text::padded(y1, 4) + dash + text::padded(m1, 2) + dash;
        lemma_earlier_number(front, d1, d2, 2, t1.skip(10), t2.skip(10));
        assert(front + text::padded(d1, 2) + t1.skip(10) =~= t1);
        assert(front + text::padded(d2, 2) + t2.skip(10) =~= t2);
    } else if s1 / 3600 != s2 / 3600 {
        lemma_earlier_number(date1, s1 / 3600, s2 / 3600, 2, t1.skip(13), t2.skip(13));
        assert(date1 + text::padded(s1 / 3600, 2) + t1.skip(13) =~= t1);
        assert(date1 + text::padded(s2 / 3600, 2) + t2.skip(13) =~= t2);
    } else if s1 / 60 % 60 != s2 / 60 % 60 {
        lemma_earlier_number(hour1, s1 / 60 % 60, s2 / 60 % 60, 2, t1.skip(16), t2.skip(16));
        assert(hour1 + text::padded(s1 / 60 % 60, 2) + t1.skip(16) =~= t1);
        assert(hour1 + text::padded(s2 / 60 % 60, 2) + t2.skip(16) =~= t2);
    } else if s1 % 60 != s2 % 60 {
        lemma_earlier_number(minute1, s1 % 60, s2 % 60, 2, t1.skip(19), t2.skip(19));
        assert(minute1 + text::padded(s1 % 60, 2) + t1.skip(19) =~= t1);
        assert(minute1 + text::padded(s2 % 60, 2) + t2.skip(19) =~= t2);
    } else if ms1 != ms2 {
        lemma_earlier_number(second1, ms1, ms2, 3, t1.skip(23), t2.skip(23));
        assert(second1 + text::padded(ms1, 3) + t1.skip(23) =~= t1);
        assert(second1 + text::padded(ms2, 3) + t2.skip(23) =~= t2);
    }
}

/// The date of an earlier time is no later, and on the same day the time of day is no later.
proof fn lemma_days_in_order(
    y1: nat,
    m1: nat,
    d1: nat,
    nanos1: int,
    y2: nat,
    m2: nat,
    d2: nat,
    nanos2: int,
)
    requires
        0 <= nanos1 <= nanos2,
        time::is_date(y1 as int, m1 as int, d1 as int),
        time::is_date(y2 as int, m2 as int, d2 as int),
        time::days_since_epoch(y1 as int, m1 as int, d1 as int) == nanos1 / 86_400_000_000_000,
        time::days_since_epoch(y2 as int, m2 as int, d2 as int) == nanos2 / 86_400_000_000_000,
    ensures
        y1 <= y2,
        y1 == y2 ==> m1 <= m2,
        y1 == y2 && m1 == m2 ==> d1 <= d2,
        nanos1 / 1_000_000 == nanos2 / 1_000_000 ==> y1 == y2 && m1 == m2 && d1 == d2,
{
    let (a1, b1, c1) = (y1 as int, m1 as int, d1 as int);
    let (a2, b2, c2) = (y2 as int, m2 as int, d2 as int);
    assert(nanos1 / 86_400_000_000_000 <= nanos2 / 86_400_000_000_000);
    if a2 < a1 || (a1 == a2 && (b2 < b1 || (b1 == b2 && c2 < c1))) {
        time::law_dates_in_order(a2, b2, c2, a1, b1, c1);
    }
    if nanos1 / 1_000_000 == nanos2 / 1_000_000 {
        vstd::arithmetic::div_mod::lemma_div_denominator(nanos1, 1_000_000, 86_400_000);
        vstd::arithmetic::div_mod::lemma_div_denominator(nanos2, 1_000_000, 86_400_000);
        time::law_one_date_per_day(a1, b1, c1, a2, b2, c2);
    }
}

} // verus!
