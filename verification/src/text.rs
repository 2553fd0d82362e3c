//! Text building blocks: decimal numbers, trimming, prefixes and order.
use vstd::prelude::*;

verus! {

/// `String::push` appends the character at the end.
pub assume_specification[ String::push ](s: &mut String, c: char)
    ensures
        final(s)@ == old(s)@.push(c),
;

/// `String::push_str` appends all characters of the slice at the end.
pub assume_specification[ String::push_str ](s: &mut String, other: &str)
    ensures
        final(s)@ == old(s)@ + other@,
;

/// The character of a decimal digit.
pub open spec fn digit(d: nat) -> char {
    (48 + d) as char
}

/// The decimal digits of `n`, without leading zeros.
pub open spec fn decimal(n: nat) -> Seq<char>
    decreases n,
{
    if n < 10 {
        seq![digit(n)]
    } else {
        decimal(n / 10).push(digit(n % 10))
    }
}

/// The decimal digits of `n`, with zeros in front up to `width` characters.
pub open spec fn padded(n: nat, width: nat) -> Seq<char> {
    let digits = decimal(n);
    if digits.len() >= width {
        digits
    } else {
        Seq::new((width - digits.len()) as nat, |i: int| '0') + digits
    }
}

/// Appends the decimal digits of `n`.
pub fn push_decimal(out: &mut String, n: u64)
    ensures
        final(out)@ == old(out)@ + decimal(n as nat),
    decreases n,
{
    if n >= 10 {
        push_decimal(out, n / 10);
    }
    let d: u8 = 48u8 + (n % 10) as u8;
    out.push(d as char);
}

/// The decimal text of `n`.
pub fn decimal_string(n: u64) -> (s: String)
    ensures
        s@ == decimal(n as nat),
{
    let mut s = String::new();
    push_decimal(&mut s, n);
    s
}

/// Putting a digit behind a padded number pads to one character more.
pub proof fn lemma_padded_step(n: nat, width: nat)
    requires
        n >= 10 || width > 1,
    ensures
        padded(n, width) == padded(n / 10, if width > 0 { (width - 1) as nat } else { 0 }).push(
            digit(n % 10),
        ),
{
    let w1: nat = if width > 0 {
        (width - 1) as nat
    } else {
        0
    };
    if n < 10 {
        assert(n / 10 == 0);
        assert(n % 10 == n);
        assert(decimal(0) =~= seq!['0']);
        assert(decimal(n) =~= seq![digit(n)]);
        assert(padded(n, width) =~= padded(0, w1).push(digit(n)));
    } else {
        assert(padded(n, width) =~= padded(n / 10, w1).push(digit(n % 10)));
    }
}

/// Appends the decimal digits of `n` with zeros in front up to `width` characters.
pub fn push_padded(out: &mut String, n: u64, width: u32)
    ensures
        final(out)@ == old(out)@ + padded(n as nat, width as nat),
    decreases n, width,
{
    if n >= 10 || width > 1 {
        proof {
            lemma_padded_step(n as nat, width as nat);
        }
        push_padded(out, n / 10, width.saturating_sub(1));
    } else {
        assert(padded(n as nat, width as nat) =~= decimal(n as nat));
    }
    let d: u8 = 48u8 + (n % 10) as u8;
    out.push(d as char);
}

/// Whether the two texts are the same.
pub fn same_text(a: &str, b: &str) -> (same: bool)
    ensures
        same == (a@ == b@),
{
    a.to_owned() == b.to_owned()
}

/// The characters of a text.
pub fn chars_of(s: &str) -> (chars: Vec<char>)
    ensures
        chars@ == s@,
{
    let mut chars: Vec<char> = Vec::new();
    for c in it: s.chars()
        invariant
            chars@ == it.seq().take(it.index() as int),
            it.seq() == s@,
    {
        chars.push(c);
    }
    chars
}

/// Whether the text starts with the prefix.
pub fn starts_with(s: &str, prefix: &str) -> (b: bool)
    ensures
        b == prefix@.is_prefix_of(s@),
{
    let text = chars_of(s);
    let head = chars_of(prefix);
    if head.len() > text.len() {
        return false;
    }
    let mut i: usize = 0;
    while i < head.len()
        invariant
            i <= head.len() <= text.len(),
            text@ == s@,
            head@ == prefix@,
            forall|j: int| 0 <= j < i ==> head[j] == text[j],
        decreases head.len() - i,
    {
        if head[i] != text[i] {
            return false;
        }
        i += 1;
    }
    assert(prefix@ =~= s@.subrange(0, prefix@.len() as int));
    true
}

/// Whether the character is a decimal digit.
pub open spec fn is_digit(c: char) -> bool {
    '0' <= c && c <= '9'
}

/// Whether every character is a decimal digit.
pub open spec fn all_digits(s: Seq<char>) -> bool {
    forall|i: int| 0 <= i < s.len() ==> is_digit(s[i])
}

/// The number that a run of digits writes.
pub open spec fn digits_value(s: Seq<char>) -> nat
    decreases s.len(),
{
    if s.len() == 0 {
        0
    } else {
        digits_value(s.drop_last()) * 10 + (s.last() as nat - 48) as nat
    }
}

/// The number that a text writes: digits, with a plus sign in front or not, of a value that 64
/// bits can hold.
pub open spec fn number_read(s: Seq<char>) -> Option<nat> {
    let digits = if s.len() > 0 && s[0] == '+' {
        s.drop_first()
    } else {
        s
    };
    if digits.len() > 0 && all_digits(digits) && digits_value(digits) <= u64::MAX {
        Some(digits_value(digits))
    } else {
        None
    }
}

/// More digits write no smaller number.
proof fn lemma_digits_value_grows(s: Seq<char>, i: int)
    requires
        0 <= i <= s.len(),
    ensures
        digits_value(s.take(i)) <= digits_value(s),
    decreases s.len() - i,
{
    if i < s.len() {
        lemma_digits_value_grows(s, i + 1);
        assert(s.take(i + 1).drop_last() =~= s.take(i));
    } else {
        assert(s.take(i) =~= s);
    }
}

/// Reads a decimal number.
pub fn parse_number(s: &str) -> (n: Option<u64>)
    ensures
        match n {
            Some(n) => number_read(s@) == Some(n as nat),
            None => number_read(s@) is None,
        },
{
    let chars = chars_of(s);
    let len: usize = chars.len();
    let start: usize = if len > 0 && chars[0] == '+' {
        1
    } else {
        0
    };
    let ghost digits = s@.skip(start as int);
    assert(digits == (if s@.len() > 0 && s@[0] == '+' {
        s@.drop_first()
    } else {
        s@
    }));
    if start == len {
        return None;
    }
    let mut value: u64 = 0;
    let mut i: usize = start;
    while i < len
        invariant
            start <= i <= len,
            len == chars@.len(),
            chars@ == s@,
            digits == s@.skip(start as int),
            value == digits_value(digits.take(i - start)),
            forall|j: int| 0 <= j < i - start ==> is_digit(digits[j]),
            digits == (if s@.len() > 0 && s@[0] == '+' {
                s@.drop_first()
            } else {
                s@
            }),
        decreases len - i,
    {
        let c: char = chars[i];
        proof {
            assert(digits[i - start] == c);
            assert(digits.take(i - start + 1).drop_last() =~= digits.take(i - start));
            lemma_digits_value_grows(digits, i - start + 1);
        }
        if c < '0' || '9' < c {
            assert(!is_digit(digits[i - start]));
            return None;
        }
        let d: u64 = (c as u32 - 48) as u64;
        value = match value.checked_mul(10) {
            Some(tens) => match tens.checked_add(d) {
                Some(sum) => sum,
                None => {
                    return None;
                },
            },
            None => {
                return None;
            },
        };
        i += 1;
    }
    assert(digits.take(len - start) =~= digits);
    Some(value)
}

/// The decimal digits of a number write that number.
pub proof fn lemma_decimal_value(n: nat)
    ensures
        decimal(n).len() > 0,
        all_digits(decimal(n)),
        digits_value(decimal(n)) == n,
    decreases n,
{
    if n < 10 {
        assert(decimal(n).drop_last() =~= Seq::<char>::empty());
        assert(digits_value(Seq::<char>::empty()) == 0);
    } else {
        lemma_decimal_value(n / 10);
        assert(decimal(n).drop_last() =~= decimal(n / 10));
    }
}

/// The digits of a number count ones, tens and so on from the end, and the first one is zero only where
/// the number is.
pub proof fn law_decimal_counts_in_tens(n: nat)
    ensures
        n < 10 ==> decimal(n) == seq![(48 + n) as char],
        n >= 10 ==> decimal(n).len() == decimal(n / 10).len() + 1 && decimal(n).drop_last()
            == decimal(n / 10) && decimal(n).last() == (48 + n % 10) as char,
        n > 0 ==> decimal(n)[0] != '0',
    decreases n,
{
    if n >= 10 {
        law_decimal_counts_in_tens(n / 10);
        assert(decimal(n).drop_last() =~= decimal(n / 10));
        assert(decimal(n)[0] == decimal(n / 10)[0]);
    } else {
        assert(decimal(n) =~= seq![(48 + n) as char]);
    }
}

/// A number reads back from its decimal digits.
pub proof fn law_decimal_reads_back(n: u64)
    ensures
        number_read(decimal(n as nat)) == Some(n as nat),
{
    lemma_decimal_value(n as nat);
    assert(is_digit(decimal(n as nat)[0]));
}

/// Every run of digits is read as the number that it writes where 64 bits can hold that, also with
/// zeros or a plus sign in front, and refused where they cannot.
pub proof fn law_digits_are_read_as_their_number(s: Seq<char>)
    requires
        s.len() > 0,
        forall|i: int| 0 <= i < s.len() ==> '0' <= #[trigger] s[i] <= '9',
    ensures
        digits_value(s) <= 0xffff_ffff_ffff_ffff ==> number_read(s) == Some(digits_value(s))
            && number_read(seq!['+'] + s) == Some(digits_value(s)),
        digits_value(s) > 0xffff_ffff_ffff_ffff ==> number_read(s) is None && number_read(
            seq!['+'] + s,
        ) is None,
        digits_value(seq!['0'] + s) == digits_value(s),
{
    assert(s[0] != '+');
    assert((seq!['+'] + s).drop_first() =~= s);
    lemma_zero_in_front(s);
}

/// A zero in front does not change the number.
proof fn lemma_zero_in_front(s: Seq<char>)
    ensures
        digits_value(seq!['0'] + s) == digits_value(s),
    decreases s.len(),
{
    let longer = seq!['0'] + s;
    if s.len() == 0 {
        assert(longer.drop_last() =~= Seq::<char>::empty());
        assert(digits_value(Seq::<char>::empty()) == 0);
        assert(longer.last() == '0');
        assert(s =~= Seq::<char>::empty());
    } else {
        lemma_zero_in_front(s.drop_last());
        assert(longer.drop_last() =~= seq!['0'] + s.drop_last());
        assert(longer.last() == s.last());
    }
}

/// Whether the character is white space, by Unicode's `White_Space` property.
pub open spec fn is_white_space(c: char) -> bool {
    let n = c as u32;
    0x9 <= n <= 0xd || n == 0x20 || n == 0x85 || n == 0xa0 || n == 0x1680 || 0x2000 <= n <= 0x200a
        || n == 0x2028 || n == 0x2029 || n == 0x202f || n == 0x205f || n == 0x3000
}

/// The text without the white space in front.
pub open spec fn trimmed_start(s: Seq<char>) -> Seq<char>
    decreases s.len(),
{
    if s.len() > 0 && is_white_space(s[0]) {
        trimmed_start(s.drop_first())
    } else {
        s
    }
}

/// The text without the white space at the end.
pub open spec fn trimmed_end(s: Seq<char>) -> Seq<char>
    decreases s.len(),
{
    if s.len() > 0 && is_white_space(s.last()) {
        trimmed_end(s.drop_last())
    } else {
        s
    }
}

/// The text without the white space around it.
pub open spec fn trimmed(s: Seq<char>) -> Seq<char> {
    trimmed_end(trimmed_start(s))
}

/// A text without white space at an end is trimmed there.
proof fn lemma_trimmed_ends(s: Seq<char>)
    ensures
        ({
            let a = trimmed_start(s);
            a.len() > 0 ==> !is_white_space(a[0])
        }),
        ({
            let b = trimmed_end(s);
            &&& b.len() <= s.len()
            &&& b.len() > 0 ==> !is_white_space(b.last()) && b[0] == s[0]
        }),
    decreases s.len(),
{
    if s.len() > 0 {
        if is_white_space(s[0]) {
            lemma_trimmed_ends(s.drop_first());
        }
        if is_white_space(s.last()) {
            lemma_trimmed_ends(s.drop_last());
        }
    }
}

/// Trimming a text again changes nothing.
pub proof fn law_trimming_again_changes_nothing(s: Seq<char>)
    ensures
        trimmed(trimmed(s)) == trimmed(s),
{
    lemma_trimmed_ends(s);
    lemma_trimmed_ends(trimmed_start(s));
}

/// Whether the character is white space.
fn white_space(c: char) -> (b: bool)
    ensures
        b == is_white_space(c),
{
    let n: u32 = c as u32;
    (0x9 <= n && n <= 0xd) || n == 0x20 || n == 0x85 || n == 0xa0 || n == 0x1680 || (0x2000 <= n
        && n <= 0x200a) || n == 0x2028 || n == 0x2029 || n == 0x202f || n == 0x205f || n == 0x3000
}

/// The text without the white space around it.
pub fn trim(s: &str) -> (t: String)
    ensures
        t@ == trimmed(s@),
{
    let chars = chars_of(s);
    let mut start: usize = 0;
    assert(s@.skip(0) =~= s@);
    while start < chars.len() && white_space(chars[start])
        invariant
            start <= chars@.len(),
            chars@ == s@,
            trimmed_start(s@) == trimmed_start(s@.skip(start as int)),
        decreases chars@.len() - start,
    {
        assert(s@.skip(start as int).drop_first() =~= s@.skip(start + 1));
        start += 1;
    }
    let mut end: usize = chars.len();
    assert(trimmed_start(s@) == s@.skip(start as int));
    assert(s@.skip(start as int) =~= s@.subrange(start as int, end as int));
    while start < end && white_space(chars[end - 1])
        invariant
            start <= end <= chars@.len(),
            chars@ == s@,
            trimmed(s@) == trimmed_end(s@.subrange(start as int, end as int)),
        decreases end - start,
    {
        assert(s@.subrange(start as int, end as int).drop_last() =~= s@.subrange(
            start as int,
            end - 1,
        ));
        end -= 1;
    }
    let mut t = String::new();
    let mut i: usize = start;
    while i < end
        invariant
            start <= i <= end <= chars@.len(),
            chars@ == s@,
            t@ =~= s@.subrange(start as int, i as int),
        decreases end - i,
    {
        t.push(chars[i]);
        i += 1;
    }
    t
}

/// Whether the texts agree up to `i` and the first one comes before the other there.
pub open spec fn parts_at(a: Seq<char>, b: Seq<char>, i: int) -> bool {
    &&& 0 <= i <= a.len()
    &&& i < b.len()
    &&& forall|j: int| 0 <= j < i ==> a[j] == b[j]
    &&& i == a.len() || a[i] < b[i]
}

/// Whether `a` comes before `b`, by the code points of their characters.
pub open spec fn precedes(a: Seq<char>, b: Seq<char>) -> bool {
    exists|i: int| parts_at(a, b, i)
}

/// Of two texts one comes before the other, or they are the same.
pub enum Order {
    Before,
    Same,
    After,
}

/// How the first text stands to the second one.
pub fn order_of(a: &str, b: &str) -> (o: Order)
    ensures
        match o {
            Order::Before => precedes(a@, b@),
            Order::Same => a@ == b@,
            Order::After => precedes(b@, a@),
        },
{
    let x = chars_of(a);
    let y = chars_of(b);
    let mut i: usize = 0;
    while i < x.len() && i < y.len()
        invariant
            i <= x@.len(),
            i <= y@.len(),
            x@ == a@,
            y@ == b@,
            forall|j: int| 0 <= j < i ==> a@[j] == b@[j],
        decreases x@.len() - i,
    {
        if x[i] < y[i] {
            assert(parts_at(a@, b@, i as int));
            return Order::Before;
        }
        if y[i] < x[i] {
            assert(parts_at(b@, a@, i as int));
            return Order::After;
        }
        i += 1;
    }
    if i < y.len() {
        assert(parts_at(a@, b@, i as int));
        Order::Before
    } else if i < x.len() {
        assert(parts_at(b@, a@, i as int));
        Order::After
    } else {
        assert(a@ =~= b@);
        Order::Same
    }
}

/// No text comes before itself, and of two texts at most one comes before the other.
pub proof fn lemma_precedes_one_way(a: Seq<char>, b: Seq<char>)
    requires
        precedes(a, b),
    ensures
        a != b,
        !precedes(b, a),
{
    let i = choose|i: int| parts_at(a, b, i);
    if precedes(b, a) {
        let j = choose|j: int| parts_at(b, a, j);
        if i < j {
            assert(b[i] == a[i]);
        } else if j < i {
            assert(a[j] == b[j]);
        }
    }
    if a == b {
        assert(i < a.len());
    }
}

/// What comes before a text comes before what that text comes before.
pub proof fn lemma_precedes_transitive(a: Seq<char>, b: Seq<char>, c: Seq<char>)
    requires
        precedes(a, b),
        precedes(b, c),
    ensures
        precedes(a, c),
{
    let i = choose|i: int| parts_at(a, b, i);
    let j = choose|j: int| parts_at(b, c, j);
    if i <= j {
        assert forall|k: int| 0 <= k < i implies a[k] == c[k] by {
            assert(a[k] == b[k]);
            assert(b[k] == c[k]);
        }
        assert(i < j ==> b[i] == c[i]);
        assert(parts_at(a, c, i));
    } else {
        assert forall|k: int| 0 <= k < j implies a[k] == c[k] by {
            assert(a[k] == b[k]);
            assert(b[k] == c[k]);
        }
        assert(a[j] == b[j]);
        assert(parts_at(a, c, j));
    }
}

/// Two texts that agree up to `i` are the same, or one comes before the other.
proof fn lemma_precedes_total_from(a: Seq<char>, b: Seq<char>, i: int)
    requires
        0 <= i <= a.len(),
        i <= b.len(),
        forall|j: int| 0 <= j < i ==> a[j] == b[j],
    ensures
        a == b || precedes(a, b) || precedes(b, a),
    decreases a.len() - i,
{
    if i == a.len() && i == b.len() {
        assert(a =~= b);
    } else if i == a.len() || (i < b.len() && a[i] < b[i]) {
        assert(parts_at(a, b, i));
    } else if i == b.len() || b[i] < a[i] {
        assert(parts_at(b, a, i));
    } else {
        lemma_precedes_total_from(a, b, i + 1);
    }
}

/// Two texts are the same, or one comes before the other.
pub proof fn lemma_precedes_total(a: Seq<char>, b: Seq<char>)
    ensures
        a == b || precedes(a, b) || precedes(b, a),
{
    lemma_precedes_total_from(a, b, 0);
}

} // verus!
