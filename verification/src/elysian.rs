//! The file of parameter defaults: lines of the form `name = value`,
//! where the value is an integer or a real number.

use vstd::prelude::*;

verus! {

/// Whether a byte is a white-space character of one byte: a space, or
/// one of the control characters from the tabulator to the carriage return.
pub open spec fn is_space1(a: u8) -> bool {
    a == 0x20 || (0x09 <= a <= 0x0d)
}

/// Whether two bytes are a white-space character in UTF-8: the next-line
/// character or the no-break space.
pub open spec fn is_space2(a: u8, b: u8) -> bool {
    a == 0xc2 && (b == 0x85 || b == 0xa0)
}

/// Whether three bytes are a white-space character in UTF-8: the ogham
/// space mark, one of the spaces from the en quad to the hair space, the
/// line or the paragraph separator, the narrow no-break space, the medium
/// mathematical space, or the ideographic space.
pub open spec fn is_space3(a: u8, b: u8, c: u8) -> bool {
    ||| a == 0xe1 && b == 0x9a && c == 0x80
    ||| a == 0xe2 && b == 0x80 && (0x80 <= c <= 0x8a || c == 0xa8 || c == 0xa9 || c == 0xaf)
    ||| a == 0xe2 && b == 0x81 && c == 0x9f
    ||| a == 0xe3 && b == 0x80 && c == 0x80
}

/// The number of bytes of the white-space character at the start of the
/// text; zero where none stands there.
pub open spec fn space_at_start(s: Seq<u8>) -> nat {
    if s.len() >= 1 && is_space1(s[0]) {
        1
    } else if s.len() >= 2 && is_space2(s[0], s[1]) {
        2
    } else if s.len() >= 3 && is_space3(s[0], s[1], s[2]) {
        3
    } else {
        0
    }
}

/// The number of bytes of the white-space character at the end of the
/// text; zero where none stands there.
pub open spec fn space_at_end(s: Seq<u8>) -> nat {
    let n = s.len() as int;
    if n >= 1 && is_space1(s[n - 1]) {
        1
    } else if n >= 2 && is_space2(s[n - 2], s[n - 1]) {
        2
    } else if n >= 3 && is_space3(s[n - 3], s[n - 2], s[n - 1]) {
        3
    } else {
        0
    }
}

/// Whether a byte is a decimal digit.
pub open spec fn is_digit(b: u8) -> bool {
    0x30 <= b <= 0x39
}

/// The text without the white space at its start.
pub open spec fn trim_start(s: Seq<u8>) -> Seq<u8>
    decreases s.len(),
{
    if space_at_start(s) > 0 {
        trim_start(s.skip(space_at_start(s) as int))
    } else {
        s
    }
}

/// The text without the white space at its end.
pub open spec fn trim_end(s: Seq<u8>) -> Seq<u8>
    decreases s.len(),
{
    if space_at_end(s) > 0 {
        trim_end(s.take(s.len() - space_at_end(s)))
    } else {
        s
    }
}

/// The text without the white space at its start and at its end.
pub open spec fn trimmed(s: Seq<u8>) -> Seq<u8> {
    trim_end(trim_start(s))
}

/// The number of equals signs in the text.
pub open spec fn count_equals(s: Seq<u8>) -> nat
    decreases s.len(),
{
    if s.len() == 0 {
        0
    } else {
        count_equals(s.drop_last()) + if s.last() == 0x3d {
            1nat
        } else {
            0nat
        }
    }
}

/// The place of the first equals sign in the text, or the length of the
/// text where it has none.
pub open spec fn first_equals(s: Seq<u8>) -> int
    decreases s.len(),
{
    if s.len() == 0 || s[0] == 0x3d {
        0
    } else {
        1 + first_equals(s.drop_first())
    }
}

/// The number that a sequence of decimal digits denotes.
pub open spec fn digits_value(s: Seq<u8>) -> int
    decreases s.len(),
{
    if s.len() == 0 {
        0
    } else {
        digits_value(s.drop_last()) * 10 + (s.last() - 0x30)
    }
}

/// Whether the text is one or more decimal digits.
pub open spec fn all_digits(s: Seq<u8>) -> bool {
    s.len() > 0 && forall|i: int| 0 <= i < s.len() ==> is_digit(#[trigger] s[i])
}

/// The 32-bit integer that the text denotes, if it denotes one: an
/// optional sign, then decimal digits, with a value that fits.
pub open spec fn int_value(s: Seq<u8>) -> Option<i32> {
    let negative = s.len() > 0 && s[0] == 0x2d;
    let signed = s.len() > 0 && (s[0] == 0x2d || s[0] == 0x2b);
    let body = if signed {
        s.drop_first()
    } else {
        s
    };
    let value = if negative {
        -digits_value(body)
    } else {
        digits_value(body)
    };
    if all_digits(body) && i32::MIN <= value <= i32::MAX {
        Some(value as i32)
    } else {
        None
    }
}

/// The number of decimal digits at the start of the text.
pub open spec fn digits_prefix(s: Seq<u8>) -> nat
    decreases s.len(),
{
    if s.len() > 0 && is_digit(s[0]) {
        1 + digits_prefix(s.drop_first())
    } else {
        0
    }
}

/// The text without a sign at its start.
pub open spec fn unsigned(s: Seq<u8>) -> Seq<u8> {
    if s.len() > 0 && (s[0] == 0x2d || s[0] == 0x2b) {
        s.drop_first()
    } else {
        s
    }
}

/// The lower-case form of an ASCII letter; any other byte as it is.
pub open spec fn lower(b: u8) -> u8 {
    if 0x41 <= b <= 0x5a {
        (b + 0x20) as u8
    } else {
        b
    }
}

/// Whether the text is the given word, in any mix of cases.
pub open spec fn is_word(s: Seq<u8>, word: Seq<u8>) -> bool {
    s.len() == word.len() && forall|i: int| 0 <= i < s.len() ==> lower(#[trigger] s[i]) == word[i]
}

/// Whether the text is an exponent: the letter `e`, an optional sign, and
/// one or more digits.
pub open spec fn exponent_text(s: Seq<u8>) -> bool {
    s.len() > 0 && lower(s[0]) == 0x65 && {
        let digits = unsigned(s.drop_first());
        digits.len() > 0 && digits_prefix(digits) == digits.len()
    }
}

/// Whether the text is a decimal number: digits with an optional point
/// among them, at least one digit in all, and an optional exponent.
pub open spec fn number_text(s: Seq<u8>) -> bool {
    let whole = digits_prefix(s);
    let behind = s.skip(whole as int);
    let has_point = behind.len() > 0 && behind[0] == 0x2e;
    let fraction_text = if has_point {
        behind.drop_first()
    } else {
        behind
    };
    let fraction = if has_point {
        digits_prefix(fraction_text)
    } else {
        0
    };
    let rest = fraction_text.skip(fraction as int);
    whole + fraction >= 1 && (rest.len() == 0 || exponent_text(rest))
}

/// Whether the text denotes a real number: an optional sign, then a
/// decimal number or one of the words `inf`, `infinity` and `nan`.
pub open spec fn real_text(s: Seq<u8>) -> bool {
    let body = unsigned(s);
    is_word(body, seq![0x69u8, 0x6e, 0x66]) || is_word(
        body,
        seq![0x69u8, 0x6e, 0x66, 0x69, 0x6e, 0x69, 0x74, 0x79],
    ) || is_word(body, seq![0x6eu8, 0x61, 0x6e]) || number_text(body)
}

pub proof fn lemma_digits_prefix_bound(s: Seq<u8>)
    ensures
        digits_prefix(s) <= s.len(),
        forall|i: int| 0 <= i < digits_prefix(s) ==> is_digit(#[trigger] s[i]),
        digits_prefix(s) < s.len() ==> !is_digit(s[digits_prefix(s) as int]),
    decreases s.len(),
{
    if s.len() > 0 && is_digit(s[0]) {
        let rest = s.drop_first();
        lemma_digits_prefix_bound(rest);
        assert forall|i: int| 0 <= i < digits_prefix(s) implies is_digit(#[trigger] s[i]) by {
            if i > 0 {
                assert(s[i] == rest[i - 1]);
            }
        }
        if digits_prefix(s) < s.len() {
            assert(s[digits_prefix(s) as int] == rest[digits_prefix(rest) as int]);
        }
    }
}

/// A run of digits that ends at a byte that is no digit, or at the end
/// of the text, is the digits at the start of the text.
pub proof fn lemma_digits_prefix_is(s: Seq<u8>, n: int)
    requires
        0 <= n <= s.len(),
        forall|i: int| 0 <= i < n ==> is_digit(#[trigger] s[i]),
        n < s.len() ==> !is_digit(s[n]),
    ensures
        digits_prefix(s) == n,
    decreases n,
{
    if n > 0 {
        let rest = s.drop_first();
        assert forall|i: int| 0 <= i < n - 1 implies is_digit(#[trigger] rest[i]) by {
            assert(rest[i] == s[i + 1]);
        }
        if n - 1 < rest.len() {
            assert(rest[n - 1] == s[n]);
        }
        lemma_digits_prefix_is(rest, n - 1);
    }
}

/// The end of the run of digits that starts at `from`.
fn digit_run(text: &[u8], from: usize) -> (to: usize)
    requires
        from <= text@.len(),
    ensures
        from <= to <= text@.len(),
        to - from == digits_prefix(text@.skip(from as int)),
{
    let mut to = from;
    while to < text.len() && 0x30 <= text[to] && text[to] <= 0x39
        invariant
            from <= to <= text@.len(),
            forall|i: int| from <= i < to ==> is_digit(#[trigger] text@[i]),
        decreases text@.len() - to,
    {
        to = to + 1;
    }
    proof {
        let s = text@.skip(from as int);
        assert forall|i: int| 0 <= i < to - from implies is_digit(#[trigger] s[i]) by {
            assert(s[i] == text@[from + i]);
        }
        if to - from < s.len() {
            assert(s[to - from] == text@[to as int]);
        }
        lemma_digits_prefix_is(s, to - from);
    }
    to
}

fn lower_byte(b: u8) -> (r: u8)
    ensures
        r == lower(b),
{
    if 0x41 <= b && b <= 0x5a {
        b + 0x20
    } else {
        b
    }
}

fn is_word_from(text: &[u8], from: usize, word: &[u8]) -> (r: bool)
    requires
        from <= text@.len(),
    ensures
        r == is_word(text@.skip(from as int), word@),
{
    if text.len() - from != word.len() {
        return false;
    }
    let ghost s = text@.skip(from as int);
    let mut i: usize = 0;
    while i < word.len()
        invariant
            i <= word@.len(),
            from + word@.len() == text@.len(),
            text@.len() <= usize::MAX,
            s == text@.skip(from as int),
            forall|k: int| 0 <= k < i ==> lower(#[trigger] s[k]) == word@[k],
        decreases word@.len() - i,
    {
        if lower_byte(text[from + i]) != word[i] {
            assert(s[i as int] == text@[from + i]);
            return false;
        }
        assert(s[i as int] == text@[from + i]);
        i = i + 1;
    }
    true
}

fn is_exponent_from(text: &[u8], from: usize) -> (r: bool)
    requires
        from <= text@.len(),
    ensures
        r == exponent_text(text@.skip(from as int)),
{
    let n = text.len();
    let ghost s = text@.skip(from as int);
    if from == n {
        return false;
    }
    proof {
        assert(s[0] == text@[from as int]);
        assert(s.drop_first() =~= text@.skip(from + 1));
    }
    if lower_byte(text[from]) != 0x65 {
        return false;
    }
    let mut digits_start = from + 1;
    proof {
        if from + 1 < n {
            assert(s.drop_first()[0] == text@[from + 1]);
        }
    }
    if digits_start < n && (text[digits_start] == 0x2d || text[digits_start] == 0x2b) {
        digits_start = digits_start + 1;
        proof {
            assert(s.drop_first().drop_first() =~= text@.skip(digits_start as int));
        }
    }
    assert(unsigned(s.drop_first()) == text@.skip(digits_start as int));
    let digits_end = digit_run(text, digits_start);
    digits_start < n && digits_end == n
}

fn is_number_from(text: &[u8], start: usize) -> (r: bool)
    requires
        start <= text@.len(),
    ensures
        r == number_text(text@.skip(start as int)),
{
    let n = text.len();
    let ghost body = text@.skip(start as int);
    let whole_end = digit_run(text, start);
    let ghost behind = body.skip(whole_end - start);
    proof {
        assert(behind =~= text@.skip(whole_end as int));
        if whole_end < n {
            assert(behind[0] == text@[whole_end as int]);
        }
    }
    let has_point = whole_end < n && text[whole_end] == 0x2e;
    let fraction_start = if has_point {
        whole_end + 1
    } else {
        whole_end
    };
    let ghost fraction_text = if has_point {
        behind.drop_first()
    } else {
        behind
    };
    proof {
        assert(fraction_text =~= text@.skip(fraction_start as int));
    }
    let fraction_end = if has_point {
        digit_run(text, fraction_start)
    } else {
        fraction_start
    };
    proof {
        assert(fraction_text.skip(fraction_end - fraction_start) =~= text@.skip(fraction_end as int));
    }
    if (whole_end - start) + (fraction_end - fraction_start) < 1 {
        return false;
    }
    if fraction_end == n {
        return true;
    }
    is_exponent_from(text, fraction_end)
}

/// Whether the text denotes a real number.
pub fn is_real_text(text: &[u8]) -> (r: bool)
    ensures
        r == real_text(text@),
{
    let n = text.len();
    let start: usize = if n > 0 && (text[0] == 0x2d || text[0] == 0x2b) {
        1
    } else {
        0
    };
    proof {
        assert(text@.skip(1) =~= text@.drop_first());
        assert(text@.skip(0) =~= text@);
        assert(unsigned(text@) == text@.skip(start as int));
    }
    let inf: [u8; 3] = [0x69, 0x6e, 0x66];
    let infinity: [u8; 8] = [0x69, 0x6e, 0x66, 0x69, 0x6e, 0x69, 0x74, 0x79];
    let nan: [u8; 3] = [0x6e, 0x61, 0x6e];
    proof {
        assert(inf@ =~= seq![0x69u8, 0x6e, 0x66]);
        assert(infinity@ =~= seq![0x69u8, 0x6e, 0x66, 0x69, 0x6e, 0x69, 0x74, 0x79]);
        assert(nan@ =~= seq![0x6eu8, 0x61, 0x6e]);
    }
    is_word_from(text, start, inf.as_slice()) || is_word_from(text, start, infinity.as_slice())
        || is_word_from(text, start, nan.as_slice()) || is_number_from(text, start)
}

/// The value of a parameter default.
#[derive(Debug, PartialEq, Eq)]
pub enum NumericText {
    /// An integer.
    Int(i32),
    /// The text of a real number that is no 32-bit integer. It is turned
    /// into a number by whoever can hold one.
    Real(Vec<u8>),
}

/// What one line of the file holds.
#[derive(Debug, PartialEq, Eq)]
pub enum Line {
    /// Nothing but white space.
    Blank,
    /// A name and a value.
    Entry { name: Vec<u8>, value: NumericText },
    /// Something that has not exactly one equals sign.
    Malformed,
    /// A name and a value that is neither an integer nor a real number.
    BadValue { text: Vec<u8> },
}

/// What a line of the file holds, on the text of the line.
pub open spec fn line_spec(line: Seq<u8>) -> (bool, bool, Seq<u8>, Seq<u8>) {
    let t = trimmed(line);
    let p = first_equals(t);
    (t.len() == 0, t.len() > 0 && count_equals(t) != 1, trimmed(t.take(p)), trimmed(t.skip(p + 1)))
}

/// Whether the line read is what the text of the line holds.
pub open spec fn is_line_of(r: Line, line: Seq<u8>) -> bool {
    let (blank, malformed, name, value) = line_spec(line);
    match r {
        Line::Blank => blank,
        Line::Malformed => malformed,
        Line::Entry { name: n, value: v } => !blank && !malformed && n@ == name && match v {
            NumericText::Int(i) => int_value(value) == Some(i),
            NumericText::Real(text) => int_value(value).is_none() && real_text(value) && text@
                == value,
        },
        Line::BadValue { text: v } => !blank && !malformed && int_value(value).is_none()
            && !real_text(value) && v@ == value,
    }
}

/// The number of bytes of the white-space character at `a`, in the text
/// up to `hi`.
fn space_at(s: &[u8], a: usize, hi: usize) -> (k: usize)
    requires
        a <= hi <= s@.len(),
    ensures
        k == space_at_start(s@.subrange(a as int, hi as int)),
        a + k <= hi,
{
    let ghost sub = s@.subrange(a as int, hi as int);
    let n = hi - a;
    proof {
        if n >= 1 {
            assert(sub[0] == s@[a as int]);
        }
        if n >= 2 {
            assert(sub[1] == s@[a + 1]);
        }
        if n >= 3 {
            assert(sub[2] == s@[a + 2]);
        }
    }
    if n >= 1 && (s[a] == 0x20 || (0x09 <= s[a] && s[a] <= 0x0d)) {
        1
    } else if n >= 2 && s[a] == 0xc2 && (s[a + 1] == 0x85 || s[a + 1] == 0xa0) {
        2
    } else if n >= 3 && three_are_space(s[a], s[a + 1], s[a + 2]) {
        3
    } else {
        0
    }
}

/// The number of bytes of the white-space character that ends at `b`, in
/// the text from `a` on.
fn space_before(s: &[u8], a: usize, b: usize) -> (k: usize)
    requires
        a <= b <= s@.len(),
    ensures
        k == space_at_end(s@.subrange(a as int, b as int)),
        a + k <= b,
{
    let ghost sub = s@.subrange(a as int, b as int);
    let n = b - a;
    proof {
        if n >= 1 {
            assert(sub[n - 1] == s@[b - 1]);
        }
        if n >= 2 {
            assert(sub[n - 2] == s@[b - 2]);
        }
        if n >= 3 {
            assert(sub[n - 3] == s@[b - 3]);
        }
    }
    if n >= 1 && (s[b - 1] == 0x20 || (0x09 <= s[b - 1] && s[b - 1] <= 0x0d)) {
        1
    } else if n >= 2 && s[b - 2] == 0xc2 && (s[b - 1] == 0x85 || s[b - 1] == 0xa0) {
        2
    } else if n >= 3 && three_are_space(s[b - 3], s[b - 2], s[b - 1]) {
        3
    } else {
        0
    }
}

fn three_are_space(a: u8, b: u8, c: u8) -> (r: bool)
    ensures
        r == is_space3(a, b, c),
{
    (a == 0xe1 && b == 0x9a && c == 0x80) || (a == 0xe2 && b == 0x80 && ((0x80 <= c && c <= 0x8a)
        || c == 0xa8 || c == 0xa9 || c == 0xaf)) || (a == 0xe2 && b == 0x81 && c == 0x9f) || (a
        == 0xe3 && b == 0x80 && c == 0x80)
}

/// The bounds of the text between `lo` and `hi` without the white space
/// at its start and at its end.
fn trim_bounds(s: &[u8], lo: usize, hi: usize) -> (r: (usize, usize))
    requires
        lo <= hi <= s@.len(),
    ensures
        lo <= r.0 <= r.1 <= hi,
        s@.subrange(r.0 as int, r.1 as int) == trimmed(s@.subrange(lo as int, hi as int)),
{
    let ghost whole = s@.subrange(lo as int, hi as int);
    let mut a = lo;
    let mut k = space_at(s, a, hi);
    while k > 0
        invariant
            lo <= a <= hi <= s@.len(),
            a + k <= hi,
            k == space_at_start(s@.subrange(a as int, hi as int)),
            trim_start(whole) == trim_start(s@.subrange(a as int, hi as int)),
        decreases hi - a,
    {
        proof {
            assert(s@.subrange(a as int, hi as int).skip(k as int) =~= s@.subrange(a + k, hi as int));
        }
        a = a + k;
        k = space_at(s, a, hi);
    }
    let ghost front = s@.subrange(a as int, hi as int);
    let mut b = hi;
    let mut k = space_before(s, a, b);
    while k > 0
        invariant
            lo <= a <= b <= hi <= s@.len(),
            a + k <= b,
            k == space_at_end(s@.subrange(a as int, b as int)),
            trim_end(front) == trim_end(s@.subrange(a as int, b as int)),
        decreases b - a,
    {
        proof {
            let sub = s@.subrange(a as int, b as int);
            assert(sub.take(sub.len() - k) =~= s@.subrange(a as int, b - k));
        }
        b = b - k;
        k = space_before(s, a, b);
    }
    (a, b)
}

fn copy_range(s: &[u8], lo: usize, hi: usize) -> (r: Vec<u8>)
    requires
        lo <= hi <= s@.len(),
    ensures
        r@ == s@.subrange(lo as int, hi as int),
{
    let mut r: Vec<u8> = Vec::new();
    let mut i = lo;
    while i < hi
        invariant
            lo <= i <= hi <= s@.len(),
            r@ == s@.subrange(lo as int, i as int),
        decreases hi - i,
    {
        r.push(s[i]);
        i = i + 1;
        assert(r@ =~= s@.subrange(lo as int, i as int));
    }
    r
}

/// The digits of a longer sequence of digits denote no larger number.
pub proof fn lemma_digits_monotone(s: Seq<u8>, k: int)
    requires
        0 <= k <= s.len(),
        forall|i: int| 0 <= i < s.len() ==> is_digit(#[trigger] s[i]),
    ensures
        0 <= digits_value(s.take(k)) <= digits_value(s),
    decreases s.len() - k,
{
    if k < s.len() {
        let front = s.drop_last();
        assert(front.take(k) =~= s.take(k));
        assert forall|i: int| 0 <= i < front.len() implies is_digit(#[trigger] front[i]) by {
            assert(front[i] == s[i]);
        }
        lemma_digits_monotone(front, k);
        assert(is_digit(s[s.len() - 1]));
    } else {
        assert(s.take(k) =~= s);
        lemma_digits_nonnegative(s);
    }
}

pub proof fn lemma_digits_nonnegative(s: Seq<u8>)
    requires
        forall|i: int| 0 <= i < s.len() ==> is_digit(#[trigger] s[i]),
    ensures
        0 <= digits_value(s),
    decreases s.len(),
{
    if s.len() > 0 {
        let front = s.drop_last();
        assert forall|i: int| 0 <= i < front.len() implies is_digit(#[trigger] front[i]) by {
            assert(front[i] == s[i]);
        }
        lemma_digits_nonnegative(front);
        assert(is_digit(s[s.len() - 1]));
    }
}

/// Reads a 32-bit integer: an optional sign, then decimal digits.
pub fn parse_i32(text: &[u8]) -> (r: Option<i32>)
    ensures
        r == int_value(text@),
{
    let n = text.len();
    if n == 0 {
        return None;
    }
    let negative = text[0] == 0x2d;
    let start: usize = if text[0] == 0x2d || text[0] == 0x2b {
        1
    } else {
        0
    };
    let ghost body = if start == 1 {
        text@.drop_first()
    } else {
        text@
    };
    proof {
        assert(body =~= text@.skip(start as int));
    }
    if start == n {
        return None;
    }
    let mut acc: i64 = 0;
    let mut i = start;
    proof {
        assert(body.take(0) =~= Seq::<u8>::empty());
    }
    while i < n
        invariant
            start <= i <= n,
            n == text@.len(),
            n > 0,
            start == if text@[0] == 0x2d || text@[0] == 0x2b {
                1int
            } else {
                0int
            },
            body == text@.skip(start as int),
            forall|k: int| 0 <= k < i - start ==> is_digit(#[trigger] body[k]),
            acc == digits_value(body.take(i - start)),
            0 <= acc <= 0x8000_0000,
        decreases n - i,
    {
        let b = text[i];
        if !(0x30 <= b && b <= 0x39) {
            proof {
                assert(!is_digit(body[i - start]));
                assert(text@.skip(1) =~= text@.drop_first());
                assert(text@.skip(0) =~= text@);
            }
            return None;
        }
        proof {
            assert(body.take(i - start + 1).drop_last() =~= body.take(i - start));
            assert(body.take(i - start + 1).last() == b);
        }
        acc = acc * 10 + (b - 0x30) as i64;
        i = i + 1;
        if acc > 0x8000_0000 {
            // Every further character either is no digit or makes the
            // number larger still.
            let ghost seen = i - start;
            while i < n
                invariant
                    start < i <= n,
                    n == text@.len(),
                    n > 0,
                    start == if text@[0] == 0x2d || text@[0] == 0x2b {
                        1int
                    } else {
                        0int
                    },
                    body == text@.skip(start as int),
                    forall|k: int| 0 <= k < i - start ==> is_digit(#[trigger] body[k]),
                decreases n - i,
            {
                let b = text[i];
                if !(0x30 <= b && b <= 0x39) {
                    proof {
                        assert(!is_digit(body[i - start]));
                        assert(text@.skip(1) =~= text@.drop_first());
                        assert(text@.skip(0) =~= text@);
                    }
                    return None;
                }
                i = i + 1;
            }
            proof {
                assert(1 <= seen <= body.len());
                assert(text@.skip(1) =~= text@.drop_first());
                assert(text@.skip(0) =~= text@);
                if all_digits(body) {
                    lemma_digits_monotone(body, seen);
                }
            }
            return None;
        }
    }
    proof {
        assert(body.take(n - start) =~= body);
        assert(all_digits(body));
        assert(text@.skip(1) =~= text@.drop_first());
        assert(text@.skip(0) =~= text@);
    }
    if negative {
        if acc <= 0x8000_0000 {
            Some((-acc) as i32)
        } else {
            None
        }
    } else if acc <= 0x7fff_ffff {
        Some(acc as i32)
    } else {
        None
    }
}

/// Reads one line of the file.
///
/// A line of white space is blank. Any other line must hold exactly one
/// equals sign, with the name in front of it and the value behind it, both
/// without the white space around them. The value is an integer where it
/// reads as one, else the text of a real number; a value that is neither
/// is a bad value.
pub fn parse_line(line: &[u8]) -> (r: Line)
    ensures
        is_line_of(r, line@),
{
    let (a, b) = trim_bounds(line, 0, line.len());
    let ghost t = line@.subrange(a as int, b as int);
    proof {
        assert(line@.subrange(0, line@.len() as int) =~= line@);
    }
    if a == b {
        return Line::Blank;
    }
    let mut count: usize = 0;
    let mut first: usize = b;
    let mut i = a;
    proof {
        assert(t.take(0) =~= Seq::<u8>::empty());
        assert(t.skip(0) =~= t);
    }
    while i < b
        invariant
            a <= i <= b <= line@.len(),
            t == line@.subrange(a as int, b as int),
            count == count_equals(t.take(i - a)),
            count <= i - a,
            count == 0 ==> first == b && first_equals(t) == (i - a) + first_equals(t.skip(i - a)),
            count > 0 ==> a <= first < i && first_equals(t) == first - a,
        decreases b - i,
    {
        proof {
            assert(t.take(i - a + 1).drop_last() =~= t.take(i - a));
            assert(t.take(i - a + 1).last() == line@[i as int]);
            assert(t.skip(i - a)[0] == line@[i as int]);
            assert(t.skip(i - a).drop_first() =~= t.skip(i - a + 1));
        }
        if line[i] == 0x3d {
            if count == 0 {
                first = i;
            }
            count = count + 1;
        }
        i = i + 1;
    }
    proof {
        assert(t.take(b - a) =~= t);
    }
    if count != 1 {
        return Line::Malformed;
    }
    let (na, nb) = trim_bounds(line, a, first);
    let (va, vb) = trim_bounds(line, first + 1, b);
    proof {
        assert(t.take(first - a) =~= line@.subrange(a as int, first as int));
        assert(t.skip(first - a + 1) =~= line@.subrange(first + 1, b as int));
    }
    let name = copy_range(line, na, nb);
    let text = copy_range(line, va, vb);
    match parse_i32(text.as_slice()) {
        Some(i) => Line::Entry { name, value: NumericText::Int(i) },
        None => if is_real_text(text.as_slice()) {
            Line::Entry { name, value: NumericText::Real(text) }
        } else {
            Line::BadValue { text }
        },
    }
}

/// What is wrong with a line.
#[derive(Debug, Clone, Copy, PartialEq, Eq, Structural)]
pub enum ParseErrorKind {
    /// The line has not the form of a name, an equals sign and a value.
    ExpectedFormat,
    /// The value is neither an integer nor a real number.
    CannotParseValue,
}

/// Where reading the file stopped: the number of the line, counted from
/// one, and what is wrong with it.
#[derive(Debug, Clone, Copy, PartialEq, Eq, Structural)]
pub struct ParseError {
    pub line: usize,
    pub kind: ParseErrorKind,
}

/// What is wrong with a line, if anything.
pub open spec fn line_error(line: Seq<u8>) -> Option<ParseErrorKind> {
    let (blank, malformed, name, value) = line_spec(line);
    if blank {
        None
    } else if malformed {
        Some(ParseErrorKind::ExpectedFormat)
    } else if int_value(value).is_none() && !real_text(value) {
        Some(ParseErrorKind::CannotParseValue)
    } else {
        None
    }
}

/// The name and the value text of every line that holds an entry, in the
/// order of the lines.
pub open spec fn entries_text(lines: Seq<Vec<u8>>) -> Seq<(Seq<u8>, Seq<u8>)>
    decreases lines.len(),
{
    if lines.len() == 0 {
        Seq::empty()
    } else {
        let rest = entries_text(lines.drop_last());
        let (blank, malformed, name, value) = line_spec(lines.last()@);
        if blank || malformed {
            rest
        } else {
            rest.push((name, value))
        }
    }
}

/// Whether the entry read has the name and the value of the texts.
pub open spec fn is_entry_of(entry: (Vec<u8>, NumericText), text: (Seq<u8>, Seq<u8>)) -> bool {
    entry.0@ == text.0 && match entry.1 {
        NumericText::Int(i) => int_value(text.1) == Some(i),
        NumericText::Real(t) => int_value(text.1).is_none() && real_text(text.1) && t@ == text.1,
    }
}

/// Reads the lines of the file. The entries come in the order of their
/// lines, blank lines left out. The first line that is wrong ends the
/// reading, and is reported with its number.
pub fn parse_lines(lines: &Vec<Vec<u8>>) -> (r: Result<Vec<(Vec<u8>, NumericText)>, ParseError>)
    ensures
        match r {
            Err(e) => 1 <= e.line <= lines@.len() && line_error(lines@[e.line - 1]@) == Some(e.kind)
                && forall|k: int| 0 <= k < e.line - 1 ==> (#[trigger] line_error(lines@[k]@)).is_none(),
            Ok(entries) => {
                &&& forall|k: int| 0 <= k < lines@.len() ==> (#[trigger] line_error(lines@[k]@)).is_none()
                &&& entries@.len() == entries_text(lines@).len()
                &&& forall|k: int|
                    0 <= k < entries@.len() ==> is_entry_of(
                        #[trigger] entries@[k],
                        entries_text(lines@)[k],
                    )
            },
        },
{
    let mut entries: Vec<(Vec<u8>, NumericText)> = Vec::new();
    let mut i: usize = 0;
    proof {
        assert(lines@.take(0) =~= Seq::<Vec<u8>>::empty());
    }
    while i < lines.len()
        invariant
            i <= lines@.len(),
            forall|k: int| 0 <= k < i ==> (#[trigger] line_error(lines@[k]@)).is_none(),
            entries@.len() == entries_text(lines@.take(i as int)).len(),
            forall|k: int|
                0 <= k < entries@.len() ==> is_entry_of(
                    #[trigger] entries@[k],
                    entries_text(lines@.take(i as int))[k],
                ),
        decreases lines@.len() - i,
    {
        proof {
            assert(lines@.take(i + 1).drop_last() =~= lines@.take(i as int));
            assert(lines@.take(i + 1).last() == lines@[i as int]);
        }
        let ghost before = entries@;
        match parse_line(lines[i].as_slice()) {
            Line::Blank => {},
            Line::Malformed => {
                return Err(ParseError { line: i + 1, kind: ParseErrorKind::ExpectedFormat });
            },
            Line::BadValue { .. } => {
                return Err(ParseError { line: i + 1, kind: ParseErrorKind::CannotParseValue });
            },
            Line::Entry { name, value } => {
                entries.push((name, value));
                proof {
                    assert forall|k: int| 0 <= k < entries@.len() implies is_entry_of(
                        #[trigger] entries@[k],
                        entries_text(lines@.take(i + 1))[k],
                    ) by {
                        if k < before.len() {
                            assert(entries@[k] == before[k]);
                        }
                    }
                }
            },
        }
        i = i + 1;
    }
    proof {
        assert(lines@.take(i as int) =~= lines@);
    }
    Ok(entries)
}

} // verus!
