//! Character-level helpers on which the parsers and formatters are built.
//!
//! Each function works on the characters of a string (`Vec<char>`, viewed as
//! `Seq<char>`), and each states its result over a spec function of the same
//! name with an `_of` or `spec_` flavour.

use vstd::prelude::*;

verus! {

/// `String::push`: appends one character.
#[verifier::external_body]
pub(crate) fn push_char(s: &mut String, c: char)
    ensures
        final(s)@ == old(s)@.push(c),
{
    s.push(c);
}

/// The characters of `s`, in order.
pub fn chars_of(s: &str) -> (v: Vec<char>)
    ensures
        v@ == s@,
{
    let mut v: Vec<char> = Vec::new();
    for c in it: s.chars()
        invariant
            v@ == it.seq().take(it.index() as int),
            it.seq() == s@,
    {
        v.push(c);
    }
    v
}

/// The string made of the characters of `v`, in order.
pub fn string_from_chars(v: &Vec<char>) -> (s: String)
    ensures
        s@ == v@,
{
    let mut s = String::new();
    let mut i: usize = 0;
    while i < v.len()
        invariant
            i <= v.len(),
            s@ == v@.take(i as int),
        decreases v.len() - i,
    {
        push_char(&mut s, v[i]);
        i += 1;
        assert(v@.take(i as int) =~= v@.take((i - 1) as int).push(v@[i - 1]));
    }
    assert(v@.take(i as int) =~= v@);
    s
}

/// Appends the characters of `src` to `dst`.
pub fn extend_chars(dst: &mut Vec<char>, src: &Vec<char>)
    ensures
        final(dst)@ == old(dst)@ + src@,
{
    let mut i: usize = 0;
    while i < src.len()
        invariant
            i <= src.len(),
            dst@ == old(dst)@ + src@.take(i as int),
        decreases src.len() - i,
    {
        dst.push(src[i]);
        i += 1;
        assert(src@.take(i as int) =~= src@.take((i - 1) as int).push(src@[i - 1]));
    }
    assert(src@.take(i as int) =~= src@);
}

/// Appends the characters of `src` to `dst`.
pub fn extend_str(dst: &mut Vec<char>, src: &str)
    ensures
        final(dst)@ == old(dst)@ + src@,
{
    let v = chars_of(src);
    extend_chars(dst, &v);
}

/// Whether two character sequences are equal.
pub fn same_chars(a: &Vec<char>, b: &Vec<char>) -> (r: bool)
    ensures
        r == (a@ == b@),
{
    if a.len() != b.len() {
        return false;
    }
    let mut i: usize = 0;
    while i < a.len()
        invariant
            a.len() == b.len(),
            i <= a.len(),
            a@.take(i as int) == b@.take(i as int),
        decreases a.len() - i,
    {
        if a[i] != b[i] {
            assert(a@[i as int] != b@[i as int]);
            return false;
        }
        i += 1;
        assert(a@.take(i as int) =~= a@.take((i - 1) as int).push(a@[i - 1]));
        assert(b@.take(i as int) =~= b@.take((i - 1) as int).push(b@[i - 1]));
    }
    assert(a@.take(i as int) =~= a@);
    assert(b@.take(i as int) =~= b@);
    true
}

/// The `White_Space` property of Unicode, which `char::is_whitespace` tests.
pub open spec fn is_white_space(c: char) -> bool {
    let u = c as u32;
    ||| 0x09 <= u <= 0x0d
    ||| u == 0x20
    ||| u == 0x85
    ||| u == 0xa0
    ||| u == 0x1680
    ||| 0x2000 <= u <= 0x200a
    ||| u == 0x2028
    ||| u == 0x2029
    ||| u == 0x202f
    ||| u == 0x205f
    ||| u == 0x3000
}

/// Whether `c` has the Unicode `White_Space` property.
pub fn is_whitespace(c: char) -> (b: bool)
    ensures
        b == is_white_space(c),
{
    let u = c as u32;
    (0x09 <= u && u <= 0x0d) || u == 0x20 || u == 0x85 || u == 0xa0 || u == 0x1680 || (0x2000
        <= u && u <= 0x200a) || u == 0x2028 || u == 0x2029 || u == 0x202f || u == 0x205f || u
        == 0x3000
}

/// An ASCII letter, `A`-`Z` or `a`-`z`.
pub open spec fn is_ascii_letter(c: char) -> bool {
    ('A' <= c && c <= 'Z') || ('a' <= c && c <= 'z')
}

/// Whether `c` is an ASCII letter.
pub fn is_ascii_alphabetic(c: char) -> (b: bool)
    ensures
        b == is_ascii_letter(c),
{
    ('A' <= c && c <= 'Z') || ('a' <= c && c <= 'z')
}

/// The first index at or after `i` whose character is not white space
/// (`s.len()` if there is none).
pub open spec fn skip_white(s: Seq<char>, i: int) -> int
    decreases s.len() - i,
{
    if i < 0 || i >= s.len() {
        i
    } else if is_white_space(s[i]) {
        skip_white(s, i + 1)
    } else {
        i
    }
}

/// The first index at or after `i` whose character is white space
/// (`s.len()` if there is none).
pub open spec fn skip_nonwhite(s: Seq<char>, i: int) -> int
    decreases s.len() - i,
{
    if i < 0 || i >= s.len() {
        i
    } else if !is_white_space(s[i]) {
        skip_nonwhite(s, i + 1)
    } else {
        i
    }
}

/// The first word of `s`, as `str::split_whitespace` yields it first: the
/// leading run of non-white-space characters after any white space, or
/// `None` where `s` holds only white space.
pub open spec fn first_word_of(s: Seq<char>) -> Option<Seq<char>> {
    let a = skip_white(s, 0);
    if a >= s.len() {
        None
    } else {
        Some(s.subrange(a, skip_nonwhite(s, a)))
    }
}

/// The first word of `s` (see `first_word_of`).
pub fn first_word(s: &Vec<char>) -> (r: Option<Vec<char>>)
    ensures
        match r {
            Some(w) => first_word_of(s@) == Some(w@),
            None => first_word_of(s@) is None,
        },
{
    let mut a: usize = 0;
    while a < s.len() && is_whitespace(s[a])
        invariant
            a <= s.len(),
            skip_white(s@, 0) == skip_white(s@, a as int),
        decreases s.len() - a,
    {
        a += 1;
    }
    if a >= s.len() {
        return None;
    }
    let mut b: usize = a;
    while b < s.len() && !is_whitespace(s[b])
        invariant
            a <= b <= s.len(),
            skip_nonwhite(s@, a as int) == skip_nonwhite(s@, b as int),
        decreases s.len() - b,
    {
        b += 1;
    }
    let w = slice_chars(s, a, b);
    Some(w)
}

/// The characters of `s` at indices `a..b`.
pub fn slice_chars(s: &Vec<char>, a: usize, b: usize) -> (r: Vec<char>)
    requires
        a <= b <= s.len(),
    ensures
        r@ == s@.subrange(a as int, b as int),
{
    let mut w: Vec<char> = Vec::new();
    let mut k: usize = a;
    while k < b
        invariant
            a <= k <= b <= s.len(),
            w@ == s@.subrange(a as int, k as int),
        decreases b - k,
    {
        w.push(s[k]);
        k += 1;
        assert(s@.subrange(a as int, k as int) =~= s@.subrange(a as int, (k - 1) as int).push(
            s@[k - 1],
        ));
    }
    w
}

/// The index just past the last character before `j` that is not white
/// space (0 if there is none).
pub open spec fn trim_back(s: Seq<char>, j: int) -> int
    decreases j,
{
    if j <= 0 || j > s.len() {
        j
    } else if is_white_space(s[j - 1]) {
        trim_back(s, j - 1)
    } else {
        j
    }
}

/// `s` without leading and trailing white space, as `str::trim` gives it.
pub open spec fn trim_of(s: Seq<char>) -> Seq<char> {
    let a = skip_white(s, 0);
    if a >= s.len() {
        Seq::empty()
    } else {
        s.subrange(a, trim_back(s, s.len() as int))
    }
}

proof fn lemma_trim_back_bounds(s: Seq<char>, j: int)
    requires
        0 <= j <= s.len(),
    ensures
        0 <= trim_back(s, j) <= j,
        trim_back(s, j) > 0 ==> !is_white_space(s[trim_back(s, j) - 1]),
        forall|k: int| trim_back(s, j) <= k < j ==> is_white_space(s[k]),
    decreases j,
{
    if j > 0 && is_white_space(s[j - 1]) {
        lemma_trim_back_bounds(s, j - 1);
    }
}

/// `s` without leading and trailing white space.
pub fn trim(s: &Vec<char>) -> (r: Vec<char>)
    ensures
        r@ == trim_of(s@),
{
    let mut a: usize = 0;
    while a < s.len() && is_whitespace(s[a])
        invariant
            a <= s.len(),
            skip_white(s@, 0) == skip_white(s@, a as int),
        decreases s.len() - a,
    {
        a += 1;
    }
    if a >= s.len() {
        return Vec::new();
    }
    let mut b: usize = s.len();
    while b > 0 && is_whitespace(s[b - 1])
        invariant
            b <= s.len(),
            trim_back(s@, s.len() as int) == trim_back(s@, b as int),
        decreases b,
    {
        b -= 1;
    }
    proof {
        lemma_trim_back_bounds(s@, s.len() as int);
    }
    assert(!is_white_space(s@[a as int]));
    if b < a {
        proof {
            lemma_trim_back_bounds(s@, s.len() as int);
        }
        assert(false);
    }
    slice_chars(s, a, b)
}

/// Drops one trailing carriage return.
pub open spec fn without_cr(seg: Seq<char>) -> Seq<char> {
    if seg.len() > 0 && seg.last() == '\r' {
        seg.drop_last()
    } else {
        seg
    }
}

/// The lines of `s` from index `i` on, where the current line began at
/// `start`: as `str::lines` gives them, split at `\n`, each without one
/// trailing `\r` before its `\n`, and with no empty line after a final `\n`.
pub open spec fn lines_acc(s: Seq<char>, i: int, start: int) -> Seq<Seq<char>>
    decreases s.len() - i,
{
    if i < 0 || i >= s.len() {
        if 0 <= start < s.len() {
            seq![s.subrange(start, s.len() as int)]
        } else {
            Seq::empty()
        }
    } else if s[i] == '\n' {
        seq![without_cr(s.subrange(start, i))] + lines_acc(s, i + 1, i + 1)
    } else {
        lines_acc(s, i + 1, start)
    }
}

/// The lines of `s`, as `str::lines` yields them.
pub open spec fn lines_of(s: Seq<char>) -> Seq<Seq<char>> {
    lines_acc(s, 0, 0)
}

/// The lines of `s` (see `lines_of`).
pub fn lines(s: &Vec<char>) -> (r: Vec<Vec<char>>)
    ensures
        r@.len() == lines_of(s@).len(),
        forall|k: int| 0 <= k < r@.len() ==> #[trigger] r@[k]@ == lines_of(s@)[k],
{
    let mut out: Vec<Vec<char>> = Vec::new();
    let mut start: usize = 0;
    let mut i: usize = 0;
    while i < s.len()
        invariant
            start <= i <= s.len(),
            out@.len() + lines_acc(s@, i as int, start as int).len() == lines_of(s@).len(),
            forall|k: int| 0 <= k < out@.len() ==> #[trigger] out@[k]@ == lines_of(s@)[k],
            forall|k: int|
                0 <= k < lines_acc(s@, i as int, start as int).len() ==> lines_of(s@)[out@.len()
                    + k] == #[trigger] lines_acc(s@, i as int, start as int)[k],
        decreases s.len() - i,
    {
        if s[i] == '\n' {
            let mut end: usize = i;
            if end > start && s[end - 1] == '\r' {
                end -= 1;
            }
            let seg = slice_chars(s, start, end);
            let ghost rest = lines_acc(s@, (i + 1) as int, (i + 1) as int);
            assert(lines_acc(s@, i as int, start as int) == seq![
                without_cr(s@.subrange(start as int, i as int)),
            ] + rest);
            assert(seg@ == without_cr(s@.subrange(start as int, i as int)));
            assert(lines_of(s@)[out@.len() as int] == lines_acc(s@, i as int, start as int)[0]);
            out.push(seg);
            assert forall|k: int| 0 <= k < rest.len() implies lines_of(s@)[out@.len() + k]
                == #[trigger] rest[k] by {
                assert(lines_acc(s@, i as int, start as int)[k + 1] == rest[k]);
            }
            i += 1;
            start = i;
        } else {
            i += 1;
        }
    }
    if start < s.len() {
        let seg = slice_chars(s, start, s.len());
        assert(lines_of(s@)[out@.len() as int] == lines_acc(s@, i as int, start as int)[0]);
        out.push(seg);
    }
    out
}

/// `needle` occurs in `hay` at index `i`.
pub open spec fn occurs_at(hay: Seq<char>, needle: Seq<char>, i: int) -> bool {
    0 <= i && i + needle.len() <= hay.len() && hay.subrange(i, i + needle.len()) == needle
}

/// `needle` occurs somewhere in `hay`, as `str::contains` tests it.
pub open spec fn contains_of(hay: Seq<char>, needle: Seq<char>) -> bool {
    exists|i: int| occurs_at(hay, needle, i)
}

fn matches_at(hay: &Vec<char>, needle: &Vec<char>, i: usize) -> (r: bool)
    requires
        i + needle.len() <= hay.len(),
    ensures
        r == occurs_at(hay@, needle@, i as int),
{
    let mut k: usize = 0;
    while k < needle.len()
        invariant
            k <= needle.len(),
            i + needle.len() <= hay.len(),
            hay@.subrange(i as int, i + k) == needle@.take(k as int),
        decreases needle.len() - k,
    {
        if hay[i + k] != needle[k] {
            assert(hay@.subrange(i as int, i + needle.len())[k as int] != needle@[k as int]);
            return false;
        }
        k += 1;
        assert(hay@.subrange(i as int, i + k) =~= hay@.subrange(i as int, i + k - 1).push(
            hay@[i + k - 1],
        ));
        assert(needle@.take(k as int) =~= needle@.take(k - 1).push(needle@[k - 1]));
    }
    assert(needle@.take(k as int) =~= needle@);
    true
}

/// Whether `needle` occurs in `hay`.
pub fn contains(hay: &Vec<char>, needle: &Vec<char>) -> (r: bool)
    ensures
        r == contains_of(hay@, needle@),
{
    if needle.len() > hay.len() {
        return false;
    }
    let last = hay.len() - needle.len();
    let mut i: usize = 0;
    loop
        invariant
            last == hay.len() - needle.len(),
            i <= last,
            forall|j: int| 0 <= j < i ==> !occurs_at(hay@, needle@, j),
        decreases last - i,
    {
        if matches_at(hay, needle, i) {
            return true;
        }
        if i == last {
            return false;
        }
        i += 1;
    }
}

/// `s` without every trailing occurrence of `c`, as
/// `str::trim_end_matches(c)` gives it.
pub open spec fn trim_end_char_of(s: Seq<char>, c: char) -> Seq<char>
    decreases s.len(),
{
    if s.len() > 0 && s.last() == c {
        trim_end_char_of(s.drop_last(), c)
    } else {
        s
    }
}

/// `s` without every trailing occurrence of `c`.
pub fn trim_end_char(s: &Vec<char>, c: char) -> (r: Vec<char>)
    ensures
        r@ == trim_end_char_of(s@, c),
{
    let mut j: usize = s.len();
    assert(s@.take(j as int) =~= s@);
    while j > 0 && s[j - 1] == c
        invariant
            j <= s.len(),
            trim_end_char_of(s@, c) == trim_end_char_of(s@.take(j as int), c),
        decreases j,
    {
        assert(s@.take(j as int).drop_last() =~= s@.take(j - 1));
        j -= 1;
    }
    let r = slice_chars(s, 0, j);
    assert(r@ =~= s@.take(j as int));
    r
}

/// Whether `c` is a decimal digit.
pub open spec fn is_digit(c: char) -> bool {
    '0' <= c && c <= '9'
}

/// The value of a decimal digit.
pub open spec fn digit_value(c: char) -> int {
    (c as u32) - ('0' as u32)
}

/// The number that the decimal digits `s` spell.
pub open spec fn decimal_value(s: Seq<char>) -> int
    decreases s.len(),
{
    if s.len() == 0 {
        0
    } else {
        decimal_value(s.drop_last()) * 10 + digit_value(s.last())
    }
}

/// The digits of a `u64` as `u64::from_str` reads them: an optional `+`
/// followed by the rest.
pub open spec fn unsigned_digits(s: Seq<char>) -> Seq<char> {
    if s.len() > 0 && s[0] == '+' {
        s.skip(1)
    } else {
        s
    }
}

/// What `u64::from_str` accepts: an optional `+`, then one or more decimal
/// digits whose value fits in a `u64`.
pub open spec fn parse_u64_of(s: Seq<char>) -> Option<u64> {
    let d = unsigned_digits(s);
    if d.len() > 0 && (forall|i: int| 0 <= i < d.len() ==> is_digit(#[trigger] d[i]))
        && decimal_value(d) <= u64::MAX {
        Some(decimal_value(d) as u64)
    } else {
        None
    }
}

proof fn lemma_decimal_value_monotone(d: Seq<char>, i: int, j: int)
    requires
        0 <= i <= j <= d.len(),
        forall|k: int| 0 <= k < d.len() ==> is_digit(#[trigger] d[k]),
    ensures
        0 <= decimal_value(d.take(i)) <= decimal_value(d.take(j)),
    decreases j - i,
{
    if i == j {
        lemma_decimal_value_nonneg(d.take(i));
    } else {
        lemma_decimal_value_monotone(d, i, j - 1);
        assert(d.take(j).drop_last() =~= d.take(j - 1));
        assert(is_digit(d[j - 1]));
    }
}

proof fn lemma_decimal_value_nonneg(d: Seq<char>)
    requires
        forall|k: int| 0 <= k < d.len() ==> is_digit(#[trigger] d[k]),
    ensures
        0 <= decimal_value(d),
    decreases d.len(),
{
    if d.len() > 0 {
        let e = d.drop_last();
        assert forall|k: int| 0 <= k < e.len() implies is_digit(#[trigger] e[k]) by {
            assert(e[k] == d[k]);
        }
        lemma_decimal_value_nonneg(e);
        assert(is_digit(d[d.len() - 1]));
    }
}

/// Reads a `u64` the way `u64::from_str` does (see `parse_u64_of`).
pub fn parse_u64(s: &Vec<char>) -> (r: Option<u64>)
    ensures
        r == parse_u64_of(s@),
{
    let start: usize = if s.len() > 0 && s[0] == '+' {
        1
    } else {
        0
    };
    let d = slice_chars(s, start, s.len());
    assert(d@ =~= unsigned_digits(s@));
    if d.len() == 0 {
        return None;
    }
    let mut i: usize = 0;
    while i < d.len()
        invariant
            i <= d.len(),
            d@ == unsigned_digits(s@),
            forall|k: int| 0 <= k < i ==> is_digit(#[trigger] d@[k]),
        decreases d.len() - i,
    {
        if !('0' <= d[i] && d[i] <= '9') {
            assert(!is_digit(d@[i as int]));
            return None;
        }
        i += 1;
    }
    let mut v: u64 = 0;
    let mut i: usize = 0;
    while i < d.len()
        invariant
            i <= d.len(),
            d@ == unsigned_digits(s@),
            forall|k: int| 0 <= k < d.len() ==> is_digit(#[trigger] d@[k]),
            v == decimal_value(d@.take(i as int)),
        decreases d.len() - i,
    {
        let c = d[i];
        assert(is_digit(d@[i as int]));
        let dv: u64 = ((c as u32) - ('0' as u32)) as u64;
        assert(d@.take(i + 1).drop_last() =~= d@.take(i as int));
        assert(decimal_value(d@.take(i + 1)) == v * 10 + dv);
        if v > (u64::MAX - dv) / 10 {
            proof {
                assert(v * 10 + dv > u64::MAX) by (nonlinear_arith)
                    requires
                        v > (u64::MAX - dv) / 10,
                        dv <= 9,
                ;
                lemma_decimal_value_monotone(d@, i + 1, d.len() as int);
                assert(d@.take(d.len() as int) =~= d@);
            }
            return None;
        }
        proof {
            assert(v * 10 + dv <= u64::MAX) by (nonlinear_arith)
                requires
                    v <= (u64::MAX - dv) / 10,
                    dv <= 9,
            ;
        }
        v = v * 10 + dv;
        i += 1;
    }
    assert(d@.take(i as int) =~= d@);
    Some(v)
}

/// `s` padded on the right with spaces to at least `width` characters, as
/// `format!("{:<width$}", s)` gives it.
pub open spec fn pad_right_of(s: Seq<char>, width: nat) -> Seq<char> {
    if s.len() >= width {
        s
    } else {
        s + Seq::new((width - s.len()) as nat, |i: int| ' ')
    }
}

/// Appends `s`, padded on the right with spaces to `width` characters.
pub fn push_padded(dst: &mut Vec<char>, s: &Vec<char>, width: usize)
    ensures
        final(dst)@ == old(dst)@ + pad_right_of(s@, width as nat),
{
    extend_chars(dst, s);
    let mut n: usize = s.len();
    let ghost base = dst@;
    while n < width
        invariant
            s.len() <= n || width <= s.len(),
            base == old(dst)@ + s@,
            n >= s.len(),
            n <= width ==> dst@ == base + Seq::new((n - s.len()) as nat, |i: int| ' '),
            n > width ==> n == s.len(),
            n > width ==> dst@ == base,
        decreases width - n,
    {
        dst.push(' ');
        n += 1;
        assert(dst@ =~= base + Seq::new((n - s.len()) as nat, |i: int| ' '));
    }
    if s.len() < width {
        assert(dst@ =~= old(dst)@ + pad_right_of(s@, width as nat));
    } else {
        assert(dst@ =~= old(dst)@ + pad_right_of(s@, width as nat));
    }
}

/// The character of decimal digit `d`.
pub open spec fn digit_char(d: int) -> char {
    (d + 48) as char
}

/// The character of decimal digit `d`.
pub fn digit_to_char(d: u8) -> (c: char)
    requires
        d < 10,
    ensures
        c == digit_char(d as int),
{
    match d {
        0 => '0',
        1 => '1',
        2 => '2',
        3 => '3',
        4 => '4',
        5 => '5',
        6 => '6',
        7 => '7',
        8 => '8',
        _ => '9',
    }
}

/// `n` in decimal, padded with zeros to at least two digits, as
/// `format!("{:02}", n)` gives it.
pub open spec fn two_digits_of(n: int) -> Seq<char> {
    if n < 10 {
        seq!['0', digit_char(n)]
    } else if n < 100 {
        seq![digit_char(n / 10), digit_char(n % 10)]
    } else {
        seq![digit_char(n / 100), digit_char((n / 10) % 10), digit_char(n % 10)]
    }
}

/// Appends `n` in decimal, padded with zeros to at least two digits.
pub fn push_two_digits(dst: &mut Vec<char>, n: u8)
    ensures
        final(dst)@ == old(dst)@ + two_digits_of(n as int),
{
    if n < 10 {
        dst.push('0');
        dst.push(digit_to_char(n));
    } else if n < 100 {
        dst.push(digit_to_char(n / 10));
        dst.push(digit_to_char(n % 10));
    } else {
        dst.push(digit_to_char(n / 100));
        dst.push(digit_to_char((n / 10) % 10));
        dst.push(digit_to_char(n % 10));
    }
    assert(dst@ =~= old(dst)@ + two_digits_of(n as int));
}

} // verus!
