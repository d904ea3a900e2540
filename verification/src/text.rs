//! Text helpers: words and lines, decimal numbers, and comparison of strings.

use vstd::prelude::*;
use vstd::utf8::{decode_utf8, encode_utf8, encode_utf8_decode_utf8, encode_utf8_valid_utf8, valid_utf8};

verus! {

/// The Unicode `White_Space` property.
pub open spec fn white_space(c: char) -> bool {
    ||| '\u{9}' <= c <= '\u{d}'
    ||| c == '\u{20}'
    ||| c == '\u{85}'
    ||| c == '\u{a0}'
    ||| c == '\u{1680}'
    ||| '\u{2000}' <= c <= '\u{200a}'
    ||| c == '\u{2028}'
    ||| c == '\u{2029}'
    ||| c == '\u{202f}'
    ||| c == '\u{205f}'
    ||| c == '\u{3000}'
}

pub fn is_white_space(c: char) -> (r: bool)
    ensures
        r == white_space(c),
{
    ('\u{9}' <= c && c <= '\u{d}') || c == '\u{20}' || c == '\u{85}' || c == '\u{a0}' || c
        == '\u{1680}' || ('\u{2000}' <= c && c <= '\u{200a}') || c == '\u{2028}' || c == '\u{2029}'
        || c == '\u{202f}' || c == '\u{205f}' || c == '\u{3000}'
}

/// How many characters stand before the first white space of `s`.
pub open spec fn word_len(s: Seq<char>) -> nat
    decreases s.len(),
{
    if s.len() == 0 || white_space(s[0]) {
        0
    } else {
        1 + word_len(s.skip(1))
    }
}

pub proof fn lemma_word_len(s: Seq<char>)
    ensures
        word_len(s) <= s.len(),
    decreases s.len(),
{
    if s.len() > 0 && !white_space(s[0]) {
        lemma_word_len(s.skip(1));
    }
}

/// The maximal runs of non-white characters of `s`, in order.
pub open spec fn words(s: Seq<char>) -> Seq<Seq<char>>
    decreases s.len(),
{
    if s.len() == 0 {
        seq![]
    } else if white_space(s[0]) {
        words(s.skip(1))
    } else {
        let n = word_len(s) as int;
        proof {
            lemma_word_len(s);
        }
        seq![s.take(n)] + words(s.skip(n))
    }
}

/// How many characters stand before the first line feed of `s`.
pub open spec fn line_len(s: Seq<char>) -> nat
    decreases s.len(),
{
    if s.len() == 0 || s[0] == '\n' {
        0
    } else {
        1 + line_len(s.skip(1))
    }
}

pub proof fn lemma_line_len(s: Seq<char>)
    ensures
        line_len(s) <= s.len(),
        line_len(s) < s.len() ==> s[line_len(s) as int] == '\n',
    decreases s.len(),
{
    if s.len() > 0 && s[0] != '\n' {
        lemma_line_len(s.skip(1));
    }
}

/// The characters of a string.
pub fn chars_of(s: &str) -> (r: Vec<char>)
    ensures
        r@ == s@,
{
    let mut out: Vec<char> = Vec::new();
    for c in it: s.chars()
        invariant
            out@ == it.seq().take(it.index() as int),
            it.seq() == s@,
    {
        out.push(c);
        assert(it.seq().take(it.index() as int + 1) == it.seq().take(it.index() as int).push(c));
    }
    assert(s@.take(s@.len() as int) == s@);
    out
}

/// `String::from_iter` on a slice of characters: the string of those characters,
/// in the same order.
#[verifier::external_body]
pub(crate) fn string_of(chars: &[char]) -> (r: String)
    ensures
        r@ == chars@,
{
    String::from_iter(chars)
}

/// `std::str::from_utf8`: the text that the bytes encode, and `None` exactly
/// where they are not valid UTF-8.
#[verifier::external_body]
pub(crate) fn utf8_text(bytes: &[u8]) -> (r: Option<&str>)
    ensures
        r is Some <==> valid_utf8(bytes@),
        r matches Some(s) ==> s@ == decode_utf8(bytes@),
{
    std::str::from_utf8(bytes).ok()
}

/// Whether two strings hold the same characters.
pub fn same_text(a: &str, b: &str) -> (r: bool)
    ensures
        r == (a@ == b@),
{
    let x = a.as_bytes();
    let y = b.as_bytes();
    proof {
        encode_utf8_decode_utf8(a@);
        encode_utf8_decode_utf8(b@);
    }
    if x.len() != y.len() {
        return false;
    }
    let mut i: usize = 0;
    while i < x.len()
        invariant
            i <= x.len(),
            x.len() == y.len(),
            x@ == encode_utf8(a@),
            y@ == encode_utf8(b@),
            x@.take(i as int) == y@.take(i as int),
        decreases x.len() - i,
    {
        if x[i] != y[i] {
            return false;
        }
        assert(x@.take(i as int + 1) == x@.take(i as int).push(x@[i as int]));
        assert(y@.take(i as int + 1) == y@.take(i as int).push(y@[i as int]));
        i += 1;
    }
    assert(x@.take(x@.len() as int) == x@);
    assert(y@.take(y@.len() as int) == y@);
    true
}

/// Views of a list of strings.
pub open spec fn views(list: Seq<String>) -> Seq<Seq<char>> {
    list.map_values(|s: String| s@)
}

/// The words of `text`.
pub fn split_words(text: &[char]) -> (r: Vec<String>)
    ensures
        views(r@) == words(text@),
{
    let mut out: Vec<String> = Vec::new();
    let mut i: usize = 0;
    assert(text@.skip(0) == text@);
    while i < text.len()
        invariant
            i <= text.len(),
            words(text@) == views(out@) + words(text@.skip(i as int)),
        decreases text.len() - i,
    {
        let ghost rest = text@.skip(i as int);
        if is_white_space(text[i]) {
            assert(rest.skip(1) == text@.skip(i as int + 1));
            i += 1;
        } else {
            let start: usize = i;
            proof {
                lemma_word_len(rest);
            }
            while i < text.len() && !is_white_space(text[i])
                invariant
                    start <= i <= text.len(),
                    rest == text@.skip(start as int),
                    word_len(rest) == (i - start) + word_len(text@.skip(i as int)),
                decreases text.len() - i,
            {
                assert(text@.skip(i as int).skip(1) == text@.skip(i as int + 1));
                i += 1;
            }
            let word = string_of(vstd::slice::slice_subrange(text, start, i));
            let ghost n = word_len(rest) as int;
            assert(n == i - start);
            assert(rest.take(n) == text@.subrange(start as int, i as int));
            assert(rest.skip(n) == text@.skip(i as int));
            let ghost before = out@;
            out.push(word);
            assert(views(out@) == views(before).push(rest.take(n)));
            assert(views(before) + (seq![rest.take(n)] + words(rest.skip(n))) == views(out@) + words(
                text@.skip(i as int),
            ));
        }
    }
    assert(text@.skip(text@.len() as int).len() == 0);
    assert(views(out@) + Seq::<Seq<char>>::empty() == views(out@));
    out
}

/// Whether `s` begins with `prefix`.
pub open spec fn starts_with(s: Seq<char>, prefix: Seq<char>) -> bool {
    prefix.len() <= s.len() && s.take(prefix.len() as int) == prefix
}

/// Whether `part` occurs somewhere in `s`.
pub open spec fn contains_text(s: Seq<char>, part: Seq<char>) -> bool {
    exists|i: int| 0 <= i <= s.len() - part.len() && #[trigger] s.subrange(i, i + part.len()) == part
}

fn occurs_at(s: &Vec<char>, part: &Vec<char>, at: usize) -> (r: bool)
    requires
        at + part@.len() <= s@.len(),
    ensures
        r == (s@.subrange(at as int, at + part@.len()) == part@),
{
    let mut k: usize = 0;
    while k < part.len()
        invariant
            k <= part.len(),
            at + part@.len() <= s.len(),
            forall|j: int| 0 <= j < k ==> s@[at + j] == part@[j],
        decreases part.len() - k,
    {
        if s[at + k] != part[k] {
            assert(s@.subrange(at as int, at + part@.len())[k as int] != part@[k as int]);
            return false;
        }
        k += 1;
    }
    assert(s@.subrange(at as int, at + part@.len()) == part@);
    true
}

pub fn has_prefix(s: &str, prefix: &str) -> (r: bool)
    ensures
        r == starts_with(s@, prefix@),
{
    let a = chars_of(s);
    let b = chars_of(prefix);
    if b.len() > a.len() {
        return false;
    }
    assert(a@.subrange(0, b@.len() as int) == a@.take(b@.len() as int));
    occurs_at(&a, &b, 0)
}

pub fn has_text(s: &str, part: &str) -> (r: bool)
    ensures
        r == contains_text(s@, part@),
{
    let a = chars_of(s);
    let b = chars_of(part);
    if b.len() > a.len() {
        return false;
    }
    let last: usize = a.len() - b.len();
    let mut i: usize = 0;
    loop
        invariant
            i <= last,
            last == a@.len() - b@.len(),
            a@ == s@,
            b@ == part@,
            forall|j: int| 0 <= j < i ==> #[trigger] a@.subrange(j, j + b@.len()) != b@,
        decreases last - i,
    {
        if occurs_at(&a, &b, i) {
            return true;
        }
        if i == last {
            return false;
        }
        i += 1;
    }
}

/// The value of a decimal digit.
pub open spec fn digit_value(c: char) -> Option<nat> {
    if '0' <= c <= '9' {
        Some((c as u32 - '0' as u32) as nat)
    } else {
        None
    }
}

/// The digit that stands for `d`, for `d` below ten.
pub open spec fn digit_char(d: nat) -> char {
    ('0' as u32 + d) as char
}

pub open spec fn all_digits(s: Seq<char>) -> bool {
    forall|i: int| 0 <= i < s.len() ==> '0' <= #[trigger] s[i] <= '9'
}

/// The number that a run of decimal digits writes, most significant digit first.
pub open spec fn digits_value(s: Seq<char>) -> nat
    decreases s.len(),
{
    if s.len() == 0 {
        0
    } else {
        digits_value(s.drop_last()) * 10 + digit_value(s.last()).unwrap_or(0)
    }
}

/// The unsigned number that `s` writes: one or more decimal digits, with an
/// optional `+` before them, and a value of at most `max`.
pub open spec fn unsigned_value(s: Seq<char>, max: nat) -> Option<nat> {
    let digits = if s.len() > 0 && s[0] == '+' {
        s.skip(1)
    } else {
        s
    };
    if digits.len() > 0 && all_digits(digits) && digits_value(digits) <= max {
        Some(digits_value(digits))
    } else {
        None
    }
}

/// A longer run of digits never writes a smaller number.
proof fn lemma_digits_grow(s: Seq<char>, i: int)
    requires
        0 <= i <= s.len(),
    ensures
        digits_value(s.take(i)) <= digits_value(s),
    decreases s.len() - i,
{
    if i == s.len() {
        assert(s.take(i) == s);
    } else {
        lemma_digits_grow(s, i + 1);
        assert(s.take(i + 1).drop_last() == s.take(i));
    }
}

/// Reads an unsigned number; see `unsigned_value`.
pub fn parse_usize(text: &str) -> (r: Option<usize>)
    ensures
        match r {
            Some(n) => unsigned_value(text@, usize::MAX as nat) == Some(n as nat),
            None => unsigned_value(text@, usize::MAX as nat) is None,
        },
{
    let chars = chars_of(text);
    let first: usize = if chars.len() > 0 && chars[0] == '+' {
        1
    } else {
        0
    };
    let ghost digits = chars@.skip(first as int);
    assert(first == 0 ==> digits == chars@);
    if chars.len() == first {
        return None;
    }
    let mut value: usize = 0;
    let mut i: usize = first;
    while i < chars.len()
        invariant
            first <= i <= chars.len(),
            digits == chars@.skip(first as int),
            digits == (if text@.len() > 0 && text@[0] == '+' {
                text@.skip(1)
            } else {
                text@
            }),
            value == digits_value(digits.take(i - first)),
            forall|j: int| 0 <= j < i - first ==> '0' <= #[trigger] digits[j] <= '9',
        decreases chars.len() - i,
    {
        let c = chars[i];
        assert(c == digits[i - first]);
        if !('0' <= c && c <= '9') {
            return None;
        }
        let d: usize = (c as u32 - '0' as u32) as usize;
        proof {
            assert(digits.take(i - first + 1).drop_last() == digits.take(i - first));
            lemma_digits_grow(digits, i - first + 1);
        }
        if value > usize::MAX / 10 || value * 10 > usize::MAX - d {
            return None;
        }
        value = value * 10 + d;
        i += 1;
    }
    assert(digits.take(digits.len() as int) == digits);
    Some(value)
}

/// The decimal digits of `n`, without leading zeros.
pub open spec fn decimal(n: nat) -> Seq<char>
    decreases n,
{
    if n < 10 {
        seq![digit_char(n)]
    } else {
        decimal(n / 10).push(digit_char(n % 10))
    }
}

fn digit(d: u64) -> (c: char)
    requires
        d < 10,
    ensures
        c == digit_char(d as nat),
{
    (48u8 + d as u8) as char
}

fn push_decimal(out: &mut Vec<char>, n: u64)
    ensures
        final(out)@ == old(out)@ + decimal(n as nat),
    decreases n,
{
    if n >= 10 {
        push_decimal(out, n / 10);
    }
    out.push(digit(n % 10));
    assert(n < 10 ==> old(out)@.push(digit_char(n as nat)) == old(out)@ + decimal(n as nat));
    assert(n >= 10 ==> (old(out)@ + decimal((n / 10) as nat)).push(digit_char((n % 10) as nat))
        == old(out)@ + decimal(n as nat));
}

/// `n` in decimal.
pub fn decimal_text(n: u64) -> (r: String)
    ensures
        r@ == decimal(n as nat),
{
    let mut out: Vec<char> = Vec::new();
    push_decimal(&mut out, n);
    string_of(out.as_slice())
}

proof fn lemma_digit_char(d: nat)
    requires
        d < 10,
    ensures
        digit_value(digit_char(d)) == Some(d),
        '0' <= digit_char(d) <= '9',
{
}

/// Reading back what `decimal` writes gives the number itself.
pub proof fn decimal_reads_back(n: nat, max: nat)
    requires
        n <= max,
    ensures
        unsigned_value(decimal(n), max) == Some(n),
{
    lemma_decimal(n);
    assert(decimal(n)[0] != '+');
}

proof fn lemma_decimal(n: nat)
    ensures
        decimal(n).len() > 0,
        all_digits(decimal(n)),
        digits_value(decimal(n)) == n,
    decreases n,
{
    lemma_digit_char(n % 10);
    if n >= 10 {
        lemma_decimal(n / 10);
        assert(decimal(n).drop_last() == decimal(n / 10));
    } else {
        assert(digits_value(decimal(n).drop_last()) == 0);
    }
}

/// `a` stands before `b` in the order of strings: the first difference decides by
/// code point, and a proper prefix comes first.
pub open spec fn text_lt(a: Seq<char>, b: Seq<char>) -> bool
    decreases b.len(),
{
    if b.len() == 0 {
        false
    } else if a.len() == 0 {
        true
    } else if a[0] != b[0] {
        a[0] < b[0]
    } else {
        text_lt(a.skip(1), b.skip(1))
    }
}

pub proof fn text_lt_is_transitive(a: Seq<char>, b: Seq<char>, c: Seq<char>)
    requires
        text_lt(a, b),
        text_lt(b, c),
    ensures
        text_lt(a, c),
    decreases c.len(),
{
    if a.len() > 0 && a[0] == b[0] && b[0] == c[0] {
        text_lt_is_transitive(a.skip(1), b.skip(1), c.skip(1));
    }
}

proof fn lemma_text_lt_irreflexive(a: Seq<char>)
    ensures
        !text_lt(a, a),
    decreases a.len(),
{
    if a.len() > 0 {
        lemma_text_lt_irreflexive(a.skip(1));
    }
}

/// Of two different strings exactly one stands before the other.
pub proof fn text_lt_is_total(a: Seq<char>, b: Seq<char>)
    ensures
        a == b || text_lt(a, b) || text_lt(b, a),
        !(text_lt(a, b) && text_lt(b, a)),
        !text_lt(a, a),
    decreases a.len() + b.len(),
{
    lemma_text_lt_irreflexive(a);
    if a.len() > 0 && b.len() > 0 && a[0] == b[0] {
        text_lt_is_total(a.skip(1), b.skip(1));
        if a.skip(1) == b.skip(1) {
            assert(a == seq![a[0]] + a.skip(1));
            assert(b == seq![b[0]] + b.skip(1));
        }
    } else if a.len() == 0 && b.len() == 0 {
        assert(a == b);
    }
}

/// Whether `a` stands before `b`.
pub fn text_before(a: &str, b: &str) -> (r: bool)
    ensures
        r == text_lt(a@, b@),
{
    let x = chars_of(a);
    let y = chars_of(b);
    let mut i: usize = 0;
    assert(x@.skip(0) == x@);
    assert(y@.skip(0) == y@);
    loop
        invariant
            i <= x.len(),
            i <= y.len(),
            text_lt(x@, y@) == text_lt(x@.skip(i as int), y@.skip(i as int)),
            x@ == a@,
            y@ == b@,
        decreases x.len() - i,
    {
        if i >= y.len() {
            return false;
        }
        if i >= x.len() {
            return true;
        }
        if x[i] != y[i] {
            return x[i] < y[i];
        }
        assert(x@.skip(i as int).skip(1) == x@.skip(i as int + 1));
        assert(y@.skip(i as int).skip(1) == y@.skip(i as int + 1));
        i += 1;
    }
}

/// A word: one or more characters, none of them white.
pub open spec fn is_word(w: Seq<char>) -> bool {
    w.len() > 0 && forall|i: int| 0 <= i < w.len() ==> !white_space(#[trigger] w[i])
}

proof fn lemma_word_before(w: Seq<char>, tail: Seq<char>)
    requires
        forall|i: int| 0 <= i < w.len() ==> !white_space(#[trigger] w[i]),
        tail.len() == 0 || white_space(tail[0]),
    ensures
        word_len(w + tail) == w.len(),
    decreases w.len(),
{
    let all = w + tail;
    if w.len() > 0 {
        assert(all.skip(1) =~= w.skip(1) + tail);
        assert forall|i: int| 0 <= i < w.skip(1).len() implies !white_space(
            #[trigger] w.skip(1)[i],
        ) by {
            assert(w.skip(1)[i] == w[i + 1]);
        }
        lemma_word_before(w.skip(1), tail);
        assert(all[0] == w[0]);
    } else {
        assert(all =~= tail);
    }
}

/// Words that are written one after the other, each but the last followed by white
/// space, are read back as they are: the first word of such a line is the first of its
/// words, and what follows gives the others. White space at the beginning does not
/// count, and a line without a word has none.
pub proof fn written_words_are_read_back(w: Seq<char>, gap: char, rest: Seq<char>)
    requires
        is_word(w),
        white_space(gap),
    ensures
        words(w + seq![gap] + rest) == seq![w] + words(rest),
        words(w) == seq![w],
        words(seq![gap] + rest) == words(rest),
        words(Seq::<char>::empty()).len() == 0,
{
    reveal_with_fuel(words, 3);
    let tail = seq![gap] + rest;
    let all = w + tail;
    assert(!white_space(w[0]));
    assert(w + seq![gap] + rest =~= all);
    assert(tail.skip(1) =~= rest);
    assert(tail[0] == gap);
    lemma_word_before(w, tail);
    assert(all[0] == w[0]);
    assert(all.take(w.len() as int) =~= w);
    assert(all.skip(w.len() as int) =~= tail);
    lemma_word_before(w, Seq::<char>::empty());
    assert(w + Seq::<char>::empty() =~= w);
    assert(w.take(w.len() as int) =~= w);
    assert(w.skip(w.len() as int).len() == 0);
    assert(words(w) =~= seq![w]);
}

/// A line ends where its line feed stands.
pub proof fn lines_end_at_their_feed(line: Seq<char>, rest: Seq<char>)
    requires
        forall|i: int| 0 <= i < line.len() ==> #[trigger] line[i] != '\n',
    ensures
        line_len(line + seq!['\n'] + rest) == line.len(),
        line_len(line) == line.len(),
    decreases line.len(),
{
    let all = line + seq!['\n'] + rest;
    if line.len() > 0 {
        assert(all.skip(1) =~= line.skip(1) + seq!['\n'] + rest);
        assert forall|i: int| 0 <= i < line.skip(1).len() implies #[trigger] line.skip(1)[i]
            != '\n' by {
            assert(line.skip(1)[i] == line[i + 1]);
        }
        lines_end_at_their_feed(line.skip(1), rest);
        assert(all[0] == line[0]);
    } else {
        assert(all[0] == '\n');
    }
}

/// White is what separates words on a line, and line ends: tabs, line feeds, returns
/// and spaces are white, and what can be printed in ASCII is not.
pub proof fn printable_text_is_not_white(c: char)
    ensures
        '\u{21}' <= c <= '\u{7e}' ==> !white_space(c),
        c == ' ' || c == '\t' || c == '\n' || c == '\r' ==> white_space(c),
{
}

/// The digits of a number are decimal digits, and nothing but them; numbers that differ
/// are written differently.
pub proof fn decimals_are_digits(n: nat, m: nat)
    ensures
        decimal(n).len() > 0,
        all_digits(decimal(n)),
        is_word(decimal(n)),
        n != m ==> decimal(n) != decimal(m),
        n > 0 ==> decimal(n)[0] != '0',
{
    lemma_decimal(n);
    lemma_decimal(m);
    lemma_leading_digit(n);
}

proof fn lemma_leading_digit(n: nat)
    ensures
        n > 0 ==> decimal(n)[0] != '0',
        decimal(n).len() > 0,
    decreases n,
{
    if n >= 10 {
        lemma_leading_digit(n / 10);
    }
}

/// Texts are ordered by the first place in which they differ, there by code point; a
/// text that ends first stands first.
pub proof fn the_first_difference_decides(
    common: Seq<char>,
    a: Seq<char>,
    b: Seq<char>,
    x: char,
    y: char,
)
    ensures
        (x as u32) < (y as u32) ==> text_lt(common + seq![x] + a, common + seq![y] + b),
        (x as u32) < (y as u32) ==> !text_lt(common + seq![y] + b, common + seq![x] + a),
        text_lt(common, common + seq![x] + a),
        !text_lt(common + seq![x] + a, common),
        !text_lt(common, common),
    decreases common.len(),
{
    let p = common + seq![x] + a;
    let q = common + seq![y] + b;
    if common.len() > 0 {
        let rest = common.skip(1);
        the_first_difference_decides(rest, a, b, x, y);
        assert(p.skip(1) =~= rest + seq![x] + a);
        assert(q.skip(1) =~= rest + seq![y] + b);
        assert(p[0] == common[0] && q[0] == common[0]);
    } else {
        assert(p[0] == x && q[0] == y);
    }
    text_lt_is_total(p, q);
    text_lt_is_total(p, common);
    text_lt_is_total(common, common);
}

/// A number is read digit by digit: one digit more makes it ten times as large and adds
/// the digit. A plus sign before it changes nothing, and anything but digits is no
/// number.
pub proof fn numbers_are_read_digit_by_digit(
    s: &str,
    t: &str,
    r: Option<usize>,
    more: Option<usize>,
    c: char,
    i: int,
)
    requires
        call_ensures(parse_usize, (s,), r),
        call_ensures(parse_usize, (t,), more),
        r is Some,
    ensures
        t@ == s@.push(c) && '0' <= c <= '9' ==> {
            let n = 10 * r->0 + (c as u32 - 48);
            more == if n <= usize::MAX {
                Some(n as usize)
            } else {
                None
            }
        },
        t@ == s@.push(c) && !('0' <= c <= '9') ==> more is None,
        s@.len() > 0 && s@[0] != '+' && t@ == seq!['+'] + s@ ==> more == r,
        s@.len() > 0,
        0 < i < s@.len() ==> '0' <= s@[i] <= '9',
        s@ == seq![c] ==> '0' <= c <= '9' && r == Some((c as u32 - 48) as usize),
{
    if s@.len() > 0 && s@[0] == '+' && 0 < i < s@.len() {
        assert(s@.skip(1)[i - 1] == s@[i]);
    }
    if t@ == s@.push(c) {
        let plus = s@[0] == '+';
        let d = if plus {
            s@.skip(1)
        } else {
            s@
        };
        let e = if plus {
            t@.skip(1)
        } else {
            t@
        };
        assert(t@[0] == s@[0]);
        assert(e =~= d.push(c));
        assert(e.drop_last() =~= d);
        assert(e.last() == c);
        if '0' <= c <= '9' {
            assert forall|k: int| 0 <= k < e.len() implies '0' <= #[trigger] e[k] <= '9' by {
                if k < d.len() {
                    assert(e[k] == d[k]);
                }
            }
        } else {
            assert(!('0' <= e[d.len() as int] <= '9'));
        }
    }
    if t@ == seq!['+'] + s@ {
        assert(t@[0] == '+');
        assert(t@.skip(1) =~= s@);
    }
    if s@ == seq![c] {
        assert(s@.skip(1).len() == 0);
        assert(s@[0] == c);
        assert(s@.drop_last().len() == 0);
        reveal_with_fuel(digits_value, 2);
    }
}

/// A number is written with its last digit last: ten times a number and a digit is that
/// number with the digit behind it, and below ten the digit alone.
pub proof fn numbers_are_written_digit_by_digit(n: u64, m: u64, a: String, b: String)
    requires
        call_ensures(decimal_text, (n,), a),
        call_ensures(decimal_text, (m,), b),
    ensures
        n < 10 ==> a@.len() == 1 && a@[0] as u32 == 48 + n,
        n > 0 && m / 10 == n ==> b@ == a@.push((48 + m % 10) as char),
{
    if n > 0 && m / 10 == n {
        assert(decimal(m as nat) == decimal(n as nat).push(digit_char((m % 10) as nat)));
        assert(digit_char((m % 10) as nat) == (48 + m % 10) as char);
    }
}

/// A text begins with a prefix exactly where the prefix with something behind it makes
/// the text, and holds a part exactly where the part with something on both sides does.
pub proof fn parts_are_found(
    s: &str,
    part: &str,
    prefix: bool,
    inside: bool,
    before: Seq<char>,
    behind: Seq<char>,
)
    requires
        call_ensures(has_prefix, (s, part), prefix),
        call_ensures(has_text, (s, part), inside),
    ensures
        s@ == part@ + behind ==> prefix,
        s@ == before + part@ + behind ==> inside,
        prefix ==> s@ == part@ + s@.skip(part@.len() as int),
        prefix ==> inside,
        inside ==> exists|i: int|
            0 <= i && i + part@.len() <= s@.len() && s@ == #[trigger] s@.take(i) + part@ + s@.skip(
                i + part@.len(),
            ),
        part@.len() > s@.len() ==> !prefix && !inside,
{
    let n = part@.len() as int;
    if s@ == part@ + behind {
        assert(s@.take(n) =~= part@);
    }
    if s@ == before + part@ + behind {
        assert(s@.subrange(before.len() as int, before.len() + n) =~= part@);
    }
    if prefix {
        assert(s@ =~= s@.take(n) + s@.skip(n));
        assert(s@.subrange(0, 0 + n) =~= part@);
    }
    if inside {
        let i = choose|i: int|
            0 <= i <= s@.len() - part@.len() && #[trigger] s@.subrange(i, i + part@.len()) == part@;
        assert(s@ =~= s@.take(i) + s@.subrange(i, i + part@.len()) + s@.skip(i + part@.len()));
    }
}

/// A text is split into its words: a word with white space and more behind it is the
/// first, and what is behind it gives the others.
pub proof fn texts_are_split_at_white_space(
    all: &[char],
    rest: &[char],
    w: Seq<char>,
    gap: char,
    r: Vec<String>,
    s: Vec<String>,
)
    requires
        call_ensures(split_words, (all,), r),
        call_ensures(split_words, (rest,), s),
        is_word(w),
        white_space(gap),
    ensures
        all@ == w + seq![gap] + rest@ ==> views(r@) == seq![w] + views(s@),
        all@ == seq![gap] + rest@ ==> views(r@) == views(s@),
        all@ == w ==> views(r@) == seq![w],
{
    written_words_are_read_back(w, gap, rest@);
}

/// One text stands before another exactly by the first place in which they differ; see
/// `the_first_difference_decides`.
pub proof fn texts_stand_in_order(
    a: &str,
    b: &str,
    r: bool,
    common: Seq<char>,
    x: char,
    y: char,
    behind: Seq<char>,
    behind_2: Seq<char>,
)
    requires
        call_ensures(text_before, (a, b), r),
    ensures
        a@ == common + seq![x] + behind && b@ == common + seq![y] + behind_2 && (x as u32) < (
        y as u32) ==> r,
        a@ == common + seq![x] + behind && b@ == common + seq![y] + behind_2 && (x as u32) > (
        y as u32) ==> !r,
        a@ == common && b@ == common + seq![x] + behind ==> r,
        b@ == common && a@ == common + seq![x] + behind ==> !r,
        a@ == b@ ==> !r,
{
    the_first_difference_decides(common, behind, behind_2, x, y);
    the_first_difference_decides(common, behind_2, behind, y, x);
    text_lt_is_total(a@, b@);
}

} // verus!
