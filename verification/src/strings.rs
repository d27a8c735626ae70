//! Text primitives: trimming, ASCII case, searching, splitting and numbers.
//!
//! A text is modelled as the sequence of its characters. Every function here
//! says what it returns over that sequence, so that the rest of the library can
//! state its own rules without speaking of bytes or iterators.
use vstd::prelude::*;
use vstd::string::{StrSliceExecFns, StringExecFns};

verus! {

/// `String::push` of the standard library: appends one character at the end.
pub assume_specification[ String::push ](text: &mut String, c: char)
    ensures
        final(text)@ == old(text)@.push(c),
;

/// A set of characters that a text can be trimmed of.
#[derive(Clone, Copy, Debug, PartialEq, Eq)]
pub enum CharClass {
    /// The characters with the Unicode `White_Space` property.
    WhiteSpace,
    /// Exactly this character.
    Only(char),
    /// Either of these characters.
    Either(char, char),
}

/// The Unicode `White_Space` property.
pub open spec fn white_space(c: char) -> bool {
    ||| '\u{9}' <= c <= '\u{d}'
    ||| c == '\u{20}'
    ||| c == '\u{85}'
    ||| c == '\u{a0}'
    ||| c == '\u{1680}'
    ||| '\u{2000}' <= c <= '\u{200a}'
    ||| c == '\u{2028}'
    ||| c == '\u{2029}'
    ||| c == '\u{202f}'
    ||| c == '\u{205f}'
    ||| c == '\u{3000}'
}

/// Membership in a [`CharClass`].
pub open spec fn in_class(class: CharClass, c: char) -> bool {
    match class {
        CharClass::WhiteSpace => white_space(c),
        CharClass::Only(a) => c == a,
        CharClass::Either(a, b) => c == a || c == b,
    }
}

/// `s` without its longest prefix of characters in `class`.
pub open spec fn without_prefix(s: Seq<char>, class: CharClass) -> Seq<char>
    decreases s.len(),
{
    if s.len() > 0 && in_class(class, s[0]) {
        without_prefix(s.drop_first(), class)
    } else {
        s
    }
}

/// `s` without its longest suffix of characters in `class`.
pub open spec fn without_suffix(s: Seq<char>, class: CharClass) -> Seq<char>
    decreases s.len(),
{
    if s.len() > 0 && in_class(class, s.last()) {
        without_suffix(s.drop_last(), class)
    } else {
        s
    }
}

/// `s` without the characters in `class` at either end.
pub open spec fn stripped(s: Seq<char>, class: CharClass) -> Seq<char> {
    without_suffix(without_prefix(s, class), class)
}

/// `s` without white space at either end.
pub open spec fn trimmed(s: Seq<char>) -> Seq<char> {
    stripped(s, CharClass::WhiteSpace)
}

/// An ASCII capital as its small letter; any other character as it is.
pub open spec fn lower(c: char) -> char {
    if 'A' <= c <= 'Z' {
        (c as u32 + 32) as char
    } else {
        c
    }
}

/// `s` with its ASCII capitals turned into small letters.
pub open spec fn ascii_lower(s: Seq<char>) -> Seq<char> {
    s.map_values(|c: char| lower(c))
}

/// Where `c` first occurs in `s`; the length of `s` where it does not.
pub open spec fn find(s: Seq<char>, c: char) -> int
    decreases s.len(),
{
    if s.len() == 0 || s[0] == c {
        0
    } else {
        1 + find(s.drop_first(), c)
    }
}

/// The part of `s` before the first `c`: all of it where there is none.
pub open spec fn before(s: Seq<char>, c: char) -> Seq<char> {
    s.take(find(s, c))
}

/// The part of `s` behind the first `c`, for an `s` that holds one.
pub open spec fn behind(s: Seq<char>, c: char) -> Seq<char> {
    s.skip(find(s, c) + 1)
}

/// The pieces of `s` between its line feeds.
pub open spec fn lines(s: Seq<char>) -> Seq<Seq<char>>
    decreases s.len(),
    via lines_shrink
{
    if find(s, '\n') == s.len() {
        seq![s]
    } else {
        seq![before(s, '\n')] + lines(behind(s, '\n'))
    }
}

#[via_fn]
proof fn lines_shrink(s: Seq<char>) {
    lemma_find(s, '\n');
}

/// `needle` occurs in `s` as an unbroken run.
pub open spec fn occurs(s: Seq<char>, needle: Seq<char>) -> bool {
    exists|i: int|
        0 <= i <= s.len() - needle.len() && #[trigger] s.subrange(i, i + needle.len()) == needle
}

/// `parts` in order, with `separator` between each two neighbours.
pub open spec fn joined(parts: Seq<Seq<char>>, separator: Seq<char>) -> Seq<char>
    decreases parts.len(),
{
    if parts.len() == 0 {
        Seq::empty()
    } else if parts.len() == 1 {
        parts[0]
    } else {
        joined(parts.drop_last(), separator) + separator + parts.last()
    }
}

/// The views of a sequence of owned texts.
pub open spec fn texts(parts: Seq<String>) -> Seq<Seq<char>> {
    parts.map_values(|part: String| part@)
}

/// The view of an optional borrowed text.
pub open spec fn text_of(text: Option<&str>) -> Option<Seq<char>> {
    match text {
        Some(text) => Some(text@),
        None => None,
    }
}

/// The view of an optional owned text.
pub open spec fn string_of(text: Option<String>) -> Option<Seq<char>> {
    match text {
        Some(text) => Some(text@),
        None => None,
    }
}

/// An ASCII decimal digit.
pub open spec fn is_digit(c: char) -> bool {
    '0' <= c <= '9'
}

/// The digit that stands for `n`, for an `n` below ten.
pub open spec fn digit(n: int) -> char {
    (n + '0' as int) as char
}

/// The number that a run of decimal digits stands for.
pub open spec fn digits_value(s: Seq<char>) -> int
    decreases s.len(),
{
    if s.len() == 0 {
        0
    } else {
        digits_value(s.drop_last()) * 10 + (s.last() as int - '0' as int)
    }
}

/// `s` without one leading plus sign.
pub open spec fn without_plus(s: Seq<char>) -> Seq<char> {
    if s.len() > 0 && s[0] == '+' {
        s.drop_first()
    } else {
        s
    }
}

/// `s` is an unsigned decimal number of at most `max`, with an optional plus
/// sign before its digits.
pub open spec fn is_number_upto(s: Seq<char>, max: int) -> bool {
    let digits = without_plus(s);
    &&& digits.len() > 0
    &&& forall|i: int| 0 <= i < digits.len() ==> is_digit(#[trigger] digits[i])
    &&& digits_value(digits) <= max
}

/// The decimal form of `n`, without leading zeros.
pub open spec fn decimal(n: nat) -> Seq<char>
    decreases n,
{
    if n < 10 {
        seq![digit(n as int)]
    } else {
        decimal(n / 10).push(digit((n % 10) as int))
    }
}

/// The decimal form of `n`, with a minus sign where it is negative.
pub open spec fn signed_decimal(n: int) -> Seq<char> {
    if n < 0 {
        seq!['-'] + decimal((-n) as nat)
    } else {
        decimal(n as nat)
    }
}

/// [`find`] points at the first occurrence, or behind the last character.
pub proof fn lemma_find(s: Seq<char>, c: char)
    ensures
        0 <= find(s, c) <= s.len(),
        find(s, c) < s.len() ==> s[find(s, c)] == c,
        forall|i: int| 0 <= i < find(s, c) ==> s[i] != c,
    decreases s.len(),
{
    if s.len() > 0 && s[0] != c {
        lemma_find(s.drop_first(), c);
        assert forall|i: int| 0 <= i < find(s, c) implies s[i] != c by {
            if i > 0 {
                assert(s[i] == s.drop_first()[i - 1]);
            }
        }
    }
}

/// The first occurrence is where [`find`] says.
proof fn lemma_find_is(s: Seq<char>, c: char, at: int)
    requires
        0 <= at <= s.len(),
        at < s.len() ==> s[at] == c,
        forall|i: int| 0 <= i < at ==> s[i] != c,
    ensures
        find(s, c) == at,
{
    lemma_find(s, c);
}

/// The prefix that [`without_prefix`] takes off ends at the first character
/// outside the class.
proof fn lemma_without_prefix_is(s: Seq<char>, class: CharClass, at: int)
    requires
        0 <= at <= s.len(),
        at < s.len() ==> !in_class(class, s[at]),
        forall|i: int| 0 <= i < at ==> in_class(class, s[i]),
    ensures
        without_prefix(s, class) == s.skip(at),
    decreases at,
{
    if at > 0 {
        assert(in_class(class, s[0]));
        assert forall|i: int| 0 <= i < at - 1 implies in_class(class, s.drop_first()[i]) by {
            assert(s.drop_first()[i] == s[i + 1]);
        }
        lemma_without_prefix_is(s.drop_first(), class, at - 1);
        assert(s.drop_first().skip(at - 1) =~= s.skip(at));
    } else {
        assert(s.skip(0) =~= s);
    }
}

/// The suffix that [`without_suffix`] takes off starts behind the last
/// character outside the class.
proof fn lemma_without_suffix_is(s: Seq<char>, class: CharClass, end: int)
    requires
        0 <= end <= s.len(),
        end > 0 ==> !in_class(class, s[end - 1]),
        forall|i: int| end <= i < s.len() ==> in_class(class, s[i]),
    ensures
        without_suffix(s, class) == s.take(end),
    decreases s.len(),
{
    if end < s.len() {
        assert(in_class(class, s.last()));
        lemma_without_suffix_is(s.drop_last(), class, end);
        assert(s.drop_last().take(end) =~= s.take(end));
    } else {
        assert(s.take(end) =~= s);
    }
}

/// What is left of a text trimmed of a class at both ends neither starts nor
/// ends with a character of that class, and trimming it again changes nothing.
pub proof fn law_trimming_is_complete(s: Seq<char>, class: CharClass)
    ensures
        stripped(s, class).len() <= s.len(),
        stripped(s, class).len() > 0 ==> !in_class(class, stripped(s, class)[0]),
        stripped(s, class).len() > 0 ==> !in_class(class, stripped(s, class).last()),
        stripped(stripped(s, class), class) == stripped(s, class),
{
    lemma_prefix_is_bare(s, class);
    lemma_suffix_is_bare(without_prefix(s, class), class);
}

proof fn lemma_prefix_is_bare(s: Seq<char>, class: CharClass)
    ensures
        without_prefix(s, class).len() <= s.len(),
        without_prefix(s, class).len() > 0 ==> !in_class(class, without_prefix(s, class)[0]),
    decreases s.len(),
{
    if s.len() > 0 && in_class(class, s[0]) {
        lemma_prefix_is_bare(s.drop_first(), class);
    }
}

proof fn lemma_suffix_is_bare(s: Seq<char>, class: CharClass)
    ensures
        without_suffix(s, class).len() <= s.len(),
        without_suffix(s, class).len() > 0 ==> !in_class(class, without_suffix(s, class).last()),
        without_suffix(s, class).len() > 0 ==> without_suffix(s, class)[0] == s[0],
    decreases s.len(),
{
    if s.len() > 0 && in_class(class, s.last()) {
        lemma_suffix_is_bare(s.drop_last(), class);
    }
}

/// Whether `c` belongs to `class`.
pub fn is_in_class(class: CharClass, c: char) -> (member: bool)
    ensures
        member == in_class(class, c),
{
    match class {
        CharClass::WhiteSpace => ('\u{9}' <= c && c <= '\u{d}') || c == '\u{20}' || c == '\u{85}'
            || c == '\u{a0}' || c == '\u{1680}' || ('\u{2000}' <= c && c <= '\u{200a}')
            || c == '\u{2028}' || c == '\u{2029}' || c == '\u{202f}' || c == '\u{205f}'
            || c == '\u{3000}',
        CharClass::Only(a) => c == a,
        CharClass::Either(a, b) => c == a || c == b,
    }
}

/// The characters of `text`, one by one.
pub fn chars_of(text: &str) -> (chars: Vec<char>)
    ensures
        chars@ == text@,
{
    let mut chars: Vec<char> = Vec::new();
    for c in it: text.chars()
        invariant
            chars@ == text@.take(it.index() as int),
            it.seq() == text@,
    {
        chars.push(c);
    }
    chars
}

/// `text` without its leading characters of `class`.
pub fn trim_start_of(text: &str, class: CharClass) -> (rest: &str)
    ensures
        rest@ == without_prefix(text@, class),
{
    let chars = chars_of(text);
    let mut start: usize = 0;
    while start < chars.len() && is_in_class(class, chars[start])
        invariant
            chars@ == text@,
            start <= chars.len(),
            forall|i: int| 0 <= i < start ==> in_class(class, text@[i]),
        decreases chars.len() - start,
    {
        start = start + 1;
    }
    proof {
        lemma_without_prefix_is(text@, class, start as int);
    }
    text.substring_char(start, chars.len())
}

/// `text` without its trailing characters of `class`.
pub fn trim_end_of(text: &str, class: CharClass) -> (rest: &str)
    ensures
        rest@ == without_suffix(text@, class),
{
    let chars = chars_of(text);
    let mut end: usize = chars.len();
    while end > 0 && is_in_class(class, chars[end - 1])
        invariant
            chars@ == text@,
            end <= chars.len(),
            forall|i: int| end <= i < chars.len() ==> in_class(class, text@[i]),
        decreases end,
    {
        end = end - 1;
    }
    proof {
        lemma_without_suffix_is(text@, class, end as int);
    }
    text.substring_char(0, end)
}

/// `text` without the characters of `class` at either end.
pub fn strip_of(text: &str, class: CharClass) -> (rest: &str)
    ensures
        rest@ == stripped(text@, class),
{
    trim_end_of(trim_start_of(text, class), class)
}

/// `text` without white space at either end.
pub fn trim(text: &str) -> (rest: &str)
    ensures
        rest@ == trimmed(text@),
{
    strip_of(text, CharClass::WhiteSpace)
}

/// The ASCII small letter for an ASCII capital; any other character as it is.
pub fn to_lower(c: char) -> (r: char)
    ensures
        r == lower(c),
{
    if 'A' <= c && c <= 'Z' {
        ((c as u8) + 32) as char
    } else {
        c
    }
}

/// `text` with its ASCII capitals turned into small letters.
pub fn to_ascii_lower(text: &str) -> (lowered: String)
    ensures
        lowered@ == ascii_lower(text@),
{
    let mut lowered = String::new();
    for c in it: text.chars()
        invariant
            lowered@ == ascii_lower(text@.take(it.index() as int)),
            it.seq() == text@,
    {
        lowered.push(to_lower(c));
        assert(ascii_lower(text@.take(it.index() + 1)) =~= ascii_lower(
            text@.take(it.index() as int),
        ).push(lower(c)));
    }
    assert(text@.take(text@.len() as int) =~= text@);
    lowered
}

/// Whether two texts hold the same characters.
pub fn same_text(a: &str, b: &str) -> (same: bool)
    ensures
        same == (a@ == b@),
{
    let left = chars_of(a);
    let right = chars_of(b);
    if left.len() != right.len() {
        return false;
    }
    let mut i: usize = 0;
    while i < left.len()
        invariant
            left@ == a@,
            right@ == b@,
            left.len() == right.len(),
            i <= left.len(),
            forall|k: int| 0 <= k < i ==> a@[k] == b@[k],
        decreases left.len() - i,
    {
        if left[i] != right[i] {
            return false;
        }
        i = i + 1;
    }
    assert(a@ =~= b@);
    true
}

/// Whether two texts are the same but for the case of their ASCII letters.
pub fn same_text_in_any_case(a: &str, b: &str) -> (same: bool)
    ensures
        same == (ascii_lower(a@) == ascii_lower(b@)),
{
    let left = to_ascii_lower(a);
    let right = to_ascii_lower(b);
    same_text(left.as_str(), right.as_str())
}

/// Whether `text` starts with `prefix`.
pub fn has_prefix(text: &str, prefix: &str) -> (starts: bool)
    ensures
        starts == prefix@.is_prefix_of(text@),
{
    let whole = chars_of(text);
    let start = chars_of(prefix);
    if start.len() > whole.len() {
        return false;
    }
    let mut i: usize = 0;
    while i < start.len()
        invariant
            whole@ == text@,
            start@ == prefix@,
            start.len() <= whole.len(),
            i <= start.len(),
            forall|k: int| 0 <= k < i ==> whole[k] == start[k],
        decreases start.len() - i,
    {
        if whole[i] != start[i] {
            assert(text@.subrange(0, prefix@.len() as int)[i as int] != prefix@[i as int]);
            return false;
        }
        i = i + 1;
    }
    assert(prefix@ =~= text@.subrange(0, prefix@.len() as int));
    true
}

/// Whether `needle` occurs in `text`.
pub fn has_text(text: &str, needle: &str) -> (found: bool)
    ensures
        found == occurs(text@, needle@),
{
    let len = text.unicode_len();
    let width = needle.unicode_len();
    if width > len {
        return false;
    }
    let mut at: usize = 0;
    loop
        invariant
            len == text@.len(),
            width == needle@.len(),
            width <= len,
            at <= len - width,
            forall|i: int|
                0 <= i < at ==> #[trigger] text@.subrange(i, i + needle@.len()) != needle@,
        decreases len - at,
    {
        if same_text(text.substring_char(at, at + width), needle) {
            return true;
        }
        if at == len - width {
            return false;
        }
        at = at + 1;
    }
}

/// Where `c` first occurs in `text`, in characters.
pub fn find_char(text: &str, c: char) -> (at: Option<usize>)
    ensures
        match at {
            Some(i) => i == find(text@, c) && i < text@.len(),
            None => find(text@, c) == text@.len(),
        },
{
    let chars = chars_of(text);
    let mut i: usize = 0;
    while i < chars.len()
        invariant
            chars@ == text@,
            i <= chars.len(),
            forall|k: int| 0 <= k < i ==> text@[k] != c,
        decreases chars.len() - i,
    {
        if chars[i] == c {
            proof {
                lemma_find_is(text@, c, i as int);
            }
            return Some(i);
        }
        i = i + 1;
    }
    proof {
        lemma_find_is(text@, c, i as int);
    }
    None
}

/// The parts of `text` before and behind the first `c`.
pub fn split_once(text: &str, c: char) -> (parts: Option<(&str, &str)>)
    ensures
        match parts {
            Some((head, tail)) => {
                &&& find(text@, c) < text@.len()
                &&& head@ == before(text@, c)
                &&& tail@ == behind(text@, c)
            },
            None => find(text@, c) == text@.len(),
        },
{
    match find_char(text, c) {
        Some(at) => {
            let len = text.unicode_len();
            Some((text.substring_char(0, at), text.substring_char(at + 1, len)))
        },
        None => None,
    }
}

/// The part of `text` before the first `c`: all of it where there is none.
pub fn text_before(text: &str, c: char) -> (head: &str)
    ensures
        head@ == before(text@, c),
{
    match split_once(text, c) {
        Some((head, _)) => head,
        None => {
            assert(before(text@, c) =~= text@);
            text
        },
    }
}

/// Reads an unsigned decimal number, with an optional plus sign before its
/// digits. Anything else, and a number that does not fit, is `None`.
pub fn parse_usize(text: &str) -> (number: Option<usize>)
    ensures
        match number {
            Some(n) => is_number_upto(text@, usize::MAX as int) && n == digits_value(
                without_plus(text@),
            ),
            None => !is_number_upto(text@, usize::MAX as int),
        },
{
    let chars = chars_of(text);
    let start: usize = if chars.len() > 0 && chars[0] == '+' {
        1
    } else {
        0
    };
    let ghost digits = without_plus(text@);
    assert(digits =~= text@.skip(start as int));
    if start == chars.len() {
        return None;
    }
    let mut value: usize = 0;
    let mut i: usize = start;
    while i < chars.len()
        invariant
            chars@ == text@,
            digits == text@.skip(start as int),
            digits == without_plus(text@),
            start <= i <= chars.len(),
            forall|k: int| 0 <= k < i - start ==> is_digit(#[trigger] digits[k]),
            value == digits_value(digits.take(i - start)),
        decreases chars.len() - i,
    {
        let c = chars[i];
        assert(digits[i - start] == c);
        if c < '0' || c > '9' {
            return None;
        }
        let d: usize = (c as usize) - ('0' as usize);
        assert(digits.take(i + 1 - start).drop_last() =~= digits.take(i - start));
        if value > usize::MAX / 10 || value * 10 > usize::MAX - d {
            proof {
                lemma_digits_grow(digits, i + 1 - start);
            }
            return None;
        }
        value = value * 10 + d;
        i = i + 1;
    }
    assert(digits.take(i - start) =~= digits);
    Some(value)
}

/// More digits make no smaller number.
proof fn lemma_digits_grow(s: Seq<char>, upto: int)
    requires
        0 <= upto <= s.len(),
    ensures
        (forall|i: int| 0 <= i < s.len() ==> is_digit(#[trigger] s[i])) ==> 0 <= digits_value(
            s.take(upto),
        ) <= digits_value(s),
    decreases s.len(),
{
    if upto == s.len() {
        assert(s.take(upto) =~= s);
    }
    if s.len() > 0 {
        if forall|i: int| 0 <= i < s.len() ==> is_digit(#[trigger] s[i]) {
            assert(is_digit(s[s.len() - 1]));
            assert forall|i: int| 0 <= i < s.drop_last().len() implies is_digit(
                #[trigger] s.drop_last()[i],
            ) by {
                assert(s.drop_last()[i] == s[i]);
            }
            lemma_digits_grow(s.drop_last(), if upto < s.len() { upto } else { upto - 1 });
            if upto < s.len() {
                assert(s.drop_last().take(upto) =~= s.take(upto));
            }
        }
    }
}

/// Reads `true` or `false`, in exactly these letters.
pub fn parse_bool(text: &str) -> (flag: Option<bool>)
    ensures
        flag == bool_value(text@),
{
    if same_text(text, "true") {
        Some(true)
    } else if same_text(text, "false") {
        Some(false)
    } else {
        None
    }
}

/// The truth value that a text spells.
pub open spec fn bool_value(s: Seq<char>) -> Option<bool> {
    if s == "true"@ {
        Some(true)
    } else if s == "false"@ {
        Some(false)
    } else {
        None
    }
}

/// The decimal form of `n`.
pub fn decimal_text(n: u128) -> (text: String)
    ensures
        text@ == decimal(n as nat),
    decreases n,
{
    let mut text = if n < 10 {
        String::new()
    } else {
        decimal_text(n / 10)
    };
    let last: u8 = (n % 10) as u8;
    text.push((last + 48) as char);
    text
}

/// The decimal form of `n`, with a minus sign where it is negative.
pub fn signed_decimal_text(n: i64) -> (text: String)
    ensures
        text@ == signed_decimal(n as int),
{
    if n < 0 {
        let mut text = String::new();
        text.push('-');
        let size: u128 = (-(n as i128)) as u128;
        text.append(decimal_text(size).as_str());
        assert(text@ =~= signed_decimal(n as int));
        text
    } else {
        decimal_text(n as u128)
    }
}

/// Reading the decimal form of a number gives the number back.
pub proof fn law_decimal_reads_back(n: nat)
    ensures
        digits_value(decimal(n)) == n,
        is_number_upto(decimal(n), n as int),
        without_plus(decimal(n)) == decimal(n),
    decreases n,
{
    if n >= 10 {
        let head = decimal(n / 10);
        law_decimal_reads_back(n / 10);
        assert(decimal(n).drop_last() =~= head);
        assert forall|i: int| 0 <= i < decimal(n).len() implies is_digit(
            #[trigger] decimal(n)[i],
        ) by {
            if i < head.len() {
                assert(is_digit(without_plus(head)[i]));
            }
        }
    } else {
        assert(decimal(n).drop_last() =~= Seq::<char>::empty());
        assert(digits_value(decimal(n).drop_last()) == 0);
    }
    assert(is_digit(decimal(n)[0]));
}

/// `parts` in order, with `separator` between each two neighbours.
pub fn join(parts: &Vec<String>, separator: &str) -> (text: String)
    ensures
        text@ == joined(texts(parts@), separator@),
{
    let mut text = String::new();
    let mut i: usize = 0;
    while i < parts.len()
        invariant
            i <= parts.len(),
            text@ == joined(texts(parts@).take(i as int), separator@),
        decreases parts.len() - i,
    {
        let ghost done = texts(parts@).take(i + 1);
        assert(done.drop_last() =~= texts(parts@).take(i as int));
        if i > 0 {
            text.append(separator);
        }
        text.append(parts[i].as_str());
        assert(text@ =~= joined(done, separator@));
        i = i + 1;
    }
    assert(texts(parts@).take(i as int) =~= texts(parts@));
    text
}

/// What belongs to each class: white space by its code points, and otherwise the
/// characters that the class names.
pub proof fn law_classes_hold_what_they_name(a: char, b: char, c: char)
    ensures
        in_class(CharClass::Only(a), c) <==> c == a,
        in_class(CharClass::Either(a, b), c) <==> c == a || c == b,
        in_class(CharClass::WhiteSpace, c) <==> {
            let n = c as u32;
            ||| 9 <= n <= 13
            ||| n == 32 || n == 0x85 || n == 0xa0 || n == 0x1680
            ||| 0x2000 <= n <= 0x200a
            ||| n == 0x2028 || n == 0x2029 || n == 0x202f || n == 0x205f || n == 0x3000
        },
        white_space(c) <==> in_class(CharClass::WhiteSpace, c),
{
}

/// Trimming takes characters of the class off the two ends and nothing else:
/// what is left is one unbroken piece of the text, from its first character
/// outside the class to its last.
pub proof fn law_trimming_takes_only_the_ends(s: Seq<char>, class: CharClass)
    ensures
        exists|a: int, b: int|
            #![trigger s.subrange(a, b)]
            {
                &&& 0 <= a <= b <= s.len()
                &&& stripped(s, class) == s.subrange(a, b)
                &&& forall|i: int| 0 <= i < a ==> in_class(class, #[trigger] s[i])
                &&& forall|i: int| b <= i < s.len() ==> in_class(class, #[trigger] s[i])
                &&& a < b ==> !in_class(class, s[a]) && !in_class(class, s[b - 1])
            },
        stripped(s, class).len() == 0 <==> forall|i: int|
            0 <= i < s.len() ==> in_class(class, #[trigger] s[i]),
        trimmed(s) == stripped(s, CharClass::WhiteSpace),
{
    let a = lemma_prefix_end(s, class);
    let rest = without_prefix(s, class);
    let e = lemma_suffix_start(rest, class);
    let b = a + e;
    assert(stripped(s, class) =~= s.subrange(a, b));
    assert forall|i: int| b <= i < s.len() implies in_class(class, #[trigger] s[i]) by {
        assert(rest[i - a] == s[i]);
    }
    if a < b {
        assert(rest[0] == s[a]);
        assert(rest[e - 1] == s[b - 1]);
        assert(!in_class(class, s[a]));
    }
}

proof fn lemma_prefix_end(s: Seq<char>, class: CharClass) -> (a: int)
    ensures
        0 <= a <= s.len(),
        without_prefix(s, class) == s.skip(a),
        forall|i: int| 0 <= i < a ==> in_class(class, #[trigger] s[i]),
        a < s.len() ==> !in_class(class, s[a]),
    decreases s.len(),
{
    if s.len() > 0 && in_class(class, s[0]) {
        let rest = s.drop_first();
        let a = lemma_prefix_end(rest, class);
        assert(rest.skip(a) =~= s.skip(a + 1));
        assert forall|i: int| 0 <= i < a + 1 implies in_class(class, #[trigger] s[i]) by {
            if i > 0 {
                assert(rest[i - 1] == s[i]);
            }
        }
        a + 1
    } else {
        assert(s.skip(0) =~= s);
        0
    }
}

proof fn lemma_suffix_start(s: Seq<char>, class: CharClass) -> (b: int)
    ensures
        0 <= b <= s.len(),
        without_suffix(s, class) == s.take(b),
        forall|i: int| b <= i < s.len() ==> in_class(class, #[trigger] s[i]),
        b > 0 ==> !in_class(class, s[b - 1]),
    decreases s.len(),
{
    if s.len() > 0 && in_class(class, s.last()) {
        let rest = s.drop_last();
        let b = lemma_suffix_start(rest, class);
        assert(rest.take(b) =~= s.take(b));
        assert forall|i: int| b <= i < s.len() implies in_class(class, #[trigger] s[i]) by {
            if i < rest.len() {
                assert(rest[i] == s[i]);
            }
        }
        b
    } else {
        assert(s.take(s.len() as int) =~= s);
        s.len() as int
    }
}

/// Trimming one end leaves the other as it is: what is taken off in front, or
/// behind, is all of the class, and what is left does not start, or end, with it.
pub proof fn law_trimming_one_end(s: Seq<char>, class: CharClass)
    ensures
        ({
            let rest = without_prefix(s, class);
            let off = s.len() - rest.len();
            &&& 0 <= off
            &&& rest == s.skip(off)
            &&& forall|i: int| 0 <= i < off ==> in_class(class, #[trigger] s[i])
            &&& rest.len() > 0 ==> !in_class(class, rest[0])
        }),
        ({
            let rest = without_suffix(s, class);
            &&& rest.len() <= s.len()
            &&& rest == s.take(rest.len() as int)
            &&& forall|i: int| rest.len() <= i < s.len() ==> in_class(class, #[trigger] s[i])
            &&& rest.len() > 0 ==> !in_class(class, rest[rest.len() - 1])
        }),
{
    let a = lemma_prefix_end(s, class);
    let b = lemma_suffix_start(s, class);
}

/// Lower case changes ASCII capitals to the small letters thirty-two places on,
/// one for one, and nothing else.
pub proof fn law_lower_case_changes_ascii_capitals_only(s: Seq<char>, i: int)
    requires
        0 <= i < s.len(),
    ensures
        ascii_lower(s).len() == s.len(),
        65 <= s[i] as u32 <= 90 ==> ascii_lower(s)[i] as u32 == s[i] as u32 + 32,
        !(65 <= s[i] as u32 <= 90) ==> ascii_lower(s)[i] == s[i],
{
}

/// A text that holds a character is what stands before the first one, that
/// character, and what stands behind it; one that holds none stands before it
/// whole.
pub proof fn law_a_split_loses_nothing(s: Seq<char>, c: char)
    ensures
        s.contains(c) ==> s == before(s, c).push(c) + behind(s, c),
        s.contains(c) ==> find(s, c) == before(s, c).len(),
        !before(s, c).contains(c),
        !s.contains(c) ==> before(s, c) == s && find(s, c) == s.len(),
{
    lemma_find(s, c);
    if s.contains(c) {
        let k = choose|k: int| 0 <= k < s.len() && s[k] == c;
        assert(find(s, c) < s.len());
        assert(s =~= before(s, c).push(c) + behind(s, c));
    } else {
        if find(s, c) < s.len() {
            assert(s.contains(s[find(s, c)]));
        }
        assert(before(s, c) =~= s);
    }
    if before(s, c).contains(c) {
        let k = choose|k: int| 0 <= k < before(s, c).len() && before(s, c)[k] == c;
        assert(s[k] == c);
    }
}

/// Joining puts the parts one behind the other: one part alone is itself, and two
/// runs of parts have the separator between them.
pub proof fn law_joining(a: Seq<Seq<char>>, b: Seq<Seq<char>>, separator: Seq<char>)
    ensures
        joined(Seq::empty(), separator) == Seq::<char>::empty(),
        a.len() == 1 ==> joined(a, separator) == a[0],
        a.len() > 0 && b.len() > 0 ==> joined(a + b, separator) == joined(a, separator) + separator
            + joined(b, separator),
    decreases b.len(),
{
    if a.len() > 0 && b.len() > 0 {
        let all = a + b;
        assert(all.drop_last() =~= a + b.drop_last());
        assert(all.last() == b.last());
        if b.len() == 1 {
            assert(a + b.drop_last() =~= a);
        } else {
            law_joining(a, b.drop_last(), separator);
            assert(joined(all, separator) =~= joined(a, separator) + separator + joined(
                b,
                separator,
            ));
        }
    }
}

/// The lines of a text, with a line feed between each two, are the text, and no
/// line holds a line feed.
pub proof fn law_lines_make_up_the_text(s: Seq<char>)
    ensures
        lines(s).len() > 0,
        joined(lines(s), seq!['\n']) == s,
        forall|i: int| 0 <= i < lines(s).len() ==> !(#[trigger] lines(s)[i]).contains('\n'),
    decreases s.len(),
{
    lemma_find(s, '\n');
    law_a_split_loses_nothing(s, '\n');
    if find(s, '\n') == s.len() {
        if s.contains('\n') {
            let k = choose|k: int| 0 <= k < s.len() && s[k] == '\n';
            assert(s[k] != '\n');
        }
    } else {
        assert(s.contains(s[find(s, '\n')]));
        let head = before(s, '\n');
        let rest = behind(s, '\n');
        law_lines_make_up_the_text(rest);
        law_joining(seq![head], lines(rest), seq!['\n']);
        assert(joined(lines(s), seq!['\n']) =~= head + seq!['\n'] + rest);
        assert(head + seq!['\n'] + rest =~= head.push('\n') + rest);
        assert forall|i: int| 0 <= i < lines(s).len() implies !(#[trigger] lines(s)[i]).contains(
            '\n',
        ) by {
            if i > 0 {
                assert(lines(s)[i] == lines(rest)[i - 1]);
            }
        }
    }
}

/// A needle occurs in a text that has it anywhere, between any two other parts,
/// and in no text that cannot be cut so.
pub proof fn law_occurrence(s: Seq<char>, needle: Seq<char>, a: Seq<char>, b: Seq<char>)
    ensures
        occurs(a + needle + b, needle),
        occurs(s, needle) ==> exists|i: int|
            0 <= i && i + needle.len() <= s.len() && s == #[trigger] s.take(i) + needle + s.skip(
                i + needle.len(),
            ),
{
    let all = a + needle + b;
    assert(all.subrange(a.len() as int, (a.len() + needle.len()) as int) =~= needle);
    if occurs(s, needle) {
        let i = choose|i: int|
            0 <= i <= s.len() - needle.len() && #[trigger] s.subrange(i, i + needle.len())
                == needle;
        assert(s =~= s.take(i) + s.subrange(i, i + needle.len()) + s.skip(i + needle.len()));
    }
}

/// Decimal numbers by their digits: one more digit at the end is ten times the
/// number and that digit, a plus sign in front changes nothing, and a text is a
/// number only where it is at least one digit behind an optional plus sign, and
/// no larger than is allowed.
pub proof fn law_digits_make_numbers(s: Seq<char>, d: int, max: int)
    requires
        0 <= d <= 9,
    ensures
        digits_value(Seq::empty()) == 0,
        digits_value(s.push((48 + d) as char)) == 10 * digits_value(s) + d,
        is_digit((48 + d) as char),
        s.len() == 0 || s[0] != '+' ==> without_plus(s) == s && without_plus(seq!['+'] + s) == s,
        is_number_upto(s, max) <==> {
            let digits = without_plus(s);
            &&& digits.len() > 0
            &&& forall|i: int| 0 <= i < digits.len() ==> '0' <= #[trigger] digits[i] <= '9'
            &&& digits_value(digits) <= max
        },
{
    let c = (48 + d) as char;
    assert(s.push(c).drop_last() =~= s);
    assert((seq!['+'] + s).drop_first() =~= s);
    let digits = without_plus(s);
    if is_number_upto(s, max) {
        assert forall|i: int| 0 <= i < digits.len() implies '0' <= #[trigger] digits[i]
            <= '9' by {
            assert(is_digit(digits[i]));
        }
    }
    if forall|i: int| 0 <= i < digits.len() ==> '0' <= #[trigger] digits[i] <= '9' {
        assert forall|i: int| 0 <= i < digits.len() implies is_digit(#[trigger] digits[i]) by {
            assert('0' <= digits[i] <= '9');
        }
    }
}

/// Numbers are written digit by digit: a number below ten is one digit, and ten
/// times a number and a digit is that number with the digit behind it. A negative
/// number has a minus sign before its amount.
pub proof fn law_numbers_are_written_in_digits(n: nat, d: int)
    requires
        0 <= d <= 9,
    ensures
        decimal(d as nat) == seq![(48 + d) as char],
        n > 0 ==> decimal((10 * n + d) as nat) == decimal(n).push((48 + d) as char),
        signed_decimal(n as int) == decimal(n),
        n > 0 ==> signed_decimal(-(n as int)) == seq!['-'] + decimal(n),
{
    if n > 0 {
        assert((10 * n + d) / 10 == n);
        assert((10 * n + d) % 10 == d);
    }
}

/// The views of owned and borrowed texts are their characters.
pub proof fn law_views_are_the_texts(text: &str, owned: String, parts: Seq<String>, i: int)
    ensures
        text_of(Some(text)) == Some(text@),
        text_of(None) is None,
        string_of(Some(owned)) == Some(owned@),
        string_of(None) is None,
        texts(parts).len() == parts.len(),
        0 <= i < parts.len() ==> texts(parts)[i] == parts[i]@,
{
}

/// Two words are truth values, written in small letters, and nothing else is.
pub proof fn law_truth_values(s: Seq<char>)
    ensures
        bool_value(s) == Some(true) <==> s == "true"@,
        bool_value(s) == Some(false) <==> s == "false"@,
{
    reveal_strlit("true");
    reveal_strlit("false");
    assert("true"@.len() != "false"@.len());
}

} // verus!
