//! Text as sequences of characters: words, trimming, numbers, joining and order.

use vstd::prelude::*;

verus! {

/// The characters of each text of a list.
pub open spec fn texts(list: Seq<String>) -> Seq<Seq<char>> {
    list.map_values(|s: String| s@)
}

/// The characters of an optional text.
pub open spec fn maybe_text(text: Option<String>) -> Option<Seq<char>> {
    match text {
        Some(t) => Some(t@),
        None => None,
    }
}

/// ASCII whitespace: space, tab, line feed, form feed and carriage return.
pub open spec fn is_ascii_space(c: char) -> bool {
    c == ' ' || c == '\t' || c == '\n' || c == '\x0C' || c == '\r'
}

/// The characters with the Unicode property `White_Space`.
pub open spec fn is_white_space(c: char) -> bool {
    ||| '\x09' <= c <= '\x0D'
    ||| c == ' '
    ||| c == '\u{85}'
    ||| c == '\u{A0}'
    ||| c == '\u{1680}'
    ||| '\u{2000}' <= c <= '\u{200A}'
    ||| c == '\u{2028}'
    ||| c == '\u{2029}'
    ||| c == '\u{202F}'
    ||| c == '\u{205F}'
    ||| c == '\u{3000}'
}

/// The first index at or after `from` that is the end of `s` or holds ASCII whitespace.
pub open spec fn word_end(s: Seq<char>, from: int) -> int
    decreases s.len() - from,
{
    if from < 0 || from >= s.len() || is_ascii_space(s[from]) {
        from
    } else {
        word_end(s, from + 1)
    }
}

/// The maximal runs of characters other than ASCII whitespace in `s`, from `from` on.
pub open spec fn words_from(s: Seq<char>, from: int) -> Seq<Seq<char>>
    decreases s.len() - from,
{
    if from < 0 || from >= s.len() {
        seq![]
    } else if is_ascii_space(s[from]) {
        words_from(s, from + 1)
    } else {
        proof {
            lemma_word_end(s, from);
        }
        if word_end(s, from) > from {
            seq![s.subrange(from, word_end(s, from))] + words_from(s, word_end(s, from))
        } else {
            seq![]
        }
    }
}

/// The words of `s`: what is left when it is cut at ASCII whitespace and empty pieces are dropped.
pub open spec fn words(s: Seq<char>) -> Seq<Seq<char>> {
    words_from(s, 0)
}

/// The parts one after the other, with `sep` between neighbours.
pub open spec fn join(parts: Seq<Seq<char>>, sep: Seq<char>) -> Seq<char>
    decreases parts.len(),
{
    if parts.len() == 0 {
        seq![]
    } else if parts.len() == 1 {
        parts[0]
    } else {
        join(parts.drop_last(), sep) + sep + parts.last()
    }
}

/// A text that is one word: not empty and free of ASCII whitespace.
pub open spec fn is_word(s: Seq<char>) -> bool {
    &&& s.len() > 0
    &&& forall|i: int| 0 <= i < s.len() ==> !is_ascii_space(#[trigger] s[i])
}

pub proof fn lemma_word_end(s: Seq<char>, from: int)
    requires
        0 <= from <= s.len(),
    ensures
        from <= word_end(s, from) <= s.len(),
        from < s.len() && !is_ascii_space(s[from]) ==> word_end(s, from) > from,
        forall|i: int| from <= i < word_end(s, from) ==> !is_ascii_space(#[trigger] s[i]),
        word_end(s, from) < s.len() ==> is_ascii_space(s[word_end(s, from)]),
    decreases s.len() - from,
{
    if from < s.len() && !is_ascii_space(s[from]) {
        lemma_word_end(s, from + 1);
    }
}

/// The characters of a text, as a vector.
pub fn to_chars(s: &str) -> (r: Vec<char>)
    ensures
        r@ == s@,
{
    let mut out: Vec<char> = Vec::new();
    for c in it: s.chars()
        invariant
            out@ == it.seq().take(it.index() as int),
            it.seq() == s@,
    {
        out.push(c);
    }
    out
}

/// Whether two texts are the same.
pub fn same_text(a: &str, b: &str) -> (r: bool)
    ensures
        r == (a@ == b@),
{
    a.to_owned() == b.to_owned()
}

fn ascii_space(c: char) -> (r: bool)
    ensures
        r == is_ascii_space(c),
{
    c == ' ' || c == '\t' || c == '\n' || c == '\x0C' || c == '\r'
}

/// Whether a character has the Unicode property `White_Space`.
pub fn white_space(c: char) -> (r: bool)
    ensures
        r == is_white_space(c),
{
    ('\x09' <= c && c <= '\x0D') || c == ' ' || c == '\u{85}' || c == '\u{A0}' || c == '\u{1680}'
        || ('\u{2000}' <= c && c <= '\u{200A}') || c == '\u{2028}' || c == '\u{2029}'
        || c == '\u{202F}' || c == '\u{205F}' || c == '\u{3000}'
}

/// The words of a text.
pub fn split_words(s: &str) -> (r: Vec<String>)
    ensures
        texts(r@) == words(s@),
{
    let chars = to_chars(s);
    let mut out: Vec<String> = Vec::new();
    let mut i: usize = 0;
    while i < chars.len()
        invariant
            chars@ == s@,
            0 <= i <= chars.len(),
            texts(out@) + words_from(s@, i as int) == words(s@),
        decreases chars.len() - i,
    {
        if ascii_space(chars[i]) {
            i = i + 1;
        } else {
            let start = i;
            while i < chars.len() && !ascii_space(chars[i])
                invariant
                    chars@ == s@,
                    start <= i <= chars.len(),
                    start < chars.len(),
                    word_end(s@, start as int) == word_end(s@, i as int),
                decreases chars.len() - i,
            {
                i = i + 1;
            }
            let ghost before = out@;
            out.push(s.substring_char(start, i).to_owned());
            proof {
                lemma_word_end(s@, start as int);
                assert(texts(out@) == texts(before).push(s@.subrange(start as int, i as int)));
                assert(texts(out@) + words_from(s@, i as int) == texts(before) + (
                seq![s@.subrange(start as int, i as int)] + words_from(s@, i as int)));
            }
        }
    }
    assert(texts(out@) + words_from(s@, i as int) == texts(out@));
    out
}

/// The first index at or after `from` that is the end of `s` or holds no white space.
pub open spec fn skip_white(s: Seq<char>, from: int) -> int
    decreases s.len() - from,
{
    if from < 0 || from >= s.len() || !is_white_space(s[from]) {
        from
    } else {
        skip_white(s, from + 1)
    }
}

/// The last index at or before `to` that is `from` or stands right behind a character
/// other than white space.
pub open spec fn drop_white(s: Seq<char>, from: int, to: int) -> int
    decreases to - from,
{
    if to <= from || to > s.len() || !is_white_space(s[to - 1]) {
        to
    } else {
        drop_white(s, from, to - 1)
    }
}

/// The text without leading and trailing white space.
pub open spec fn trimmed(s: Seq<char>) -> Seq<char> {
    let start = skip_white(s, 0);
    s.subrange(start, drop_white(s, start, s.len() as int))
}

/// The white space at the end of a text.
pub open spec fn trailing_white(s: Seq<char>) -> Seq<char> {
    s.skip(drop_white(s, skip_white(s, 0), s.len() as int))
}

/// The text without leading and trailing white space.
pub fn trim_text(s: &str) -> (r: String)
    ensures
        r@ == trimmed(s@),
{
    let chars = to_chars(s);
    let mut start: usize = 0;
    while start < chars.len() && white_space(chars[start])
        invariant
            chars@ == s@,
            start <= chars.len(),
            skip_white(s@, 0) == skip_white(s@, start as int),
        decreases chars.len() - start,
    {
        start = start + 1;
    }
    let mut end: usize = chars.len();
    while end > start && white_space(chars[end - 1])
        invariant
            chars@ == s@,
            start <= end <= chars.len(),
            drop_white(s@, start as int, s@.len() as int) == drop_white(
                s@,
                start as int,
                end as int,
            ),
        decreases end,
    {
        end = end - 1;
    }
    s.substring_char(start, end).to_owned()
}

proof fn lemma_skip_white(s: Seq<char>, from: int)
    requires
        0 <= from <= s.len(),
    ensures
        from <= skip_white(s, from) <= s.len(),
        skip_white(s, from) < s.len() ==> !is_white_space(s[skip_white(s, from)]),
    decreases s.len() - from,
{
    if from < s.len() && is_white_space(s[from]) {
        lemma_skip_white(s, from + 1);
    }
}

proof fn lemma_drop_white(s: Seq<char>, from: int, to: int)
    requires
        0 <= from <= to <= s.len(),
    ensures
        from <= drop_white(s, from, to) <= to,
        drop_white(s, from, to) > from ==> !is_white_space(s[drop_white(s, from, to) - 1]),
    decreases to - from,
{
    if to > from && is_white_space(s[to - 1]) {
        lemma_drop_white(s, from, to - 1);
    }
}

/// A text with neither leading nor trailing white space stays as it is.
pub proof fn trimming_what_is_trim(s: Seq<char>)
    requires
        s.len() > 0 ==> !is_white_space(s[0]) && !is_white_space(s.last()),
    ensures
        trimmed(s) == s,
{
    assert(s.subrange(0, s.len() as int) == s);
}

proof fn lemma_skip_white_of_longer(s: Seq<char>, more: Seq<char>, from: int)
    requires
        0 <= from,
        skip_white(s, from) < s.len(),
    ensures
        skip_white(s + more, from) == skip_white(s, from),
    decreases s.len() - from,
{
    if from < s.len() {
        assert((s + more)[from] == s[from]);
        if is_white_space(s[from]) {
            lemma_skip_white_of_longer(s, more, from + 1);
        }
    }
}

/// Behind a text that is not blank, what is added and ends in no white space is kept, and
/// so is the white space before it.
pub proof fn trimming_what_is_added(s: Seq<char>, more: Seq<char>)
    requires
        trimmed(s).len() > 0,
        more.len() > 0,
        !is_white_space(more.last()),
    ensures
        trimmed(s + more) == trimmed(s) + trailing_white(s) + more,
{
    let start = skip_white(s, 0);
    lemma_skip_white(s, 0);
    lemma_drop_white(s, start, s.len() as int);
    lemma_skip_white_of_longer(s, more, 0);
    assert((s + more).last() == more.last());
    assert(trimmed(s + more) == trimmed(s) + trailing_white(s) + more);
}

/// Trimming a text twice is trimming it once.
pub proof fn trimming_is_idempotent(s: Seq<char>)
    ensures
        trimmed(trimmed(s)) == trimmed(s),
{
    let start = skip_white(s, 0);
    lemma_skip_white(s, 0);
    lemma_drop_white(s, start, s.len() as int);
    trimming_what_is_trim(trimmed(s));
}

/// The parts joined, with `sep` between neighbours.
pub fn join_texts(parts: &Vec<String>, sep: &str) -> (r: String)
    ensures
        r@ == join(texts(parts@), sep@),
{
    let mut out: String = String::new();
    let mut i: usize = 0;
    while i < parts.len()
        invariant
            i <= parts.len(),
            out@ == join(texts(parts@).take(i as int), sep@),
        decreases parts.len() - i,
    {
        if i > 0 {
            out.append(sep);
        }
        out.append(parts[i].as_str());
        proof {
            let next = texts(parts@).take(i + 1);
            assert(next.drop_last() == texts(parts@).take(i as int));
            assert(next.last() == parts@[i as int]@);
        }
        i = i + 1;
    }
    assert(texts(parts@).take(parts@.len() as int) == texts(parts@));
    out
}

/// A copy of an optional text.
pub fn copy_maybe_text(text: &Option<String>) -> (r: Option<String>)
    ensures
        maybe_text(r) == maybe_text(*text),
{
    match text {
        Some(t) => Some(t.clone()),
        None => None,
    }
}

/// A copy of a list of texts.
pub fn copy_texts(list: &Vec<String>) -> (r: Vec<String>)
    ensures
        texts(r@) == texts(list@),
        r@ == list@,
{
    let mut out: Vec<String> = Vec::new();
    let mut i: usize = 0;
    while i < list.len()
        invariant
            i <= list.len(),
            out@ == list@.take(i as int),
        decreases list.len() - i,
    {
        out.push(list[i].clone());
        i = i + 1;
    }
    out
}

/// Two texts, one behind the other.
pub fn concat2(a: &str, b: &str) -> (r: String)
    ensures
        r@ == a@ + b@,
{
    a.to_owned().concat(b)
}

/// Three texts, one behind the other.
pub fn concat3(a: &str, b: &str, c: &str) -> (r: String)
    ensures
        r@ == a@ + b@ + c@,
{
    a.to_owned().concat(b).concat(c)
}

/// The digit character of a number below ten.
pub open spec fn digit_char(d: nat) -> char {
    (48 + d) as char
}

/// The decimal digits of a number, without leading zeros.
pub open spec fn decimal(n: nat) -> Seq<char>
    decreases n,
{
    if n < 10 {
        seq![digit_char(n)]
    } else {
        decimal(n / 10).push(digit_char(n % 10))
    }
}

/// Whether every character is a decimal digit.
pub open spec fn all_digits(s: Seq<char>) -> bool {
    forall|i: int| 0 <= i < s.len() ==> '0' <= #[trigger] s[i] <= '9'
}

/// The number that a sequence of decimal digits denotes.
pub open spec fn digits_value(s: Seq<char>) -> nat
    decreases s.len(),
{
    if s.len() == 0 {
        0
    } else {
        (digits_value(s.drop_last()) * 10 + (s.last() as int - 48)) as nat
    }
}

/// The number written as a text: at least one decimal digit and an optional `+` before.
pub open spec fn read_nat(s: Seq<char>) -> Option<nat> {
    let body = if s.len() > 0 && s[0] == '+' {
        s.skip(1)
    } else {
        s
    };
    if body.len() > 0 && all_digits(body) {
        Some(digits_value(body))
    } else {
        None
    }
}

/// The number written as a text: at least one decimal digit and an optional sign before.
pub open spec fn read_int(s: Seq<char>) -> Option<int> {
    if s.len() > 0 && s[0] == '-' {
        if s.len() > 1 && all_digits(s.skip(1)) {
            Some(-(digits_value(s.skip(1)) as int))
        } else {
            None
        }
    } else {
        match read_nat(s) {
            Some(n) => Some(n as int),
            None => None,
        }
    }
}

/// The `u32` that a text denotes, if it denotes one.
pub open spec fn read_u32(s: Seq<char>) -> Option<u32> {
    match read_nat(s) {
        Some(n) => if n <= u32::MAX {
            Some(n as u32)
        } else {
            None
        },
        None => None,
    }
}

/// The `usize` that a text denotes, if it denotes one.
pub open spec fn read_usize(s: Seq<char>) -> Option<usize> {
    match read_nat(s) {
        Some(n) => if n <= usize::MAX {
            Some(n as usize)
        } else {
            None
        },
        None => None,
    }
}

/// The `i32` that a text denotes, if it denotes one.
pub open spec fn read_i32(s: Seq<char>) -> Option<i32> {
    match read_int(s) {
        Some(n) => if i32::MIN <= n <= i32::MAX {
            Some(n as i32)
        } else {
            None
        },
        None => None,
    }
}

proof fn lemma_digits_value_prefix(s: Seq<char>, i: int)
    requires
        0 <= i <= s.len(),
        all_digits(s),
    ensures
        digits_value(s.take(i)) <= digits_value(s),
    decreases s.len(),
{
    if i < s.len() {
        let shorter = s.drop_last();
        assert(shorter.take(i) == s.take(i));
        lemma_digits_value_prefix(shorter, i);
    } else {
        assert(s.take(i) == s);
    }
}

/// The digits from index `from` on as a number, if they are digits and the number is at
/// most `limit`.
fn read_digits(chars: &Vec<char>, from: usize, limit: u64) -> (r: Option<u64>)
    requires
        from <= chars@.len(),
    ensures
        ({
            let body = chars@.skip(from as int);
            r == if body.len() > 0 && all_digits(body) && digits_value(body) <= limit {
                Some(digits_value(body) as u64)
            } else {
                None
            }
        }),
{
    let ghost body = chars@.skip(from as int);
    if from == chars.len() {
        return None;
    }
    let mut value: u128 = 0;
    let mut i: usize = from;
    while i < chars.len()
        invariant
            body == chars@.skip(from as int),
            from <= i <= chars@.len(),
            from < chars@.len(),
            all_digits(body.take(i - from)),
            value == digits_value(body.take(i - from)),
            value <= limit,
        decreases chars.len() - i,
    {
        let c = chars[i];
        proof {
            assert(body[i - from] == c);
            assert(body.take(i + 1 - from).drop_last() == body.take(i - from));
            assert(body.take(i + 1 - from).last() == c);
        }
        if !('0' <= c && c <= '9') {
            return None;
        }
        value = value * 10 + (c as u32 - 48) as u128;
        if value > limit as u128 {
            proof {
                if all_digits(body) {
                    lemma_digits_value_prefix(body, i + 1 - from);
                }
            }
            return None;
        }
        i = i + 1;
        proof {
            assert forall|k: int| 0 <= k < i - from implies '0' <= #[trigger] body.take(
                i - from,
            )[k] <= '9' by {
                if k < i - 1 - from {
                    assert(body.take(i - 1 - from)[k] == body.take(i - from)[k]);
                }
            }
        }
    }
    assert(body.take(i - from) == body);
    Some(value as u64)
}

fn read_unsigned(s: &str, limit: u64) -> (r: Option<u64>)
    ensures
        r == match read_nat(s@) {
            Some(n) => if n <= limit {
                Some(n as u64)
            } else {
                None
            },
            None => None,
        },
{
    let chars = to_chars(s);
    assert(s@.skip(0) == s@);
    if chars.len() > 0 && chars[0] == '+' {
        read_digits(&chars, 1, limit)
    } else {
        read_digits(&chars, 0, limit)
    }
}

/// Reads a `u32`.
pub fn parse_u32(s: &str) -> (r: Option<u32>)
    ensures
        r == read_u32(s@),
{
    match read_unsigned(s, u32::MAX as u64) {
        Some(n) => Some(n as u32),
        None => None,
    }
}

/// Reads a `usize`.
pub fn parse_usize(s: &str) -> (r: Option<usize>)
    ensures
        r == read_usize(s@),
{
    match read_unsigned(s, usize::MAX as u64) {
        Some(n) => Some(n as usize),
        None => None,
    }
}

/// Reads an `i32`.
pub fn parse_i32(s: &str) -> (r: Option<i32>)
    ensures
        r == read_i32(s@),
{
    let chars = to_chars(s);
    if chars.len() > 0 && chars[0] == '-' {
        match read_digits(&chars, 1, 2_147_483_648) {
            Some(n) => Some((0 - n as i64) as i32),
            None => None,
        }
    } else {
        match read_unsigned(s, 2_147_483_647) {
            Some(n) => Some(n as i32),
            None => None,
        }
    }
}

fn digit_text(d: u64) -> (r: String)
    requires
        d < 10,
    ensures
        r@ == seq![digit_char(d as nat)],
{
    proof {
        reveal_strlit("0");
        reveal_strlit("1");
        reveal_strlit("2");
        reveal_strlit("3");
        reveal_strlit("4");
        reveal_strlit("5");
        reveal_strlit("6");
        reveal_strlit("7");
        reveal_strlit("8");
        reveal_strlit("9");
    }
    let digit: &str = match d {
        0 => "0",
        1 => "1",
        2 => "2",
        3 => "3",
        4 => "4",
        5 => "5",
        6 => "6",
        7 => "7",
        8 => "8",
        _ => "9",
    };
    digit.to_owned()
}

/// The decimal digits of a number.
pub fn decimal_text(n: u64) -> (r: String)
    ensures
        r@ == decimal(n as nat),
    decreases n,
{
    if n < 10 {
        digit_text(n)
    } else {
        let mut out = decimal_text(n / 10);
        let last = digit_text(n % 10);
        out.append(last.as_str());
        out
    }
}

/// The ASCII lower-case form of a character.
pub open spec fn ascii_lower(c: char) -> char {
    if 'A' <= c <= 'Z' {
        (c as int + 32) as char
    } else {
        c
    }
}

/// The text with its ASCII letters in lower case.
pub open spec fn ascii_lowered(s: Seq<char>) -> Seq<char> {
    s.map_values(|c: char| ascii_lower(c))
}

fn lower_code(c: char) -> (r: u32)
    ensures
        r == ascii_lower(c) as u32,
{
    if 'A' <= c && c <= 'Z' {
        c as u32 + 32
    } else {
        c as u32
    }
}

/// Whether two texts are the same up to the case of ASCII letters.
pub fn same_ignoring_case(a: &str, b: &str) -> (r: bool)
    ensures
        r == (ascii_lowered(a@) == ascii_lowered(b@)),
{
    let xs = to_chars(a);
    let ys = to_chars(b);
    if xs.len() != ys.len() {
        assert(ascii_lowered(a@).len() != ascii_lowered(b@).len());
        return false;
    }
    let mut i: usize = 0;
    while i < xs.len()
        invariant
            xs@ == a@,
            ys@ == b@,
            i <= xs.len(),
            xs.len() == ys.len(),
            forall|k: int| 0 <= k < i ==> ascii_lower(#[trigger] a@[k]) == ascii_lower(b@[k]),
        decreases xs.len() - i,
    {
        if lower_code(xs[i]) != lower_code(ys[i]) {
            assert(ascii_lowered(a@)[i as int] != ascii_lowered(b@)[i as int]);
            return false;
        }
        i = i + 1;
    }
    assert(ascii_lowered(a@) == ascii_lowered(b@));
    true
}

/// Whether `s` begins with `prefix`.
pub open spec fn begins_with(s: Seq<char>, prefix: Seq<char>) -> bool {
    prefix.len() <= s.len() && s.take(prefix.len() as int) == prefix
}

/// Whether `part` stands in `s`, starting at index `at`.
pub open spec fn occurs_at(s: Seq<char>, part: Seq<char>, at: int) -> bool {
    0 <= at && at + part.len() <= s.len() && s.subrange(at, at + part.len()) == part
}

/// Whether `part` stands somewhere in `s`.
pub open spec fn occurs_in(s: Seq<char>, part: Seq<char>) -> bool {
    exists|at: int| occurs_at(s, part, at)
}

fn matches_at(s: &Vec<char>, part: &Vec<char>, at: usize) -> (r: bool)
    ensures
        r == occurs_at(s@, part@, at as int),
{
    if at > s.len() || part.len() > s.len() - at {
        return false;
    }
    let mut i: usize = 0;
    while i < part.len()
        invariant
            i <= part.len(),
            at + part.len() <= s.len(),
            forall|k: int| 0 <= k < i ==> s@[at + k] == #[trigger] part@[k],
        decreases part.len() - i,
    {
        if s[at + i] != part[i] {
            assert(s@.subrange(at as int, at + part@.len())[i as int] != part@[i as int]);
            return false;
        }
        i = i + 1;
    }
    assert(s@.subrange(at as int, at + part@.len()) == part@);
    true
}

/// Whether a text begins with another.
pub fn text_begins_with(s: &str, prefix: &str) -> (r: bool)
    ensures
        r == begins_with(s@, prefix@),
{
    let chars = to_chars(s);
    let part = to_chars(prefix);
    if part.len() <= chars.len() {
        assert(s@.take(prefix@.len() as int) == s@.subrange(0, prefix@.len() as int));
    }
    matches_at(&chars, &part, 0)
}

/// Whether a text contains another.
pub fn text_contains(s: &str, part: &str) -> (r: bool)
    ensures
        r == occurs_in(s@, part@),
{
    let chars = to_chars(s);
    let wanted = to_chars(part);
    let mut at: usize = 0;
    while at <= chars.len()
        invariant
            chars@ == s@,
            wanted@ == part@,
            at <= chars.len() + 1,
            forall|k: int| 0 <= k < at ==> !occurs_at(s@, part@, k),
        decreases chars.len() + 1 - at,
    {
        if matches_at(&chars, &wanted, at) {
            return true;
        }
        if at == chars.len() {
            return false;
        }
        at = at + 1;
    }
    false
}

/// What stands behind the first `n` characters of a text.
pub fn text_from(s: &str, n: usize) -> (r: String)
    requires
        n <= s@.len(),
    ensures
        r@ == s@.skip(n as int),
{
    s.substring_char(n, s.unicode_len()).to_owned()
}

/// The order of texts by their characters, the first difference deciding.
pub open spec fn text_le(a: Seq<char>, b: Seq<char>) -> bool
    decreases a.len(),
{
    if a.len() == 0 {
        true
    } else if b.len() == 0 {
        false
    } else if a[0] != b[0] {
        a[0] < b[0]
    } else {
        text_le(a.skip(1), b.skip(1))
    }
}

/// Whether a list of texts ascends.
pub open spec fn ascending(list: Seq<Seq<char>>) -> bool {
    forall|i: int, j: int| 0 <= i < j < list.len() ==> text_le(#[trigger] list[i], #[trigger] list[j])
}

/// Whether a list of texts ascends and holds no text twice.
pub open spec fn strictly_ascending(list: Seq<Seq<char>>) -> bool {
    ascending(list) && list.no_duplicates()
}

pub proof fn lemma_text_le_total(a: Seq<char>, b: Seq<char>)
    ensures
        text_le(a, b) || text_le(b, a),
        text_le(a, b) && text_le(b, a) ==> a == b,
    decreases a.len(),
{
    if a.len() > 0 && b.len() > 0 {
        lemma_text_le_total(a.skip(1), b.skip(1));
        if a[0] == b[0] && a.skip(1) == b.skip(1) {
            assert(a == seq![a[0]] + a.skip(1));
            assert(b == seq![b[0]] + b.skip(1));
        }
    }
}

pub proof fn lemma_text_le_transitive(a: Seq<char>, b: Seq<char>, c: Seq<char>)
    requires
        text_le(a, b),
        text_le(b, c),
    ensures
        text_le(a, c),
    decreases a.len(),
{
    if a.len() > 0 && b.len() > 0 && c.len() > 0 && a[0] == b[0] && b[0] == c[0] {
        lemma_text_le_transitive(a.skip(1), b.skip(1), c.skip(1));
    }
}

/// Whether one text comes before another or is the same.
pub fn text_at_most(a: &str, b: &str) -> (r: bool)
    ensures
        r == text_le(a@, b@),
{
    let xs = to_chars(a);
    let ys = to_chars(b);
    let mut i: usize = 0;
    assert(a@.skip(0) == a@);
    assert(b@.skip(0) == b@);
    while i < xs.len() && i < ys.len()
        invariant
            xs@ == a@,
            ys@ == b@,
            i <= xs.len(),
            i <= ys.len(),
            text_le(a@, b@) == text_le(a@.skip(i as int), b@.skip(i as int)),
        decreases xs.len() - i,
    {
        if xs[i] != ys[i] {
            return xs[i] < ys[i];
        }
        assert(a@.skip(i as int).skip(1) == a@.skip(i + 1));
        assert(b@.skip(i as int).skip(1) == b@.skip(i + 1));
        i = i + 1;
    }
    i == xs.len()
}

proof fn lemma_insert_multiset(list: Seq<Seq<char>>, at: int, x: Seq<char>)
    requires
        0 <= at <= list.len(),
    ensures
        list.insert(at, x).to_multiset() == list.to_multiset().insert(x),
{
    broadcast use vstd::seq_lib::group_to_multiset_ensures;

    vstd::seq_lib::to_multiset_insert(list, at, x);
}

/// Puts a text at its place in an ascending list.
fn insert_in_order(list: &mut Vec<String>, x: String)
    requires
        ascending(texts(old(list)@)),
    ensures
        ascending(texts(final(list)@)),
        texts(final(list)@).to_multiset() == texts(old(list)@).to_multiset().insert(x@),
{
    let ghost before = texts(list@);
    let mut at: usize = list.len();
    while at > 0 && !text_at_most(list[at - 1].as_str(), x.as_str())
        invariant
            at <= list@.len(),
            before == texts(list@),
            ascending(before),
            forall|k: int| at <= k < list@.len() ==> text_le(x@, #[trigger] before[k]),
        decreases at,
    {
        proof {
            lemma_text_le_total(before[at - 1], x@);
        }
        at = at - 1;
    }
    proof {
        let after = before.insert(at as int, x@);
        lemma_insert_multiset(before, at as int, x@);
        if at > 0 {
            assert(text_le(before[at - 1], x@));
        }
        assert forall|i: int, j: int| 0 <= i < j < after.len() implies text_le(
            #[trigger] after[i],
            #[trigger] after[j],
        ) by {
            if j == at && i < at - 1 {
                lemma_text_le_transitive(before[i], before[at - 1], x@);
            }
        }
    }

    list.insert(at, x);
    assert(texts(list@) == before.insert(at as int, x@));
}

/// The order of texts as a relation.
pub open spec fn text_order() -> spec_fn(Seq<char>, Seq<char>) -> bool {
    |a: Seq<char>, b: Seq<char>| text_le(a, b)
}

/// The texts of a list in ascending order.
pub open spec fn in_order(list: Seq<Seq<char>>) -> Seq<Seq<char>> {
    list.sort_by(text_order())
}

proof fn lemma_text_order_is_total()
    ensures
        vstd::relations::total_ordering(text_order()),
{
    let le = text_order();
    assert forall|a: Seq<char>, b: Seq<char>| #[trigger] le(a, b) && #[trigger] le(b, a) implies a
        == b by {
        lemma_text_le_total(a, b);
    }
    assert forall|a: Seq<char>, b: Seq<char>| #[trigger] le(a, b) || #[trigger] le(b, a) by {
        lemma_text_le_total(a, b);
    }
    assert forall|a: Seq<char>| #[trigger] le(a, a) by {
        lemma_text_le_total(a, a);
    }
    assert forall|a: Seq<char>, b: Seq<char>, c: Seq<char>| #[trigger]
        le(a, b) && #[trigger] le(b, c) implies le(a, c) by {
        lemma_text_le_transitive(a, b, c);
    }
}

/// The texts in order ascend and are those of the list; an ascending list with the same
/// texts is the list in order.
pub proof fn order_is_unique(list: Seq<Seq<char>>, other: Seq<Seq<char>>)
    ensures
        ascending(in_order(list)),
        in_order(list).to_multiset() == list.to_multiset(),
        ascending(other) && other.to_multiset() == list.to_multiset() ==> other == in_order(list),
{
    let le = text_order();
    lemma_text_order_is_total();
    list.lemma_sort_by_ensures(le);
    let sorted = in_order(list);
    assert forall|i: int, j: int| 0 <= i < j < sorted.len() implies text_le(
        #[trigger] sorted[i],
        #[trigger] sorted[j],
    ) by {
        assert(le(sorted[i], sorted[j]));
    }
    if ascending(other) && other.to_multiset() == list.to_multiset() {
        assert forall|i: int, j: int| 0 <= i < j < other.len() implies #[trigger] le(
            other[i],
            other[j],
        ) by {
            assert(text_le(other[i], other[j]));
        }
        vstd::seq_lib::lemma_sorted_unique(other, sorted, le);
    }
}

/// Putting texts in order repeats none.
pub proof fn order_repeats_nothing(list: Seq<Seq<char>>)
    requires
        list.no_duplicates(),
    ensures
        strictly_ascending(in_order(list)),
{
    order_is_unique(list, list);
    list.lemma_multiset_has_no_duplicates();
    in_order(list).lemma_multiset_has_no_duplicates_conv();
}

/// The texts of a list in ascending order.
pub fn sorted_texts(list: Vec<String>) -> (r: Vec<String>)
    ensures
        texts(r@) == in_order(texts(list@)),
        ascending(texts(r@)),
        texts(r@).to_multiset() == texts(list@).to_multiset(),
        r@.len() == list@.len(),
{
    let mut out: Vec<String> = Vec::new();
    let mut i: usize = 0;
    assert(texts(out@) == texts(list@).take(0));
    while i < list.len()
        invariant
            i <= list@.len(),
            ascending(texts(out@)),
            texts(out@).to_multiset() == texts(list@).take(i as int).to_multiset(),
        decreases list.len() - i,
    {
        proof {
            broadcast use vstd::seq_lib::group_to_multiset_ensures;

            assert(texts(list@).take(i + 1) == texts(list@).take(i as int).push(
                list@[i as int]@,
            ));
        }
        insert_in_order(&mut out, list[i].clone());
        i = i + 1;
    }
    proof {
        broadcast use vstd::seq_lib::group_to_multiset_ensures;

        assert(texts(list@).take(i as int) == texts(list@));
        assert(texts(out@).to_multiset().len() == texts(list@).to_multiset().len());
        order_is_unique(texts(list@), texts(out@));
    }
    out
}

proof fn lemma_word_end_shift(p: Seq<char>, b: Seq<char>, j: int)
    requires
        0 <= j <= b.len(),
    ensures
        word_end(p + b, p.len() + j) == p.len() + word_end(b, j),
    decreases b.len() - j,
{
    if j < b.len() && !is_ascii_space(b[j]) {
        lemma_word_end_shift(p, b, j + 1);
        assert((p + b)[p.len() + j] == b[j]);
    } else if j < b.len() {
        assert((p + b)[p.len() + j] == b[j]);
    }
}

proof fn lemma_words_from_shift(p: Seq<char>, b: Seq<char>, j: int)
    requires
        0 <= j <= b.len(),
    ensures
        words_from(p + b, p.len() + j) == words_from(b, j),
    decreases b.len() - j,
{
    if j < b.len() {
        assert((p + b)[p.len() + j] == b[j]);
        if is_ascii_space(b[j]) {
            lemma_words_from_shift(p, b, j + 1);
        } else {
            lemma_word_end(b, j);
            lemma_word_end_shift(p, b, j);
            let e = word_end(b, j);
            lemma_words_from_shift(p, b, e);
            assert((p + b).subrange(p.len() + j, p.len() + e) == b.subrange(j, e));
        }
    }
}

proof fn lemma_word_end_before(a: Seq<char>, rest: Seq<char>, i: int)
    requires
        0 <= i <= a.len(),
        rest.len() > 0,
        is_ascii_space(rest[0]),
    ensures
        word_end(a + rest, i) == word_end(a, i),
    decreases a.len() - i,
{
    if i < a.len() {
        assert((a + rest)[i] == a[i]);
        if !is_ascii_space(a[i]) {
            lemma_word_end_before(a, rest, i + 1);
        }
    } else {
        assert((a + rest)[i] == rest[0]);
    }
}

proof fn lemma_words_from_concat(a: Seq<char>, sep: char, b: Seq<char>, i: int)
    requires
        0 <= i <= a.len(),
        is_ascii_space(sep),
    ensures
        words_from(a + seq![sep] + b, i) == words_from(a, i) + words(b),
    decreases a.len() - i,
{
    let whole = a + seq![sep] + b;
    let rest = seq![sep] + b;
    assert(whole == a + rest);
    if i < a.len() {
        assert(whole[i] == a[i]);
        if is_ascii_space(a[i]) {
            lemma_words_from_concat(a, sep, b, i + 1);
        } else {
            lemma_word_end(a, i);
            lemma_word_end_before(a, rest, i);
            let e = word_end(a, i);
            lemma_words_from_concat(a, sep, b, e);
            assert(whole.subrange(i, e) == a.subrange(i, e));
            assert(words_from(whole, i) == seq![a.subrange(i, e)] + words_from(whole, e));
            assert(words_from(a, i) + words(b) == seq![a.subrange(i, e)] + (words_from(a, e) + words(
                b,
            )));
        }
    } else {
        assert(whole[i] == sep);
        assert((a + seq![sep]) + b == whole);
        lemma_words_from_shift(a + seq![sep], b, 0);
        assert(words_from(whole, i) == words_from(whole, i + 1));
        assert(words_from(a, i) + words(b) == words(b));
    }
}

/// Words on both sides of a whitespace character are the words of the whole.
pub proof fn words_of_concatenation(a: Seq<char>, sep: char, b: Seq<char>)
    requires
        is_ascii_space(sep),
    ensures
        words(a + seq![sep] + b) == words(a) + words(b),
{
    lemma_words_from_concat(a, sep, b, 0);
}

/// ASCII whitespace at the end adds no word.
pub proof fn words_before_trailing_space(a: Seq<char>, space: Seq<char>)
    requires
        forall|i: int| 0 <= i < space.len() ==> is_ascii_space(#[trigger] space[i]),
    ensures
        words(a + space) == words(a),
    decreases space.len(),
{
    if space.len() == 0 {
        assert(a + space == a);
    } else {
        let fewer = space.drop_last();
        assert forall|i: int| 0 <= i < fewer.len() implies is_ascii_space(#[trigger] fewer[i]) by {
            assert(fewer[i] == space[i]);
        }
        words_before_trailing_space(a, fewer);
        let none = Seq::<char>::empty();
        words_of_concatenation(a + fewer, space.last(), none);
        assert((a + fewer) + seq![space.last()] + none == a + space);
        assert(words(none) == Seq::<Seq<char>>::empty());
        assert(words(a) + words(none) == words(a));
    }
}

/// A text that is one word has itself as its only word.
pub proof fn words_of_word(w: Seq<char>)
    requires
        is_word(w),
    ensures
        words(w) == seq![w],
{
    lemma_word_end(w, 0);
    assert(word_end(w, 0) == w.len());
    assert(w.subrange(0, w.len() as int) == w);
    assert(words_from(w, w.len() as int) == Seq::<Seq<char>>::empty());
}

proof fn lemma_words_from_are_words(s: Seq<char>, from: int)
    requires
        0 <= from <= s.len(),
    ensures
        forall|k: int| 0 <= k < words_from(s, from).len() ==> is_word(#[trigger] words_from(s, from)[k]),
    decreases s.len() - from,
{
    if from < s.len() {
        if is_ascii_space(s[from]) {
            lemma_words_from_are_words(s, from + 1);
            assert(words_from(s, from) == words_from(s, from + 1));
        } else {
            lemma_word_end(s, from);
            let e = word_end(s, from);
            lemma_words_from_are_words(s, e);
            let w = s.subrange(from, e);
            assert(is_word(w));
            let all = words_from(s, from);
            assert(all == seq![w] + words_from(s, e));
            assert forall|k: int| 0 <= k < all.len() implies is_word(#[trigger] all[k]) by {
                if k > 0 {
                    assert(all[k] == words_from(s, e)[k - 1]);
                }
            }
        }
    }
}

/// Every word of a text is not empty and free of ASCII whitespace.
pub proof fn words_are_words(s: Seq<char>)
    ensures
        forall|k: int| 0 <= k < words(s).len() ==> is_word(#[trigger] words(s)[k]),
{
    lemma_words_from_are_words(s, 0);
}

/// Cutting into words gives back the words that were joined with spaces.
pub proof fn words_of_join(parts: Seq<Seq<char>>)
    requires
        forall|k: int| 0 <= k < parts.len() ==> is_word(#[trigger] parts[k]),
    ensures
        words(join(parts, seq![' '])) == parts,
    decreases parts.len(),
{
    if parts.len() == 0 {
        assert(words(Seq::<char>::empty()) == Seq::<Seq<char>>::empty());
    } else if parts.len() == 1 {
        words_of_word(parts[0]);
        assert(parts == seq![parts[0]]);
    } else {
        let init = parts.drop_last();
        assert forall|k: int| 0 <= k < init.len() implies is_word(#[trigger] init[k]) by {
            assert(init[k] == parts[k]);
        }
        words_of_join(init);
        words_of_word(parts.last());
        words_of_concatenation(join(init, seq![' ']), ' ', parts.last());
        assert(parts == init + seq![parts.last()]);
    }
}

/// Reading the decimal digits of a number gives the number back.
pub proof fn read_of_decimal(n: nat)
    ensures
        decimal(n).len() > 0,
        all_digits(decimal(n)),
        digits_value(decimal(n)) == n,
        read_nat(decimal(n)) == Some(n),
    decreases n,
{
    if n >= 10 {
        read_of_decimal(n / 10);
        let d = decimal(n);
        assert(d.drop_last() == decimal(n / 10));
        assert forall|i: int| 0 <= i < d.len() implies '0' <= #[trigger] d[i] <= '9' by {
            if i < d.len() - 1 {
                assert(d[i] == decimal(n / 10)[i]);
            }
        }
    } else {
        let d = decimal(n);
        assert(d.drop_last() == Seq::<char>::empty());
        assert(digits_value(d.drop_last()) == 0);
    }
    assert('0' <= decimal(n)[0]);
}

/// Which characters separate words, and which are white space, by their codes.
pub proof fn which_characters_are_space(c: char)
    ensures
        is_ascii_space(c) <==> (c as u32 == 0x20 || c as u32 == 0x09 || c as u32 == 0x0A || c as u32
            == 0x0C || c as u32 == 0x0D),
        is_white_space(c) <==> (0x09 <= c as u32 <= 0x0D || c as u32 == 0x20 || c as u32 == 0x85
            || c as u32 == 0xA0 || c as u32 == 0x1680 || 0x2000 <= c as u32 <= 0x200A || c as u32
            == 0x2028 || c as u32 == 0x2029 || c as u32 == 0x202F || c as u32 == 0x205F || c as u32
            == 0x3000),
{
}

/// Trimming takes the white space from both ends of a text and nothing else.
pub proof fn what_trimming_leaves(lead: Seq<char>, body: Seq<char>, trail: Seq<char>)
    requires
        forall|i: int| 0 <= i < lead.len() ==> is_white_space(#[trigger] lead[i]),
        forall|i: int| 0 <= i < trail.len() ==> is_white_space(#[trigger] trail[i]),
        body.len() > 0 ==> !is_white_space(body[0]) && !is_white_space(body.last()),
    ensures
        trimmed(lead + body + trail) == body,
{
    let s = lead + body + trail;
    if body.len() > 0 {
        let start = lead.len() as int;
        let end = start + body.len() as int;
        assert(s[start] == body[0]);
        assert(s[end - 1] == body.last());
        lemma_skip_white_to(s, 0, start);
        lemma_drop_white_to(s, start, s.len() as int, end);
        assert(s.subrange(start, end) == body);
    } else {
        let end = s.len() as int;
        assert forall|i: int| 0 <= i < end implies is_white_space(#[trigger] s[i]) by {
            if i < lead.len() {
                assert(s[i] == lead[i]);
            } else {
                assert(s[i] == trail[i - lead.len()]);
            }
        }
        lemma_skip_white_to(s, 0, end);
        assert(s.subrange(end, end) == body);
    }
}

proof fn lemma_skip_white_to(s: Seq<char>, from: int, to: int)
    requires
        0 <= from <= to <= s.len(),
        forall|i: int| from <= i < to ==> is_white_space(#[trigger] s[i]),
        to < s.len() ==> !is_white_space(s[to]),
    ensures
        skip_white(s, from) == to,
    decreases to - from,
{
    if from < to {
        lemma_skip_white_to(s, from + 1, to);
    }
}

proof fn lemma_drop_white_to(s: Seq<char>, from: int, to: int, end: int)
    requires
        0 <= from < end <= to <= s.len(),
        forall|i: int| end <= i < to ==> is_white_space(#[trigger] s[i]),
        !is_white_space(s[end - 1]),
    ensures
        drop_white(s, from, to) == end,
    decreases to - from,
{
    if end < to {
        lemma_drop_white_to(s, from, to - 1, end);
    }
}

/// Joining nothing gives nothing, joining one part gives it, and each further part comes
/// with a separator before it.
pub proof fn what_joining_gives(parts: Seq<Seq<char>>, part: Seq<char>, sep: Seq<char>)
    ensures
        join(Seq::<Seq<char>>::empty(), sep).len() == 0,
        join(seq![part], sep) == part,
        parts.len() > 0 ==> join(parts.push(part), sep) == join(parts, sep) + sep + part,
{
    assert(parts.push(part).drop_last() == parts);
}

/// Digits are written from `0` to `9`, and each further digit of a number counts one tenth
/// of the one before it.
pub proof fn what_decimals_are(n: nat, d: nat)
    requires
        d < 10,
    ensures
        decimal(d).len() == 1,
        decimal(d)[0] as u32 == 48 + d,
        n > 0 ==> decimal(10 * n + d) == decimal(n).push(decimal(d)[0]),
{
    let m = 10 * n + d;
    assert(m / 10 == n && m % 10 == d);
}

/// The text of digits denotes the number that they write, with or without a `+` before them,
/// or its opposite after a `-`, where that can be held.
pub proof fn which_texts_are_numbers(digits: Seq<char>, last: char)
    requires
        forall|i: int| 0 <= i < digits.len() ==> '0' <= #[trigger] digits[i] <= '9',
        '0' <= last <= '9',
    ensures
        ({
            let s = digits.push(last);
            let n = digits_value(s);
            &&& digits_value(Seq::<char>::empty()) == 0
            &&& n == 10 * digits_value(digits) + (last as u32 - 48)
            &&& read_u32(s) == (if n <= 0xFFFF_FFFF {
                Some(n as u32)
            } else {
                None
            })
            &&& read_u32(seq!['+'] + s) == read_u32(s)
            &&& read_u32(seq!['-'] + s) is None
            &&& read_usize(s) == (if n <= usize::MAX {
                Some(n as usize)
            } else {
                None
            })
            &&& read_usize(seq!['+'] + s) == read_usize(s)
            &&& read_usize(seq!['-'] + s) is None
            &&& read_i32(s) == (if n <= 0x7FFF_FFFF {
                Some(n as i32)
            } else {
                None
            })
            &&& read_i32(seq!['+'] + s) == read_i32(s)
            &&& read_i32(seq!['-'] + s) == (if n <= 0x8000_0000 {
                Some((-n) as i32)
            } else {
                None
            })
        }),
{
    let s = digits.push(last);
    assert(s.drop_last() == digits);
    assert forall|i: int| 0 <= i < s.len() implies '0' <= #[trigger] s[i] <= '9' by {
        if i < digits.len() {
            assert(s[i] == digits[i]);
        }
    }
    assert('0' <= s[0] <= '9');
    let plus = seq!['+'] + s;
    let minus = seq!['-'] + s;
    assert(plus.skip(1) == s);
    assert(minus.skip(1) == s);
    assert(minus[0] == '-');
    assert(!all_digits(minus));
}

/// A text denotes no number where it is empty, where it begins with neither a digit nor a
/// sign or is a sign alone, or where anything but a digit stands behind its first character.
pub proof fn which_texts_are_no_numbers(s: Seq<char>, i: int)
    requires
        s.len() > 0 ==> 0 <= i < s.len() && !('0' <= s[i] <= '9') && (i > 0 || s.len() == 1 || (s[0]
            != '+' && s[0] != '-')),
    ensures
        read_u32(s) is None,
        read_usize(s) is None,
        read_i32(s) is None,
{
    if s.len() > 0 {
        assert(!all_digits(s));
        if i > 0 {
            assert(s.skip(1)[i - 1] == s[i]);
            assert(!all_digits(s.skip(1)));
        }
    }
}

/// Texts are in the order of their characters at the first place where they differ, and a
/// text comes before every text that it begins.
pub proof fn what_the_order_is(a: Seq<char>, b: Seq<char>, at: int)
    requires
        0 <= at <= a.len(),
        at <= b.len(),
        forall|i: int| 0 <= i < at ==> a[i] == b[i],
        at < a.len() && at < b.len() ==> a[at] != b[at],
    ensures
        at < a.len() && at < b.len() ==> (text_le(a, b) <==> a[at] < b[at]),
        at == a.len() ==> text_le(a, b),
        at == b.len() && at < a.len() ==> !text_le(a, b),
    decreases at,
{
    if at > 0 {
        let x = a.skip(1);
        let y = b.skip(1);
        assert forall|i: int| 0 <= i < at - 1 implies x[i] == y[i] by {
            assert(a[i + 1] == b[i + 1]);
        }
        assert(a[0] == b[0]);
        what_the_order_is(x, y, at - 1);
    }
}

/// A text begins with what stands at its beginning, and holds what stands anywhere in it.
pub proof fn what_stands_in_a_text(before: Seq<char>, part: Seq<char>, after: Seq<char>)
    ensures
        begins_with(part + after, part),
        occurs_in(before + part + after, part),
{
    assert((part + after).take(part.len() as int) == part);
    let s = before + part + after;
    assert(s.subrange(before.len() as int, before.len() as int + part.len()) == part);
    assert(occurs_at(s, part, before.len() as int));
}

/// What a text begins with, or holds, stands in it: the text falls into it and the rest,
/// which are returned.
pub proof fn what_is_found_in_a_text(s: Seq<char>, part: Seq<char>) -> (r: (Seq<char>, Seq<char>))
    ensures
        begins_with(s, part) ==> s == part + s.skip(part.len() as int),
        occurs_in(s, part) ==> s == r.0 + part + r.1,
{
    if begins_with(s, part) {
        assert(s == s.take(part.len() as int) + s.skip(part.len() as int));
    }
    if occurs_in(s, part) {
        let at = choose|at: int| occurs_at(s, part, at);
        let r = (s.take(at), s.skip(at + part.len()));
        assert(s == r.0 + s.subrange(at, at + part.len()) + r.1);
        r
    } else {
        (seq![], seq![])
    }
}

/// Lowering changes the capital letters of ASCII, each to its small one, and nothing else.
pub proof fn what_lowering_changes(s: Seq<char>, i: int)
    requires
        0 <= i < s.len(),
    ensures
        ascii_lowered(s).len() == s.len(),
        0x41 <= s[i] as u32 <= 0x5A ==> ascii_lowered(s)[i] as u32 == s[i] as u32 + 32,
        !(0x41 <= s[i] as u32 <= 0x5A) ==> ascii_lowered(s)[i] == s[i],
{
}

} // verus!
