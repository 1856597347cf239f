//! Character classes and plain text operations.

use vstd::prelude::*;
use vstd::string::*;

verus! {

/// The characters with the Unicode `White_Space` property.
pub open spec fn is_white_space(c: char) -> bool {
    ||| '\u{0009}' <= c <= '\u{000d}'
    ||| c == '\u{0020}'
    ||| c == '\u{0085}'
    ||| c == '\u{00a0}'
    ||| c == '\u{1680}'
    ||| '\u{2000}' <= c <= '\u{200a}'
    ||| c == '\u{2028}'
    ||| c == '\u{2029}'
    ||| c == '\u{202f}'
    ||| c == '\u{205f}'
    ||| c == '\u{3000}'
}

/// The control codes: the characters of the Unicode general category `Cc`.
pub open spec fn is_control_code(c: char) -> bool {
    ||| c <= '\u{001f}'
    ||| '\u{007f}' <= c <= '\u{009f}'
}

/// `char::is_whitespace` holds of exactly the characters with the Unicode
/// `White_Space` property.
pub assume_specification[ char::is_whitespace ](c: char) -> (r: bool)
    ensures
        r == is_white_space(c),
;

/// `char::is_control` holds of exactly the control codes.
pub assume_specification[ char::is_control ](c: char) -> (r: bool)
    ensures
        r == is_control_code(c),
;

/// `String::push` appends one character.
pub assume_specification[ String::push ](s: &mut String, c: char)
    ensures
        final(s)@ == old(s)@.push(c),
;

/// What `char::to_lowercase` yields for `c`.
pub uninterp spec fn char_lowercase(c: char) -> Seq<char>;

/// The lower case of an ASCII letter; every other character is its own.
pub open spec fn ascii_lowercase(c: char) -> char {
    if 'A' <= c <= 'Z' {
        (c as u8 + 32) as char
    } else {
        c
    }
}

/// The upper case of an ASCII letter; every other character is its own.
pub open spec fn ascii_uppercase(c: char) -> char {
    if 'a' <= c <= 'z' {
        (c as u8 - 32) as char
    } else {
        c
    }
}

/// Whether none of `A` to `Z` occurs in `t`.
pub open spec fn has_no_capitals(t: Seq<char>) -> bool {
    forall|i: int| 0 <= i < t.len() ==> !('A' <= #[trigger] t[i] <= 'Z')
}

/// Every character of `s` with its ASCII letters in lower case.
pub open spec fn ascii_lowercase_text(s: Seq<char>) -> Seq<char> {
    s.map_values(|c: char| ascii_lowercase(c))
}

/// Every character of `s` with its ASCII letters in upper case.
pub open spec fn ascii_uppercase_text(s: Seq<char>) -> Seq<char> {
    s.map_values(|c: char| ascii_uppercase(c))
}

/// Calls `char::to_lowercase`. The result is the Unicode lower case mapping of
/// the character, a function of the character alone. Of an ASCII character it
/// is that character with `A` to `Z` turned into `a` to `z`; of no character
/// does it hold one of `A` to `Z`.
#[verifier::external_body]
pub(crate) fn lowercase_of(c: char) -> (r: Vec<char>)
    ensures
        r@ == char_lowercase(c),
        c <= '\u{007f}' ==> r@ == seq![ascii_lowercase(c)],
        has_no_capitals(r@),
{
    c.to_lowercase().collect()
}

/// The text that `{:?}` gives for a string.
pub uninterp spec fn quoted_text(s: Seq<char>) -> Seq<char>;

/// The text that `{:?}` gives for a character.
pub uninterp spec fn quoted_char(c: char) -> Seq<char>;

/// Formats a string with std's `Debug` for `str`: the result is the quoted and
/// escaped string, a function of the string alone.
#[verifier::external_body]
pub(crate) fn quote_text(s: &str) -> (r: String)
    ensures
        r@ == quoted_text(s@),
{
    format!("{:?}", s)
}

/// Formats a character with std's `Debug` for `char`: the result is the quoted
/// and escaped character, a function of the character alone.
#[verifier::external_body]
pub(crate) fn quote_char(c: char) -> (r: String)
    ensures
        r@ == quoted_char(c),
{
    format!("{:?}", c)
}

/// `s` without its leading white space.
pub open spec fn trim_start(s: Seq<char>) -> Seq<char>
    decreases s.len(),
{
    if s.len() > 0 && is_white_space(s.first()) {
        trim_start(s.drop_first())
    } else {
        s
    }
}

/// `s` without its trailing white space.
pub open spec fn trim_end(s: Seq<char>) -> Seq<char>
    decreases s.len(),
{
    if s.len() > 0 && is_white_space(s.last()) {
        trim_end(s.drop_last())
    } else {
        s
    }
}

/// `s` without its leading and trailing white space.
pub open spec fn trimmed(s: Seq<char>) -> Seq<char> {
    trim_end(trim_start(s))
}

/// The decimal digit of `d`.
pub open spec fn decimal_digit(d: nat) -> char
    recommends
        d < 10,
{
    ('0' as u8 + d) as char
}

/// The decimal numeral of `n`.
pub open spec fn decimal(n: nat) -> Seq<char>
    decreases n,
{
    if n < 10 {
        seq![decimal_digit(n)]
    } else {
        decimal(n / 10).push(decimal_digit(n % 10))
    }
}

/// The texts of `lines`, each two of them separated by one line feed.
pub open spec fn joined_lines(lines: Seq<Seq<char>>) -> Seq<char>
    decreases lines.len(),
{
    if lines.len() == 0 {
        seq![]
    } else if lines.len() == 1 {
        lines[0]
    } else {
        joined_lines(lines.drop_last()).push('\n') + lines.last()
    }
}

/// The texts that a list of strings holds.
pub open spec fn texts(list: Seq<String>) -> Seq<Seq<char>> {
    list.map_values(|s: String| s@)
}

/// The text that an optional string holds.
pub open spec fn optional_text(s: Option<String>) -> Option<Seq<char>> {
    match s {
        Some(s) => Some(s@),
        None => None,
    }
}

proof fn lemma_trim_start(s: Seq<char>, n: int)
    requires
        0 <= n <= s.len(),
        forall|i: int| 0 <= i < n ==> is_white_space(s[i]),
    ensures
        trim_start(s) == trim_start(s.skip(n)),
    decreases n,
{
    if n == 0 {
        assert(s.skip(0) =~= s);
    } else {
        lemma_trim_start(s.drop_first(), n - 1);
        assert(s.drop_first().skip(n - 1) =~= s.skip(n));
    }
}

proof fn lemma_trim_end(s: Seq<char>, n: int)
    requires
        0 <= n <= s.len(),
        forall|i: int| n <= i < s.len() ==> is_white_space(s[i]),
    ensures
        trim_end(s) == trim_end(s.take(n)),
    decreases s.len() - n,
{
    if n == s.len() {
        assert(s.take(n) =~= s);
    } else {
        lemma_trim_end(s.drop_last(), n);
        assert(s.drop_last().take(n) =~= s.take(n));
    }
}

/// Trimming leaves no white space at either end, and leaves a text that has
/// none there as it is.
pub proof fn trimmed_has_no_outer_white_space(s: Seq<char>)
    ensures
        trimmed(s).len() > 0 ==> !is_white_space(trimmed(s).first()) && !is_white_space(
            trimmed(s).last(),
        ),
        trimmed(trimmed(s)) == trimmed(s),
        (s.len() > 0 ==> !is_white_space(s.first()) && !is_white_space(s.last())) ==> trimmed(s)
            == s,
{
    lemma_trim_start_head(s);
    lemma_trim_end_tail(trim_start(s));
}

proof fn lemma_trim_start_head(s: Seq<char>)
    ensures
        trim_start(s).len() > 0 ==> !is_white_space(trim_start(s).first()),
        trim_start(s).len() <= s.len(),
    decreases s.len(),
{
    if s.len() > 0 && is_white_space(s.first()) {
        lemma_trim_start_head(s.drop_first());
    }
}

proof fn lemma_trim_end_tail(s: Seq<char>)
    ensures
        trim_end(s).len() > 0 ==> !is_white_space(trim_end(s).last()) && trim_end(s).first()
            == s.first(),
        trim_end(s).len() <= s.len(),
    decreases s.len(),
{
    if s.len() > 0 && is_white_space(s.last()) {
        lemma_trim_end_tail(s.drop_last());
    }
}

/// The characters of a string.
pub(crate) fn chars_of(s: &str) -> (r: Vec<char>)
    ensures
        r@ == s@,
{
    let mut out: Vec<char> = Vec::new();
    for c in it: s.chars()
        invariant
            it.seq() == s@,
            out@ == s@.take(it.index()),
    {
        proof {
            assert(s@.take(it.index() + 1) =~= s@.take(it.index()).push(c));
        }
        out.push(c);
    }
    assert(out@ =~= s@);
    out
}

/// The string of the characters at `from` up to `to`.
pub(crate) fn string_of(chars: &Vec<char>, from: usize, to: usize) -> (r: String)
    requires
        from <= to <= chars@.len(),
    ensures
        r@ == chars@.subrange(from as int, to as int),
{
    let mut out = String::new();
    let mut i: usize = from;
    while i < to
        invariant
            from <= i <= to <= chars@.len(),
            out@ == chars@.subrange(from as int, i as int),
        decreases to - i,
    {
        proof {
            assert(chars@.subrange(from as int, i + 1) =~= chars@.subrange(
                from as int,
                i as int,
            ).push(chars@[i as int]));
        }
        out.push(chars[i]);
        i += 1;
    }
    out
}

/// The characters at `from` up to `to`.
pub(crate) fn slice_of(chars: &Vec<char>, from: usize, to: usize) -> (r: Vec<char>)
    requires
        from <= to <= chars@.len(),
    ensures
        r@ == chars@.subrange(from as int, to as int),
{
    let mut out: Vec<char> = Vec::new();
    let mut i: usize = from;
    while i < to
        invariant
            from <= i <= to <= chars@.len(),
            out@ == chars@.subrange(from as int, i as int),
        decreases to - i,
    {
        proof {
            assert(chars@.subrange(from as int, i + 1) =~= chars@.subrange(
                from as int,
                i as int,
            ).push(chars@[i as int]));
        }
        out.push(chars[i]);
        i += 1;
    }
    out
}

/// The characters of a string without its outer white space.
pub(crate) fn trimmed_chars(chars: &Vec<char>) -> (r: Vec<char>)
    ensures
        r@ == trimmed(chars@),
{
    let mut from: usize = 0;
    while from < chars.len() && chars[from].is_whitespace()
        invariant
            from <= chars@.len(),
            forall|i: int| 0 <= i < from ==> is_white_space(chars@[i]),
        decreases chars@.len() - from,
    {
        from += 1;
    }
    proof {
        lemma_trim_start(chars@, from as int);
        assert(trim_start(chars@) == chars@.skip(from as int));
    }
    let mut to: usize = chars.len();
    while to > from && chars[to - 1].is_whitespace()
        invariant
            from <= to <= chars@.len(),
            forall|i: int| to <= i < chars@.len() ==> is_white_space(chars@[i]),
        decreases to,
    {
        to -= 1;
    }
    proof {
        let rest = chars@.skip(from as int);
        assert forall|i: int| to - from <= i < rest.len() implies is_white_space(rest[i]) by {
            assert(rest[i] == chars@[from + i]);
        }
        lemma_trim_end(rest, to - from);
        assert(rest.take(to - from) =~= chars@.subrange(from as int, to as int));
        let kept = chars@.subrange(from as int, to as int);
        if kept.len() > 0 {
            assert(kept.last() == chars@[to - 1]);
        }
        assert(trim_end(kept) == kept);
    }
    slice_of(chars, from, to)
}

/// A string without its outer white space.
pub(crate) fn trim_text(s: &str) -> (r: String)
    ensures
        r@ == trimmed(s@),
{
    let chars = trimmed_chars(&chars_of(s));
    let r = string_of(&chars, 0, chars.len());
    assert(chars@.subrange(0, chars@.len() as int) =~= chars@);
    r
}

/// Whether two strings hold the same text.
pub(crate) fn same_chars(a: &Vec<char>, b: &Vec<char>) -> (r: bool)
    ensures
        r == (a@ == b@),
{
    if a.len() != b.len() {
        return false;
    }
    let mut i: usize = 0;
    while i < a.len()
        invariant
            a@.len() == b@.len(),
            i <= a@.len(),
            forall|j: int| 0 <= j < i ==> a@[j] == b@[j],
        decreases a@.len() - i,
    {
        if a[i] != b[i] {
            assert(a@[i as int] != b@[i as int]);
            return false;
        }
        i += 1;
    }
    assert(a@ =~= b@);
    true
}

/// Whether two strings hold the same text.
pub(crate) fn same_text(a: &str, b: &str) -> (r: bool)
    ensures
        r == (a@ == b@),
{
    same_chars(&chars_of(a), &chars_of(b))
}

/// Whether `s` begins with `prefix`.
pub(crate) fn begins_with(s: &str, prefix: &str) -> (r: bool)
    ensures
        r == prefix@.is_prefix_of(s@),
{
    let text = chars_of(s);
    let head = chars_of(prefix);
    if text.len() < head.len() {
        return false;
    }
    let mut i: usize = 0;
    while i < head.len()
        invariant
            head@ == prefix@,
            text@ == s@,
            i <= head@.len() <= text@.len(),
            forall|j: int| 0 <= j < i ==> text@[j] == head@[j],
        decreases head@.len() - i,
    {
        if text[i] != head[i] {
            assert(s@.subrange(0, prefix@.len() as int)[i as int] != prefix@[i as int]);
            return false;
        }
        i += 1;
    }
    assert(s@.subrange(0, prefix@.len() as int) =~= prefix@);
    true
}

/// The ASCII letters of `chars` in lower case, every other character as it is.
pub(crate) fn lower_ascii(chars: &Vec<char>) -> (r: Vec<char>)
    ensures
        r@ == ascii_lowercase_text(chars@),
{
    let mut out: Vec<char> = Vec::new();
    let mut i: usize = 0;
    while i < chars.len()
        invariant
            i <= chars@.len(),
            out@ == ascii_lowercase_text(chars@.take(i as int)),
        decreases chars@.len() - i,
    {
        let c: char = chars[i];
        let lower: char = if 'A' <= c && c <= 'Z' {
            (c as u8 + 32) as char
        } else {
            c
        };
        proof {
            assert(chars@.take(i + 1) =~= chars@.take(i as int).push(c));
            assert(ascii_lowercase_text(chars@.take(i + 1)) =~= ascii_lowercase_text(
                chars@.take(i as int),
            ).push(lower));
        }
        out.push(lower);
        i += 1;
    }
    assert(chars@.take(chars@.len() as int) =~= chars@);
    out
}

/// The decimal numeral of `n`.
pub(crate) fn decimal_text(n: usize) -> (r: String)
    ensures
        r@ == decimal(n as nat),
    decreases n,
{
    let mut out = if n < 10 {
        String::new()
    } else {
        decimal_text(n / 10)
    };
    let last: u8 = (n % 10) as u8;
    out.push((48 + last) as char);
    assert(n < 10 ==> out@ =~= seq![decimal_digit(n as nat)]);
    out
}

/// The strings of `lines`, each two of them separated by one line feed.
pub(crate) fn join_lines(lines: &Vec<String>) -> (r: String)
    ensures
        r@ == joined_lines(texts(lines@)),
{
    let mut out = String::new();
    let mut i: usize = 0;
    assert(texts(lines@.take(0)) =~= seq![]);
    while i < lines.len()
        invariant
            i <= lines@.len(),
            out@ == joined_lines(texts(lines@.take(i as int))),
        decreases lines@.len() - i,
    {
        let ghost before = texts(lines@.take(i as int));
        let ghost after = texts(lines@.take(i + 1));
        proof {
            assert(after.drop_last() =~= before);
            assert(after.last() == lines@[i as int]@);
        }
        if i > 0 {
            out.push('\n');
        }
        out.append(lines[i].as_str());
        assert(out@ =~= joined_lines(after));
        i += 1;
    }
    assert(lines@.take(lines@.len() as int) =~= lines@);
    out
}

/// Trimming takes white space from the two ends and nothing else: what is left
/// is the part of the text from `span.0` up to `span.1`, all before and all
/// behind it is white space, and it neither begins nor ends with white space.
pub proof fn trimming_drops_only_outer_white_space(s: Seq<char>) -> (span: (int, int))
    ensures
        0 <= span.0 <= span.1 <= s.len(),
        trimmed(s) == s.subrange(span.0, span.1),
        forall|i: int| 0 <= i < span.0 ==> is_white_space(#[trigger] s[i]),
        forall|i: int| span.1 <= i < s.len() ==> is_white_space(#[trigger] s[i]),
        span.0 < span.1 ==> !is_white_space(s[span.0]) && !is_white_space(s[span.1 - 1]),
{
    let a = lemma_trim_start_at(s);
    let rest = trim_start(s);
    let b = lemma_trim_end_at(rest);
    assert(trimmed(s) =~= s.subrange(a, a + b));
    assert forall|i: int| a + b <= i < s.len() implies is_white_space(#[trigger] s[i]) by {
        assert(rest[i - a] == s[i]);
    }
    if b > 0 {
        assert(rest[0] == s[a]);
        assert(rest[b - 1] == s[a + b - 1]);
        assert(trim_end(rest)[0] == rest[0]);
    }
    (a, a + b)
}

proof fn lemma_trim_start_at(s: Seq<char>) -> (n: int)
    ensures
        0 <= n <= s.len(),
        trim_start(s) == s.skip(n),
        forall|i: int| 0 <= i < n ==> is_white_space(#[trigger] s[i]),
        n < s.len() ==> !is_white_space(s[n]),
    decreases s.len(),
{
    if s.len() > 0 && is_white_space(s.first()) {
        let rest = s.drop_first();
        let n = lemma_trim_start_at(rest);
        assert(rest.skip(n) =~= s.skip(n + 1));
        assert forall|i: int| 0 <= i < n + 1 implies is_white_space(#[trigger] s[i]) by {
            if i > 0 {
                assert(rest[i - 1] == s[i]);
            }
        }
        if n + 1 < s.len() {
            assert(rest[n] == s[n + 1]);
        }
        n + 1
    } else {
        assert(s.skip(0) =~= s);
        0
    }
}

proof fn lemma_trim_end_at(s: Seq<char>) -> (n: int)
    ensures
        0 <= n <= s.len(),
        trim_end(s) == s.take(n),
        forall|i: int| n <= i < s.len() ==> is_white_space(#[trigger] s[i]),
        n > 0 ==> !is_white_space(s[n - 1]),
    decreases s.len(),
{
    if s.len() > 0 && is_white_space(s.last()) {
        let rest = s.drop_last();
        let n = lemma_trim_end_at(rest);
        assert(rest.take(n) =~= s.take(n));
        assert forall|i: int| n <= i < s.len() implies is_white_space(#[trigger] s[i]) by {
            if i < rest.len() {
                assert(rest[i] == s[i]);
            }
        }
        n
    } else {
        assert(s.take(s.len() as int) =~= s);
        s.len() as int
    }
}

/// Where line `i` starts in joined lines: behind all lines before it and the one
/// line feed that follows each of them.
pub open spec fn line_start(lines: Seq<Seq<char>>, i: int) -> int
    decreases i,
{
    if i <= 0 {
        0
    } else {
        line_start(lines, i - 1) + lines[i - 1].len() + 1
    }
}

proof fn lemma_line_start(lines: Seq<Seq<char>>, more: Seq<Seq<char>>, i: int)
    requires
        0 <= i <= lines.len(),
        lines.is_prefix_of(more),
    ensures
        line_start(lines, i) == line_start(more, i),
        line_start(lines, i) >= i,
    decreases i,
{
    if i > 0 {
        lemma_line_start(lines, more, i - 1);
        assert(lines[i - 1] == more[i - 1]);
    }
}

proof fn lemma_joined_length(lines: Seq<Seq<char>>)
    ensures
        lines.len() > 0 ==> joined_lines(lines).len() + 1 == line_start(lines, lines.len() as int),
        lines.len() == 0 ==> joined_lines(lines).len() == 0,
    decreases lines.len(),
{
    if lines.len() == 1 {
        assert(line_start(lines, 1) == line_start(lines, 0) + lines[0].len() + 1);
    } else if lines.len() > 1 {
        let before = lines.drop_last();
        let n = lines.len() - 1;
        lemma_joined_length(before);
        lemma_line_start(before, lines, n);
        assert(line_start(lines, n + 1) == line_start(lines, n) + lines[n].len() + 1);
    }
}

proof fn lemma_line(lines: Seq<Seq<char>>, i: int)
    requires
        0 <= i < lines.len(),
    ensures
        0 <= line_start(lines, i),
        line_start(lines, i) + lines[i].len() <= joined_lines(lines).len(),
        joined_lines(lines).subrange(line_start(lines, i), line_start(lines, i) + lines[i].len())
            == lines[i],
        i > 0 ==> joined_lines(lines)[line_start(lines, i) - 1] == '\n' && line_start(lines, i)
            > 0,
    decreases lines.len(),
{
    let text = joined_lines(lines);
    if lines.len() == 1 {
        assert(text.subrange(0, lines[0].len() as int) =~= lines[0]);
    } else {
        let before = lines.drop_last();
        let n = lines.len() - 1;
        let head = joined_lines(before);
        lemma_joined_length(before);
        assert(text == head.push('\n') + lines[n]);
        lemma_line_start(before, lines, i);
        let start = line_start(lines, i);
        let end = start + lines[i].len();
        if i < n {
            lemma_line(before, i);
            assert(before[i] == lines[i]);
            assert(text.subrange(start, end) =~= head.subrange(start, end));
        } else {
            assert(text.subrange(start, end) =~= lines[n]);
        }
    }
}

/// Joined lines hold every line, in order and as it is, and between each two
/// neighbours one line feed, and nothing else.
pub proof fn joined_lines_hold_every_line(lines: Seq<Seq<char>>)
    ensures
        lines.len() > 0 ==> joined_lines(lines).len() + 1 == line_start(lines, lines.len() as int),
        lines.len() == 0 ==> joined_lines(lines).len() == 0,
        forall|i: int|
            0 <= i < lines.len() ==> 0 <= line_start(lines, i) && line_start(lines, i)
                + lines[i].len() <= joined_lines(lines).len() && joined_lines(lines).subrange(
                line_start(lines, i),
                line_start(lines, i) + lines[i].len(),
            ) == #[trigger] lines[i],
        forall|i: int|
            0 < i < lines.len() ==> joined_lines(lines)[#[trigger] line_start(lines, i) - 1]
                == '\n',
{
    lemma_joined_length(lines);
    assert forall|i: int| 0 <= i < lines.len() implies 0 <= line_start(lines, i) && line_start(
        lines,
        i,
    ) + lines[i].len() <= joined_lines(lines).len() && joined_lines(lines).subrange(
        line_start(lines, i),
        line_start(lines, i) + lines[i].len(),
    ) == #[trigger] lines[i] by {
        lemma_line(lines, i);
    }
    assert forall|i: int| 0 < i < lines.len() implies joined_lines(lines)[#[trigger] line_start(
        lines,
        i,
    ) - 1] == '\n' by {
        lemma_line(lines, i);
    }
}

/// In lower case `A` to `Z` are 32 codes further and no other character changes;
/// in upper case `a` to `z` are 32 codes back and no other character changes; so
/// the one undoes the other on letters.
pub proof fn ascii_case_is_32_codes(c: char)
    ensures
        'A' <= c <= 'Z' ==> ascii_lowercase(c) as u32 == c as u32 + 32 && ascii_uppercase(
            ascii_lowercase(c),
        ) == c,
        !('A' <= c <= 'Z') ==> ascii_lowercase(c) == c,
        'a' <= c <= 'z' ==> ascii_uppercase(c) as u32 == c as u32 - 32 && ascii_lowercase(
            ascii_uppercase(c),
        ) == c,
        !('a' <= c <= 'z') ==> ascii_uppercase(c) == c,
{
}

/// The texts of a list are those of its strings, each in its place.
pub proof fn texts_are_those_of_strings(list: Seq<String>, i: int)
    requires
        0 <= i < list.len(),
    ensures
        texts(list).len() == list.len(),
        texts(list)[i] == list[i]@,
        optional_text(Some(list[i])) == Some(list[i]@),
        optional_text(None) is None,
{
}

} // verus!
