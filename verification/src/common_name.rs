//! The Common Name of the request's subject: validation of a given one and
//! generation of a default one from the system hostname.

use vstd::prelude::*;
use vstd::string::*;
use vstd::utf8::*;

use crate::ip::{digit_value, numeral_value};
use crate::text::{
    ascii_lowercase, ascii_lowercase_text, ascii_uppercase_text, char_lowercase, chars_of,
    has_no_capitals, is_control_code, is_white_space, lowercase_of, quote_char, quoted_char,
    string_of, trim_text, trimmed, trimmed_chars, trimmed_has_no_outer_white_space,
    trimming_drops_only_outer_white_space,
};

verus! {

/// The greatest length of a Common Name in characters (X.509 `ub-common-name`,
/// RFC 5280).
pub const MAX_COMMON_NAME_LEN: usize = 64;

/// The greatest length of the hostname in a name made of a fully-qualified one.
pub const MAX_FQDN_COMPONENT_LEN: usize = 47;

/// The greatest length of the hostname in a name made of a short one.
pub const MAX_HOSTNAME_COMPONENT_LEN: usize = 32;

/// How many hexadecimal digits of the UUID end a generated name.
pub const UUID_SUFFIX_HEX_LEN: usize = 12;

/// The metacharacters of RFC 4514 distinguished names.
pub open spec fn is_dn_metacharacter(c: char) -> bool {
    ||| c == ','
    ||| c == '+'
    ||| c == '='
    ||| c == '"'
    ||| c == '\\'
    ||| c == '<'
    ||| c == '>'
    ||| c == ';'
    ||| c == '#'
}

/// The characters that a Common Name may not hold.
pub open spec fn is_forbidden(c: char) -> bool {
    is_control_code(c) || is_dn_metacharacter(c)
}

/// The first forbidden character of `t`.
pub open spec fn first_forbidden(t: Seq<char>) -> Option<char>
    decreases t.len(),
{
    if t.len() == 0 {
        None
    } else if is_forbidden(t.first()) {
        Some(t.first())
    } else {
        first_forbidden(t.drop_first())
    }
}

/// Why a Common Name is refused.
pub enum CommonNameFault {
    /// It is empty, or white space only.
    Empty,
    /// It is longer than a Common Name may be.
    TooLong,
    /// It holds this character, the first one that is forbidden.
    Forbidden(char),
}

/// The Common Name that a given text stands for, or why it is refused.
pub open spec fn read_common_name(s: Seq<char>) -> Result<Seq<char>, CommonNameFault> {
    let cn = trimmed(s);
    if cn.len() == 0 {
        Err(CommonNameFault::Empty)
    } else if cn.len() > MAX_COMMON_NAME_LEN {
        Err(CommonNameFault::TooLong)
    } else {
        match first_forbidden(cn) {
            Some(bad) => Err(CommonNameFault::Forbidden(bad)),
            None => Ok(cn),
        }
    }
}

/// The message for a Common Name that is refused for `fault`.
pub open spec fn common_name_message(fault: CommonNameFault) -> Seq<char> {
    match fault {
        CommonNameFault::Empty => "common name must not be empty"@,
        CommonNameFault::TooLong => "common name exceeds 64 characters"@,
        CommonNameFault::Forbidden(bad) => "common name contains forbidden character "@
            + quoted_char(bad),
    }
}

/// What validating the Common Name `s` gives: the name without outer white
/// space, or the message that says why it is refused.
pub open spec fn parses_common_name(s: Seq<char>, r: Result<String, String>) -> bool {
    match (r, read_common_name(s)) {
        (Ok(cn), Ok(name)) => cn@ == name,
        (Err(message), Err(fault)) => message@ == common_name_message(fault),
        _ => false,
    }
}

fn forbids(c: char) -> (r: bool)
    ensures
        r == is_forbidden(c),
{
    c.is_control() || c == ',' || c == '+' || c == '=' || c == '"' || c == '\\' || c == '<' || c
        == '>' || c == ';' || c == '#'
}

fn find_forbidden(t: &Vec<char>) -> (r: Option<char>)
    ensures
        r == first_forbidden(t@),
{
    let mut i: usize = 0;
    assert(t@.skip(0) =~= t@);
    while i < t.len()
        invariant
            i <= t@.len(),
            first_forbidden(t@) == first_forbidden(t@.skip(i as int)),
        decreases t@.len() - i,
    {
        assert(t@.skip(i as int).drop_first() =~= t@.skip(i + 1));
        if forbids(t[i]) {
            return Some(t[i]);
        }
        i += 1;
    }
    None
}

/// Validates a user-supplied Common Name for safe use in the request subject.
///
/// The value is trimmed and must be non-empty, at most [`MAX_COMMON_NAME_LEN`]
/// characters, and free of RFC 4514 distinguished-name metacharacters and
/// control characters so that it cannot inject additional relative
/// distinguished names into the subject.
///
/// # Errors
///
/// Returns a message describing the first validation failure.
pub fn parse_common_name(s: &str) -> (r: Result<String, String>)
    ensures
        parses_common_name(s@, r),
        r matches Ok(cn) ==> read_common_name(s@) == Ok::<Seq<char>, CommonNameFault>(cn@),
        r matches Err(message) ==> read_common_name(s@) is Err && message@ == common_name_message(
            read_common_name(s@)->Err_0,
        ),
{
    let cn = trimmed_chars(&chars_of(s));
    if cn.len() == 0 {
        return Err("common name must not be empty".to_owned());
    }
    if cn.len() > MAX_COMMON_NAME_LEN {
        return Err("common name exceeds 64 characters".to_owned());
    }
    match find_forbidden(&cn) {
        Some(bad) => Err(
            "common name contains forbidden character ".to_owned().concat(
                quote_char(bad).as_str(),
            ),
        ),
        None => {
            let name = string_of(&cn, 0, cn.len());
            assert(name@ =~= cn@);
            Ok(name)
        },
    }
}

proof fn lemma_no_forbidden(t: Seq<char>)
    ensures
        first_forbidden(t) is None <==> forall|i: int|
            0 <= i < t.len() ==> !is_forbidden(#[trigger] t[i]),
    decreases t.len(),
{
    if t.len() > 0 {
        let rest = t.drop_first();
        lemma_no_forbidden(rest);
        assert(t.first() == t[0]);
        if first_forbidden(t) is None {
            assert forall|i: int| 0 <= i < t.len() implies !is_forbidden(#[trigger] t[i]) by {
                if i > 0 {
                    assert(t[i] == rest[i - 1]);
                }
            }
        }
        if forall|i: int| 0 <= i < t.len() ==> !is_forbidden(#[trigger] t[i]) {
            assert forall|i: int| 0 <= i < rest.len() implies !is_forbidden(
                #[trigger] rest[i],
            ) by {
                assert(rest[i] == t[i + 1]);
            }
        }
    }
}

/// An accepted Common Name has one to [`MAX_COMMON_NAME_LEN`] characters, none
/// of which could start another relative distinguished name or is a control
/// code, and validating it again gives it back.
pub proof fn accepted_common_name_is_safe(s: Seq<char>)
    requires
        read_common_name(s) is Ok,
    ensures
        1 <= read_common_name(s)->Ok_0.len() <= MAX_COMMON_NAME_LEN,
        forall|i: int|
            0 <= i < read_common_name(s)->Ok_0.len() ==> !is_forbidden(
                #[trigger] read_common_name(s)->Ok_0[i],
            ),
        read_common_name(read_common_name(s)->Ok_0) == read_common_name(s),
{
    trimmed_has_no_outer_white_space(s);
    lemma_no_forbidden(trimmed(s));
}

/// The ASCII letters and digits.
pub open spec fn is_ascii_alphanumeric(c: char) -> bool {
    ||| 'a' <= c <= 'z'
    ||| 'A' <= c <= 'Z'
    ||| '0' <= c <= '9'
}

/// The characters that separate the labels of a sanitized hostname.
pub open spec fn is_separator(c: char) -> bool {
    c == '-' || c == '.'
}

/// What stands for `c` in a sanitized hostname: letters, digits and hyphens
/// stay, dots stay where `keep_dots` holds, and a hyphen stands for the rest.
pub open spec fn hostname_char(c: char, keep_dots: bool) -> char {
    if is_ascii_alphanumeric(c) || (keep_dots && c == '.') {
        c
    } else {
        '-'
    }
}

/// `t` in lower case, character by character.
pub open spec fn lowercase_text(t: Seq<char>) -> Seq<char>
    decreases t.len(),
{
    if t.len() == 0 {
        seq![]
    } else {
        lowercase_text(t.drop_last()) + char_lowercase(t.last())
    }
}

/// `t` with each character replaced by what stands for it, but with no leading
/// separator and with only the first of separators in a row.
pub open spec fn squeezed(t: Seq<char>, keep_dots: bool) -> Seq<char>
    decreases t.len(),
{
    if t.len() == 0 {
        seq![]
    } else {
        let before = squeezed(t.drop_last(), keep_dots);
        let c = hostname_char(t.last(), keep_dots);
        if is_separator(c) && (before.len() == 0 || is_separator(before.last())) {
            before
        } else {
            before.push(c)
        }
    }
}

/// `t` without its trailing separators.
pub open spec fn strip_separators(t: Seq<char>) -> Seq<char>
    decreases t.len(),
{
    if t.len() > 0 && is_separator(t.last()) {
        strip_separators(t.drop_last())
    } else {
        t
    }
}

/// At most the first `limit` characters of `t`.
pub open spec fn at_most(t: Seq<char>, limit: int) -> Seq<char> {
    if t.len() <= limit {
        t
    } else {
        t.take(limit)
    }
}

/// A lower case text made into labels of at most `limit` characters.
pub open spec fn labels_of(lower: Seq<char>, keep_dots: bool, limit: int) -> Seq<char> {
    strip_separators(at_most(squeezed(lower, keep_dots), limit))
}

/// A hostname sanitized to at most `limit` characters.
pub open spec fn sanitized(hostname: Seq<char>, keep_dots: bool, limit: int) -> Seq<char> {
    labels_of(lowercase_text(hostname), keep_dots, limit)
}

/// Labels of ASCII letters and digits with single separators between them, at
/// most `limit` characters in all.
pub open spec fn are_labels(t: Seq<char>, keep_dots: bool, limit: int) -> bool {
    &&& t.len() <= limit
    &&& forall|i: int| 0 <= i < t.len() ==> hostname_char(#[trigger] t[i], keep_dots) == t[i]
    &&& t.len() > 0 ==> !is_separator(t.first()) && !is_separator(t.last())
    &&& single_separators(t)
}

/// Whether no two separators stand in a row.
pub open spec fn single_separators(t: Seq<char>) -> bool {
    forall|i: int, j: int|
        0 <= i < t.len() && j == i + 1 && j < t.len() ==> !(is_separator(#[trigger] t[i])
            && is_separator(#[trigger] t[j]))
}

proof fn lemma_squeezed_shape(t: Seq<char>, keep_dots: bool)
    ensures
        forall|i: int|
            0 <= i < squeezed(t, keep_dots).len() ==> hostname_char(
                #[trigger] squeezed(t, keep_dots)[i],
                keep_dots,
            ) == squeezed(t, keep_dots)[i],
        squeezed(t, keep_dots).len() > 0 ==> !is_separator(squeezed(t, keep_dots).first()),
        single_separators(squeezed(t, keep_dots)),
    decreases t.len(),
{
    if t.len() > 0 {
        lemma_squeezed_shape(t.drop_last(), keep_dots);
    }
}

proof fn lemma_strip(t: Seq<char>)
    ensures
        strip_separators(t).len() <= t.len(),
        strip_separators(t) == t.take(strip_separators(t).len() as int),
        strip_separators(t).len() > 0 ==> !is_separator(strip_separators(t).last()),
    decreases t.len(),
{
    if t.len() > 0 && is_separator(t.last()) {
        lemma_strip(t.drop_last());
        let k = strip_separators(t).len() as int;
        assert(t.drop_last().take(k) =~= t.take(k));
    } else {
        assert(t.take(t.len() as int) =~= t);
    }
}

/// A sanitized hostname is empty or labels of ASCII letters and digits, and no
/// longer than the limit.
pub proof fn sanitized_hostname_is_labels(hostname: Seq<char>, keep_dots: bool, limit: int)
    requires
        limit >= 0,
    ensures
        are_labels(sanitized(hostname, keep_dots, limit), keep_dots, limit),
{
    lemma_labels_of(lowercase_text(hostname), keep_dots, limit);
}

proof fn lemma_labels_of(lower: Seq<char>, keep_dots: bool, limit: int)
    requires
        limit >= 0,
    ensures
        are_labels(labels_of(lower, keep_dots, limit), keep_dots, limit),
{
    lemma_squeezed_shape(lower, keep_dots);
    lemma_strip(at_most(squeezed(lower, keep_dots), limit));
}

proof fn lemma_labels_stay(t: Seq<char>, keep_dots: bool, limit: int)
    requires
        are_labels(t, keep_dots, limit),
    ensures
        labels_of(t, keep_dots, limit) == t,
{
    lemma_labels_squeezed(t, keep_dots, t.len() as int);
    assert(t.take(t.len() as int) =~= t);
}

proof fn lemma_labels_squeezed(t: Seq<char>, keep_dots: bool, n: int)
    requires
        0 <= n <= t.len(),
        forall|i: int| 0 <= i < t.len() ==> hostname_char(#[trigger] t[i], keep_dots) == t[i],
        t.len() > 0 ==> !is_separator(t.first()),
        single_separators(t),
    ensures
        squeezed(t.take(n), keep_dots) == t.take(n),
    decreases n,
{
    if n > 0 {
        lemma_labels_squeezed(t, keep_dots, n - 1);
        assert(t.take(n).drop_last() =~= t.take(n - 1));
        if n > 1 {
            assert(t.take(n - 1).last() == t[n - 2]);
            assert(t.take(n).last() == t[n - 1]);
        }
        assert(t.take(n - 1).push(t[n - 1]) =~= t.take(n));
    } else {
        assert(t.take(0) =~= seq![]);
    }
}

proof fn lemma_capitals(lower: Seq<char>, keep_dots: bool, limit: int)
    requires
        has_no_capitals(lower),
        limit >= 0,
    ensures
        has_no_capitals(labels_of(lower, keep_dots, limit)),
{
    lemma_squeezed_capitals(lower, keep_dots);
    lemma_strip(at_most(squeezed(lower, keep_dots), limit));
}

proof fn lemma_squeezed_capitals(lower: Seq<char>, keep_dots: bool)
    requires
        has_no_capitals(lower),
    ensures
        has_no_capitals(squeezed(lower, keep_dots)),
    decreases lower.len(),
{
    if lower.len() > 0 {
        assert(lower.last() == lower[lower.len() - 1]);
        lemma_squeezed_capitals(lower.drop_last(), keep_dots);
    }
}

proof fn lemma_ascii_lowercase_text(t: Seq<char>)
    requires
        forall|i: int|
            0 <= i < t.len() ==> char_lowercase(#[trigger] t[i]) == seq![ascii_lowercase(t[i])],
    ensures
        lowercase_text(t) == ascii_lowercase_text(t),
    decreases t.len(),
{
    if t.len() > 0 {
        let before = t.drop_last();
        assert forall|i: int| 0 <= i < before.len() implies char_lowercase(
            #[trigger] before[i],
        ) == seq![ascii_lowercase(before[i])] by {
            assert(before[i] == t[i]);
        }
        lemma_ascii_lowercase_text(before);
        assert(t.last() == t[t.len() - 1]);
        assert(ascii_lowercase_text(before) + seq![ascii_lowercase(t.last())]
            =~= ascii_lowercase_text(t));
    } else {
        assert(ascii_lowercase_text(t) =~= seq![]);
    }
}

proof fn lemma_squeezed_prefix(t: Seq<char>, keep_dots: bool, n: int)
    requires
        0 <= n <= t.len(),
    ensures
        squeezed(t.take(n), keep_dots).len() <= squeezed(t, keep_dots).len(),
        squeezed(t.take(n), keep_dots) == squeezed(t, keep_dots).take(
            squeezed(t.take(n), keep_dots).len() as int,
        ),
    decreases t.len() - n,
{
    if n == t.len() {
        assert(t.take(n) =~= t);
        assert(squeezed(t, keep_dots).take(squeezed(t, keep_dots).len() as int) =~= squeezed(
            t,
            keep_dots,
        ));
    } else {
        let shorter = t.drop_last();
        lemma_squeezed_prefix(shorter, keep_dots, n);
        assert(shorter.take(n) =~= t.take(n));
        let k = squeezed(t.take(n), keep_dots).len() as int;
        assert(squeezed(t, keep_dots).take(k) =~= squeezed(shorter, keep_dots).take(k));
    }
}

/// Whether the lower case of each ASCII character of `t` is that character with
/// `A` to `Z` turned into `a` to `z`.
pub open spec fn lowers_ascii(t: Seq<char>) -> bool {
    forall|i: int|
        0 <= i < t.len() && t[i] <= '\u{007f}' ==> char_lowercase(#[trigger] t[i])
            == seq![ascii_lowercase(t[i])]
}

fn lowercase_chars(t: &Vec<char>) -> (r: Vec<char>)
    ensures
        r@ == lowercase_text(t@),
        has_no_capitals(r@),
        lowers_ascii(t@),
        is_ascii_chars(t@) ==> r@ == ascii_lowercase_text(t@),
{
    let mut out: Vec<char> = Vec::new();
    let mut i: usize = 0;
    while i < t.len()
        invariant
            i <= t@.len(),
            out@ == lowercase_text(t@.take(i as int)),
            has_no_capitals(out@),
            forall|j: int|
                0 <= j < i && t@[j] <= '\u{007f}' ==> char_lowercase(#[trigger] t@[j])
                    == seq![ascii_lowercase(t@[j])],
        decreases t@.len() - i,
    {
        assert(t@.take(i + 1).drop_last() =~= t@.take(i as int));
        let mut lower = lowercase_of(t[i]);
        out.append(&mut lower);
        i += 1;
    }
    assert(t@.take(t@.len() as int) =~= t@);
    proof {
        if is_ascii_chars(t@) {
            lemma_ascii_lowercase_text(t@);
        }
    }
    out
}

/// What sanitizing `hostname` gives: labels in lower case, in which each of its
/// ASCII letters stands as the lower case letter. Those of an ASCII hostname are
/// made of nothing else, and a hostname that already is such labels stays as it
/// is.
pub open spec fn sanitizes(
    hostname: Seq<char>,
    keep_dots: bool,
    limit: int,
    r: Seq<char>,
) -> bool {
    &&& r == sanitized(hostname, keep_dots, limit)
    &&& are_labels(r, keep_dots, limit)
    &&& has_no_capitals(r)
    &&& lowers_ascii(hostname)
    &&& is_ascii_chars(hostname) ==> r == labels_of(
        ascii_lowercase_text(hostname),
        keep_dots,
        limit,
    )
    &&& are_labels(hostname, keep_dots, limit) && has_no_capitals(hostname) ==> r == hostname
}

fn sanitize(hostname: &str, keep_dots: bool, limit: usize) -> (r: String)
    requires
        limit > 0,
    ensures
        sanitizes(hostname@, keep_dots, limit as int, r@),
{
    let lower = lowercase_chars(&chars_of(hostname));
    let mut out: Vec<char> = Vec::new();
    let mut i: usize = 0;
    while i < lower.len() && out.len() < limit
        invariant
            i <= lower@.len(),
            out@.len() <= limit,
            out@ == squeezed(lower@.take(i as int), keep_dots),
        decreases lower@.len() - i,
    {
        assert(lower@.take(i + 1).drop_last() =~= lower@.take(i as int));
        let c: char = lower[i];
        let kept: bool = ('a' <= c && c <= 'z') || ('A' <= c && c <= 'Z') || ('0' <= c && c <= '9')
            || (keep_dots && c == '.');
        let mapped: char = if kept {
            c
        } else {
            '-'
        };
        let separates: bool = mapped == '-' || mapped == '.';
        let last_separates: bool = out.len() == 0 || out[out.len() - 1] == '-' || out[out.len() - 1]
            == '.';
        if !(separates && last_separates) {
            out.push(mapped);
        }
        i += 1;
    }
    proof {
        let all = squeezed(lower@, keep_dots);
        lemma_squeezed_prefix(lower@, keep_dots, i as int);
        if i == lower@.len() {
            assert(lower@.take(i as int) =~= lower@);
        }
        assert(out@ =~= at_most(all, limit as int));
    }
    let mut end: usize = out.len();
    let ghost whole = out@;
    assert(whole.take(end as int) =~= whole);
    while end > 0 && (out[end - 1] == '-' || out[end - 1] == '.')
        invariant
            end <= out@.len(),
            out@ == whole,
            strip_separators(whole) == strip_separators(whole.take(end as int)),
        decreases end,
    {
        assert(whole.take(end as int).drop_last() =~= whole.take(end - 1));
        end -= 1;
    }
    let r = string_of(&out, 0, end);
    assert(r@ =~= whole.take(end as int));
    proof {
        lemma_labels_of(lower@, keep_dots, limit as int);
        lemma_capitals(lower@, keep_dots, limit as int);
        if are_labels(hostname@, keep_dots, limit as int) && has_no_capitals(hostname@) {
            assert forall|i: int| 0 <= i < hostname@.len() implies hostname@[i] as u32 <= 0x7f by {
                assert(hostname_char(hostname@[i], keep_dots) == hostname@[i]);
            }
            assert(is_ascii_chars(hostname@));
            assert(ascii_lowercase_text(hostname@) =~= hostname@);
            lemma_labels_stay(hostname@, keep_dots, limit as int);
        }
    }
    r
}

/// Turns a short hostname into one label: lower case letters and digits, with
/// single hyphens between them for everything else, at most
/// [`MAX_HOSTNAME_COMPONENT_LEN`] characters.
pub fn sanitize_hostname_component(hostname: &str) -> (r: String)
    ensures
        sanitizes(hostname@, false, MAX_HOSTNAME_COMPONENT_LEN as int, r@),
        r@ == sanitized(hostname@, false, 32),
        lowers_ascii(hostname@),
{
    sanitize(hostname, false, MAX_HOSTNAME_COMPONENT_LEN)
}

/// Turns a fully-qualified hostname into labels: lower case letters and digits,
/// with single dots and hyphens between them, a hyphen for everything else, at
/// most [`MAX_FQDN_COMPONENT_LEN`] characters.
pub fn sanitize_fqdn_component(hostname: &str) -> (r: String)
    ensures
        sanitizes(hostname@, true, MAX_FQDN_COMPONENT_LEN as int, r@),
        r@ == sanitized(hostname@, true, 47),
        lowers_ascii(hostname@),
{
    sanitize(hostname, true, MAX_FQDN_COMPONENT_LEN)
}

proof fn lemma_same_lowercase(one: Seq<char>, other: Seq<char>)
    requires
        ascii_lowercase_text(one) == ascii_lowercase_text(other),
        lowers_ascii(one),
        lowers_ascii(other),
    ensures
        lowercase_text(one) == lowercase_text(other),
    decreases one.len(),
{
    assert(one.len() == ascii_lowercase_text(one).len());
    assert(other.len() == ascii_lowercase_text(other).len());
    if one.len() > 0 {
        let n = one.len() - 1;
        let one_before = one.drop_last();
        let other_before = other.drop_last();
        assert(ascii_lowercase_text(one_before) =~= ascii_lowercase_text(one).drop_last());
        assert(ascii_lowercase_text(other_before) =~= ascii_lowercase_text(other).drop_last());
        assert(lowers_ascii(one_before)) by {
            assert forall|i: int|
                0 <= i < one_before.len() && one_before[i] <= '\u{007f}' implies char_lowercase(
                #[trigger] one_before[i],
            ) == seq![ascii_lowercase(one_before[i])] by {
                assert(one_before[i] == one[i]);
            }
        }
        assert(lowers_ascii(other_before)) by {
            assert forall|i: int|
                0 <= i < other_before.len() && other_before[i] <= '\u{007f}' implies char_lowercase(
                #[trigger] other_before[i],
            ) == seq![ascii_lowercase(other_before[i])] by {
                assert(other_before[i] == other[i]);
            }
        }
        lemma_same_lowercase(one_before, other_before);
        assert(ascii_lowercase_text(one)[n] == ascii_lowercase(one[n]));
        assert(ascii_lowercase_text(other)[n] == ascii_lowercase(other[n]));
        assert(char_lowercase(one[n]) == char_lowercase(other[n]));
    }
}

/// The case of ASCII letters does not matter: a hostname in upper case and the
/// same hostname in lower case are sanitized to the same labels.
pub proof fn sanitizing_ignores_ascii_case(
    hostname: Seq<char>,
    keep_dots: bool,
    limit: int,
    of_upper: Seq<char>,
    of_lower: Seq<char>,
)
    requires
        sanitizes(ascii_uppercase_text(hostname), keep_dots, limit, of_upper),
        sanitizes(ascii_lowercase_text(hostname), keep_dots, limit, of_lower),
    ensures
        of_upper == of_lower,
{
    let upper = ascii_uppercase_text(hostname);
    let lower = ascii_lowercase_text(hostname);
    assert(ascii_lowercase_text(upper) =~= ascii_lowercase_text(lower));
    lemma_same_lowercase(upper, lower);
}

/// To sanitize a hostname again changes nothing.
pub proof fn sanitizing_again_changes_nothing(
    hostname: Seq<char>,
    keep_dots: bool,
    limit: int,
    once: Seq<char>,
    twice: Seq<char>,
)
    requires
        sanitizes(hostname, keep_dots, limit, once),
        sanitizes(once, keep_dots, limit, twice),
    ensures
        twice == once,
{
}

/// The lower case hexadecimal digit of `d`.
pub open spec fn hex_digit(d: nat) -> char {
    if d < 10 {
        ('0' as u8 + d) as char
    } else {
        ('a' as u8 + (d - 10)) as char
    }
}

/// The `count` lowest hexadecimal digits of `n`, the highest of them first.
pub open spec fn hex_text(n: nat, count: nat) -> Seq<char>
    decreases count,
{
    if count == 0 {
        seq![]
    } else {
        hex_text(n / 16, (count - 1) as nat).push(hex_digit(n % 16))
    }
}

/// The 32 hexadecimal digits of a UUID.
pub open spec fn uuid_text(uuid: u128) -> Seq<char> {
    hex_text(uuid as nat, 32)
}

/// The first digits of a UUID, which end a generated name.
pub open spec fn uuid_suffix(uuid: u128) -> Seq<char> {
    uuid_text(uuid).take(UUID_SUFFIX_HEX_LEN as int)
}

/// Formats a UUID, given as its 128-bit value, with `uuid::Uuid::simple`: the
/// result is its 32 hexadecimal digits in lower case without hyphens, the
/// highest first.
#[verifier::external_body]
fn simple_uuid_text(uuid: u128) -> (r: String)
    ensures
        r@ == uuid_text(uuid),
{
    uuid::Uuid::from_u128(uuid).simple().to_string()
}

/// Whether a UUID, given as its 128-bit value, is of version four and of the
/// variant of RFC 9562.
pub open spec fn is_version_4(uuid: u128) -> bool {
    uuid as nat / 0x1000_0000_0000_0000_0000 % 16 == 4 && uuid as nat / 0x4000_0000_0000_0000 % 4
        == 2
}

/// Calls `uuid::Uuid::new_v4` and gives the 128-bit value of the UUID. It is
/// random but for the version, four, and the variant of RFC 9562. The call
/// panics where the operating system yields no random numbers.
#[verifier::external_body]
fn random_uuid() -> (r: u128)
    ensures
        is_version_4(r),
{
    uuid::Uuid::new_v4().as_u128()
}

/// Calls `hostname::get`. The result is the hostname that the operating system
/// reports at the moment, or `None` where it reports none or one that is not
/// Unicode. Nothing is claimed of it.
#[verifier::external_body]
fn system_hostname() -> (r: Option<String>) {
    match hostname::get() {
        Ok(name) => name.into_string().ok(),
        Err(_) => None,
    }
}

/// A sanitized hostname, or `unknown` where nothing is left of it.
pub open spec fn host_part(hostname: Option<Seq<char>>, keep_dots: bool, limit: int) -> Seq<char> {
    match hostname {
        Some(name) => if sanitized(name, keep_dots, limit).len() > 0 {
            sanitized(name, keep_dots, limit)
        } else {
            "unknown"@
        },
        None => "unknown"@,
    }
}

/// A generated name: a prefix, the hostname and the UUID's first digits.
pub open spec fn tee_name(prefix: Seq<char>, host: Seq<char>, uuid: u128) -> Seq<char> {
    prefix + host + "-"@ + uuid_suffix(uuid)
}

/// The name that is generated of a fully-qualified hostname.
pub open spec fn fqdn_common_name(hostname: Option<Seq<char>>, uuid: u128) -> Seq<char> {
    tee_name("tee."@, host_part(hostname, true, MAX_FQDN_COMPONENT_LEN as int), uuid)
}

/// The name that is generated of a short hostname.
pub open spec fn hostname_common_name(hostname: Option<Seq<char>>, uuid: u128) -> Seq<char> {
    tee_name("tas."@, host_part(hostname, false, MAX_HOSTNAME_COMPONENT_LEN as int), uuid)
}

/// The name that is generated of the system hostname: one that holds a dot is
/// fully-qualified.
pub open spec fn system_common_name(hostname: Option<Seq<char>>, uuid: u128) -> Seq<char> {
    match hostname {
        Some(name) => if name.contains('.') {
            fqdn_common_name(hostname, uuid)
        } else {
            hostname_common_name(hostname, uuid)
        },
        None => hostname_common_name(None, uuid),
    }
}

/// The hostname that a reported one stands for: without outer white space, and
/// none where nothing else is left.
pub open spec fn usable_hostname(reported: Option<Seq<char>>) -> Option<Seq<char>> {
    match reported {
        Some(name) => if trimmed(name).len() > 0 {
            Some(trimmed(name))
        } else {
            None
        },
        None => None,
    }
}

/// The text that an optional string slice holds.
pub open spec fn optional_str(s: Option<&str>) -> Option<Seq<char>> {
    match s {
        Some(s) => Some(s@),
        None => None,
    }
}

/// What sanitizing an ASCII hostname comes to, without the lower case mapping
/// of other characters.
pub open spec fn ascii_sanitized(hostname: Option<Seq<char>>, keep_dots: bool, limit: int) -> bool {
    match hostname {
        Some(name) => is_ascii_chars(name) ==> sanitized(name, keep_dots, limit) == labels_of(
            ascii_lowercase_text(name),
            keep_dots,
            limit,
        ),
        None => true,
    }
}

fn name_with(prefix: &str, hostname: Option<String>, uuid: u128) -> (r: String)
    ensures
        r@ == tee_name(
            prefix@,
            match hostname {
                Some(name) => if name@.len() > 0 {
                    name@
                } else {
                    "unknown"@
                },
                None => "unknown"@,
            },
            uuid,
        ),
{
    let host: String = match hostname {
        Some(name) if !name.as_str().is_empty() => name,
        _ => "unknown".to_owned(),
    };
    let digits = chars_of(simple_uuid_text(uuid).as_str());
    proof {
        lemma_hex_text_len(uuid as nat, 32);
    }
    let suffix = string_of(&digits, 0, UUID_SUFFIX_HEX_LEN);
    assert(suffix@ =~= uuid_suffix(uuid));
    prefix.to_owned().concat(host.as_str()).concat("-").concat(suffix.as_str())
}

/// Generates a Common Name of a fully-qualified hostname: `tee.`, the sanitized
/// hostname or `unknown`, a hyphen and the first digits of the UUID, given as
/// its 128-bit value.
pub fn generate_tee_common_name_from_fqdn(hostname: Option<&str>, uuid: u128) -> (r: String)
    ensures
        r@ == fqdn_common_name(optional_str(hostname), uuid),
        hostname matches Some(name) ==> lowers_ascii(name@) && r@ == fqdn_common_name(
            Some(name@),
            uuid,
        ),
        hostname is None ==> r@ == fqdn_common_name(None, uuid),
        ascii_sanitized(optional_str(hostname), true, MAX_FQDN_COMPONENT_LEN as int),
{
    let component: Option<String> = match hostname {
        Some(name) => Some(sanitize_fqdn_component(name)),
        None => None,
    };
    name_with("tee.", component, uuid)
}

/// Generates a Common Name of a short hostname: `tas.`, the sanitized hostname
/// or `unknown`, a hyphen and the first digits of the UUID, given as its
/// 128-bit value.
pub fn generate_tee_common_name_from_hostname(hostname: Option<&str>, uuid: u128) -> (r: String)
    ensures
        r@ == hostname_common_name(optional_str(hostname), uuid),
        hostname matches Some(name) ==> lowers_ascii(name@) && r@ == hostname_common_name(
            Some(name@),
            uuid,
        ),
        hostname is None ==> r@ == hostname_common_name(None, uuid),
        ascii_sanitized(optional_str(hostname), false, MAX_HOSTNAME_COMPONENT_LEN as int),
{
    let component: Option<String> = match hostname {
        Some(name) => Some(sanitize_hostname_component(name)),
        None => None,
    };
    name_with("tas.", component, uuid)
}

fn has_dot(name: &str) -> (r: bool)
    ensures
        r == name@.contains('.'),
{
    let chars = chars_of(name);
    let mut i: usize = 0;
    while i < chars.len()
        invariant
            i <= chars@.len(),
            chars@ == name@,
            forall|j: int| 0 <= j < i ==> chars@[j] != '.',
        decreases chars@.len() - i,
    {
        if chars[i] == '.' {
            assert(name@.contains(name@[i as int]));
            return true;
        }
        i += 1;
    }
    false
}

/// Generates a Common Name of the system hostname. One that contains a dot is
/// treated as fully-qualified; otherwise it is a short one.
pub fn generate_tee_common_name_from_system_hostname(
    hostname: Option<&str>,
    uuid: u128,
) -> (r: String)
    ensures
        r@ == system_common_name(optional_str(hostname), uuid),
        hostname matches Some(name) ==> lowers_ascii(name@) && r@ == system_common_name(
            Some(name@),
            uuid,
        ),
        hostname is None ==> r@ == system_common_name(None, uuid),
        match optional_str(hostname) {
            Some(name) => if name.contains('.') {
                ascii_sanitized(Some(name), true, MAX_FQDN_COMPONENT_LEN as int)
            } else {
                ascii_sanitized(Some(name), false, MAX_HOSTNAME_COMPONENT_LEN as int)
            },
            None => true,
        },
{
    match hostname {
        Some(name) => if has_dot(name) {
            generate_tee_common_name_from_fqdn(Some(name), uuid)
        } else {
            generate_tee_common_name_from_hostname(Some(name), uuid)
        },
        None => generate_tee_common_name_from_hostname(None, uuid),
    }
}

/// Generates a Common Name of the hostname that the system reports and a UUID:
/// the hostname is trimmed first, and one that is then empty is none.
pub fn generate_tee_common_name_with(reported: Option<&str>, uuid: u128) -> (r: String)
    ensures
        r@ == system_common_name(usable_hostname(optional_str(reported)), uuid),
        reported matches Some(name) ==> r@ == system_common_name(
            usable_hostname(Some(name@)),
            uuid,
        ),
        reported is None ==> r@ == system_common_name(None, uuid),
{
    match reported {
        Some(name) => {
            let hostname = trim_text(name);
            if hostname.as_str().is_empty() {
                generate_tee_common_name_from_system_hostname(None, uuid)
            } else {
                generate_tee_common_name_from_system_hostname(Some(hostname.as_str()), uuid)
            }
        },
        None => generate_tee_common_name_from_system_hostname(None, uuid),
    }
}

/// Whether `name` is what some system hostname and some UUID of version four
/// generate.
pub open spec fn is_generated_common_name(name: Seq<char>) -> bool {
    exists|reported: Option<Seq<char>>, uuid: u128|
        is_version_4(uuid) && name == #[trigger] system_common_name(
            usable_hostname(reported),
            uuid,
        )
}

/// Generates the default Common Name: of the hostname that the system reports
/// at the moment and a random UUID.
pub fn generate_tee_common_name() -> (r: String)
    ensures
        is_generated_common_name(r@),
{
    let uuid: u128 = random_uuid();
    let reported = system_hostname();
    match reported {
        Some(name) => generate_tee_common_name_with(Some(name.as_str()), uuid),
        None => generate_tee_common_name_with(None, uuid),
    }
}

proof fn lemma_hex_text_len(n: nat, count: nat)
    ensures
        hex_text(n, count).len() == count,
    decreases count,
{
    if count > 0 {
        lemma_hex_text_len(n / 16, (count - 1) as nat);
    }
}

proof fn lemma_hex_text_chars(n: nat, count: nat)
    ensures
        forall|i: int|
            0 <= i < hex_text(n, count).len() ==> is_ascii_alphanumeric(
                #[trigger] hex_text(n, count)[i],
            ),
    decreases count,
{
    if count > 0 {
        let before = hex_text(n / 16, (count - 1) as nat);
        lemma_hex_text_chars(n / 16, (count - 1) as nat);
        assert(is_ascii_alphanumeric(hex_digit(n % 16)));
        assert forall|i: int| 0 <= i < hex_text(n, count).len() implies is_ascii_alphanumeric(
            #[trigger] hex_text(n, count)[i],
        ) by {
            if i < before.len() {
                assert(hex_text(n, count)[i] == before[i]);
            }
        }
    }
}

/// `n` without its `count` lowest hexadecimal digits.
spec fn without_digits(n: nat, count: nat) -> nat
    decreases count,
{
    if count == 0 {
        n
    } else {
        without_digits(n / 16, (count - 1) as nat)
    }
}

proof fn lemma_hex_text_take(n: nat, kept: nat, dropped: nat)
    ensures
        hex_text(n, kept + dropped).take(kept as int) == hex_text(
            without_digits(n, dropped),
            kept,
        ),
    decreases dropped,
{
    lemma_hex_text_len(n, kept + dropped);
    if dropped == 0 {
        assert(hex_text(n, kept).take(kept as int) =~= hex_text(n, kept));
    } else {
        lemma_hex_text_take(n / 16, kept, (dropped - 1) as nat);
        lemma_hex_text_len(n / 16, (kept + dropped - 1) as nat);
        assert(hex_text(n, kept + dropped).take(kept as int) =~= hex_text(
            n / 16,
            (kept + dropped - 1) as nat,
        ).take(kept as int));
    }
}

proof fn lemma_hex_digit_injective(a: nat, b: nat)
    requires
        a < 16,
        b < 16,
        hex_digit(a) == hex_digit(b),
    ensures
        a == b,
{
}

/// `16` to the power of `count`.
spec fn hex_bound(count: nat) -> nat
    decreases count,
{
    if count == 0 {
        1
    } else {
        16 * hex_bound((count - 1) as nat)
    }
}

proof fn lemma_hex_text_injective(a: nat, b: nat, count: nat)
    requires
        a < hex_bound(count),
        b < hex_bound(count),
        hex_text(a, count) == hex_text(b, count),
    ensures
        a == b,
    decreases count,
{
    if count > 0 {
        let x = hex_text(a / 16, (count - 1) as nat);
        let y = hex_text(b / 16, (count - 1) as nat);
        assert(x.push(hex_digit(a % 16)).last() == y.push(hex_digit(b % 16)).last());
        lemma_hex_digit_injective(a % 16, b % 16);
        assert(x =~= x.push(hex_digit(a % 16)).drop_last());
        assert(y =~= y.push(hex_digit(b % 16)).drop_last());
        lemma_hex_text_injective(a / 16, b / 16, (count - 1) as nat);
    }
}

proof fn lemma_without_twenty_digits(n: nat)
    ensures
        without_digits(n, 20) == n / 0x1_0000_0000_0000_0000_0000,
{
    reveal_with_fuel(without_digits, 21);
}

proof fn lemma_generated_shape(hostname: Option<Seq<char>>, uuid: u128)
    ensures
        ({
            let name = system_common_name(hostname, uuid);
            &&& 17 < name.len() <= MAX_COMMON_NAME_LEN
            &&& forall|i: int|
                0 <= i < name.len() ==> is_ascii_alphanumeric(#[trigger] name[i]) || is_separator(
                    name[i],
                )
            &&& name[0] == 't'
            &&& name.skip(name.len() - UUID_SUFFIX_HEX_LEN) == uuid_suffix(uuid)
        }),
{
    reveal_strlit("tee.");
    reveal_strlit("tas.");
    reveal_strlit("unknown");
    reveal_strlit("-");
    lemma_hex_text_len(uuid as nat, 32);
    lemma_hex_text_chars(uuid as nat, 32);
    let name = system_common_name(hostname, uuid);
    let keep_dots = hostname is Some && hostname->0.contains('.');
    let limit: int = if keep_dots {
        MAX_FQDN_COMPONENT_LEN as int
    } else {
        MAX_HOSTNAME_COMPONENT_LEN as int
    };
    let host = host_part(hostname, keep_dots, limit);
    if hostname is Some {
        sanitized_hostname_is_labels(hostname->0, keep_dots, limit);
    }
    assert forall|i: int| 0 <= i < host.len() implies is_ascii_alphanumeric(#[trigger] host[i])
        || is_separator(host[i]) by {
        if host != "unknown"@ {
            assert(hostname_char(host[i], keep_dots) == host[i]);
        }
    }
    assert(name.skip(name.len() - UUID_SUFFIX_HEX_LEN) =~= uuid_suffix(uuid));
}

/// Every generated name is a valid Common Name, which validation gives back as
/// it is.
pub proof fn generated_common_name_is_valid(hostname: Option<Seq<char>>, uuid: u128)
    ensures
        read_common_name(system_common_name(hostname, uuid)) == Ok::<Seq<char>, CommonNameFault>(
            system_common_name(hostname, uuid),
        ),
{
    let name = system_common_name(hostname, uuid);
    lemma_generated_shape(hostname, uuid);
    trimmed_has_no_outer_white_space(name);
    lemma_no_forbidden(name);
    assert(name.first() == name[0]);
    assert(name.last() == name[name.len() - 1]);
}

/// Two generated names differ wherever the upper 48 bits of their UUIDs differ,
/// whatever the hostnames.
pub proof fn generated_common_names_are_distinct(
    one: Option<Seq<char>>,
    one_uuid: u128,
    other: Option<Seq<char>>,
    other_uuid: u128,
)
    requires
        one_uuid as nat / 0x1_0000_0000_0000_0000_0000 != other_uuid as nat
            / 0x1_0000_0000_0000_0000_0000,
    ensures
        system_common_name(one, one_uuid) != system_common_name(other, other_uuid),
{
    lemma_generated_shape(one, one_uuid);
    lemma_generated_shape(other, other_uuid);
    lemma_hex_text_take(one_uuid as nat, 12, 20);
    lemma_hex_text_take(other_uuid as nat, 12, 20);
    lemma_without_twenty_digits(one_uuid as nat);
    lemma_without_twenty_digits(other_uuid as nat);
    if uuid_suffix(one_uuid) == uuid_suffix(other_uuid) {
        reveal_with_fuel(hex_bound, 13);
        lemma_hex_text_injective(
            one_uuid as nat / 0x1_0000_0000_0000_0000_0000,
            other_uuid as nat / 0x1_0000_0000_0000_0000_0000,
            12,
        );
    }
}

/// Whether a character may stand in a Common Name: it is none of the characters
/// that have a meaning in a distinguished name, and no control code.
pub open spec fn may_stand_in_common_name(c: char) -> bool {
    &&& c != ',' && c != '+' && c != '=' && c != '"' && c != '\\'
    &&& c != '<' && c != '>' && c != ';' && c != '#'
    &&& c > '\u{001f}' && !('\u{007f}' <= c <= '\u{009f}')
}

proof fn lemma_first_forbidden_at(t: Seq<char>, at: int)
    requires
        0 <= at < t.len(),
        is_forbidden(t[at]),
        forall|i: int| 0 <= i < at ==> !is_forbidden(#[trigger] t[i]),
    ensures
        first_forbidden(t) == Some(t[at]),
    decreases at,
{
    if at > 0 {
        assert(!is_forbidden(t[0]));
        let rest = t.drop_first();
        assert forall|i: int| 0 <= i < at - 1 implies !is_forbidden(#[trigger] rest[i]) by {
            assert(rest[i] == t[i + 1]);
        }
        lemma_first_forbidden_at(rest, at - 1);
    }
}

/// A Common Name is accepted exactly where it has one to 64 characters without its
/// outer white space, each of which may stand in one; and it is given back
/// without that white space and otherwise as it is.
pub proof fn common_name_is_accepted_exactly(s: Seq<char>, cn: Seq<char>)
    ensures
        read_common_name(s) == Ok::<Seq<char>, CommonNameFault>(cn) <==> cn == trimmed(s) && 1
            <= cn.len() <= 64 && forall|i: int|
            0 <= i < cn.len() ==> may_stand_in_common_name(#[trigger] cn[i]),
{
    let t = trimmed(s);
    lemma_no_forbidden(t);
    assert forall|i: int| 0 <= i < t.len() implies is_forbidden(#[trigger] t[i])
        == !may_stand_in_common_name(t[i]) by {}
    if forall|i: int| 0 <= i < t.len() ==> !is_forbidden(#[trigger] t[i]) {
        assert(first_forbidden(t) is None);
    }
}

/// What a refused Common Name is told: that nothing is left of it, that it is too
/// long, or else the first character that may not stand in it.
pub proof fn common_name_refusal_says_why(s: Seq<char>, at: int)
    ensures
        trimmed(s).len() == 0 ==> read_common_name(s) is Err && common_name_message(
            read_common_name(s)->Err_0,
        ) == "common name must not be empty"@,
        trimmed(s).len() > 64 ==> read_common_name(s) is Err && common_name_message(
            read_common_name(s)->Err_0,
        ) == "common name exceeds 64 characters"@,
        0 <= at < trimmed(s).len() <= 64 && !may_stand_in_common_name(trimmed(s)[at]) && (forall|
            i: int,
        |
            0 <= i < at ==> may_stand_in_common_name(#[trigger] trimmed(s)[i]))
            ==> read_common_name(s) is Err && common_name_message(read_common_name(s)->Err_0)
            == "common name contains forbidden character "@ + quoted_char(trimmed(s)[at]),
{
    let t = trimmed(s);
    if 0 <= at < t.len() <= 64 && !may_stand_in_common_name(t[at]) && (forall|i: int|
        0 <= i < at ==> may_stand_in_common_name(#[trigger] t[i])) {
        assert forall|i: int| 0 <= i < at implies !is_forbidden(#[trigger] t[i]) by {
            assert(may_stand_in_common_name(t[i]));
        }
        lemma_first_forbidden_at(t, at);
    }
}

proof fn lemma_hex_text_value(n: nat, count: nat)
    requires
        n < hex_bound(count),
    ensures
        numeral_value(hex_text(n, count), 16) == Some(n),
        forall|i: int|
            0 <= i < hex_text(n, count).len() ==> '0' <= #[trigger] hex_text(n, count)[i] <= '9'
                || 'a' <= hex_text(n, count)[i] <= 'f',
    decreases count,
{
    if count > 0 {
        let before = hex_text(n / 16, (count - 1) as nat);
        let t = hex_text(n, count);
        lemma_hex_text_value(n / 16, (count - 1) as nat);
        assert(t.drop_last() =~= before);
        assert(digit_value(t.last()) == Some(n % 16));
        assert(n / 16 * 16 + n % 16 == n);
        assert forall|i: int| 0 <= i < t.len() implies '0' <= #[trigger] t[i] <= '9' || 'a' <= t[i]
            <= 'f' by {
            if i < t.len() - 1 {
                assert(t[i] == before[i]);
            }
        }
    }
}

/// A generated name begins with `tee.` exactly where the hostname holds a dot, and
/// with `tas.` otherwise; and it ends in a hyphen and 12 lower case hexadecimal
/// digits, the numeral of the upper 48 bits of the UUID.
pub proof fn generated_common_name_has_its_parts(hostname: Option<Seq<char>>, uuid: u128)
    ensures
        ({
            let name = system_common_name(hostname, uuid);
            let suffix = name.skip(name.len() - 12);
            &&& name.len() > 17
            &&& name.take(4) == "tee."@ <==> (hostname matches Some(h) && h.contains('.'))
            &&& name.take(4) == "tas."@ <==> !(hostname matches Some(h) && h.contains('.'))
            &&& name[name.len() - 13] == '-'
            &&& numeral_value(suffix, 16) == Some(
                uuid as nat / 0x1_0000_0000_0000_0000_0000,
            )
            &&& forall|i: int|
                0 <= i < 12 ==> '0' <= #[trigger] suffix[i] <= '9' || 'a' <= suffix[i] <= 'f'
        }),
{
    reveal_strlit("tee.");
    reveal_strlit("tas.");
    reveal_strlit("-");
    let name = system_common_name(hostname, uuid);
    let dotted = hostname is Some && hostname->0.contains('.');
    lemma_generated_shape(hostname, uuid);
    lemma_hex_text_len(uuid as nat, 32);
    lemma_hex_text_take(uuid as nat, 12, 20);
    lemma_without_twenty_digits(uuid as nat);
    assert(uuid_suffix(uuid) == hex_text(uuid as nat / 0x1_0000_0000_0000_0000_0000, 12));
    reveal_with_fuel(hex_bound, 13);
    lemma_hex_text_value(uuid as nat / 0x1_0000_0000_0000_0000_0000, 12);
    if dotted {
        assert(name.take(4) =~= "tee."@);
        assert("tee."@[1] != "tas."@[1]);
    } else {
        assert(name.take(4) =~= "tas."@);
        assert("tee."@[1] != "tas."@[1]);
    }
}

/// Whether a text is lower case labels: letters and digits with single hyphens,
/// or, where `dots` holds, single hyphens or dots, between them, at most `limit`
/// characters in all.
pub open spec fn is_lower_case_labels(t: Seq<char>, dots: bool, limit: int) -> bool {
    &&& 1 <= t.len() <= limit
    &&& forall|i: int|
        0 <= i < t.len() ==> 'a' <= #[trigger] t[i] <= 'z' || '0' <= t[i] <= '9' || t[i] == '-' || (
        dots && t[i] == '.')
    &&& t[0] != '-' && t[0] != '.'
    &&& t[t.len() - 1] != '-' && t[t.len() - 1] != '.'
    &&& forall|i: int, j: int|
        0 <= i < t.len() && j == i + 1 && j < t.len() ==> !((#[trigger] t[i] == '-' || t[i] == '.')
            && (#[trigger] t[j] == '-' || t[j] == '.'))
}

proof fn lemma_labels_are_sanitized(t: Seq<char>, dots: bool, limit: int)
    requires
        is_lower_case_labels(t, dots, limit),
        lowers_ascii(t),
    ensures
        sanitized(t, dots, limit) == t,
{
    assert forall|i: int| 0 <= i < t.len() implies char_lowercase(#[trigger] t[i]) == seq![
        ascii_lowercase(t[i]),
    ] && ascii_lowercase(t[i]) == t[i] && hostname_char(t[i], dots) == t[i] by {
        assert('a' <= t[i] <= 'z' || '0' <= t[i] <= '9' || t[i] == '-' || t[i] == '.');
    }
    lemma_ascii_lowercase_text(t);
    assert(ascii_lowercase_text(t) =~= t);
    assert(t.first() == t[0]);
    assert(t.last() == t[t.len() - 1]);
    lemma_labels_stay(t, dots, limit);
}

/// A hostname that already is lower case labels stands in the generated name as it
/// is: with a dot in it and at most 47 characters behind `tee.`, without one and
/// at most 32 characters behind `tas.`, and before a hyphen and 12 digits.
pub proof fn generated_common_name_holds_hostname(hostname: Seq<char>, uuid: u128)
    requires
        lowers_ascii(hostname),
    ensures
        hostname.contains('.') && is_lower_case_labels(hostname, true, 47) ==> system_common_name(
            Some(hostname),
            uuid,
        ) == "tee."@ + hostname + "-"@ + uuid_suffix(uuid),
        !hostname.contains('.') && is_lower_case_labels(hostname, false, 32) ==> system_common_name(
            Some(hostname),
            uuid,
        ) == "tas."@ + hostname + "-"@ + uuid_suffix(uuid),
{
    if is_lower_case_labels(hostname, true, 47) {
        lemma_labels_are_sanitized(hostname, true, 47);
    }
    if is_lower_case_labels(hostname, false, 32) {
        lemma_labels_are_sanitized(hostname, false, 32);
    }
}

/// Without a hostname, the generated name holds `unknown` in its place.
pub proof fn generated_common_name_without_hostname(uuid: u128)
    ensures
        system_common_name(None, uuid) == "tas."@ + "unknown"@ + "-"@ + uuid_suffix(uuid),
{
}

/// The hostname that is reported counts without its outer white space, and not at
/// all where it is nothing but white space.
pub proof fn usable_hostname_is_trimmed(reported: Seq<char>) -> (span: (int, int))
    ensures
        0 <= span.0 <= span.1 <= reported.len(),
        span.0 < span.1 ==> usable_hostname(Some(reported)) == Some(
            reported.subrange(span.0, span.1),
        ) && !is_white_space(reported[span.0]) && !is_white_space(reported[span.1 - 1]),
        span.0 == span.1 ==> usable_hostname(Some(reported)) is None,
        forall|i: int|
            0 <= i < span.0 || span.1 <= i < reported.len() ==> is_white_space(
                #[trigger] reported[i],
            ),
        usable_hostname(None) is None,
{
    trimming_drops_only_outer_white_space(reported)
}

/// The ASCII letters and digits of a text, in order.
pub open spec fn alphanumerics(t: Seq<char>) -> Seq<char>
    decreases t.len(),
{
    if t.len() == 0 {
        seq![]
    } else {
        let before = alphanumerics(t.drop_last());
        let c = t.last();
        if 'a' <= c <= 'z' || 'A' <= c <= 'Z' || '0' <= c <= '9' {
            before.push(c)
        } else {
            before
        }
    }
}

proof fn lemma_squeezed_alphanumerics(t: Seq<char>, keep_dots: bool)
    ensures
        alphanumerics(squeezed(t, keep_dots)) == alphanumerics(t),
    decreases t.len(),
{
    if t.len() > 0 {
        lemma_squeezed_alphanumerics(t.drop_last(), keep_dots);
        let before = squeezed(t.drop_last(), keep_dots);
        let c = hostname_char(t.last(), keep_dots);
        assert(before.push(c).drop_last() =~= before);
    }
}

proof fn lemma_alphanumerics_prefix(t: Seq<char>, n: int)
    requires
        0 <= n <= t.len(),
    ensures
        alphanumerics(t.take(n)).is_prefix_of(alphanumerics(t)),
    decreases t.len() - n,
{
    if n < t.len() {
        lemma_alphanumerics_prefix(t.drop_last(), n);
        assert(t.drop_last().take(n) =~= t.take(n));
    } else {
        assert(t.take(n) =~= t);
    }
}

proof fn lemma_strip_alphanumerics(t: Seq<char>)
    ensures
        alphanumerics(strip_separators(t)) == alphanumerics(t),
    decreases t.len(),
{
    if t.len() > 0 && is_separator(t.last()) {
        lemma_strip_alphanumerics(t.drop_last());
    }
}

proof fn lemma_strip_drops_one(t: Seq<char>)
    requires
        single_separators(t),
        t.len() > 0 ==> !is_separator(t.first()),
    ensures
        strip_separators(t).len() + 1 >= t.len(),
{
    if t.len() > 0 && is_separator(t.last()) {
        let rest = t.drop_last();
        assert(t.last() == t[t.len() - 1]);
        if t.len() > 1 {
            assert(rest.last() == t[t.len() - 2]);
            assert(!(is_separator(t[t.len() - 2]) && is_separator(t[t.len() - 1])));
            assert(strip_separators(rest) == rest);
        }
    }
}

/// Sanitizing keeps letters and digits: those of the sanitized hostname are the
/// first ones of the hostname in lower case, in their order, and all of them
/// unless the limit is reached.
pub proof fn sanitizing_keeps_letters_and_digits(
    hostname: Seq<char>,
    keep_dots: bool,
    limit: int,
    r: Seq<char>,
)
    requires
        limit >= 0,
        r == sanitized(hostname, keep_dots, limit),
    ensures
        alphanumerics(r).is_prefix_of(alphanumerics(lowercase_text(hostname))),
        r.len() + 1 < limit ==> alphanumerics(r) == alphanumerics(lowercase_text(hostname)),
{
    let lower = lowercase_text(hostname);
    let all = squeezed(lower, keep_dots);
    lemma_squeezed_alphanumerics(lower, keep_dots);
    lemma_squeezed_shape(lower, keep_dots);
    lemma_strip_alphanumerics(at_most(all, limit));
    if all.len() > limit {
        lemma_alphanumerics_prefix(all, limit);
        assert(single_separators(all.take(limit))) by {
            assert forall|i: int, j: int|
                0 <= i < all.take(limit).len() && j == i + 1 && j < all.take(limit).len() implies !(
            is_separator(#[trigger] all.take(limit)[i]) && is_separator(
                #[trigger] all.take(limit)[j],
            )) by {
                assert(all.take(limit)[i] == all[i] && all.take(limit)[j] == all[j]);
            }
        }
        if limit > 0 {
            assert(all.take(limit).first() == all.first());
        }
        lemma_strip_drops_one(all.take(limit));
    }
}

proof fn lemma_lowercase_of_parts(one: Seq<char>, other: Seq<char>)
    ensures
        lowercase_text(one + other) == lowercase_text(one) + lowercase_text(other),
    decreases other.len(),
{
    if other.len() > 0 {
        lemma_lowercase_of_parts(one, other.drop_last());
        assert((one + other).drop_last() =~= one + other.drop_last());
        assert((one + other).last() == other.last());
        assert(lowercase_text(one + other) =~= lowercase_text(one) + lowercase_text(other));
    } else {
        assert(one + other =~= one);
        assert(lowercase_text(one) + lowercase_text(other) =~= lowercase_text(one));
    }
}

/// The lower case of a text is that of its parts one after the other.
pub proof fn lowercase_goes_part_by_part(one: Seq<char>, other: Seq<char>, c: char)
    ensures
        lowercase_text(one + other) == lowercase_text(one) + lowercase_text(other),
        lowercase_text(seq![c]) == char_lowercase(c),
        lowercase_text(seq![]) == Seq::<char>::empty(),
{
    lemma_lowercase_of_parts(one, other);
    assert(seq![c].drop_last() =~= seq![]);
    assert(lowercase_text(seq![c].drop_last()) =~= seq![]);
    assert(lowercase_text(seq![c]) == lowercase_text(seq![c].drop_last()) + char_lowercase(c));
    assert(Seq::<char>::empty() + char_lowercase(c) =~= char_lowercase(c));
}

/// Whether a character is no ASCII letter and no digit.
pub open spec fn is_gap(c: char) -> bool {
    !('a' <= c <= 'z') && !('A' <= c <= 'Z') && !('0' <= c <= '9')
}

/// Whether a character is ASCII, but no letter and no digit.
pub open spec fn is_ascii_gap(c: char) -> bool {
    c <= '\u{007f}' && !('a' <= c <= 'z') && !('A' <= c <= 'Z') && !('0' <= c <= '9')
}

proof fn lemma_squeezed_gap(before: Seq<char>, gap: Seq<char>, keep_dots: bool)
    requires
        squeezed(before, keep_dots).len() > 0,
        !is_separator(squeezed(before, keep_dots).last()),
        gap.len() > 0,
        forall|i: int| 0 <= i < gap.len() ==> is_gap(#[trigger] gap[i]),
    ensures
        squeezed(before + gap, keep_dots) == squeezed(before, keep_dots).push(
            hostname_char(gap[0], keep_dots),
        ),
        is_separator(hostname_char(gap[0], keep_dots)),
    decreases gap.len(),
{
    let all = before + gap;
    assert(is_gap(gap[0]));
    assert(is_gap(gap[gap.len() - 1]));
    assert(all.last() == gap[gap.len() - 1]);
    assert(all.drop_last() =~= before + gap.drop_last());
    if gap.len() > 1 {
        let rest = gap.drop_last();
        assert forall|i: int| 0 <= i < rest.len() implies is_gap(#[trigger] rest[i]) by {
            assert(rest[i] == gap[i]);
        }
        lemma_squeezed_gap(before, rest, keep_dots);
    } else {
        assert(before + gap.drop_last() =~= before);
    }
}

proof fn lemma_squeezed_behind(before: Seq<char>, behind: Seq<char>, keep_dots: bool)
    requires
        squeezed(before, keep_dots).len() > 0,
        behind.len() > 0,
        is_ascii_alphanumeric(behind[0]),
    ensures
        squeezed(before + behind, keep_dots) == squeezed(before, keep_dots) + squeezed(
            behind,
            keep_dots,
        ),
        squeezed(behind, keep_dots).len() > 0,
    decreases behind.len(),
{
    let all = before + behind;
    assert(all.last() == behind.last());
    assert(all.drop_last() =~= before + behind.drop_last());
    if behind.len() > 1 {
        lemma_squeezed_behind(before, behind.drop_last(), keep_dots);
        assert(squeezed(all, keep_dots) =~= squeezed(before, keep_dots) + squeezed(
            behind,
            keep_dots,
        ));
    } else {
        assert(before + behind.drop_last() =~= before);
        assert(behind.last() == behind[0]);
        assert(squeezed(behind.drop_last(), keep_dots) =~= seq![]);
        assert(squeezed(all, keep_dots) =~= squeezed(before, keep_dots) + squeezed(
            behind,
            keep_dots,
        ));
    }
}

proof fn lemma_gap_lowercase(gap: Seq<char>)
    requires
        lowers_ascii(gap),
        forall|i: int| 0 <= i < gap.len() ==> is_ascii_gap(#[trigger] gap[i]),
    ensures
        lowercase_text(gap) == gap,
{
    assert forall|i: int| 0 <= i < gap.len() implies char_lowercase(#[trigger] gap[i]) == seq![
        ascii_lowercase(gap[i]),
    ] && ascii_lowercase(gap[i]) == gap[i] by {
        assert(is_ascii_gap(gap[i]));
    }
    lemma_ascii_lowercase_text(gap);
    assert(ascii_lowercase_text(gap) =~= gap);
}

proof fn lemma_edge_lowercase(t: Seq<char>)
    requires
        t.len() > 0,
        lowers_ascii(t),
    ensures
        is_ascii_alphanumeric(t[0]) ==> lowercase_text(t).len() > 0 && is_ascii_alphanumeric(
            lowercase_text(t)[0],
        ),
        is_ascii_alphanumeric(t.last()) ==> lowercase_text(t).len() > 0 && is_ascii_alphanumeric(
            lowercase_text(t).last(),
        ),
{
    let first = t.take(1);
    let rest = t.skip(1);
    assert(t =~= first + rest);
    lemma_lowercase_of_parts(first, rest);
    lowercase_goes_part_by_part(first, rest, t[0]);
    assert(first =~= seq![t[0]]);
    assert(t.last() == t[t.len() - 1]);
    assert(lowercase_text(t) == lowercase_text(t.drop_last()) + char_lowercase(t.last()));
}

/// What stands between two parts of a hostname and is no letter or digit comes to
/// one separator between what the parts come to: a dot where dots are kept and
/// it begins with one, and a hyphen otherwise.
pub proof fn sanitizing_goes_part_by_part(
    before: Seq<char>,
    gap: Seq<char>,
    behind: Seq<char>,
    keep_dots: bool,
    limit: int,
    of_before: Seq<char>,
    of_behind: Seq<char>,
    r: Seq<char>,
)
    requires
        before.len() > 0,
        is_ascii_alphanumeric(before.last()),
        gap.len() > 0,
        forall|i: int| 0 <= i < gap.len() ==> is_ascii_gap(#[trigger] gap[i]),
        behind.len() > 0,
        is_ascii_alphanumeric(behind[0]),
        sanitizes(before, keep_dots, limit, of_before),
        sanitizes(behind, keep_dots, limit, of_behind),
        sanitizes(before + gap + behind, keep_dots, limit, r),
        of_before.len() + of_behind.len() + 3 <= limit,
    ensures
        r == of_before.push(if keep_dots && gap[0] == '.' {
            '.'
        } else {
            '-'
        }) + of_behind,
{
    let whole = before + gap + behind;
    assert(lowers_ascii(gap)) by {
        assert forall|i: int| 0 <= i < gap.len() && gap[i] <= '\u{007f}' implies char_lowercase(
            #[trigger] gap[i],
        ) == seq![ascii_lowercase(gap[i])] by {
            assert(whole[before.len() + i] == gap[i]);
        }
    }
    lemma_gap_lowercase(gap);
    lemma_lowercase_of_parts(before, gap);
    lemma_lowercase_of_parts(before + gap, behind);
    lemma_edge_lowercase(before);
    lemma_edge_lowercase(behind);
    let a = lowercase_text(before);
    let b = lowercase_text(behind);
    assert(lowercase_text(whole) == a + gap + b);
    lemma_not_cut(a, keep_dots, limit);
    lemma_not_cut(b, keep_dots, limit);
    lemma_squeezed_end(a, keep_dots);
    let qa = squeezed(a, keep_dots);
    let qb = squeezed(b, keep_dots);
    assert forall|i: int| 0 <= i < gap.len() implies is_gap(#[trigger] gap[i]) by {
        assert(is_ascii_gap(gap[i]));
    }
    lemma_squeezed_gap(a, gap, keep_dots);
    lemma_squeezed_behind(a + gap, b, keep_dots);
    let q = squeezed(a + gap + b, keep_dots);
    assert(q == qa.push(hostname_char(gap[0], keep_dots)) + qb);
    assert(is_ascii_gap(gap[0]));
    assert(qa == of_before);
    lemma_squeezed_shape(b, keep_dots);
    lemma_strip_behind(qa.push(hostname_char(gap[0], keep_dots)), qb);
    assert(q.len() <= limit);
}

proof fn lemma_not_cut(lower: Seq<char>, keep_dots: bool, limit: int)
    requires
        labels_of(lower, keep_dots, limit).len() + 2 <= limit,
    ensures
        squeezed(lower, keep_dots).len() <= limit,
        labels_of(lower, keep_dots, limit) == strip_separators(squeezed(lower, keep_dots)),
        squeezed(lower, keep_dots).len() <= labels_of(lower, keep_dots, limit).len() + 1,
{
    let all = squeezed(lower, keep_dots);
    lemma_squeezed_shape(lower, keep_dots);
    if all.len() > limit {
        assert(single_separators(all.take(limit))) by {
            assert forall|i: int, j: int|
                0 <= i < all.take(limit).len() && j == i + 1 && j < all.take(limit).len() implies !(
            is_separator(#[trigger] all.take(limit)[i]) && is_separator(
                #[trigger] all.take(limit)[j],
            )) by {
                assert(all.take(limit)[i] == all[i] && all.take(limit)[j] == all[j]);
            }
        }
        assert(all.take(limit).first() == all.first());
        lemma_strip_drops_one(all.take(limit));
    } else {
        lemma_strip_drops_one(all);
    }
}

proof fn lemma_squeezed_end(lower: Seq<char>, keep_dots: bool)
    requires
        lower.len() > 0,
        is_ascii_alphanumeric(lower.last()),
    ensures
        squeezed(lower, keep_dots).len() > 0,
        !is_separator(squeezed(lower, keep_dots).last()),
        strip_separators(squeezed(lower, keep_dots)) == squeezed(lower, keep_dots),
{
}

proof fn lemma_strip_behind(head: Seq<char>, t: Seq<char>)
    requires
        t.len() > 0,
        !is_separator(t.first()),
    ensures
        strip_separators(head + t) == head + strip_separators(t),
    decreases t.len(),
{
    assert((head + t).last() == t.last());
    if is_separator(t.last()) {
        let rest = t.drop_last();
        assert(t.len() > 1) by {
            if t.len() == 1 {
                assert(t.first() == t.last());
            }
        }
        assert(rest.first() == t.first());
        lemma_strip_behind(head, rest);
        assert((head + t).drop_last() =~= head + rest);
    }
}

/// A greater limit only adds to a sanitized hostname: a smaller one gives a part
/// from its start, that reaches to the limit but for one separator.
pub proof fn sanitizing_is_cut_at_limit(
    hostname: Seq<char>,
    keep_dots: bool,
    limit: int,
    more: int,
)
    requires
        0 <= limit <= more,
    ensures
        sanitized(hostname, keep_dots, limit).is_prefix_of(sanitized(hostname, keep_dots, more)),
        sanitized(hostname, keep_dots, more).len() <= limit ==> sanitized(
            hostname,
            keep_dots,
            limit,
        ) == sanitized(hostname, keep_dots, more),
        sanitized(hostname, keep_dots, more).len() > limit ==> sanitized(
            hostname,
            keep_dots,
            limit,
        ).len() + 1 >= limit,
{
    let lower = lowercase_text(hostname);
    let all = squeezed(lower, keep_dots);
    lemma_squeezed_shape(lower, keep_dots);
    if all.len() > limit {
        let cut = all.take(limit);
        let wide = at_most(all, more);
        assert(wide.take(limit) =~= cut);
        lemma_strip_of_prefix(wide, limit);
        assert(single_separators(cut)) by {
            assert forall|i: int, j: int|
                0 <= i < cut.len() && j == i + 1 && j < cut.len() implies !(is_separator(
                #[trigger] cut[i],
            ) && is_separator(#[trigger] cut[j])) by {
                assert(cut[i] == all[i] && cut[j] == all[j]);
            }
        }
        if limit > 0 {
            assert(cut.first() == all.first());
        }
        lemma_strip_drops_one(cut);
        lemma_strip(cut);
        lemma_strip(wide);
        let a = strip_separators(cut);
        let b = strip_separators(wide);
        if b.len() <= limit {
            lemma_strip_idle(wide, limit);
        }
    }
}

proof fn lemma_strip_of_prefix(t: Seq<char>, n: int)
    requires
        0 <= n <= t.len(),
    ensures
        strip_separators(t.take(n)).is_prefix_of(strip_separators(t)),
    decreases t.len() - n,
{
    if n == t.len() {
        assert(t.take(n) =~= t);
    } else if is_separator(t.last()) {
        assert(t.drop_last().take(n) =~= t.take(n));
        lemma_strip_of_prefix(t.drop_last(), n);
    } else {
        lemma_strip(t.take(n));
        let k = strip_separators(t.take(n)).len() as int;
        assert(t.take(n).take(k) =~= t.take(k));
    }
}

proof fn lemma_strip_idle(t: Seq<char>, n: int)
    requires
        0 <= n <= t.len(),
        strip_separators(t).len() <= n,
    ensures
        strip_separators(t.take(n)) == strip_separators(t),
    decreases t.len() - n,
{
    if n == t.len() {
        assert(t.take(n) =~= t);
    } else {
        assert(t.drop_last().take(n) =~= t.take(n));
        assert(is_separator(t.last()));
        lemma_strip_idle(t.drop_last(), n);
    }
}

/// The hostname part of a generated name is the sanitized hostname, or `unknown`
/// where there is none or nothing is left of it: with dots and at most 47
/// characters behind `tee.`, in one label of at most 32 characters behind `tas.`.
pub proof fn generated_names_hold_sanitized_hostname(
    hostname: Option<Seq<char>>,
    name: Seq<char>,
    uuid: u128,
)
    requires
        hostname == Some(name),
    ensures
        sanitized(name, true, 47).len() > 0 ==> fqdn_common_name(hostname, uuid) == "tee."@
            + sanitized(name, true, 47) + "-"@ + uuid_suffix(uuid),
        sanitized(name, true, 47).len() == 0 ==> fqdn_common_name(hostname, uuid) == "tee."@
            + "unknown"@ + "-"@ + uuid_suffix(uuid),
        sanitized(name, false, 32).len() > 0 ==> hostname_common_name(hostname, uuid) == "tas."@
            + sanitized(name, false, 32) + "-"@ + uuid_suffix(uuid),
        sanitized(name, false, 32).len() == 0 ==> hostname_common_name(hostname, uuid) == "tas."@
            + "unknown"@ + "-"@ + uuid_suffix(uuid),
        fqdn_common_name(None, uuid) == "tee."@ + "unknown"@ + "-"@ + uuid_suffix(uuid),
        hostname_common_name(None, uuid) == "tas."@ + "unknown"@ + "-"@ + uuid_suffix(uuid),
{
}

/// Of a text in lower case, whatever stands between two parts and is no ASCII
/// letter or digit comes to one separator between what the parts come to: a dot
/// where dots are kept and it begins with one, and a hyphen otherwise.
pub proof fn labels_go_part_by_part(
    before: Seq<char>,
    gap: Seq<char>,
    behind: Seq<char>,
    keep_dots: bool,
    limit: int,
)
    requires
        before.len() > 0,
        is_ascii_alphanumeric(before.last()),
        gap.len() > 0,
        forall|i: int| 0 <= i < gap.len() ==> is_gap(#[trigger] gap[i]),
        behind.len() > 0,
        is_ascii_alphanumeric(behind[0]),
        labels_of(before, keep_dots, limit).len() + labels_of(behind, keep_dots, limit).len() + 3
            <= limit,
    ensures
        labels_of(before + gap + behind, keep_dots, limit) == labels_of(
            before,
            keep_dots,
            limit,
        ).push(if keep_dots && gap[0] == '.' {
            '.'
        } else {
            '-'
        }) + labels_of(behind, keep_dots, limit),
{
    lemma_not_cut(before, keep_dots, limit);
    lemma_not_cut(behind, keep_dots, limit);
    lemma_squeezed_end(before, keep_dots);
    lemma_squeezed_gap(before, gap, keep_dots);
    lemma_squeezed_behind(before + gap, behind, keep_dots);
    lemma_squeezed_shape(behind, keep_dots);
    assert(is_gap(gap[0]));
    let head = squeezed(before, keep_dots).push(hostname_char(gap[0], keep_dots));
    lemma_strip_behind(head, squeezed(behind, keep_dots));
}

/// A sanitized hostname holds ASCII letters and digits, hyphens and, where they
/// are kept, dots, and nothing else; it neither begins nor ends with a hyphen or a
/// dot, and no two of these stand in a row; and it is no longer than the limit.
pub proof fn sanitized_hostname_has_plain_shape(
    hostname: Seq<char>,
    keep_dots: bool,
    limit: int,
    i: int,
)
    requires
        limit >= 0,
        0 <= i < sanitized(hostname, keep_dots, limit).len(),
    ensures
        ({
            let r = sanitized(hostname, keep_dots, limit);
            &&& r.len() <= limit
            &&& 'a' <= r[i] <= 'z' || 'A' <= r[i] <= 'Z' || '0' <= r[i] <= '9' || r[i] == '-' || (
            keep_dots && r[i] == '.')
            &&& i == 0 || i == r.len() - 1 ==> r[i] != '-' && r[i] != '.'
            &&& i > 0 && (r[i] == '-' || r[i] == '.') ==> r[i - 1] != '-' && r[i - 1] != '.'
        }),
{
    sanitized_hostname_is_labels(hostname, keep_dots, limit);
    let r = sanitized(hostname, keep_dots, limit);
    assert(hostname_char(r[i], keep_dots) == r[i]);
    assert(r.first() == r[0] && r.last() == r[r.len() - 1]);
    if i > 0 {
        assert(!(is_separator(r[i - 1]) && is_separator(r[i])));
    }
}

} // verus!
