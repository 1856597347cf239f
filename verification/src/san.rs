//! Subject Alternative Names: the `TYPE:VALUE` tokens in which they are
//! requested, and the general names that a signing request carries for them.

use vstd::prelude::*;
use vstd::string::*;
use vstd::utf8::*;

use crate::der::MAX_DER_LENGTH;
use crate::ip::{ip_octets, ip_octets_length, parse_ip, IpAddr};
use crate::ip_text::{ip_text, ip_text_has_address_chars, ip_text_reads_back, is_address_char};
use crate::text::{
    ascii_lowercase, ascii_lowercase_text, chars_of, is_white_space, lower_ascii, quote_text,
    quoted_text, same_text, slice_of, string_of, trim_end, trim_start, trimmed, trimmed_chars,
    trimmed_has_no_outer_white_space,
};

verus! {

/// A single Subject Alternative Name requested for the signing request.
#[derive(Debug, PartialEq, Eq)]
pub enum SanEntry {
    /// `dNSName` general name.
    Dns(String),
    /// `iPAddress` general name.
    Ip(IpAddr),
    /// `uniformResourceIdentifier` general name.
    Uri(String),
    /// `rfc822Name` (email address) general name.
    Email(String),
}

/// What a [`SanEntry`] stands for: a text, or the octets of an address.
pub enum SanName {
    Dns(Seq<char>),
    Ip(Seq<u8>),
    Uri(Seq<char>),
    Email(Seq<char>),
}

impl View for SanEntry {
    type V = SanName;

    open spec fn view(&self) -> SanName {
        match self {
            SanEntry::Dns(v) => SanName::Dns(v@),
            SanEntry::Ip(ip) => SanName::Ip(ip@),
            SanEntry::Uri(v) => SanName::Uri(v@),
            SanEntry::Email(v) => SanName::Email(v@),
        }
    }
}

impl Clone for SanEntry {
    fn clone(&self) -> (r: SanEntry)
        ensures
            r@ == self@,
    {
        match self {
            SanEntry::Dns(v) => SanEntry::Dns(v.clone()),
            SanEntry::Ip(ip) => SanEntry::Ip(*ip),
            SanEntry::Uri(v) => SanEntry::Uri(v.clone()),
            SanEntry::Email(v) => SanEntry::Email(v.clone()),
        }
    }
}

/// The names that a list of entries stands for.
pub open spec fn san_names(sans: Seq<SanEntry>) -> Seq<SanName> {
    sans.map_values(|s: SanEntry| s@)
}

/// Why a `TYPE:VALUE` token is refused.
pub enum SanFault {
    /// There is no colon.
    NoColon,
    /// Nothing but white space follows the first colon.
    EmptyValue,
    /// There is white space inside the value.
    WhiteSpace,
    /// The value of a type with this label is not ASCII.
    NotAscii(Seq<char>, Seq<char>),
    /// The value of an `ip` token is no IP address.
    BadAddress,
    /// The type is none of `dns`, `ip`, `uri` and `email`.
    UnsupportedType(Seq<char>),
}

/// Whether white space occurs in `t`.
pub open spec fn has_white_space(t: Seq<char>) -> bool {
    exists|i: int| 0 <= i < t.len() && is_white_space(#[trigger] t[i])
}

/// The type token before the first colon: without outer white space and with
/// ASCII letters in lower case.
pub open spec fn type_token(s: Seq<char>, colon: int) -> Seq<char> {
    ascii_lowercase_text(trimmed(s.take(colon)))
}

/// The name that a `TYPE:VALUE` token requests, or why it is refused.
pub open spec fn read_san(s: Seq<char>) -> Result<SanName, SanFault> {
    match s.index_of_first(':') {
        None => Err(SanFault::NoColon),
        Some(colon) => {
            let kind = type_token(s, colon);
            let value = trimmed(s.skip(colon + 1));
            if value.len() == 0 {
                Err(SanFault::EmptyValue)
            } else if has_white_space(value) {
                Err(SanFault::WhiteSpace)
            } else if kind == "dns"@ {
                if is_ascii_chars(value) {
                    Ok(SanName::Dns(value))
                } else {
                    Err(SanFault::NotAscii("DNS"@, value))
                }
            } else if kind == "uri"@ {
                if is_ascii_chars(value) {
                    Ok(SanName::Uri(value))
                } else {
                    Err(SanFault::NotAscii("URI"@, value))
                }
            } else if kind == "email"@ {
                if is_ascii_chars(value) {
                    Ok(SanName::Email(value))
                } else {
                    Err(SanFault::NotAscii("email"@, value))
                }
            } else if kind == "ip"@ {
                match ip_octets(value) {
                    Some(octets) => Ok(SanName::Ip(octets)),
                    None => Err(SanFault::BadAddress),
                }
            } else {
                Err(SanFault::UnsupportedType(kind))
            }
        },
    }
}

/// The message for a value of the type `label` that is not ASCII.
pub open spec fn not_ascii_message(label: Seq<char>, value: Seq<char>) -> Seq<char> {
    label + " SAN must be ASCII (IA5String): "@ + quoted_text(value)
}

/// The message for a token `s` that is refused for `fault`.
pub open spec fn san_message(s: Seq<char>, fault: SanFault) -> Seq<char> {
    match fault {
        SanFault::NoColon => "invalid SAN "@ + quoted_text(s) + ", expected TYPE:VALUE"@,
        SanFault::EmptyValue => "invalid SAN "@ + quoted_text(s) + ": empty value"@,
        SanFault::WhiteSpace => "invalid SAN "@ + quoted_text(s)
            + ": value must not contain whitespace"@,
        SanFault::NotAscii(label, value) => not_ascii_message(label, value),
        SanFault::BadAddress => "invalid IP in SAN "@ + quoted_text(s)
            + ": invalid IP address syntax"@,
        SanFault::UnsupportedType(kind) => "unsupported SAN type "@ + quoted_text(kind)
            + " (expected dns|ip|uri|email)"@,
    }
}

/// What parsing the token `s` gives: the name that it requests, or the message
/// that says why it is refused.
pub open spec fn parses_san(s: Seq<char>, r: Result<SanEntry, String>) -> bool {
    match (r, read_san(s)) {
        (Ok(entry), Ok(name)) => entry@ == name,
        (Err(message), Err(fault)) => message@ == san_message(s, fault),
        _ => false,
    }
}

/// Accepts a value that is wholly ASCII.
///
/// # Errors
///
/// Returns a message that names the type by `label` where the value holds
/// another character.
pub fn ensure_ascii(value: &str, label: &str) -> (r: Result<(), String>)
    ensures
        match r {
            Ok(()) => is_ascii_chars(value@),
            Err(message) => !is_ascii_chars(value@) && message@ == not_ascii_message(
                label@,
                value@,
            ),
        },
{
    if value.is_ascii() {
        Ok(())
    } else {
        Err(label.to_owned().concat(" SAN must be ASCII (IA5String): ").concat(
            quote_text(value).as_str(),
        ))
    }
}

fn refusal(s: &str, lead: &str, reason: &str) -> (r: String)
    ensures
        r@ == lead@ + quoted_text(s@) + reason@,
{
    lead.to_owned().concat(quote_text(s).as_str()).concat(reason)
}

fn any_white_space(t: &Vec<char>) -> (r: bool)
    ensures
        r == has_white_space(t@),
{
    let mut i: usize = 0;
    while i < t.len()
        invariant
            i <= t@.len(),
            forall|j: int| 0 <= j < i ==> !is_white_space(#[trigger] t@[j]),
        decreases t@.len() - i,
    {
        if t[i].is_whitespace() {
            assert(is_white_space(t@[i as int]));
            return true;
        }
        i += 1;
    }
    false
}

fn find_colon(t: &Vec<char>) -> (r: Option<usize>)
    ensures
        match (r, t@.index_of_first(':')) {
            (Some(i), Some(k)) => i == k && i < t@.len(),
            (None, None) => true,
            _ => false,
        },
{
    let mut i: usize = 0;
    proof {
        t@.index_of_first_ensures(':');
    }
    while i < t.len()
        invariant
            i <= t@.len(),
            forall|j: int| 0 <= j < i ==> t@[j] != ':',
            match t@.index_of_first(':') {
                Some(index) => 0 <= index < t@.len() && t@[index] == ':' && forall|j: int|
                    0 <= j < index ==> t@[j] != ':',
                None => !t@.contains(':'),
            },
        decreases t@.len() - i,
    {
        if t[i] == ':' {
            assert(t@.contains(t@[i as int]));
            return Some(i);
        }
        i += 1;
    }
    None
}

/// Parses a `TYPE:VALUE` Subject Alternative Name token.
///
/// Accepts the OpenSSL-style type tokens `DNS`, `IP`, `URI` and `email`
/// (case-insensitive). The token is split on the first `:` so that IPv6
/// addresses and URIs containing colons are preserved.
///
/// # Errors
///
/// Returns a message if the token has no `:`, an empty value, a value
/// containing whitespace, an unsupported type, a non-ASCII value for the
/// IA5String-encoded types, or an unparseable IP address.
pub fn parse_san(s: &str) -> (r: Result<SanEntry, String>)
    ensures
        parses_san(s@, r),
        r matches Ok(entry) ==> read_san(s@) == Ok::<SanName, SanFault>(entry@),
        r matches Err(message) ==> read_san(s@) is Err && message@ == san_message(
            s@,
            read_san(s@)->Err_0,
        ),
{
    let chars = chars_of(s);
    let colon: usize = match find_colon(&chars) {
        Some(i) => i,
        None => {
            return Err(refusal(s, "invalid SAN ", ", expected TYPE:VALUE"));
        },
    };
    let before = slice_of(&chars, 0, colon);
    let length: usize = chars.len();
    let after = slice_of(&chars, colon + 1, length);
    proof {
        assert(before@ =~= s@.take(colon as int));
        assert(after@ =~= s@.skip(colon + 1));
    }
    let value_chars = trimmed_chars(&after);
    if value_chars.len() == 0 {
        return Err(refusal(s, "invalid SAN ", ": empty value"));
    }
    if any_white_space(&value_chars) {
        return Err(refusal(s, "invalid SAN ", ": value must not contain whitespace"));
    }
    let kind_chars = lower_ascii(&trimmed_chars(&before));
    let kind = string_of(&kind_chars, 0, kind_chars.len());
    let value = string_of(&value_chars, 0, value_chars.len());
    proof {
        assert(kind@ =~= type_token(s@, colon as int));
        assert(value@ =~= trimmed(s@.skip(colon + 1)));
    }
    if same_text(kind.as_str(), "dns") {
        match ensure_ascii(value.as_str(), "DNS") {
            Ok(()) => Ok(SanEntry::Dns(value)),
            Err(message) => Err(message),
        }
    } else if same_text(kind.as_str(), "uri") {
        match ensure_ascii(value.as_str(), "URI") {
            Ok(()) => Ok(SanEntry::Uri(value)),
            Err(message) => Err(message),
        }
    } else if same_text(kind.as_str(), "email") {
        match ensure_ascii(value.as_str(), "email") {
            Ok(()) => Ok(SanEntry::Email(value)),
            Err(message) => Err(message),
        }
    } else if same_text(kind.as_str(), "ip") {
        match parse_ip(value.as_str()) {
            Some(ip) => Ok(SanEntry::Ip(ip)),
            None => Err(refusal(s, "invalid IP in SAN ", ": invalid IP address syntax")),
        }
    } else {
        Err(
            refusal(
                kind.as_str(),
                "unsupported SAN type ",
                " (expected dns|ip|uri|email)",
            ),
        )
    }
}

/// Splitting at the first colon takes a type without a colon off a value that
/// may hold any number of them.
proof fn lemma_first_colon(kind: Seq<char>, value: Seq<char>)
    requires
        !kind.contains(':'),
    ensures
        (kind.push(':') + value).index_of_first(':') == Some(kind.len() as int),
        (kind.push(':') + value).take(kind.len() as int) == kind,
        (kind.push(':') + value).skip(kind.len() as int + 1) == value,
{
    let s = kind.push(':') + value;
    s.index_of_first_ensures(':');
    assert(s[kind.len() as int] == ':');
    assert(s.contains(':'));
    assert forall|j: int| 0 <= j < kind.len() implies s[j] != ':' by {
        assert(kind.contains(kind[j]));
    }
    assert(s.take(kind.len() as int) =~= kind);
    assert(s.skip(kind.len() as int + 1) =~= value);
}

proof fn lemma_lowercase_keeps_white_space(c: char)
    ensures
        is_white_space(ascii_lowercase(c)) == is_white_space(c),
{
}

proof fn lemma_lowercase_trim_start(s: Seq<char>)
    ensures
        trim_start(ascii_lowercase_text(s)) == ascii_lowercase_text(trim_start(s)),
    decreases s.len(),
{
    if s.len() > 0 {
        lemma_lowercase_keeps_white_space(s.first());
        lemma_lowercase_trim_start(s.drop_first());
        assert(ascii_lowercase_text(s).drop_first() =~= ascii_lowercase_text(s.drop_first()));
    }
}

proof fn lemma_lowercase_trim_end(s: Seq<char>)
    ensures
        trim_end(ascii_lowercase_text(s)) == ascii_lowercase_text(trim_end(s)),
    decreases s.len(),
{
    if s.len() > 0 {
        lemma_lowercase_keeps_white_space(s.last());
        lemma_lowercase_trim_end(s.drop_last());
        assert(ascii_lowercase_text(s).drop_last() =~= ascii_lowercase_text(s.drop_last()));
    }
}

/// The type of a token is read without regard to the case of its ASCII
/// letters: two tokens that differ in nothing else request the same name or
/// are refused for the same fault.
pub proof fn san_type_ignores_case(one: Seq<char>, other: Seq<char>, value: Seq<char>)
    requires
        !one.contains(':'),
        !other.contains(':'),
        ascii_lowercase_text(one) == ascii_lowercase_text(other),
    ensures
        read_san(one.push(':') + value) == read_san(other.push(':') + value),
{
    lemma_first_colon(one, value);
    lemma_first_colon(other, value);
    lemma_lowercase_trim_start(one);
    lemma_lowercase_trim_start(other);
    lemma_lowercase_trim_end(trim_start(one));
    lemma_lowercase_trim_end(trim_start(other));
}

/// The token that requests a name: its type in lower case, a colon and the
/// text of the value.
pub open spec fn san_token(kind: Seq<char>, value: Seq<char>) -> Seq<char> {
    kind.push(':') + value
}

/// A value that a text-like name can have.
pub open spec fn san_text(value: Seq<char>) -> bool {
    value.len() > 0 && is_ascii_chars(value) && !has_white_space(value)
}

/// A token gives back the value that it was written with, whatever colons the
/// value holds.
pub proof fn san_token_reads_back(value: Seq<char>)
    requires
        value.len() > 0,
        !has_white_space(value),
    ensures
        san_text(value) ==> {
            &&& read_san(san_token("dns"@, value)) == Ok::<SanName, SanFault>(SanName::Dns(value))
            &&& read_san(san_token("uri"@, value)) == Ok::<SanName, SanFault>(SanName::Uri(value))
            &&& read_san(san_token("email"@, value)) == Ok::<SanName, SanFault>(
                SanName::Email(value),
            )
        },
        ip_octets(value) matches Some(octets) ==> read_san(san_token("ip"@, value)) == Ok::<
            SanName,
            SanFault,
        >(SanName::Ip(octets)),
{
    lemma_type_words();
    trimmed_has_no_outer_white_space(value);
    assert(is_white_space(value.first()) == is_white_space(value[0]));
    assert(is_white_space(value.last()) == is_white_space(value[value.len() - 1]));
    lemma_plain_type("dns"@, value);
    lemma_plain_type("uri"@, value);
    lemma_plain_type("email"@, value);
    lemma_plain_type("ip"@, value);
}

/// Whether `kind` is a word of lower case ASCII letters.
spec fn is_plain_word(kind: Seq<char>) -> bool {
    kind.len() > 0 && forall|i: int| 0 <= i < kind.len() ==> 'a' <= #[trigger] kind[i] <= 'z'
}

proof fn lemma_type_words()
    ensures
        is_plain_word("dns"@),
        is_plain_word("uri"@),
        is_plain_word("email"@),
        is_plain_word("ip"@),
        "dns"@ != "uri"@,
        "dns"@ != "email"@,
        "dns"@ != "ip"@,
        "uri"@ != "email"@,
        "uri"@ != "ip"@,
        "email"@ != "ip"@,
{
    reveal_strlit("dns");
    reveal_strlit("uri");
    reveal_strlit("email");
    reveal_strlit("ip");
    assert("dns"@[0] != "uri"@[0]);
    assert("email"@.len() != "dns"@.len() && "email"@.len() != "uri"@.len());
    assert("ip"@.len() != "dns"@.len() && "ip"@.len() != "uri"@.len());
    assert("ip"@.len() != "email"@.len());
}

proof fn lemma_plain_type(kind: Seq<char>, value: Seq<char>)
    requires
        is_plain_word(kind),
    ensures
        san_token(kind, value).index_of_first(':') == Some(kind.len() as int),
        type_token(san_token(kind, value), kind.len() as int) == kind,
        san_token(kind, value).skip(kind.len() as int + 1) == value,
{
    assert(!kind.contains(':')) by {
        if kind.contains(':') {
            let i = choose|i: int| 0 <= i < kind.len() && kind[i] == ':';
            assert('a' <= kind[i]);
        }
    }
    lemma_first_colon(kind, value);
    trimmed_has_no_outer_white_space(kind);
    assert('a' <= kind[0] <= 'z');
    assert('a' <= kind[kind.len() - 1] <= 'z');
    assert(ascii_lowercase_text(kind) =~= kind);
}

/// Whether a name is clean: its text is ASCII, not empty and free of white
/// space, or its address has the four octets of IPv4 or the sixteen of IPv6.
pub open spec fn is_clean(name: SanName) -> bool {
    match name {
        SanName::Dns(value) => san_text(value),
        SanName::Uri(value) => san_text(value),
        SanName::Email(value) => san_text(value),
        SanName::Ip(octets) => octets.len() == 4 || octets.len() == 16,
    }
}

/// The token that a name is written as: the type, a colon and the text of the
/// value, which for an address is the canonical one.
pub open spec fn written_san(name: SanName) -> Seq<char> {
    match name {
        SanName::Dns(value) => san_token("DNS"@, value),
        SanName::Uri(value) => san_token("URI"@, value),
        SanName::Email(value) => san_token("email"@, value),
        SanName::Ip(octets) => san_token("IP"@, ip_text(octets)),
    }
}

proof fn lemma_types_in_capitals()
    ensures
        ascii_lowercase_text("DNS"@) == ascii_lowercase_text("dns"@),
        ascii_lowercase_text("URI"@) == ascii_lowercase_text("uri"@),
        ascii_lowercase_text("IP"@) == ascii_lowercase_text("ip"@),
        !"DNS"@.contains(':') && !"dns"@.contains(':'),
        !"URI"@.contains(':') && !"uri"@.contains(':'),
        !"IP"@.contains(':') && !"ip"@.contains(':'),
{
    reveal_strlit("DNS");
    reveal_strlit("dns");
    reveal_strlit("URI");
    reveal_strlit("uri");
    reveal_strlit("IP");
    reveal_strlit("ip");
    assert(ascii_lowercase_text("DNS"@) =~= ascii_lowercase_text("dns"@));
    assert(ascii_lowercase_text("URI"@) =~= ascii_lowercase_text("uri"@));
    assert(ascii_lowercase_text("IP"@) =~= ascii_lowercase_text("ip"@));
}

/// Parsing undoes writing: every clean name, and so every name that can be
/// accepted, is read back from the token that it is written as.
pub proof fn written_san_reads_back(name: SanName)
    requires
        is_clean(name),
    ensures
        read_san(written_san(name)) == Ok::<SanName, SanFault>(name),
{
    lemma_types_in_capitals();
    match name {
        SanName::Dns(value) => {
            san_token_reads_back(value);
            san_type_ignores_case("DNS"@, "dns"@, value);
        },
        SanName::Uri(value) => {
            san_token_reads_back(value);
            san_type_ignores_case("URI"@, "uri"@, value);
        },
        SanName::Email(value) => san_token_reads_back(value),
        SanName::Ip(octets) => {
            let value = ip_text(octets);
            ip_text_reads_back(octets);
            ip_text_has_address_chars(octets);
            assert(!has_white_space(value)) by {
                if has_white_space(value) {
                    let i = choose|i: int|
                        0 <= i < value.len() && is_white_space(#[trigger] value[i]);
                    assert(is_address_char(value[i]));
                }
            }
            san_token_reads_back(value);
            san_type_ignores_case("IP"@, "ip"@, value);
        },
    }
}

/// Every accepted name is clean.
pub proof fn accepted_san_is_clean(s: Seq<char>)
    requires
        read_san(s) is Ok,
    ensures
        is_clean(read_san(s)->Ok_0),
{
    let colon = s.index_of_first(':')->0;
    ip_octets_length(trimmed(s.skip(colon + 1)));
}

/// A general name of a Subject Alternative Name extension, as the octets of its
/// content.
#[derive(Debug, PartialEq, Eq)]
pub enum GeneralName {
    /// `dNSName`, an `IA5String`.
    DnsName(Vec<u8>),
    /// `iPAddress`, an `OCTET STRING`.
    IpAddress(Vec<u8>),
    /// `uniformResourceIdentifier`, an `IA5String`.
    UniformResourceIdentifier(Vec<u8>),
    /// `rfc822Name`, an `IA5String`.
    Rfc822Name(Vec<u8>),
}

/// What a [`GeneralName`] holds.
pub enum GeneralNameContent {
    DnsName(Seq<u8>),
    IpAddress(Seq<u8>),
    UniformResourceIdentifier(Seq<u8>),
    Rfc822Name(Seq<u8>),
}

impl View for GeneralName {
    type V = GeneralNameContent;

    open spec fn view(&self) -> GeneralNameContent {
        match self {
            GeneralName::DnsName(v) => GeneralNameContent::DnsName(v@),
            GeneralName::IpAddress(v) => GeneralNameContent::IpAddress(v@),
            GeneralName::UniformResourceIdentifier(v) =>
                GeneralNameContent::UniformResourceIdentifier(v@),
            GeneralName::Rfc822Name(v) => GeneralNameContent::Rfc822Name(v@),
        }
    }
}

/// What a list of general names holds.
pub open spec fn name_contents(names: Seq<GeneralName>) -> Seq<GeneralNameContent> {
    names.map_values(|n: GeneralName| n@)
}

/// Whether a text can be an `IA5String`: ASCII, and no longer than DER allows.
pub open spec fn is_ia5_text(t: Seq<char>) -> bool {
    is_ascii_chars(t) && t.len() <= MAX_DER_LENGTH
}

/// The octets of an ASCII text.
pub open spec fn ascii_octets(t: Seq<char>) -> Seq<u8> {
    Seq::new(t.len(), |i: int| t[i] as u8)
}

/// Calls `der::asn1::Ia5String::new`. It accepts exactly the ASCII texts of at
/// most `Length::MAX` octets and holds their octets; its error is a malformed
/// value.
#[verifier::external_body]
fn ia5_string(v: &str) -> (r: Result<Vec<u8>, String>)
    ensures
        match r {
            Ok(octets) => is_ia5_text(v@) && octets@ == ascii_octets(v@),
            Err(message) => !is_ia5_text(v@) && message@
                == "malformed ASN.1 DER value for IA5String"@,
        },
{
    match x509_cert::der::asn1::Ia5String::new(v) {
        Ok(s) => Ok(s.as_bytes().to_vec()),
        Err(e) => Err(e.to_string()),
    }
}

/// Calls `der::asn1::OctetString::new`. It accepts exactly what is at most
/// `Length::MAX` octets long and holds those octets; its error is an incorrect
/// length.
#[verifier::external_body]
fn octet_string(octets: Vec<u8>) -> (r: Result<Vec<u8>, String>)
    ensures
        match r {
            Ok(held) => octets@.len() <= MAX_DER_LENGTH && held@ == octets@,
            Err(message) => octets@.len() > MAX_DER_LENGTH && message@
                == "incorrect length for OCTET STRING"@,
        },
{
    match x509_cert::der::asn1::OctetString::new(octets) {
        Ok(s) => Ok(s.into_bytes()),
        Err(e) => Err(e.to_string()),
    }
}

/// Whether a general name can be made of a name: its text is an `IA5String`.
/// The octets of an address always fit.
pub open spec fn has_general_name(name: SanName) -> bool {
    match name {
        SanName::Dns(v) => is_ia5_text(v),
        SanName::Uri(v) => is_ia5_text(v),
        SanName::Email(v) => is_ia5_text(v),
        SanName::Ip(octets) => true,
    }
}

/// The general name of a name.
pub open spec fn general_name(name: SanName) -> GeneralNameContent {
    match name {
        SanName::Dns(v) => GeneralNameContent::DnsName(ascii_octets(v)),
        SanName::Uri(v) => GeneralNameContent::UniformResourceIdentifier(ascii_octets(v)),
        SanName::Email(v) => GeneralNameContent::Rfc822Name(ascii_octets(v)),
        SanName::Ip(octets) => GeneralNameContent::IpAddress(octets),
    }
}

/// The general names of a list of names, in order; or the message of the
/// `IA5String` encoding where one of them has none.
pub open spec fn general_names(names: Seq<SanName>) -> Result<
    Seq<GeneralNameContent>,
    Seq<char>,
> {
    if forall|i: int| 0 <= i < names.len() ==> has_general_name(#[trigger] names[i]) {
        Ok(names.map_values(|n: SanName| general_name(n)))
    } else {
        Err("malformed ASN.1 DER value for IA5String"@)
    }
}

fn to_general_name(san: &SanEntry) -> (r: Result<GeneralName, String>)
    ensures
        match r {
            Ok(name) => has_general_name(san@) && name@ == general_name(san@),
            Err(message) => !has_general_name(san@) && message@
                == "malformed ASN.1 DER value for IA5String"@,
        },
{
    match san {
        SanEntry::Dns(v) => match ia5_string(v.as_str()) {
            Ok(octets) => Ok(GeneralName::DnsName(octets)),
            Err(message) => Err(message),
        },
        SanEntry::Uri(v) => match ia5_string(v.as_str()) {
            Ok(octets) => Ok(GeneralName::UniformResourceIdentifier(octets)),
            Err(message) => Err(message),
        },
        SanEntry::Email(v) => match ia5_string(v.as_str()) {
            Ok(octets) => Ok(GeneralName::Rfc822Name(octets)),
            Err(message) => Err(message),
        },
        SanEntry::Ip(ip) => match octet_string(ip.octets()) {
            Ok(octets) => Ok(GeneralName::IpAddress(octets)),
            Err(message) => Err(message),
        },
    }
}

/// Makes the general names of the requested names, in order.
///
/// # Errors
///
/// Returns the message of the `IA5String` encoding if the text of a name is not
/// ASCII or too long for DER.
pub fn to_general_names(sans: &[SanEntry]) -> (r: Result<Vec<GeneralName>, String>)
    ensures
        match (r, general_names(san_names(sans@))) {
            (Ok(names), Ok(contents)) => name_contents(names@) == contents,
            (Err(message), Err(text)) => message@ == text,
            _ => false,
        },
{
    let ghost wanted = san_names(sans@);
    let mut out: Vec<GeneralName> = Vec::new();
    let mut i: usize = 0;
    while i < sans.len()
        invariant
            i <= sans@.len(),
            wanted == san_names(sans@),
            out@.len() == i,
            forall|j: int| 0 <= j < i ==> has_general_name(#[trigger] wanted[j]),
            forall|j: int| 0 <= j < i ==> (#[trigger] out@[j])@ == general_name(wanted[j]),
        decreases sans@.len() - i,
    {
        assert(wanted[i as int] == sans@[i as int]@);
        match to_general_name(&sans[i]) {
            Ok(name) => out.push(name),
            Err(message) => {
                assert(!has_general_name(wanted[i as int]));
                return Err(message);
            },
        }
        i += 1;
    }
    assert(name_contents(out@) =~= wanted.map_values(|n: SanName| general_name(n)));
    Ok(out)
}

/// A general name holds its name as it is: the content of a DNS, URI or email
/// name is as long as its text and has the code of each character in its place,
/// under the type of that name; the content for an address is its octets.
pub proof fn general_name_holds_name(name: SanName, i: int)
    requires
        has_general_name(name),
    ensures
        name matches SanName::Dns(v) ==> (general_name(name) matches GeneralNameContent::DnsName(
            content,
        ) && content.len() == v.len() && (0 <= i < v.len() ==> content[i] as u32 == v[i] as u32)),
        name matches SanName::Uri(v) ==> (general_name(
            name,
        ) matches GeneralNameContent::UniformResourceIdentifier(content) && content.len() == v.len()
            && (0 <= i < v.len() ==> content[i] as u32 == v[i] as u32)),
        name matches SanName::Email(v) ==> (general_name(
            name,
        ) matches GeneralNameContent::Rfc822Name(content) && content.len() == v.len() && (0 <= i
            < v.len() ==> content[i] as u32 == v[i] as u32)),
        name matches SanName::Ip(octets) ==> general_name(name) == GeneralNameContent::IpAddress(
            octets,
        ),
{
    if 0 <= i {
        match name {
            SanName::Dns(v) => lemma_ascii_octet(v, i),
            SanName::Uri(v) => lemma_ascii_octet(v, i),
            SanName::Email(v) => lemma_ascii_octet(v, i),
            SanName::Ip(_) => {},
        }
    }
}

proof fn lemma_ascii_octet(t: Seq<char>, i: int)
    requires
        is_ascii_chars(t),
    ensures
        0 <= i < t.len() ==> ascii_octets(t)[i] as u32 == t[i] as u32,
{
    if 0 <= i < t.len() {
        assert('\0' <= t[i] <= '\u{7f}');
        let u = t[i] as u32;
        assert(u <= 0x7f);
    }
}

/// Different names have different general names.
pub proof fn general_names_tell_names_apart(one: SanName, other: SanName)
    requires
        has_general_name(one),
        has_general_name(other),
        general_name(one) == general_name(other),
    ensures
        one == other,
{
    assert forall|i: int| true implies #[trigger] same_char_at(one, other, i) by {
        general_name_holds_name(one, i);
        general_name_holds_name(other, i);
    }
    general_name_holds_name(one, 0);
    general_name_holds_name(other, 0);
    match (one, other) {
        (SanName::Dns(a), SanName::Dns(b)) => lemma_same_text(one, other, a, b),
        (SanName::Uri(a), SanName::Uri(b)) => lemma_same_text(one, other, a, b),
        (SanName::Email(a), SanName::Email(b)) => lemma_same_text(one, other, a, b),
        _ => {},
    }
}

/// The text of a name that has one.
spec fn text_of(name: SanName) -> Seq<char> {
    match name {
        SanName::Dns(v) => v,
        SanName::Uri(v) => v,
        SanName::Email(v) => v,
        SanName::Ip(_) => seq![],
    }
}

spec fn same_char_at(one: SanName, other: SanName, i: int) -> bool {
    0 <= i < text_of(one).len() && i < text_of(other).len() ==> text_of(one)[i] as u32 == text_of(
        other,
    )[i] as u32
}

proof fn lemma_same_text(one: SanName, other: SanName, a: Seq<char>, b: Seq<char>)
    requires
        text_of(one) == a,
        text_of(other) == b,
        a.len() == b.len(),
        forall|i: int| #[trigger] same_char_at(one, other, i),
    ensures
        a == b,
{
    assert forall|i: int| 0 <= i < a.len() implies a[i] == b[i] by {
        assert(same_char_at(one, other, i));
        char_u32_cast(a[i], a[i] as u32);
        char_u32_cast(b[i], b[i] as u32);
    }
    assert(a =~= b);
}

/// The general names of a list are those of its names, each in its place.
pub proof fn general_names_keep_order(names: Seq<SanName>, i: int)
    requires
        0 <= i < names.len(),
        general_names(names) is Ok,
    ensures
        general_names(names)->Ok_0.len() == names.len(),
        has_general_name(names[i]),
        general_names(names)->Ok_0[i] == general_name(names[i]),
{
}

/// A list of names has general names exactly where the text of each is ASCII and
/// of at most 0xfff_ffff characters; for an address there always is one.
pub proof fn general_names_are_refused_exactly(names: Seq<SanName>)
    ensures
        general_names(names) is Ok <==> forall|i: int|
            0 <= i < names.len() ==> match #[trigger] names[i] {
                SanName::Dns(v) => is_ascii_chars(v) && v.len() <= 0xfff_ffff,
                SanName::Uri(v) => is_ascii_chars(v) && v.len() <= 0xfff_ffff,
                SanName::Email(v) => is_ascii_chars(v) && v.len() <= 0xfff_ffff,
                SanName::Ip(_) => true,
            },
{
    assert forall|i: int| 0 <= i < names.len() implies has_general_name(#[trigger] names[i]) == (
    match names[i] {
        SanName::Dns(v) => is_ascii_chars(v) && v.len() <= 0xfff_ffff,
        SanName::Uri(v) => is_ascii_chars(v) && v.len() <= 0xfff_ffff,
        SanName::Email(v) => is_ascii_chars(v) && v.len() <= 0xfff_ffff,
        SanName::Ip(_) => true,
    }) by {}
}

/// Which tokens request which name: the type is what stands before the first
/// colon and the value what stands behind it, both without outer white space; the
/// type counts in any case of its ASCII letters; a value is one or more
/// characters with no white space among them, and ASCII but for an address.
pub proof fn san_is_accepted_exactly(s: Seq<char>, colon: int, name: SanName)
    requires
        0 <= colon < s.len(),
        s[colon] == ':',
        forall|i: int| 0 <= i < colon ==> #[trigger] s[i] != ':',
    ensures
        ({
            let kind = ascii_lowercase_text(trimmed(s.take(colon)));
            let value = trimmed(s.skip(colon + 1));
            let usable = value.len() > 0 && forall|i: int|
                0 <= i < value.len() ==> !is_white_space(#[trigger] value[i]);
            read_san(s) == Ok::<SanName, SanFault>(name) <==> usable && match name {
                SanName::Dns(v) => kind == "dns"@ && v == value && is_ascii_chars(value),
                SanName::Uri(v) => kind == "uri"@ && v == value && is_ascii_chars(value),
                SanName::Email(v) => kind == "email"@ && v == value && is_ascii_chars(value),
                SanName::Ip(octets) => kind == "ip"@ && ip_octets(value) == Some(octets),
            }
        }),
{
    lemma_colon_at(s, colon);
    lemma_type_words();
    let value = trimmed(s.skip(colon + 1));
    assert(has_white_space(value) <==> exists|i: int|
        0 <= i < value.len() && is_white_space(#[trigger] value[i]));
}

proof fn lemma_colon_at(s: Seq<char>, colon: int)
    requires
        0 <= colon < s.len(),
        s[colon] == ':',
        forall|i: int| 0 <= i < colon ==> #[trigger] s[i] != ':',
    ensures
        s.index_of_first(':') == Some(colon),
{
    s.index_of_first_ensures(':');
    assert(s.contains(s[colon]));
}

/// A token without a colon requests nothing.
pub proof fn san_without_colon_is_refused(s: Seq<char>)
    requires
        !s.contains(':'),
    ensures
        read_san(s) is Err,
        san_message(s, read_san(s)->Err_0) == "invalid SAN "@ + quoted_text(s)
            + ", expected TYPE:VALUE"@,
{
    s.index_of_first_ensures(':');
}

/// What a refused token with a colon is told: that its value is empty, that there
/// is white space in it, that it is not ASCII or no address, or that there is no
/// such type; the first of these that holds.
pub proof fn san_refusal_says_why(s: Seq<char>, colon: int)
    requires
        0 <= colon < s.len(),
        s[colon] == ':',
        forall|i: int| 0 <= i < colon ==> #[trigger] s[i] != ':',
        read_san(s) is Err,
    ensures
        ({
            let kind = ascii_lowercase_text(trimmed(s.take(colon)));
            let value = trimmed(s.skip(colon + 1));
            let message = san_message(s, read_san(s)->Err_0);
            if value.len() == 0 {
                message == "invalid SAN "@ + quoted_text(s) + ": empty value"@
            } else if exists|i: int| 0 <= i < value.len() && is_white_space(#[trigger] value[i]) {
                message == "invalid SAN "@ + quoted_text(s) + ": value must not contain whitespace"@
            } else if kind == "dns"@ {
                message == "DNS"@ + " SAN must be ASCII (IA5String): "@ + quoted_text(value)
            } else if kind == "uri"@ {
                message == "URI"@ + " SAN must be ASCII (IA5String): "@ + quoted_text(value)
            } else if kind == "email"@ {
                message == "email"@ + " SAN must be ASCII (IA5String): "@ + quoted_text(value)
            } else if kind == "ip"@ {
                message == "invalid IP in SAN "@ + quoted_text(s) + ": invalid IP address syntax"@
            } else {
                message == "unsupported SAN type "@ + quoted_text(kind)
                    + " (expected dns|ip|uri|email)"@
            }
        }),
{
    lemma_colon_at(s, colon);
    lemma_type_words();
}

/// White space around the type and around the value does not matter.
pub proof fn outer_white_space_of_san_does_not_matter(
    before: Seq<char>,
    kind: Seq<char>,
    behind: Seq<char>,
    value: Seq<char>,
)
    requires
        forall|i: int| 0 <= i < before.len() ==> is_white_space(#[trigger] before[i]),
        forall|i: int| 0 <= i < behind.len() ==> is_white_space(#[trigger] behind[i]),
        !kind.contains(':'),
    ensures
        read_san((before + kind).push(':') + value) == read_san(kind.push(':') + value),
        read_san(kind.push(':') + (value + behind)) == read_san(kind.push(':') + value),
{
    assert(!(before + kind).contains(':')) by {
        if (before + kind).contains(':') {
            let i = choose|i: int| 0 <= i < (before + kind).len() && (before + kind)[i] == ':';
            if i < before.len() {
                assert(is_white_space(before[i]));
            } else {
                assert(kind.contains(kind[i - before.len()]));
            }
        }
    }
    lemma_first_colon(before + kind, value);
    lemma_first_colon(kind, value);
    lemma_first_colon(kind, value + behind);
    lemma_leading_white_space(before, kind);
    lemma_trailing_white_space(value, behind);
}

proof fn lemma_leading_white_space(before: Seq<char>, t: Seq<char>)
    requires
        forall|i: int| 0 <= i < before.len() ==> is_white_space(#[trigger] before[i]),
    ensures
        trim_start(before + t) == trim_start(t),
    decreases before.len(),
{
    if before.len() > 0 {
        let rest = before.drop_first();
        assert forall|i: int| 0 <= i < rest.len() implies is_white_space(#[trigger] rest[i]) by {
            assert(rest[i] == before[i + 1]);
        }
        lemma_leading_white_space(rest, t);
        assert(is_white_space(before[0]));
        assert((before + t).drop_first() =~= rest + t);
    } else {
        assert(before + t =~= t);
    }
}

proof fn lemma_trailing_white_space(t: Seq<char>, behind: Seq<char>)
    requires
        forall|i: int| 0 <= i < behind.len() ==> is_white_space(#[trigger] behind[i]),
    ensures
        trimmed(t + behind) == trimmed(t),
    decreases behind.len(),
{
    if behind.len() > 0 {
        let rest = behind.drop_last();
        assert forall|i: int| 0 <= i < rest.len() implies is_white_space(#[trigger] rest[i]) by {
            assert(rest[i] == behind[i]);
        }
        lemma_trailing_white_space(t, rest);
        let last = behind[behind.len() - 1];
        assert(is_white_space(last));
        assert(t + behind =~= (t + rest).push(last));
        lemma_one_trailing(t + rest, last);
    } else {
        assert(t + behind =~= t);
    }
}

proof fn lemma_one_trailing(t: Seq<char>, c: char)
    requires
        is_white_space(c),
    ensures
        trimmed(t.push(c)) == trimmed(t),
    decreases t.len(),
{
    let all = t.push(c);
    if t.len() > 0 && is_white_space(t.first()) {
        assert(all.first() == t.first());
        assert(all.drop_first() =~= t.drop_first().push(c));
        lemma_one_trailing(t.drop_first(), c);
    } else if t.len() > 0 {
        assert(all.first() == t.first());
        assert(all.drop_last() =~= t);
        assert(all.last() == c);
    } else {
        assert(all.first() == c);
        assert(all.drop_first() =~= t);
        assert(trim_start(all) == trim_start(all.drop_first()));
    }
}

/// A value that is not ASCII is refused with its label before the rule and the
/// quoted value behind it, whatever the label.
pub proof fn not_ascii_message_holds_label_and_value(label: Seq<char>, value: Seq<char>)
    ensures
        ({
            let message = not_ascii_message(label, value);
            let rule = " SAN must be ASCII (IA5String): "@;
            &&& message.len() == label.len() + rule.len() + quoted_text(value).len()
            &&& message.take(label.len() as int) == label
            &&& message.subrange(label.len() as int, (label.len() + rule.len()) as int) == rule
            &&& message.skip((label.len() + rule.len()) as int) == quoted_text(value)
        }),
{
    let message = not_ascii_message(label, value);
    let rule = " SAN must be ASCII (IA5String): "@;
    assert(message.take(label.len() as int) =~= label);
    assert(message.subrange(label.len() as int, (label.len() + rule.len()) as int) =~= rule);
    assert(message.skip((label.len() + rule.len()) as int) =~= quoted_text(value));
}

/// An entry stands for the text or the octets that it holds, and a list of
/// entries for those of each of them, in its place.
pub proof fn entries_stand_for_what_they_hold(sans: Seq<SanEntry>, i: int)
    requires
        0 <= i < sans.len(),
    ensures
        san_names(sans).len() == sans.len(),
        san_names(sans)[i] == match sans[i] {
            SanEntry::Dns(v) => SanName::Dns(v@),
            SanEntry::Uri(v) => SanName::Uri(v@),
            SanEntry::Email(v) => SanName::Email(v@),
            SanEntry::Ip(IpAddr::V4(octets)) => SanName::Ip(octets@),
            SanEntry::Ip(IpAddr::V6(octets)) => SanName::Ip(octets@),
        },
{
}

/// A list of general names holds what each of them holds, in its place.
pub proof fn general_names_hold_their_octets(names: Seq<GeneralName>, i: int)
    requires
        0 <= i < names.len(),
    ensures
        name_contents(names).len() == names.len(),
        name_contents(names)[i] == match names[i] {
            GeneralName::DnsName(v) => GeneralNameContent::DnsName(v@),
            GeneralName::IpAddress(v) => GeneralNameContent::IpAddress(v@),
            GeneralName::UniformResourceIdentifier(v) =>
                GeneralNameContent::UniformResourceIdentifier(v@),
            GeneralName::Rfc822Name(v) => GeneralNameContent::Rfc822Name(v@),
        },
{
}

} // verus!
