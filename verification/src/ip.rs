//! Textual IP addresses: dotted decimal IPv4 and the IPv6 forms of RFC 4291.

use std::str::FromStr;

use vstd::prelude::*;

use crate::text::{chars_of, slice_of};

verus! {

/// An IP address, as its octets in network order.
#[derive(Clone, Copy, Debug, PartialEq, Eq)]
pub enum IpAddr {
    /// An IPv4 address.
    V4([u8; 4]),
    /// An IPv6 address.
    V6([u8; 16]),
}

impl View for IpAddr {
    type V = Seq<u8>;

    open spec fn view(&self) -> Seq<u8> {
        match self {
            IpAddr::V4(octets) => octets@,
            IpAddr::V6(octets) => octets@,
        }
    }
}

impl IpAddr {
    /// The octets of the address in network order.
    pub fn octets(&self) -> (r: Vec<u8>)
        ensures
            r@ == self@,
    {
        match self {
            IpAddr::V4(octets) => vstd::slice::slice_to_vec(octets.as_slice()),
            IpAddr::V6(octets) => vstd::slice::slice_to_vec(octets.as_slice()),
        }
    }
}

/// The pieces of `t` between the occurrences of `sep`, in order; an empty text
/// is one empty piece.
pub open spec fn fields(t: Seq<char>, sep: char) -> Seq<Seq<char>>
    decreases t.len(),
{
    if t.len() == 0 {
        seq![seq![]]
    } else {
        let before = fields(t.drop_last(), sep);
        if t.last() == sep {
            before.push(seq![])
        } else {
            before.drop_last().push(before.last().push(t.last()))
        }
    }
}

/// The value of `c` as a digit of base 16.
pub open spec fn digit_value(c: char) -> Option<nat> {
    if '0' <= c <= '9' {
        Some((c as u32 - '0' as u32) as nat)
    } else if 'a' <= c <= 'f' {
        Some((c as u32 - 'a' as u32 + 10) as nat)
    } else if 'A' <= c <= 'F' {
        Some((c as u32 - 'A' as u32 + 10) as nat)
    } else {
        None
    }
}

/// The number that the digits of `t` make up in base `radix`; `None` where one
/// of them is no digit of that base.
pub open spec fn numeral_value(t: Seq<char>, radix: nat) -> Option<nat>
    decreases t.len(),
{
    if t.len() == 0 {
        Some(0)
    } else {
        match (numeral_value(t.drop_last(), radix), digit_value(t.last())) {
            (Some(high), Some(d)) => if d < radix {
                Some(high * radix + d)
            } else {
                None
            },
            _ => None,
        }
    }
}

/// An octet in decimal: one to three digits, at most 255, with no leading zero.
pub open spec fn decimal_octet(t: Seq<char>) -> Option<nat> {
    match numeral_value(t, 10) {
        Some(n) => if 1 <= t.len() <= 3 && n <= 255 && (t.len() > 1 ==> t[0] != '0') {
            Some(n)
        } else {
            None
        },
        None => None,
    }
}

/// A group of an IPv6 address: one to four hexadecimal digits.
pub open spec fn hex_group(t: Seq<char>) -> Option<nat> {
    if 1 <= t.len() <= 4 {
        numeral_value(t, 16)
    } else {
        None
    }
}

/// The octets of an IPv4 address: four decimal octets with dots between them.
pub open spec fn ipv4_octets(t: Seq<char>) -> Option<Seq<u8>> {
    let parts = fields(t, '.');
    if parts.len() == 4 && (forall|i: int|
        0 <= i < 4 ==> decimal_octet(#[trigger] parts[i]) is Some) {
        Some(Seq::new(4, |i: int| decimal_octet(parts[i])->0 as u8))
    } else {
        None
    }
}

/// The octets of groups, two for each.
pub open spec fn group_octets(groups: Seq<Seq<char>>) -> Option<Seq<u8>>
    decreases groups.len(),
{
    if groups.len() == 0 {
        Some(seq![])
    } else {
        match (group_octets(groups.drop_last()), hex_group(groups.last())) {
            (Some(before), Some(g)) => Some(before + seq![(g / 256) as u8, (g % 256) as u8]),
            _ => None,
        }
    }
}

/// The octets of groups of which the last may be an IPv4 address instead.
pub open spec fn mixed_octets(groups: Seq<Seq<char>>) -> Option<Seq<u8>> {
    if groups.len() > 0 && ipv4_octets(groups.last()) is Some {
        match group_octets(groups.drop_last()) {
            Some(before) => Some(before + ipv4_octets(groups.last())->0),
            None => None,
        }
    } else {
        group_octets(groups)
    }
}

/// The groups of a text: none in an empty text, else what its colons separate.
pub open spec fn groups_of(t: Seq<char>) -> Seq<Seq<char>> {
    if t.len() == 0 {
        seq![]
    } else {
        fields(t, ':')
    }
}

/// Whether two colons stand at `i` and the place after it.
pub open spec fn double_colon_at(t: Seq<char>, i: int) -> bool {
    0 <= i && i + 1 < t.len() && t[i] == ':' && t[i + 1] == ':'
}

/// The first place of two colons in a row at or after `from`.
pub open spec fn double_colon(t: Seq<char>, from: nat) -> Option<nat>
    decreases t.len() - from,
{
    if from + 1 >= t.len() {
        None
    } else if double_colon_at(t, from as int) {
        Some(from)
    } else {
        double_colon(t, from + 1)
    }
}

/// The octets of an IPv6 address: either eight groups, of which the last two
/// may be written as an IPv4 address; or groups before and after two colons,
/// which stand for one or more groups of zero.
pub open spec fn ipv6_octets(t: Seq<char>) -> Option<Seq<u8>> {
    match double_colon(t, 0) {
        None => match mixed_octets(groups_of(t)) {
            Some(octets) => if octets.len() == 16 {
                Some(octets)
            } else {
                None
            },
            None => None,
        },
        Some(i) => match (
            group_octets(groups_of(t.take(i as int))),
            mixed_octets(groups_of(t.skip(i as int + 2))),
        ) {
            (Some(head), Some(tail)) => if head.len() + tail.len() <= 14 {
                Some(
                    head + Seq::new(
                        (16 - head.len() - tail.len()) as nat,
                        |k: int| 0u8,
                    ) + tail,
                )
            } else {
                None
            },
            _ => None,
        },
    }
}

/// The octets of a textual IP address.
pub open spec fn ip_octets(t: Seq<char>) -> Option<Seq<u8>> {
    match ipv4_octets(t) {
        Some(octets) => Some(octets),
        None => ipv6_octets(t),
    }
}

/// The texts that lists of characters hold.
pub open spec fn char_lists(lists: Seq<Vec<char>>) -> Seq<Seq<char>> {
    lists.map_values(|v: Vec<char>| v@)
}

pub(crate) proof fn lemma_numeral_prefix(t: Seq<char>, radix: nat, n: int)
    requires
        0 <= n <= t.len(),
        numeral_value(t.take(n), radix) is None,
    ensures
        numeral_value(t, radix) is None,
    decreases t.len() - n,
{
    if n == t.len() {
        assert(t.take(n) =~= t);
    } else {
        assert(t.drop_last().take(n) =~= t.take(n));
        lemma_numeral_prefix(t.drop_last(), radix, n);
    }
}

proof fn lemma_group_prefix(groups: Seq<Seq<char>>, n: int)
    requires
        0 <= n <= groups.len(),
        group_octets(groups.take(n)) is None,
    ensures
        group_octets(groups) is None,
    decreases groups.len() - n,
{
    if n == groups.len() {
        assert(groups.take(n) =~= groups);
    } else {
        assert(groups.drop_last().take(n) =~= groups.take(n));
        lemma_group_prefix(groups.drop_last(), n);
    }
}

/// An IPv4 address has four octets, an IPv6 address sixteen.
pub proof fn ip_octets_length(t: Seq<char>)
    ensures
        ipv4_octets(t) is Some ==> ipv4_octets(t)->0.len() == 4,
        ipv6_octets(t) is Some ==> ipv6_octets(t)->0.len() == 16,
{
}

fn split_fields(t: &Vec<char>, sep: char) -> (r: Vec<Vec<char>>)
    ensures
        char_lists(r@) == fields(t@, sep),
{
    let mut done: Vec<Vec<char>> = Vec::new();
    let mut current: Vec<char> = Vec::new();
    let mut i: usize = 0;
    proof {
        assert(char_lists(done@).push(current@) =~= fields(t@.take(0), sep));
    }
    while i < t.len()
        invariant
            i <= t@.len(),
            char_lists(done@).push(current@) == fields(t@.take(i as int), sep),
        decreases t@.len() - i,
    {
        let c: char = t[i];
        let ghost before = char_lists(done@).push(current@);
        proof {
            assert(t@.take(i + 1).drop_last() =~= t@.take(i as int));
            assert(before.drop_last() =~= char_lists(done@));
        }
        if c == sep {
            done.push(current);
            current = Vec::new();
            assert(char_lists(done@) =~= before);
            assert(char_lists(done@).push(current@) =~= fields(t@.take(i + 1), sep));
        } else {
            current.push(c);
            assert(char_lists(done@).push(current@) =~= fields(t@.take(i + 1), sep));
        }
        i += 1;
    }
    let ghost last = current@;
    let ghost old_done = done@;
    done.push(current);
    proof {
        assert(t@.take(t@.len() as int) =~= t@);
        assert(char_lists(done@) =~= char_lists(old_done).push(last));
    }
    done
}

fn digit_of(c: char) -> (r: Option<u32>)
    ensures
        match (r, digit_value(c)) {
            (Some(d), Some(v)) => d == v && d < 16,
            (None, None) => true,
            _ => false,
        },
{
    if '0' <= c && c <= '9' {
        Some(c as u32 - '0' as u32)
    } else if 'a' <= c && c <= 'f' {
        Some(c as u32 - 'a' as u32 + 10)
    } else if 'A' <= c && c <= 'F' {
        Some(c as u32 - 'A' as u32 + 10)
    } else {
        None
    }
}

fn number_of(t: &Vec<char>, radix: u32) -> (r: Option<u32>)
    requires
        t@.len() <= 4,
        radix == 10 || radix == 16,
    ensures
        match (r, numeral_value(t@, radix as nat)) {
            (Some(n), Some(v)) => n == v && n <= 0xffff,
            (None, None) => true,
            _ => false,
        },
{
    let mut n: u32 = 0;
    let mut i: usize = 0;
    while i < t.len()
        invariant
            i <= t@.len() <= 4,
            radix == 10 || radix == 16,
            numeral_value(t@.take(i as int), radix as nat) == Some(n as nat),
            i == 0 ==> n == 0,
            i == 1 ==> n <= 0xf,
            i == 2 ==> n <= 0xff,
            i == 3 ==> n <= 0xfff,
            i == 4 ==> n <= 0xffff,
        decreases t@.len() - i,
    {
        proof {
            assert(t@.take(i + 1).drop_last() =~= t@.take(i as int));
        }
        match digit_of(t[i]) {
            Some(d) if d < radix => {
                let shifted: u32 = if radix == 10 {
                    n * 10
                } else {
                    n * 16
                };
                assert(shifted == n * radix) by (nonlinear_arith)
                    requires
                        radix == 10 && shifted == n * 10 || radix == 16 && shifted == n * 16,
                ;
                n = shifted + d;
            },
            _ => {
                proof {
                    lemma_numeral_prefix(t@, radix as nat, i + 1);
                }
                return None;
            },
        }
        i += 1;
    }
    assert(t@.take(t@.len() as int) =~= t@);
    Some(n)
}

fn parse_octet(t: &Vec<char>) -> (r: Option<u8>)
    ensures
        match (r, decimal_octet(t@)) {
            (Some(n), Some(v)) => n == v,
            (None, None) => true,
            _ => false,
        },
{
    if t.len() == 0 || t.len() > 3 || (t.len() > 1 && t[0] == '0') {
        return None;
    }
    match number_of(t, 10) {
        Some(n) if n <= 255 => Some(n as u8),
        _ => None,
    }
}

fn parse_ipv4(t: &Vec<char>) -> (r: Option<Vec<u8>>)
    ensures
        match (r, ipv4_octets(t@)) {
            (Some(v), Some(octets)) => v@ == octets,
            (None, None) => true,
            _ => false,
        },
{
    let parts = split_fields(t, '.');
    let ghost pieces = fields(t@, '.');
    if parts.len() != 4 {
        return None;
    }
    let mut out: Vec<u8> = Vec::new();
    let mut i: usize = 0;
    while i < 4
        invariant
            i <= 4,
            parts@.len() == 4,
            pieces == fields(t@, '.'),
            char_lists(parts@) == pieces,
            out@.len() == i,
            forall|k: int|
                0 <= k < i ==> decimal_octet(#[trigger] pieces[k]) == Some(out@[k] as nat),
        decreases 4 - i,
    {
        assert(pieces[i as int] == parts@[i as int]@);
        match parse_octet(&parts[i]) {
            Some(n) => out.push(n),
            None => {
                assert(decimal_octet(pieces[i as int]) is None);
                return None;
            },
        }
        i += 1;
    }
    assert(out@ =~= ipv4_octets(t@)->0);
    Some(out)
}

fn parse_groups(groups: &Vec<Vec<char>>, count: usize) -> (r: Option<Vec<u8>>)
    requires
        count <= groups@.len(),
    ensures
        match (r, group_octets(char_lists(groups@).take(count as int))) {
            (Some(v), Some(octets)) => v@ == octets,
            (None, None) => true,
            _ => false,
        },
{
    let ghost texts = char_lists(groups@);
    let mut out: Vec<u8> = Vec::new();
    let mut i: usize = 0;
    assert(texts.take(0) =~= seq![]);
    while i < count
        invariant
            i <= count <= groups@.len(),
            texts == char_lists(groups@),
            group_octets(texts.take(i as int)) == Some(out@),
        decreases count - i,
    {
        proof {
            assert(texts.take(i + 1).drop_last() =~= texts.take(i as int));
            assert(texts.take(i + 1).last() == groups@[i as int]@);
        }
        let group = &groups[i];
        let value: Option<u32> = if group.len() == 0 || group.len() > 4 {
            None
        } else {
            number_of(group, 16)
        };
        match value {
            Some(g) => {
                let ghost before = out@;
                out.push((g / 256) as u8);
                out.push((g % 256) as u8);
                assert(out@ =~= before + seq![(g / 256) as u8, (g % 256) as u8]);
            },
            None => {
                proof {
                    assert(texts.take(count as int).take(i + 1) =~= texts.take(i + 1));
                    lemma_group_prefix(texts.take(count as int), i + 1);
                }
                return None;
            },
        }
        i += 1;
    }
    Some(out)
}

fn split_groups(t: &Vec<char>) -> (r: Vec<Vec<char>>)
    ensures
        char_lists(r@) == groups_of(t@),
{
    if t.len() == 0 {
        let none: Vec<Vec<char>> = Vec::new();
        assert(char_lists(none@) =~= seq![]);
        none
    } else {
        split_fields(t, ':')
    }
}

fn parse_mixed(t: &Vec<char>) -> (r: Option<Vec<u8>>)
    ensures
        match (r, mixed_octets(groups_of(t@))) {
            (Some(v), Some(octets)) => v@ == octets,
            (None, None) => true,
            _ => false,
        },
{
    let groups = split_groups(t);
    let ghost texts = groups_of(t@);
    let count: usize = groups.len();
    proof {
        assert(texts.take(count as int) =~= texts);
    }
    if count > 0 {
        assert(texts.last() == groups@[count - 1]@);
        assert(texts.take(count - 1) =~= texts.drop_last());
        if let Some(v4) = parse_ipv4(&groups[count - 1]) {
            let mut tail = v4;
            return match parse_groups(&groups, count - 1) {
                Some(mut octets) => {
                    octets.append(&mut tail);
                    Some(octets)
                },
                None => None,
            };
        }
    }
    parse_groups(&groups, count)
}

fn find_double_colon(t: &Vec<char>) -> (r: Option<usize>)
    ensures
        match (r, double_colon(t@, 0)) {
            (Some(i), Some(k)) => i == k && i + 1 < t@.len(),
            (None, None) => true,
            _ => false,
        },
{
    let mut i: usize = 0;
    while i < t.len() && i + 1 < t.len()
        invariant
            i <= t@.len(),
            double_colon(t@, 0) == double_colon(t@, i as nat),
        decreases t@.len() - i,
    {
        if t[i] == ':' && t[i + 1] == ':' {
            return Some(i);
        }
        i += 1;
    }
    None
}

fn parse_ipv6(t: &Vec<char>) -> (r: Option<Vec<u8>>)
    ensures
        match (r, ipv6_octets(t@)) {
            (Some(v), Some(octets)) => v@ == octets,
            (None, None) => true,
            _ => false,
        },
{
    match find_double_colon(t) {
        None => match parse_mixed(t) {
            Some(octets) if octets.len() == 16 => Some(octets),
            _ => None,
        },
        Some(i) => {
            let before = slice_of(t, 0, i);
            let length: usize = t.len();
            let after = slice_of(t, i + 2, length);
            assert(before@ =~= t@.take(i as int));
            assert(after@ =~= t@.skip(i + 2));
            let groups = split_groups(&before);
            assert(groups_of(before@).take(groups@.len() as int) =~= groups_of(before@));
            match (parse_groups(&groups, groups.len()), parse_mixed(&after)) {
                (Some(mut octets), Some(mut tail)) => {
                    if octets.len() > 14 || tail.len() > 14 - octets.len() {
                        return None;
                    }
                    let ghost head = octets@;
                    let ghost rest = tail@;
                    let zeros: usize = 16 - octets.len() - tail.len();
                    let mut k: usize = 0;
                    while k < zeros
                        invariant
                            k <= zeros,
                            octets@ == head + Seq::new(k as nat, |j: int| 0u8),
                        decreases zeros - k,
                    {
                        octets.push(0);
                        k += 1;
                        assert(octets@ =~= head + Seq::new(k as nat, |j: int| 0u8));
                    }
                    octets.append(&mut tail);
                    assert(octets@ =~= head + Seq::new(zeros as nat, |j: int| 0u8) + rest);
                    Some(octets)
                },
                _ => None,
            }
        },
    }
}

/// Reads a textual IP address.
///
/// Accepts an IPv4 address in dotted decimal, without leading zeros, and an
/// IPv6 address in any of the forms of RFC 4291, without a scope.
pub fn parse_ip(s: &str) -> (r: Option<IpAddr>)
    ensures
        match r {
            Some(ip) => ip_octets(s@) == Some(ip@) && (ip is V4 <==> ipv4_octets(s@) is Some),
            None => ip_octets(s@) is None,
        },
{
    let t = chars_of(s);
    if let Some(v) = parse_ipv4(&t) {
        let octets: [u8; 4] = [v[0], v[1], v[2], v[3]];
        assert(octets@ =~= v@);
        return Some(IpAddr::V4(octets));
    }
    match parse_ipv6(&t) {
        Some(v) => {
            let octets: [u8; 16] = [
                v[0], v[1], v[2], v[3], v[4], v[5], v[6], v[7], v[8], v[9], v[10], v[11], v[12],
                v[13], v[14], v[15],
            ];
            assert(octets@ =~= v@);
            Some(IpAddr::V6(octets))
        },
        None => None,
    }
}

/// The error of reading a text that is no IP address.
#[derive(Clone, Copy, Debug, PartialEq, Eq)]
pub struct IpParseError;

impl FromStr for IpAddr {
    type Err = IpParseError;

    fn from_str(s: &str) -> (r: Result<IpAddr, IpParseError>)
        ensures
            match r {
                Ok(ip) => ip_octets(s@) == Some(ip@),
                Err(_) => ip_octets(s@) is None,
            },
    {
        match parse_ip(s) {
            Some(ip) => Ok(ip),
            None => Err(IpParseError),
        }
    }
}

} // verus!
