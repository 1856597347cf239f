//! The canonical texts of IP addresses, and that they are read back.

use vstd::prelude::*;
use vstd::string::*;

use crate::common_name::hex_digit;
use crate::ip::{
    decimal_octet, digit_value, double_colon, double_colon_at, fields, group_octets, groups_of,
    hex_group, ip_octets, ipv4_octets, ipv6_octets, lemma_numeral_prefix, mixed_octets,
    numeral_value,
};
use crate::text::{decimal, decimal_digit, joined_lines};

verus! {

/// The parts with `sep` between each two of them.
pub open spec fn joined(parts: Seq<Seq<char>>, sep: char) -> Seq<char>
    decreases parts.len(),
{
    if parts.len() == 0 {
        seq![]
    } else if parts.len() == 1 {
        parts[0]
    } else {
        joined(parts.drop_last(), sep).push(sep) + parts.last()
    }
}

/// The hexadecimal numeral of `n`, in lower case and without leading zeros.
pub open spec fn hexadecimal(n: nat) -> Seq<char>
    decreases n,
{
    if n < 16 {
        seq![hex_digit(n)]
    } else {
        hexadecimal(n / 16).push(hex_digit(n % 16))
    }
}

/// The dotted decimal text of an IPv4 address.
pub open spec fn ipv4_text(octets: Seq<u8>) -> Seq<char> {
    joined(octets.map_values(|o: u8| decimal(o as nat)), '.')
}

/// Group `i` of the octets of an IPv6 address.
pub open spec fn group_at(octets: Seq<u8>, i: int) -> nat {
    (octets[2 * i] * 256 + octets[2 * i + 1]) as nat
}

/// The numerals of the groups from `from` up to `to`.
pub open spec fn group_texts(octets: Seq<u8>, from: int, to: int) -> Seq<Seq<char>> {
    Seq::new((to - from) as nat, |k: int| hexadecimal(group_at(octets, from + k)))
}

/// How many groups of zero stand in a row from `i` on.
pub open spec fn zero_run(octets: Seq<u8>, i: int) -> int
    decreases 8 - i,
{
    if i >= 8 || group_at(octets, i) != 0 {
        0
    } else {
        1 + zero_run(octets, i + 1)
    }
}

/// Where the longest run of zero groups from `i` on starts, the first of several,
/// and how long it is.
pub open spec fn longest_run(octets: Seq<u8>, i: int) -> (int, int)
    decreases 8 - i,
{
    if i >= 8 {
        (i, 0)
    } else {
        let later = longest_run(octets, i + 1);
        if zero_run(octets, i) >= later.1 {
            (i, zero_run(octets, i))
        } else {
            later
        }
    }
}

/// The text of an IPv6 address in which two colons stand for the groups from
/// `from` up to `to`.
pub open spec fn shortened_text(octets: Seq<u8>, from: int, to: int) -> Seq<char> {
    joined(group_texts(octets, 0, from), ':') + "::"@ + joined(group_texts(octets, to, 8), ':')
}

/// Whether an IPv6 address stands for an IPv4 address.
pub open spec fn is_ipv4_mapped(octets: Seq<u8>) -> bool {
    (forall|i: int| 0 <= i < 10 ==> #[trigger] octets[i] == 0) && octets[10] == 0xff && octets[11]
        == 0xff
}

/// The text of an IPv6 address, after RFC 5952: two colons stand for the longest
/// run of at least two zero groups, and an address that stands for an IPv4
/// address is written with it.
pub open spec fn ipv6_text(octets: Seq<u8>) -> Seq<char> {
    let run = longest_run(octets, 0);
    if is_ipv4_mapped(octets) {
        "::"@ + ("ffff"@.push(':') + ipv4_text(octets.skip(12)))
    } else if run.1 > 1 {
        shortened_text(octets, run.0, run.0 + run.1)
    } else {
        joined(group_texts(octets, 0, 8), ':')
    }
}

/// The canonical text of an IP address with the given octets.
pub open spec fn ip_text(octets: Seq<u8>) -> Seq<char> {
    if octets.len() == 4 {
        ipv4_text(octets)
    } else {
        ipv6_text(octets)
    }
}

/// Whether `sep` does not occur in `t`.
spec fn is_free_of(t: Seq<char>, sep: char) -> bool {
    forall|i: int| 0 <= i < t.len() ==> #[trigger] t[i] != sep
}

/// Whether no part is empty and `sep` occurs in none of them.
spec fn are_parts(parts: Seq<Seq<char>>, sep: char) -> bool {
    forall|i: int|
        0 <= i < parts.len() ==> (#[trigger] parts[i]).len() > 0 && is_free_of(parts[i], sep)
}

/// Whether a text is made of lower case hexadecimal digits.
spec fn is_hex(t: Seq<char>) -> bool {
    forall|i: int|
        0 <= i < t.len() ==> '0' <= #[trigger] t[i] <= '9' || 'a' <= t[i] <= 'f'
}

proof fn lemma_one_field(part: Seq<char>, sep: char)
    requires
        is_free_of(part, sep),
    ensures
        fields(part, sep) == seq![part],
    decreases part.len(),
{
    if part.len() > 0 {
        let before = part.drop_last();
        assert forall|i: int| 0 <= i < before.len() implies #[trigger] before[i] != sep by {
            assert(before[i] == part[i]);
        }
        lemma_one_field(before, sep);
        assert(part.last() == part[part.len() - 1]);
        assert(before.push(part.last()) =~= part);
        assert(fields(part, sep) =~= seq![part]);
    } else {
        assert(part =~= seq![]);
    }
}

proof fn lemma_next_field(t: Seq<char>, part: Seq<char>, sep: char)
    requires
        is_free_of(part, sep),
    ensures
        fields(t.push(sep) + part, sep) == fields(t, sep).push(part),
    decreases part.len(),
{
    let all = t.push(sep) + part;
    if part.len() > 0 {
        let before = part.drop_last();
        assert forall|i: int| 0 <= i < before.len() implies #[trigger] before[i] != sep by {
            assert(before[i] == part[i]);
        }
        lemma_next_field(t, before, sep);
        assert(all.drop_last() =~= t.push(sep) + before);
        assert(all.last() == part[part.len() - 1]);
        assert(before.push(all.last()) =~= part);
        assert(fields(all, sep) =~= fields(t, sep).push(part));
    } else {
        assert(all =~= t.push(sep));
        assert(all.drop_last() =~= t);
        assert(part =~= seq![]);
    }
}

proof fn lemma_fields_of_joined(parts: Seq<Seq<char>>, sep: char)
    requires
        parts.len() > 0,
        are_parts(parts, sep),
    ensures
        fields(joined(parts, sep), sep) == parts,
        joined(parts, sep).len() > 0,
    decreases parts.len(),
{
    if parts.len() == 1 {
        lemma_one_field(parts[0], sep);
        assert(parts =~= seq![parts[0]]);
    } else {
        let before = parts.drop_last();
        assert forall|i: int| 0 <= i < before.len() implies (#[trigger] before[i]).len() > 0
            && is_free_of(before[i], sep) by {
            assert(before[i] == parts[i]);
        }
        lemma_fields_of_joined(before, sep);
        assert(parts.last() == parts[parts.len() - 1]);
        lemma_next_field(joined(before, sep), parts.last(), sep);
        assert(before.push(parts.last()) =~= parts);
    }
}

/// Joining texts that are free of a character, with another one between them,
/// brings it in nowhere.
proof fn lemma_joined_is_free_of(parts: Seq<Seq<char>>, sep: char, other: char)
    requires
        sep != other,
        forall|i: int| 0 <= i < parts.len() ==> is_free_of(#[trigger] parts[i], other),
    ensures
        is_free_of(joined(parts, sep), other),
    decreases parts.len(),
{
    if parts.len() == 1 {
        assert(is_free_of(parts[0], other));
    } else if parts.len() > 1 {
        let before = parts.drop_last();
        assert forall|i: int| 0 <= i < before.len() implies is_free_of(
            #[trigger] before[i],
            other,
        ) by {
            assert(before[i] == parts[i]);
        }
        lemma_joined_is_free_of(before, sep, other);
        assert(is_free_of(parts[parts.len() - 1], other));
    }
}

proof fn lemma_decimal(n: nat)
    ensures
        numeral_value(decimal(n), 10) == Some(n),
        decimal(n).len() > 0,
        forall|i: int| 0 <= i < decimal(n).len() ==> '0' <= #[trigger] decimal(n)[i] <= '9',
        n > 0 ==> decimal(n)[0] != '0',
    decreases n,
{
    if n < 10 {
        let t = decimal(n);
        assert(t.drop_last() =~= seq![]);
        assert(numeral_value(t.drop_last(), 10) == Some(0nat));
        assert(digit_value(t.last()) == Some(n));
    } else {
        lemma_decimal(n / 10);
        let t = decimal(n);
        assert(t.drop_last() =~= decimal(n / 10));
        assert(digit_value(t.last()) == Some(n % 10));
        assert(n / 10 * 10 + n % 10 == n);
    }
}

proof fn lemma_decimal_octet(n: nat)
    requires
        n <= 255,
    ensures
        decimal_octet(decimal(n)) == Some(n),
{
    lemma_decimal(n);
    reveal_with_fuel(decimal, 4);
}

proof fn lemma_hexadecimal(n: nat)
    ensures
        numeral_value(hexadecimal(n), 16) == Some(n),
        hexadecimal(n).len() > 0,
        is_hex(hexadecimal(n)),
    decreases n,
{
    if n < 16 {
        let t = hexadecimal(n);
        assert(t.drop_last() =~= seq![]);
        assert(numeral_value(t.drop_last(), 16) == Some(0nat));
        assert(digit_value(t.last()) == Some(n));
    } else {
        lemma_hexadecimal(n / 16);
        let t = hexadecimal(n);
        assert(t.drop_last() =~= hexadecimal(n / 16));
        assert(digit_value(t.last()) == Some(n % 16));
        assert(n / 16 * 16 + n % 16 == n);
        assert forall|i: int| 0 <= i < t.len() implies '0' <= #[trigger] t[i] <= '9' || 'a' <= t[i]
            <= 'f' by {
            if i < t.len() - 1 {
                assert(t[i] == hexadecimal(n / 16)[i]);
            }
        }
    }
}

proof fn lemma_hex_group(n: nat)
    requires
        n < 0x1_0000,
    ensures
        hex_group(hexadecimal(n)) == Some(n),
{
    lemma_hexadecimal(n);
    reveal_with_fuel(hexadecimal, 5);
}

proof fn lemma_ipv4_text(octets: Seq<u8>)
    requires
        octets.len() == 4,
    ensures
        ipv4_octets(ipv4_text(octets)) == Some(octets),
        is_free_of(ipv4_text(octets), ':'),
        ipv4_text(octets).len() > 0,
{
    let parts = octets.map_values(|o: u8| decimal(o as nat));
    assert forall|i: int| 0 <= i < parts.len() implies (#[trigger] parts[i]).len() > 0
        && is_free_of(parts[i], '.') && is_free_of(parts[i], ':') && decimal_octet(parts[i])
        == Some(octets[i] as nat) by {
        lemma_decimal(octets[i] as nat);
        lemma_decimal_octet(octets[i] as nat);
    }
    lemma_fields_of_joined(parts, '.');
    lemma_joined_is_free_of(parts, '.', ':');
    assert(Seq::new(4, |i: int| decimal_octet(parts[i])->0 as u8) =~= octets);
}

proof fn lemma_group_texts(octets: Seq<u8>, from: int, to: int)
    requires
        octets.len() == 16,
        0 <= from <= to <= 8,
    ensures
        group_octets(group_texts(octets, from, to)) == Some(octets.subrange(2 * from, 2 * to)),
        are_parts(group_texts(octets, from, to), ':'),
        forall|i: int|
            0 <= i < to - from ==> is_hex(#[trigger] group_texts(octets, from, to)[i]),
    decreases to - from,
{
    let groups = group_texts(octets, from, to);
    assert forall|i: int| 0 <= i < groups.len() implies (#[trigger] groups[i]).len() > 0
        && is_free_of(groups[i], ':') && is_hex(groups[i]) by {
        lemma_hexadecimal(group_at(octets, from + i));
    }
    if from < to {
        lemma_group_texts(octets, from, to - 1);
        let g = group_at(octets, to - 1);
        assert(groups.drop_last() =~= group_texts(octets, from, to - 1));
        assert(groups.last() == hexadecimal(g));
        lemma_hex_group(g);
        assert(g / 256 == octets[2 * to - 2] && g % 256 == octets[2 * to - 1]);
        assert(octets.subrange(2 * from, 2 * to - 2) + seq![octets[2 * to - 2], octets[2 * to - 1]]
            =~= octets.subrange(2 * from, 2 * to));
    } else {
        assert(octets.subrange(2 * from, 2 * to) =~= seq![]);
        assert(groups =~= seq![]);
    }
}

proof fn lemma_hex_is_no_ipv4(t: Seq<char>)
    requires
        is_free_of(t, '.'),
    ensures
        ipv4_octets(t) is None,
{
    lemma_one_field(t, '.');
}

proof fn lemma_groups_of_joined(octets: Seq<u8>, from: int, to: int)
    requires
        octets.len() == 16,
        0 <= from <= to <= 8,
    ensures
        groups_of(joined(group_texts(octets, from, to), ':')) == group_texts(octets, from, to),
        mixed_octets(group_texts(octets, from, to)) == group_octets(group_texts(octets, from, to)),
        is_free_of(joined(group_texts(octets, from, to), ':'), '.'),
{
    let groups = group_texts(octets, from, to);
    lemma_group_texts(octets, from, to);
    assert forall|i: int| 0 <= i < groups.len() implies is_free_of(#[trigger] groups[i], '.') by {
        assert(is_hex(groups[i]));
    }
    lemma_joined_is_free_of(groups, ':', '.');
    if from < to {
        lemma_fields_of_joined(groups, ':');
        assert(groups.last() == groups[groups.len() - 1]);
        lemma_hex_is_no_ipv4(groups.last());
    } else {
        assert(groups =~= seq![]);
    }
}

/// No two colons stand in a row in groups that are joined by colons, nor does one
/// stand at either end.
proof fn lemma_single_colons(parts: Seq<Seq<char>>)
    requires
        are_parts(parts, ':'),
    ensures
        forall|i: int| !double_colon_at(joined(parts, ':'), i),
        parts.len() > 0 ==> joined(parts, ':').len() > 0 && joined(parts, ':').last() != ':',
    decreases parts.len(),
{
    let t = joined(parts, ':');
    if parts.len() == 1 {
        assert(is_free_of(parts[0], ':'));
        assert(t.last() == parts[0][parts[0].len() - 1]);
    } else if parts.len() > 1 {
        let before = parts.drop_last();
        let last = parts[parts.len() - 1];
        assert forall|i: int| 0 <= i < before.len() implies (#[trigger] before[i]).len() > 0
            && is_free_of(before[i], ':') by {
            assert(before[i] == parts[i]);
        }
        lemma_single_colons(before);
        let h = joined(before, ':');
        assert(last.len() > 0 && is_free_of(last, ':'));
        assert(t == h.push(':') + last);
        assert(t.last() == last[last.len() - 1]);
        assert forall|i: int| !double_colon_at(t, i) by {
            if double_colon_at(t, i) {
                if i + 1 < h.len() {
                    assert(double_colon_at(h, i));
                } else if i + 1 == h.len() {
                    assert(t[i] == h.last());
                } else if i == h.len() {
                    assert(t[i + 1] == last[0]);
                } else {
                    assert(t[i] == last[i - h.len() - 1]);
                }
            }
        }
    }
}

proof fn lemma_first_double_colon(t: Seq<char>, from: nat, at: int)
    requires
        from <= at,
        double_colon_at(t, at),
        forall|i: int| from <= i < at ==> !double_colon_at(t, i),
    ensures
        double_colon(t, from) == Some(at as nat),
    decreases at - from,
{
    if from < at {
        assert(!double_colon_at(t, from as int));
        lemma_first_double_colon(t, from + 1, at);
    }
}

proof fn lemma_no_double_colon(t: Seq<char>, from: nat)
    requires
        forall|i: int| !double_colon_at(t, i),
    ensures
        double_colon(t, from) is None,
    decreases t.len() - from,
{
    if from + 1 < t.len() {
        assert(!double_colon_at(t, from as int));
        lemma_no_double_colon(t, from + 1);
    }
}

proof fn lemma_full_text(octets: Seq<u8>)
    requires
        octets.len() == 16,
    ensures
        ip_octets(joined(group_texts(octets, 0, 8), ':')) == Some(octets),
{
    let t = joined(group_texts(octets, 0, 8), ':');
    lemma_group_texts(octets, 0, 8);
    lemma_groups_of_joined(octets, 0, 8);
    lemma_single_colons(group_texts(octets, 0, 8));
    lemma_no_double_colon(t, 0);
    lemma_hex_is_no_ipv4(t);
    assert(octets.subrange(0, 16) =~= octets);
}

/// Whichever run of zero groups two colons stand for, the text is read back.
pub proof fn shortened_text_reads_back(octets: Seq<u8>, from: int, to: int)
    requires
        octets.len() == 16,
        0 <= from < to <= 8,
        forall|i: int| from <= i < to ==> #[trigger] group_at(octets, i) == 0,
    ensures
        ip_octets(shortened_text(octets, from, to)) == Some(octets),
{
    reveal_strlit("::");
    let head = joined(group_texts(octets, 0, from), ':');
    let tail = joined(group_texts(octets, to, 8), ':');
    let t = shortened_text(octets, from, to);
    lemma_group_texts(octets, 0, from);
    lemma_group_texts(octets, to, 8);
    lemma_groups_of_joined(octets, 0, from);
    lemma_groups_of_joined(octets, to, 8);
    lemma_single_colons(group_texts(octets, 0, from));
    let n = head.len() as int;
    assert(double_colon_at(t, n));
    assert forall|i: int| 0 <= i < n implies !double_colon_at(t, i) by {
        if double_colon_at(t, i) {
            if i + 1 < n {
                assert(double_colon_at(head, i));
            } else {
                assert(t[i] == head.last());
            }
        }
    }
    lemma_first_double_colon(t, 0, n);
    assert(t.take(n) =~= head);
    assert(t.skip(n + 2) =~= tail);
    assert(is_free_of(t, '.')) by {
        assert forall|i: int| 0 <= i < t.len() implies #[trigger] t[i] != '.' by {
            if i < n {
                assert(t[i] == head[i]);
            } else if i >= n + 2 {
                assert(t[i] == tail[i - n - 2]);
            }
        }
    }
    lemma_hex_is_no_ipv4(t);
    let zeros = Seq::new((2 * to - 2 * from) as nat, |k: int| 0u8);
    assert(octets.subrange(0, 2 * from) + zeros + octets.subrange(2 * to, 16) =~= octets) by {
        assert forall|i: int| 2 * from <= i < 2 * to implies #[trigger] octets[i] == 0 by {
            assert(group_at(octets, i / 2) == 0);
        }
    }
}

proof fn lemma_zero_run(octets: Seq<u8>, i: int)
    requires
        0 <= i <= 8,
    ensures
        0 <= zero_run(octets, i) <= 8 - i,
        forall|k: int|
            i <= k < i + zero_run(octets, i) ==> #[trigger] group_at(octets, k) == 0,
    decreases 8 - i,
{
    if i < 8 && group_at(octets, i) == 0 {
        lemma_zero_run(octets, i + 1);
    }
}

proof fn lemma_longest_run(octets: Seq<u8>, i: int)
    requires
        0 <= i <= 8,
    ensures
        i <= longest_run(octets, i).0,
        longest_run(octets, i).0 + longest_run(octets, i).1 <= 8,
        forall|k: int|
            longest_run(octets, i).0 <= k < longest_run(octets, i).0 + longest_run(octets, i).1
                ==> #[trigger] group_at(octets, k) == 0,
    decreases 8 - i,
{
    if i < 8 {
        lemma_longest_run(octets, i + 1);
        lemma_zero_run(octets, i);
    }
}

proof fn lemma_mapped_groups(octets: Seq<u8>)
    requires
        octets.len() == 16,
        is_ipv4_mapped(octets),
    ensures
        ipv6_octets("::"@ + ("ffff"@.push(':') + ipv4_text(octets.skip(12)))) == Some(octets),
{
    reveal_strlit("::");
    reveal_strlit("ffff");
    let last = octets.skip(12);
    let v4 = ipv4_text(last);
    let tail = "ffff"@.push(':') + v4;
    let t = "::"@ + tail;
    lemma_ipv4_text(last);
    assert(double_colon_at(t, 0));
    lemma_first_double_colon(t, 0, 0);
    assert(t.take(0) =~= seq![]);
    assert(t.skip(2) =~= tail);
    lemma_one_field("ffff"@, ':');
    lemma_next_field("ffff"@, v4, ':');
    let groups = seq!["ffff"@, v4];
    assert(fields(tail, ':') =~= groups);
    assert(groups.drop_last() =~= seq!["ffff"@]);
    lemma_ffff();
    assert(mixed_octets(groups) == Some(seq![0xffu8, 0xffu8] + last));
    let zeros = Seq::new(10, |k: int| 0u8);
    assert(Seq::<u8>::empty() + zeros + (seq![0xffu8, 0xffu8] + last) =~= octets);
}

proof fn lemma_ffff()
    ensures
        group_octets(seq!["ffff"@]) == Some(seq![0xffu8, 0xffu8]),
{
    reveal_strlit("ffff");
    assert(hex_group("ffff"@) == Some(0xffffnat)) by {
        reveal_with_fuel(numeral_value, 5);
        let f = "ffff"@;
        assert(f.drop_last().drop_last().drop_last().drop_last().len() == 0);
        assert(f.drop_last().last() == 'f');
        assert(f.drop_last().drop_last().last() == 'f');
        assert(f.drop_last().drop_last().drop_last().last() == 'f');
    }
    reveal_with_fuel(group_octets, 2);
    assert(seq!["ffff"@].drop_last() =~= seq![]);
    assert(Seq::<u8>::empty() + seq![0xffu8, 0xffu8] =~= seq![0xffu8, 0xffu8]);
}

proof fn lemma_mapped_is_no_ipv4(last: Seq<u8>)
    requires
        last.len() == 4,
    ensures
        ipv4_octets("::"@ + ("ffff"@.push(':') + ipv4_text(last))) is None,
{
    reveal_strlit("::");
    reveal_strlit("ffff");
    let t = "::"@ + ("ffff"@.push(':') + ipv4_text(last));
    let parts = last.map_values(|o: u8| decimal(o as nat));
    let lead = "::"@ + "ffff"@.push(':');
    let dotted = seq![lead + parts[0], parts[1], parts[2], parts[3]];
    assert forall|i: int| 0 <= i < 4 implies (#[trigger] dotted[i]).len() > 0 && is_free_of(
        dotted[i],
        '.',
    ) by {
        lemma_decimal(last[i] as nat);
        assert(parts[i] == decimal(last[i] as nat));
    }
    lemma_fields_of_joined(dotted, '.');
    lemma_joined_lead(lead, parts, '.');
    assert(dotted =~= parts.update(0, lead + parts[0]));
    assert(joined(dotted, '.') =~= t);
    assert(dotted[0].take(1) =~= seq![':']);
    assert(numeral_value(seq![':'], 10) is None);
    lemma_numeral_prefix(dotted[0], 10, 1);
    assert(decimal_octet(fields(t, '.')[0]) is None);
}

proof fn lemma_mapped_text(octets: Seq<u8>)
    requires
        octets.len() == 16,
        is_ipv4_mapped(octets),
    ensures
        ip_octets(ipv6_text(octets)) == Some(octets),
{
    lemma_mapped_groups(octets);
    lemma_mapped_is_no_ipv4(octets.skip(12));
}

proof fn lemma_joined_lead(lead: Seq<char>, parts: Seq<Seq<char>>, sep: char)
    requires
        parts.len() > 0,
    ensures
        joined(parts.update(0, lead + parts[0]), sep) == lead + joined(parts, sep),
    decreases parts.len(),
{
    let led = parts.update(0, lead + parts[0]);
    if parts.len() > 1 {
        lemma_joined_lead(lead, parts.drop_last(), sep);
        assert(led.drop_last() =~= parts.drop_last().update(0, lead + parts[0]));
        assert(joined(led, sep) =~= lead + joined(parts, sep));
    }
}

/// Every IP address has a text, the canonical one, that is read back as it.
pub proof fn ip_text_reads_back(octets: Seq<u8>)
    requires
        octets.len() == 4 || octets.len() == 16,
    ensures
        ip_octets(ip_text(octets)) == Some(octets),
{
    if octets.len() == 4 {
        lemma_ipv4_text(octets);
    } else if is_ipv4_mapped(octets) {
        lemma_mapped_text(octets);
    } else {
        let run = longest_run(octets, 0);
        lemma_longest_run(octets, 0);
        if run.1 > 1 {
            shortened_text_reads_back(octets, run.0, run.0 + run.1);
        } else {
            lemma_full_text(octets);
        }
    }
}

/// Whether a character can stand in the canonical text of an address.
pub open spec fn is_address_char(c: char) -> bool {
    '0' <= c <= '9' || 'a' <= c <= 'f' || c == '.' || c == ':'
}

/// Whether a text is made of such characters.
pub open spec fn has_address_chars(t: Seq<char>) -> bool {
    forall|i: int| 0 <= i < t.len() ==> is_address_char(#[trigger] t[i])
}

proof fn lemma_joined_address_chars(parts: Seq<Seq<char>>, sep: char)
    requires
        is_address_char(sep),
        forall|i: int| 0 <= i < parts.len() ==> has_address_chars(#[trigger] parts[i]),
    ensures
        has_address_chars(joined(parts, sep)),
    decreases parts.len(),
{
    if parts.len() == 1 {
        assert(has_address_chars(parts[0]));
    } else if parts.len() > 1 {
        let before = parts.drop_last();
        assert forall|i: int| 0 <= i < before.len() implies has_address_chars(
            #[trigger] before[i],
        ) by {
            assert(before[i] == parts[i]);
        }
        lemma_joined_address_chars(before, sep);
        assert(has_address_chars(parts[parts.len() - 1]));
    }
}

proof fn lemma_group_address_chars(octets: Seq<u8>, from: int, to: int)
    requires
        octets.len() == 16,
        0 <= from <= to <= 8,
    ensures
        has_address_chars(joined(group_texts(octets, from, to), ':')),
{
    let groups = group_texts(octets, from, to);
    lemma_group_texts(octets, from, to);
    assert forall|i: int| 0 <= i < groups.len() implies has_address_chars(#[trigger] groups[i]) by {
        assert(is_hex(groups[i]));
    }
    lemma_joined_address_chars(groups, ':');
}

/// The canonical text of an address is made of lower case hexadecimal digits,
/// dots and colons.
pub proof fn ip_text_has_address_chars(octets: Seq<u8>)
    requires
        octets.len() == 4 || octets.len() == 16,
    ensures
        ip_text(octets).len() > 0,
        has_address_chars(ip_text(octets)),
{
    reveal_strlit("::");
    reveal_strlit("ffff");
    let dotted = if octets.len() == 4 {
        octets
    } else {
        octets.skip(12)
    };
    let parts = dotted.map_values(|o: u8| decimal(o as nat));
    assert forall|i: int| 0 <= i < parts.len() implies has_address_chars(#[trigger] parts[i]) by {
        lemma_decimal(dotted[i] as nat);
    }
    lemma_joined_address_chars(parts, '.');
    lemma_ipv4_text(dotted);
    if octets.len() == 16 {
        let run = longest_run(octets, 0);
        lemma_longest_run(octets, 0);
        lemma_group_address_chars(octets, 0, 8);
        lemma_group_texts(octets, 0, 8);
        lemma_single_colons(group_texts(octets, 0, 8));
        if run.1 > 1 {
            lemma_group_address_chars(octets, 0, run.0);
            lemma_group_address_chars(octets, run.0 + run.1, 8);
        }
    }
}

/// To split joined lines at their line feeds gives all the lines back, in order,
/// where no line holds a line feed itself.
pub proof fn joined_lines_split_back(lines: Seq<Seq<char>>)
    requires
        lines.len() > 0,
        forall|i: int, j: int|
            0 <= i < lines.len() && 0 <= j < lines[i].len() ==> #[trigger] lines[i][j] != '\n',
    ensures
        fields(joined_lines(lines), '\n') == lines,
    decreases lines.len(),
{
    assert(is_free_of(lines[lines.len() - 1], '\n')) by {
        let last = lines[lines.len() - 1];
        assert forall|j: int| 0 <= j < last.len() implies #[trigger] last[j] != '\n' by {
            assert(lines[lines.len() - 1][j] != '\n');
        }
    }
    if lines.len() == 1 {
        lemma_one_field(lines[0], '\n');
        assert(lines =~= seq![lines[0]]);
    } else {
        let before = lines.drop_last();
        assert forall|i: int, j: int|
            0 <= i < before.len() && 0 <= j < before[i].len() implies #[trigger] before[i][j]
            != '\n' by {
            assert(lines[i][j] != '\n');
        }
        joined_lines_split_back(before);
        lemma_next_field(joined_lines(before), lines.last(), '\n');
        assert(before.push(lines.last()) =~= lines);
    }
}

/// The decimal numeral of a number is made of digits, has no leading zero, and
/// reads as that number.
pub proof fn decimal_reads_back(n: nat)
    ensures
        numeral_value(decimal(n), 10) == Some(n),
        decimal(n).len() > 0,
        decimal(n).len() > 1 ==> decimal(n)[0] != '0',
        forall|i: int| 0 <= i < decimal(n).len() ==> '0' <= #[trigger] decimal(n)[i] <= '9',
{
    lemma_decimal(n);
    if n == 0 {
        assert(decimal(0).len() == 1);
    }
}

proof fn lemma_numeral_is_decimal(t: Seq<char>, n: nat)
    requires
        t.len() > 0,
        numeral_value(t, 10) == Some(n),
        t.len() > 1 ==> t[0] != '0',
    ensures
        t == decimal(n),
        t.len() > 1 ==> n >= 10,
    decreases t.len(),
{
    let before = t.drop_last();
    let high = numeral_value(before, 10)->0;
    let d = digit_value(t.last())->0;
    assert(n == high * 10 + d);
    assert(t.last() == decimal_digit(d));
    if t.len() == 1 {
        assert(before.len() == 0);
        assert(high == 0);
        assert(t =~= seq![decimal_digit(n)]);
    } else {
        assert(before[0] == t[0]);
        lemma_numeral_is_decimal(before, high);
        assert(high >= 1) by {
            if high == 0 {
                assert(before == decimal(0));
                assert(before[0] == '0');
            }
        }
        assert(n / 10 == high && n % 10 == d);
        assert(before.push(t.last()) =~= t);
    }
}

proof fn lemma_joined_fields(t: Seq<char>, sep: char)
    ensures
        joined(fields(t, sep), sep) == t,
        fields(t, sep).len() > 0,
    decreases t.len(),
{
    if t.len() > 0 {
        let rest = t.drop_last();
        let before = fields(rest, sep);
        let all = fields(t, sep);
        lemma_joined_fields(rest, sep);
        assert(rest.push(t.last()) =~= t);
        if t.last() == sep {
            assert(all.drop_last() =~= before);
            assert(all.last() =~= seq![]);
            assert(joined(all, sep) =~= joined(before, sep).push(sep));
        } else if before.len() == 1 {
            assert(all.len() == 1);
            assert(all[0] == before[0].push(t.last()));
        } else {
            assert(all.drop_last() =~= before.drop_last());
            let head = joined(before.drop_last(), sep).push(sep);
            assert(joined(before, sep) == head + before.last());
            assert(all.last() == before.last().push(t.last()));
            assert(head + before.last().push(t.last()) =~= (head + before.last()).push(t.last()));
        }
    } else {
        assert(joined(fields(t, sep), sep) =~= t);
    }
}

/// An IPv4 address has one text and no other: what is read as its octets is its
/// dotted decimal text.
pub proof fn ipv4_address_has_one_text(t: Seq<char>)
    requires
        ipv4_octets(t) is Some,
    ensures
        t == ipv4_text(ipv4_octets(t)->0),
{
    let octets = ipv4_octets(t)->0;
    let parts = fields(t, '.');
    assert forall|i: int| 0 <= i < 4 implies #[trigger] parts[i] == decimal(octets[i] as nat) by {
        assert(decimal_octet(parts[i]) is Some);
        lemma_numeral_is_decimal(parts[i], decimal_octet(parts[i])->0);
    }
    assert(parts =~= octets.map_values(|o: u8| decimal(o as nat)));
    lemma_joined_fields(t, '.');
}

proof fn lemma_fields_are_free(t: Seq<char>, sep: char)
    ensures
        fields(t, sep).len() > 0,
        forall|i: int| 0 <= i < fields(t, sep).len() ==> is_free_of(#[trigger] fields(t, sep)[i], sep),
    decreases t.len(),
{
    if t.len() > 0 {
        let before = fields(t.drop_last(), sep);
        let all = fields(t, sep);
        lemma_fields_are_free(t.drop_last(), sep);
        assert forall|i: int| 0 <= i < all.len() implies is_free_of(#[trigger] all[i], sep) by {
            if t.last() == sep {
                if i < before.len() {
                    assert(all[i] == before[i]);
                }
            } else if i < before.len() - 1 {
                assert(all[i] == before[i]);
            } else {
                assert(is_free_of(before[before.len() - 1], sep));
            }
        }
    }
}

/// Whether a character can stand in the text of an address.
pub open spec fn is_ip_char(c: char) -> bool {
    '0' <= c <= '9' || 'a' <= c <= 'f' || 'A' <= c <= 'F' || c == '.' || c == ':'
}

/// Whether a text is made of such characters.
pub open spec fn has_ip_chars(t: Seq<char>) -> bool {
    forall|i: int| 0 <= i < t.len() ==> is_ip_char(#[trigger] t[i])
}

proof fn lemma_numeral_chars(t: Seq<char>, radix: nat)
    requires
        numeral_value(t, radix) is Some,
    ensures
        has_ip_chars(t),
    decreases t.len(),
{
    if t.len() > 0 {
        lemma_numeral_chars(t.drop_last(), radix);
        assert forall|i: int| 0 <= i < t.len() implies is_ip_char(#[trigger] t[i]) by {
            if i < t.len() - 1 {
                assert(t[i] == t.drop_last()[i]);
            }
        }
    }
}

proof fn lemma_joined_ip_chars(parts: Seq<Seq<char>>, sep: char)
    requires
        is_ip_char(sep),
        forall|i: int| 0 <= i < parts.len() ==> has_ip_chars(#[trigger] parts[i]),
    ensures
        has_ip_chars(joined(parts, sep)),
    decreases parts.len(),
{
    if parts.len() == 1 {
        assert(has_ip_chars(parts[0]));
    } else if parts.len() > 1 {
        let before = parts.drop_last();
        assert forall|i: int| 0 <= i < before.len() implies has_ip_chars(#[trigger] before[i]) by {
            assert(before[i] == parts[i]);
        }
        lemma_joined_ip_chars(before, sep);
        assert(has_ip_chars(parts[parts.len() - 1]));
    }
}

proof fn lemma_ipv4_chars(t: Seq<char>)
    requires
        ipv4_octets(t) is Some,
    ensures
        has_ip_chars(t),
        t.len() > 0,
        t.contains('.'),
{
    let parts = fields(t, '.');
    assert forall|i: int| 0 <= i < parts.len() implies has_ip_chars(#[trigger] parts[i]) by {
        assert(decimal_octet(parts[i]) is Some);
        lemma_numeral_chars(parts[i], 10);
    }
    lemma_joined_ip_chars(parts, '.');
    lemma_joined_fields(t, '.');
    if is_free_of(t, '.') {
        lemma_one_field(t, '.');
    }
    let at = choose|i: int| 0 <= i < t.len() && t[i] == '.';
    assert(t.contains(t[at]));
}

/// Whether a group is one to four hexadecimal digits.
pub open spec fn is_short_group(group: Seq<char>) -> bool {
    1 <= group.len() <= 4 && forall|i: int|
        0 <= i < group.len() ==> '0' <= #[trigger] group[i] <= '9' || 'a' <= group[i] <= 'f' || 'A'
            <= group[i] <= 'F'
}

proof fn lemma_short_group(group: Seq<char>)
    requires
        hex_group(group) is Some,
    ensures
        is_short_group(group),
        has_ip_chars(group),
{
    lemma_numeral_digits(group, 16);
    lemma_numeral_chars(group, 16);
}

proof fn lemma_numeral_digits(t: Seq<char>, radix: nat)
    requires
        numeral_value(t, radix) is Some,
    ensures
        forall|i: int| 0 <= i < t.len() ==> digit_value(#[trigger] t[i]) is Some,
    decreases t.len(),
{
    if t.len() > 0 {
        lemma_numeral_digits(t.drop_last(), radix);
        assert forall|i: int| 0 <= i < t.len() implies digit_value(#[trigger] t[i]) is Some by {
            if i < t.len() - 1 {
                assert(t[i] == t.drop_last()[i]);
            }
        }
    }
}

proof fn lemma_groups_are_short(groups: Seq<Seq<char>>)
    requires
        group_octets(groups) is Some,
    ensures
        group_octets(groups)->0.len() == 2 * groups.len(),
        forall|i: int| 0 <= i < groups.len() ==> is_short_group(#[trigger] groups[i]),
        forall|i: int|
            0 <= i < groups.len() ==> numeral_value(#[trigger] groups[i], 16) == Some(
                (group_octets(groups)->0[2 * i] * 256 + group_octets(groups)->0[2 * i + 1]) as nat,
            ),
    decreases groups.len(),
{
    if groups.len() > 0 {
        let before = groups.drop_last();
        let n = groups.len() - 1;
        lemma_groups_are_short(before);
        lemma_short_group(groups[n]);
        let all = group_octets(groups)->0;
        let g = hex_group(groups[n])->0;
        lemma_four_digits(groups[n]);
        assert(all == group_octets(before)->0 + seq![(g / 256) as u8, (g % 256) as u8]);
        assert forall|i: int| 0 <= i < groups.len() implies is_short_group(#[trigger] groups[i])
            && numeral_value(groups[i], 16) == Some((all[2 * i] * 256 + all[2 * i + 1]) as nat) by {
            if i < n {
                assert(groups[i] == before[i]);
            }
        }
    }
}

proof fn lemma_four_digits(t: Seq<char>)
    requires
        t.len() <= 4,
        numeral_value(t, 16) is Some,
    ensures
        numeral_value(t, 16)->0 < 0x1_0000,
{
    reveal_with_fuel(numeral_value, 5);
}

/// Whether every part of a text between colons is a short group, or, as the last,
/// a dotted decimal address.
pub open spec fn has_short_groups(groups: Seq<Seq<char>>) -> bool {
    forall|i: int|
        0 <= i < groups.len() ==> is_short_group(#[trigger] groups[i]) || (i == groups.len() - 1
            && ipv4_octets(groups[i]) is Some)
}

proof fn lemma_mixed_groups(t: Seq<char>)
    requires
        mixed_octets(groups_of(t)) is Some,
    ensures
        has_short_groups(groups_of(t)),
        has_ip_chars(t),
        forall|i: int| !double_colon_at(t, i),
        t.len() > 0 ==> t[0] != ':',
{
    let groups = groups_of(t);
    if t.len() > 0 {
        lemma_fields_are_free(t, ':');
        lemma_joined_fields(t, ':');
        let n = groups.len() - 1;
        let dotted = ipv4_octets(groups[n]) is Some;
        if dotted {
            lemma_ipv4_chars(groups[n]);
            lemma_groups_are_short(groups.drop_last());
        } else {
            lemma_groups_are_short(groups);
        }
        assert forall|i: int| 0 <= i < groups.len() implies (#[trigger] groups[i]).len() > 0
            && is_free_of(groups[i], ':') && has_ip_chars(groups[i]) && (is_short_group(groups[i])
            || (i == n && dotted)) by {
            if dotted {
                if i < n {
                    assert(groups.drop_last()[i] == groups[i]);
                    assert(is_short_group(groups[i]));
                }
            } else {
                assert(is_short_group(groups[i]));
            }
        }
        lemma_joined_ip_chars(groups, ':');
        lemma_single_colons(groups);
        lemma_joined_start(groups);
    }
}

proof fn lemma_joined_start(parts: Seq<Seq<char>>)
    requires
        parts.len() > 0,
        are_parts(parts, ':'),
    ensures
        joined(parts, ':').len() > 0,
        joined(parts, ':')[0] != ':',
    decreases parts.len(),
{
    if parts.len() == 1 {
        assert(is_free_of(parts[0], ':'));
    } else {
        let before = parts.drop_last();
        assert forall|i: int| 0 <= i < before.len() implies (#[trigger] before[i]).len() > 0
            && is_free_of(before[i], ':') by {
            assert(before[i] == parts[i]);
        }
        lemma_joined_start(before);
    }
}

/// An IPv6 address is made of hexadecimal digits, colons and dots; two colons in a
/// row stand at one place at most; and each part before, between and behind the
/// colons is one to four digits, or, as the last of all, a dotted decimal
/// address.
pub proof fn ipv6_address_has_short_groups(t: Seq<char>, i: int, j: int)
    requires
        ipv6_octets(t) is Some,
    ensures
        has_ip_chars(t),
        double_colon_at(t, i) && double_colon_at(t, j) ==> i == j,
        (forall|k: int| !double_colon_at(t, k)) ==> has_short_groups(fields(t, ':')),
        double_colon_at(t, i) ==> (i > 0 ==> has_short_groups(fields(t.take(i), ':'))
            && !t.take(i).contains('.')) && (i + 2 < t.len() ==> has_short_groups(
            fields(t.skip(i + 2), ':'),
        )),
{
    match double_colon(t, 0) {
        None => {
            lemma_mixed_groups(t);
            if t.len() == 0 {
                assert(group_octets(groups_of(t))->0.len() == 0);
            }
        },
        Some(at) => {
            let at = at as int;
            let head = t.take(at);
            let tail = t.skip(at + 2);
            lemma_double_colon_found(t, 0);
            lemma_mixed_groups(tail);
            lemma_head_groups(head);
            assert forall|k: int| double_colon_at(t, k) implies k == at by {
                if k < at {
                } else if k == at + 1 {
                    assert(t[k + 1] == tail[0]);
                } else if k > at + 1 {
                    assert(double_colon_at(tail, k - at - 2));
                }
            }
            assert forall|k: int| 0 <= k < t.len() implies is_ip_char(#[trigger] t[k]) by {
                if k < at {
                    assert(t[k] == head[k]);
                } else if k >= at + 2 {
                    assert(t[k] == tail[k - at - 2]);
                }
            }
            assert(double_colon_at(t, at));
        },
    }
}

proof fn lemma_head_groups(head: Seq<char>)
    requires
        group_octets(groups_of(head)) is Some,
    ensures
        has_short_groups(groups_of(head)),
        has_ip_chars(head),
        !head.contains('.'),
{
    let groups = groups_of(head);
    lemma_groups_are_short(groups);
    if head.len() > 0 {
        lemma_joined_fields(head, ':');
        assert forall|i: int| 0 <= i < groups.len() implies has_ip_chars(#[trigger] groups[i])
            && is_free_of(groups[i], '.') by {
            assert(is_short_group(groups[i]));
        }
        lemma_joined_ip_chars(groups, ':');
        lemma_joined_is_free_of(groups, ':', '.');
    }
}

proof fn lemma_double_colon_found(t: Seq<char>, from: nat)
    requires
        double_colon(t, from) is Some,
    ensures
        double_colon_at(t, double_colon(t, from)->0 as int),
        forall|i: int| from <= i < double_colon(t, from)->0 ==> !double_colon_at(t, i),
    decreases t.len() - from,
{
    if !double_colon_at(t, from as int) {
        lemma_double_colon_found(t, from + 1);
    }
}

/// An IPv6 address without two colons in a row and without a dot has eight groups,
/// and their numbers are its octets, two and two.
pub proof fn ipv6_groups_are_octets(t: Seq<char>, i: int)
    requires
        ipv6_octets(t) is Some,
        forall|k: int| !double_colon_at(t, k),
        !t.contains('.'),
        0 <= i < 8,
    ensures
        fields(t, ':').len() == 8,
        numeral_value(fields(t, ':')[i], 16) == Some(
            (ipv6_octets(t)->0[2 * i] * 256 + ipv6_octets(t)->0[2 * i + 1]) as nat,
        ),
{
    lemma_no_double_colon(t, 0);
    let groups = groups_of(t);
    if t.len() == 0 {
        assert(group_octets(groups)->0.len() == 0);
    }
    let last = groups[groups.len() - 1];
    lemma_joined_fields(t, ':');
    assert(ipv4_octets(last) is None) by {
        if ipv4_octets(last) is Some {
            lemma_ipv4_chars(last);
            let at = choose|k: int| 0 <= k < last.len() && last[k] == '.';
            assert(t[t.len() - last.len() + at] == last[at]) by {
                if groups.len() == 1 {
                    assert(joined(groups, ':') == groups[0]);
                }
            }
            assert(t.contains(t[t.len() - last.len() + at]));
        }
    }
    lemma_groups_are_short(groups);
}

/// A hexadecimal digit has its usual value, in either case, and no other
/// character has one.
pub proof fn digits_have_their_values(c: char)
    ensures
        '0' <= c <= '9' ==> digit_value(c) == Some((c as u32 - 48) as nat),
        'a' <= c <= 'f' ==> digit_value(c) == Some((c as u32 - 87) as nat),
        'A' <= c <= 'F' ==> digit_value(c) == Some((c as u32 - 55) as nat),
        !('0' <= c <= '9' || 'a' <= c <= 'f' || 'A' <= c <= 'F') ==> digit_value(c) is None,
{
}

/// In an IPv6 address with two colons in a row and without a dot, there are at
/// most seven groups. The numbers of those before the two colons are its first
/// octets, two and two; the numbers of those behind them are its last; and all
/// between them is zero.
pub proof fn ipv6_shortened_groups_are_octets(t: Seq<char>, at: int, k: int)
    requires
        ipv6_octets(t) is Some,
        double_colon_at(t, at),
        !t.contains('.'),
    ensures
        ({
            let head = groups_of(t.take(at));
            let tail = groups_of(t.skip(at + 2));
            let octets = ipv6_octets(t)->0;
            &&& octets.len() == 16
            &&& head.len() + tail.len() <= 7
            &&& 0 <= k < head.len() ==> numeral_value(head[k], 16) == Some(
                (octets[2 * k] * 256 + octets[2 * k + 1]) as nat,
            )
            &&& 0 <= k < tail.len() ==> numeral_value(tail[k], 16) == Some(
                (octets[16 - 2 * tail.len() + 2 * k] * 256 + octets[16 - 2 * tail.len() + 2 * k + 1])
                    as nat,
            )
            &&& 2 * head.len() <= k < 16 - 2 * tail.len() ==> octets[k] == 0
        }),
{
    ipv6_address_has_short_groups(t, at, at);
    lemma_double_colon_is_found(t, 0, at);
    lemma_double_colon_found(t, 0);
    let first = double_colon(t, 0)->0 as int;
    ipv6_address_has_short_groups(t, at, first);
    let head = groups_of(t.take(at));
    let rest = t.skip(at + 2);
    let tail = groups_of(rest);
    lemma_groups_are_short(head);
    lemma_no_dotted_group(rest);
    assert(!rest.contains('.')) by {
        if rest.contains('.') {
            let i = choose|i: int| 0 <= i < rest.len() && rest[i] == '.';
            assert(t.contains(t[at + 2 + i]));
        }
    }
    lemma_groups_are_short(tail);
    let h = group_octets(head)->0;
    let b = group_octets(tail)->0;
    let octets = ipv6_octets(t)->0;
    assert(h.len() == 2 * head.len());
    assert(b.len() == 2 * tail.len());
    if 0 <= k < tail.len() {
        assert(octets[16 - 2 * tail.len() + 2 * k] == b[2 * k]);
        assert(octets[16 - 2 * tail.len() + 2 * k + 1] == b[2 * k + 1]);
    }
}

proof fn lemma_double_colon_is_found(t: Seq<char>, from: nat, at: int)
    requires
        from <= at,
        double_colon_at(t, at),
    ensures
        double_colon(t, from) is Some,
    decreases at - from,
{
    if from < at && !double_colon_at(t, from as int) {
        lemma_double_colon_is_found(t, from + 1, at);
    }
}

proof fn lemma_no_dotted_group(t: Seq<char>)
    ensures
        !t.contains('.') ==> mixed_octets(groups_of(t)) == group_octets(groups_of(t)),
{
    let groups = groups_of(t);
    if t.len() > 0 && !t.contains('.') {
        lemma_joined_fields(t, ':');
        let last = groups[groups.len() - 1];
        if ipv4_octets(last) is Some {
            lemma_ipv4_chars(last);
            let at = choose|k: int| 0 <= k < last.len() && last[k] == '.';
            assert(t[t.len() - last.len() + at] == last[at]) by {
                if groups.len() == 1 {
                    assert(joined(groups, ':') == groups[0]);
                }
            }
            assert(t.contains(t[t.len() - last.len() + at]));
        }
    }
}

/// An IPv6 address that ends in a dotted decimal address behind a colon ends in
/// the octets of that address.
pub proof fn ipv6_ends_in_dotted_address(t: Seq<char>, dotted: Seq<char>, before: Seq<char>)
    requires
        ipv6_octets(t) is Some,
        ipv4_octets(dotted) is Some,
        before.len() > 0,
        t == before.push(':') + dotted,
    ensures
        ipv6_octets(t)->0.skip(12) == ipv4_octets(dotted)->0,
{
    let octets = ipv6_octets(t)->0;
    let v4 = ipv4_octets(dotted)->0;
    lemma_ipv4_chars(dotted);
    lemma_dotted_is_free_of_colons(dotted);
    match double_colon(t, 0) {
        None => {
            lemma_next_field(before, dotted, ':');
            assert(groups_of(t).last() == dotted);
            assert(octets.skip(12) =~= v4);
        },
        Some(at) => {
            lemma_double_colon_found(t, 0);
            let at = at as int;
            let rest = t.skip(at + 2);
            assert(at + 2 <= before.len() + 1) by {
                if at + 1 > before.len() {
                    assert(t[at + 1] == dotted[at + 1 - before.len() - 1]);
                }
            }
            if at + 2 <= before.len() {
                let middle = before.skip(at + 2);
                assert(rest =~= middle.push(':') + dotted);
                lemma_next_field(middle, dotted, ':');
            } else {
                assert(rest =~= dotted);
                lemma_one_field(dotted, ':');
            }
            assert(groups_of(rest).last() == dotted);
            assert(octets.skip(12) =~= v4);
        },
    }
}

proof fn lemma_dotted_is_free_of_colons(t: Seq<char>)
    requires
        ipv4_octets(t) is Some,
    ensures
        is_free_of(t, ':'),
{
    ipv4_address_has_one_text(t);
    lemma_ipv4_text(ipv4_octets(t)->0);
}

/// How many groups the parts stand for: one each, and one more where the last is
/// a dotted decimal address.
pub open spec fn group_count(parts: Seq<Seq<char>>) -> int {
    if parts.len() > 0 && ipv4_octets(parts.last()) is Some {
        parts.len() as int + 1
    } else {
        parts.len() as int
    }
}

proof fn lemma_short_group_has_number(group: Seq<char>)
    requires
        is_short_group(group),
    ensures
        hex_group(group) is Some,
        is_free_of(group, ':'),
        is_free_of(group, '.'),
{
    lemma_hex_numeral(group);
}

proof fn lemma_hex_numeral(t: Seq<char>)
    requires
        forall|i: int|
            0 <= i < t.len() ==> '0' <= #[trigger] t[i] <= '9' || 'a' <= t[i] <= 'f' || 'A' <= t[i]
                <= 'F',
    ensures
        numeral_value(t, 16) is Some,
    decreases t.len(),
{
    if t.len() > 0 {
        let before = t.drop_last();
        assert forall|i: int| 0 <= i < before.len() implies '0' <= #[trigger] before[i] <= '9' || 'a'
            <= before[i] <= 'f' || 'A' <= before[i] <= 'F' by {
            assert(before[i] == t[i]);
        }
        lemma_hex_numeral(before);
        assert(t.last() == t[t.len() - 1]);
    }
}

proof fn lemma_short_groups_have_octets(groups: Seq<Seq<char>>)
    requires
        forall|i: int| 0 <= i < groups.len() ==> is_short_group(#[trigger] groups[i]),
    ensures
        group_octets(groups) is Some,
        group_octets(groups)->0.len() == 2 * groups.len(),
    decreases groups.len(),
{
    if groups.len() > 0 {
        let before = groups.drop_last();
        assert forall|i: int| 0 <= i < before.len() implies is_short_group(#[trigger] before[i]) by {
            assert(before[i] == groups[i]);
        }
        lemma_short_groups_have_octets(before);
        lemma_short_group_has_number(groups[groups.len() - 1]);
    }
}

proof fn lemma_parts_have_octets(parts: Seq<Seq<char>>)
    requires
        has_short_groups(parts),
    ensures
        groups_of(joined(parts, ':')) == parts,
        mixed_octets(parts) is Some,
        mixed_octets(parts)->0.len() == 2 * group_count(parts),
        are_parts(parts, ':'),
{
    assert forall|i: int| 0 <= i < parts.len() implies (#[trigger] parts[i]).len() > 0 && is_free_of(
        parts[i],
        ':',
    ) by {
        if is_short_group(parts[i]) {
            lemma_short_group_has_number(parts[i]);
        } else {
            lemma_ipv4_chars(parts[i]);
            lemma_dotted_is_free_of_colons(parts[i]);
        }
    }
    if parts.len() > 0 {
        lemma_fields_of_joined(parts, ':');
        let last = parts[parts.len() - 1];
        if ipv4_octets(last) is Some {
            let before = parts.drop_last();
            assert forall|i: int| 0 <= i < before.len() implies is_short_group(
                #[trigger] before[i],
            ) by {
                assert(before[i] == parts[i]);
            }
            lemma_short_groups_have_octets(before);
        } else {
            lemma_short_groups_have_octets(parts);
        }
    } else {
        assert(parts =~= seq![]);
    }
}

/// Eight groups of one to four hexadecimal digits with colons between them are an
/// IPv6 address, whatever their case and their leading zeros; and a dotted decimal
/// address may stand for the last two.
pub proof fn eight_groups_are_an_address(parts: Seq<Seq<char>>)
    requires
        has_short_groups(parts),
        group_count(parts) == 8,
    ensures
        ipv6_octets(joined(parts, ':')) is Some,
{
    lemma_parts_have_octets(parts);
    lemma_single_colons(parts);
    lemma_no_double_colon(joined(parts, ':'), 0);
}

/// Up to seven groups of one to four hexadecimal digits with two colons in a row
/// before, among or behind them are an IPv6 address; and a dotted decimal address
/// may stand for the last two behind the two colons.
pub proof fn shortened_groups_are_an_address(head: Seq<Seq<char>>, tail: Seq<Seq<char>>)
    requires
        forall|i: int| 0 <= i < head.len() ==> is_short_group(#[trigger] head[i]),
        has_short_groups(tail),
        head.len() + group_count(tail) <= 7,
    ensures
        ipv6_octets(joined(head, ':') + "::"@ + joined(tail, ':')) is Some,
{
    reveal_strlit("::");
    let h = joined(head, ':');
    let b = joined(tail, ':');
    let t = h + "::"@ + b;
    assert(has_short_groups(head));
    lemma_parts_have_octets(head);
    lemma_parts_have_octets(tail);
    lemma_short_groups_have_octets(head);
    lemma_single_colons(head);
    let n = h.len() as int;
    assert(double_colon_at(t, n));
    assert forall|i: int| 0 <= i < n implies !double_colon_at(t, i) by {
        if double_colon_at(t, i) {
            if i + 1 < n {
                assert(double_colon_at(h, i));
            } else {
                assert(t[i] == h.last());
            }
        }
    }
    lemma_first_double_colon(t, 0, n);
    assert(t.take(n) =~= h);
    assert(t.skip(n + 2) =~= b);
}

} // verus!
