//! The textual forms of IP addresses, as `std::net::IpAddr` reads them.

use crate::text;
use vstd::prelude::*;
use vstd::slice::slice_subrange;

verus! {

/// A decimal octet: one to three digits, at most 255, without a leading zero.
pub open spec fn octet(s: Seq<char>) -> bool {
    &&& 1 <= s.len() <= 3
    &&& text::all_digits(s, 10)
    &&& text::digits_value(s, 10) <= 255
    &&& s.len() > 1 ==> s[0] != '0'
}

/// An IPv4 address: four octets with dots between them.
pub open spec fn ipv4(s: Seq<char>) -> bool {
    let parts = text::pieces(s, seq!['.']);
    &&& parts.len() == 4
    &&& forall|i: int| 0 <= i < parts.len() ==> octet(#[trigger] parts[i])
}

/// A group of an IPv6 address: one to four hexadecimal digits.
pub open spec fn group(s: Seq<char>) -> bool {
    &&& 1 <= s.len() <= 4
    &&& text::all_digits(s, 16)
}

/// Whether each of the first `n` parts is a group.
pub open spec fn groups(parts: Seq<Seq<char>>, n: int) -> bool {
    forall|i: int| 0 <= i < n ==> group(#[trigger] parts[i])
}

/// How many groups stand in one side of an IPv6 address. An IPv4 address may
/// stand at the end where `mixed`, and counts for two.
pub open spec fn side(s: Seq<char>, mixed: bool) -> Option<nat> {
    let parts = text::pieces(s, seq![':']);
    if s.len() == 0 {
        Some(0)
    } else if groups(parts, parts.len() as int) {
        Some(parts.len())
    } else if mixed && ipv4(parts.last()) && groups(parts, parts.len() - 1) {
        Some(parts.len() + 1)
    } else {
        None
    }
}

/// An IPv6 address: eight groups, or fewer with one `::` in place of at least
/// one group of zeros.
pub open spec fn ipv6(s: Seq<char>) -> bool {
    match text::first_of(s, seq![':', ':']) {
        None => side(s, true) == Some(8nat),
        Some(p) => match (side(s.take(p as int), false), side(s.skip(p as int + 2), true)) {
            (Some(head), Some(tail)) => head + tail <= 7,
            _ => false,
        },
    }
}

/// The text of an IP address of either version.
pub open spec fn ip_literal(s: Seq<char>) -> bool {
    ipv4(s) || ipv6(s)
}

fn is_octet(s: &[char]) -> (r: bool)
    ensures
        r == octet(s@),
{
    if s.len() < 1 || s.len() > 3 {
        return false;
    }
    if s[0] == '+' {
        proof {
            assert(text::digit_value(s@[0]) == 36);
        }
        return false;
    }
    if s.len() > 1 && s[0] == '0' {
        return false;
    }
    text::parse_number(s, 10, 255).is_some()
}

fn is_ipv4(s: &[char]) -> (r: bool)
    ensures
        r == ipv4(s@),
{
    let dot: [char; 1] = ['.'];
    proof {
        assert(dot@ =~= seq!['.']);
    }
    let parts = text::split(s, dot.as_slice());
    let ghost views = text::pieces(s@, seq!['.']);
    if parts.len() != 4 {
        return false;
    }
    let mut i: usize = 0;
    while i < parts.len()
        invariant
            0 <= i <= parts@.len(),
            views == text::pieces(s@, seq!['.']),
            views == text::slice_views(parts@),
            views.len() == 4,
            forall|j: int| 0 <= j < i ==> octet(#[trigger] views[j]),
        decreases parts@.len() - i,
    {
        proof {
            assert(views[i as int] == parts@[i as int]@);
        }
        if !is_octet(parts[i]) {
            return false;
        }
        i += 1;
    }
    true
}

fn is_group(s: &[char]) -> (r: bool)
    ensures
        r == group(s@),
{
    if s.len() < 1 || s.len() > 4 {
        return false;
    }
    let mut i: usize = 0;
    while i < s.len()
        invariant
            0 <= i <= s@.len(),
            1 <= s@.len() <= 4,
            forall|j: int| 0 <= j < i ==> text::digit_value(#[trigger] s@[j]) < 16,
        decreases s@.len() - i,
    {
        if text::digit_of(s[i]) >= 16 {
            return false;
        }
        i += 1;
    }
    true
}

fn are_groups(parts: &Vec<&[char]>, n: usize) -> (r: bool)
    requires
        n <= parts@.len(),
    ensures
        r == groups(text::slice_views(parts@), n as int),
{
    let ghost views = text::slice_views(parts@);
    let mut i: usize = 0;
    while i < n
        invariant
            0 <= i <= n <= parts@.len(),
            views == text::slice_views(parts@),
            forall|j: int| 0 <= j < i ==> group(#[trigger] views[j]),
        decreases n - i,
    {
        proof {
            assert(views[i as int] == parts@[i as int]@);
        }
        if !is_group(parts[i]) {
            return false;
        }
        i += 1;
    }
    true
}

fn side_size(s: &[char], mixed: bool) -> (r: Option<u128>)
    ensures
        match r {
            Some(n) => side(s@, mixed) == Some(n as nat),
            None => side(s@, mixed) is None,
        },
        r matches Some(n) ==> n <= 0x1_0000_0000_0000_0000,
{
    if s.len() == 0 {
        return Some(0);
    }
    let colon: [char; 1] = [':'];
    proof {
        assert(colon@ =~= seq![':']);
    }
    let parts = text::split(s, colon.as_slice());
    let ghost views = text::pieces(s@, seq![':']);
    let count: usize = parts.len();
    if are_groups(&parts, count) {
        return Some(count as u128);
    }
    proof {
        assert(views.last() == parts@[count - 1]@);
    }
    if mixed && is_ipv4(parts[count - 1]) && are_groups(&parts, count - 1) {
        return Some(count as u128 + 1);
    }
    None
}

fn is_ipv6(s: &[char]) -> (r: bool)
    ensures
        r == ipv6(s@),
{
    let gap: [char; 2] = [':', ':'];
    proof {
        assert(gap@ =~= seq![':', ':']);
    }
    let end: usize = s.len();
    match text::find(s, gap.as_slice()) {
        None => match side_size(s, true) {
            Some(n) => n == 8,
            None => false,
        },
        Some(p) => {
            let head = slice_subrange(s, 0, p);
            let tail = slice_subrange(s, p + 2, end);
            proof {
                assert(head@ =~= s@.take(p as int));
                assert(tail@ =~= s@.skip(p as int + 2));
            }
            match (side_size(head, false), side_size(tail, true)) {
                (Some(a), Some(b)) => a + b <= 7,
                _ => false,
            }
        },
    }
}

/// Whether a host is written as an IP address rather than as a name.
pub fn is_ip_literal(host: &str) -> (r: bool)
    ensures
        r == ip_literal(host@),
{
    let chars = text::to_chars(host);
    is_ipv4(chars.as_slice()) || is_ipv6(chars.as_slice())
}

/// A number of up to three digits, with no zero in front but its own.
proof fn lemma_small_decimal(n: nat)
    requires
        n <= 255,
    ensures
        octet(text::decimal(n)),
        !text::decimal(n).contains('.'),
{
    let s = text::decimal(n);
    text::lemma_spelled(n, 10);
    reveal_with_fuel(text::spelled, 4);
    assert(s.len() <= 3);
    if s.contains('.') {
        let i = choose|i: int| 0 <= i < s.len() && s[i] == '.';
        assert(text::digit_value(s[i]) < 10);
    }
}

/// Four octets with dots between them are an address.
pub proof fn law_dotted_quads_are_addresses(octets: Seq<u8>)
    requires
        octets.len() == 4,
    ensures
        ip_literal(
            text::joined(Seq::new(4, |i: int| text::decimal(octets[i] as nat)), seq!['.']),
        ),
{
    let parts = Seq::new(4, |i: int| text::decimal(octets[i] as nat));
    assert forall|i: int| 0 <= i < parts.len() implies octet(#[trigger] parts[i])
        && !parts[i].contains('.') by {
        lemma_small_decimal(octets[i] as nat);
    }
    text::law_split_undoes_join(parts, '.');
}

/// A number of sixteen bits is one to four hexadecimal digits.
proof fn lemma_small_hex(n: nat)
    requires
        n <= 0xffff,
    ensures
        group(text::spelled(n, 16)),
        !text::spelled(n, 16).contains(':'),
{
    let s = text::spelled(n, 16);
    text::lemma_spelled(n, 16);
    reveal_with_fuel(text::spelled, 5);
    assert(s.len() <= 4);
    if s.contains(':') {
        let i = choose|i: int| 0 <= i < s.len() && s[i] == ':';
        assert(text::digit_value(s[i]) < 16);
    }
}

/// Eight groups with colons between them are an address.
pub proof fn law_eight_groups_are_an_address(values: Seq<u16>)
    requires
        values.len() == 8,
    ensures
        ip_literal(
            text::joined(Seq::new(8, |i: int| text::spelled(values[i] as nat, 16)), seq![':']),
        ),
{
    let parts = Seq::new(8, |i: int| text::spelled(values[i] as nat, 16));
    let s = text::joined(parts, seq![':']);
    assert forall|i: int| 0 <= i < parts.len() implies group(#[trigger] parts[i])
        && !parts[i].contains(':') by {
        lemma_small_hex(values[i] as nat);
    }
    text::law_split_undoes_join(parts, ':');
    text::lemma_no_double(parts, ':');
    text::law_first_from(s, seq![':', ':'], 0);
    assert(groups(parts, 8));
}

/// A name with a character that is no hexadecimal digit, dot or colon is no
/// address.
pub proof fn law_names_are_no_addresses(s: Seq<char>, i: int)
    requires
        0 <= i < s.len(),
        text::digit_value(s[i]) >= 16,
        s[i] != '.',
        s[i] != ':',
    ensures
        !ip_literal(s),
{
    if ipv4(s) {
        lemma_in_some_piece(s, '.', i);
    }
    if ipv6(s) {
        text::law_first_from(s, seq![':', ':'], 0);
        match text::first_of(s, seq![':', ':']) {
            None => {
                lemma_side(s, true, i);
            },
            Some(p) => {
                let head = s.take(p as int);
                let tail = s.skip(p as int + 2);
                if i < p {
                    assert(head[i] == s[i]);
                    lemma_side(head, false, i);
                } else if i >= p + 2 {
                    assert(tail[i - p - 2] == s[i]);
                    lemma_side(tail, true, i - p - 2);
                } else {
                    assert(s.subrange(p as int, p as int + 2)[i - p] == s[i]);
                }
            },
        }
    }
}

/// A character that is not the separator stands in some piece.
proof fn lemma_in_some_piece(s: Seq<char>, c: char, i: int)
    requires
        0 <= i < s.len(),
        s[i] != c,
    ensures
        exists|j: int, k: int|
            #![trigger text::pieces(s, seq![c])[j][k]]
            0 <= j < text::pieces(s, seq![c]).len() && 0 <= k < text::pieces(s, seq![c])[j].len()
                && text::pieces(s, seq![c])[j][k] == s[i],
    decreases s.len(),
{
    let parts = text::pieces(s, seq![c]);
    text::law_first_from(s, seq![c], 0);
    match text::first_of(s, seq![c]) {
        None => {
            assert(parts[0][i] == s[i]);
        },
        Some(p) => {
            let rest = s.skip(p as int + 1);
            if i < p {
                assert(parts[0][i] == s[i]);
            } else if i == p {
                assert(s.subrange(p as int, p as int + 1)[0] == s[i]);
            } else {
                assert(rest[i - p - 1] == s[i]);
                lemma_in_some_piece(rest, c, i - p - 1);
                let more = text::pieces(rest, seq![c]);
                let (j, k) = choose|j: int, k: int|
                    #![trigger more[j][k]]
                    0 <= j < more.len() && 0 <= k < more[j].len() && more[j][k] == rest[i - p - 1];
                assert(parts[j + 1] == more[j]);
                assert(parts[j + 1][k] == s[i]);
            }
        },
    }
}

proof fn lemma_side(s: Seq<char>, mixed: bool, i: int)
    requires
        0 <= i < s.len(),
        text::digit_value(s[i]) >= 16,
        s[i] != '.',
        s[i] != ':',
    ensures
        side(s, mixed) is None,
{
    let parts = text::pieces(s, seq![':']);
    lemma_in_some_piece(s, ':', i);
    let (j, k) = choose|j: int, k: int|
        #![trigger parts[j][k]]
        0 <= j < parts.len() && 0 <= k < parts[j].len() && parts[j][k] == s[i];
    let part = parts[j];
    assert(text::digit_value(part[k]) >= 16);
    assert(!group(part));
    if groups(parts, parts.len() as int) {
        assert(group(parts[j]));
    }
    if ipv4(parts.last()) && groups(parts, parts.len() - 1) {
        if j < parts.len() - 1 {
            assert(group(parts[j]));
        } else {
            lemma_in_some_piece(part, '.', k);
        }
    }
}

/// Digits without a zero in front spell the number that they stand for.
proof fn lemma_decimal_of_digits(s: Seq<char>)
    requires
        s.len() > 0,
        text::all_digits(s, 10),
        s.len() > 1 ==> s[0] != '0',
    ensures
        text::decimal(text::digits_value(s, 10)) == s,
        s[0] != '0' ==> text::digits_value(s, 10) > 0,
    decreases s.len(),
{
    let fewer = s.drop_last();
    let c = s.last();
    let d = text::digit_value(c);
    assert(text::digit_value(s[s.len() - 1]) < 10);
    text::law_digit_values(c);
    text::law_digits_are_a_number(fewer, c, 10);
    assert(fewer.push(c) =~= s);
    assert((48 + d) as u32 as char == c);
    if s.len() == 1 {
        text::law_digits_are_a_number(fewer, c, 10);
        assert(fewer =~= Seq::<char>::empty());
        text::law_decimal_digits(0, d);
        assert(text::decimal(d) =~= s);
    } else {
        assert forall|i: int| 0 <= i < fewer.len() implies text::digit_value(
            #[trigger] fewer[i],
        ) < 10 by {
            assert(fewer[i] == s[i]);
        }
        lemma_decimal_of_digits(fewer);
        text::law_decimal_digits(text::digits_value(fewer, 10), d);
    }
}

/// An octet is a number up to 255 in decimal digits, and nothing else is.
pub proof fn law_octets_are_small_numbers(s: Seq<char>)
    ensures
        octet(s) <==> exists|n: nat| n <= 255 && s == #[trigger] text::decimal(n),
{
    if octet(s) {
        lemma_decimal_of_digits(s);
        assert(s == text::decimal(text::digits_value(s, 10)));
    }
    if exists|n: nat| n <= 255 && s == #[trigger] text::decimal(n) {
        let n = choose|n: nat| n <= 255 && s == #[trigger] text::decimal(n);
        lemma_small_decimal(n);
    }
}

/// Four numbers in decimal digits, with dots between them.
pub open spec fn dotted(a: nat, b: nat, c: nat, d: nat) -> Seq<char> {
    text::decimal(a) + "."@ + text::decimal(b) + "."@ + text::decimal(c) + "."@ + text::decimal(d)
}

proof fn lemma_four_joined(parts: Seq<Seq<char>>)
    requires
        parts.len() == 4,
    ensures
        text::joined(parts, seq!['.']) == parts[0] + "."@ + parts[1] + "."@ + parts[2] + "."@
            + parts[3],
{
    reveal_strlit(".");
    assert("."@ =~= seq!['.']);
    let three = parts.take(3);
    let two = parts.take(2);
    let one = parts.take(1);
    text::law_joining(three, parts[3], seq!['.']);
    text::law_joining(two, parts[2], seq!['.']);
    text::law_joining(one, parts[1], seq!['.']);
    text::law_joining(one, parts[0], seq!['.']);
    assert(three.push(parts[3]) =~= parts);
    assert(two.push(parts[2]) =~= three);
    assert(one.push(parts[1]) =~= two);
    assert(one =~= seq![parts[0]]);
}

/// An IPv4 address is four numbers up to 255 in decimal digits, with dots between
/// them, and nothing else is.
pub proof fn law_version_4_is_dotted_numbers(s: Seq<char>)
    ensures
        ipv4(s) <==> exists|a: nat, b: nat, c: nat, d: nat|
            a <= 255 && b <= 255 && c <= 255 && d <= 255 && s == #[trigger] dotted(a, b, c, d),
{
    let parts = text::pieces(s, seq!['.']);
    if ipv4(s) {
        text::law_join_undoes_split(s, seq!['.']);
        lemma_four_joined(parts);
        assert(octet(parts[0]) && octet(parts[1]) && octet(parts[2]) && octet(parts[3]));
        law_octets_are_small_numbers(parts[0]);
        law_octets_are_small_numbers(parts[1]);
        law_octets_are_small_numbers(parts[2]);
        law_octets_are_small_numbers(parts[3]);
        let a = choose|n: nat| n <= 255 && parts[0] == #[trigger] text::decimal(n);
        let b = choose|n: nat| n <= 255 && parts[1] == #[trigger] text::decimal(n);
        let c = choose|n: nat| n <= 255 && parts[2] == #[trigger] text::decimal(n);
        let d = choose|n: nat| n <= 255 && parts[3] == #[trigger] text::decimal(n);
        assert(s == dotted(a, b, c, d));
    }
    if exists|a: nat, b: nat, c: nat, d: nat|
        a <= 255 && b <= 255 && c <= 255 && d <= 255 && s == #[trigger] dotted(a, b, c, d) {
        let (a, b, c, d) = choose|a: nat, b: nat, c: nat, d: nat|
            a <= 255 && b <= 255 && c <= 255 && d <= 255 && s == #[trigger] dotted(a, b, c, d);
        let quad = seq![text::decimal(a), text::decimal(b), text::decimal(c), text::decimal(d)];
        lemma_small_decimal(a);
        lemma_small_decimal(b);
        lemma_small_decimal(c);
        lemma_small_decimal(d);
        lemma_four_joined(quad);
        text::law_split_undoes_join(quad, '.');
        assert(parts == quad);
    }
}

/// A group is one to four of the digits 0 to 9 and the letters a to f, in either case.
pub proof fn law_groups_are_hexadecimal(s: Seq<char>)
    ensures
        group(s) <==> {
            &&& 1 <= s.len() <= 4
            &&& forall|i: int|
                0 <= i < s.len() ==> {
                    let n = (#[trigger] s[i]) as u32;
                    48 <= n <= 57 || 65 <= n <= 70 || 97 <= n <= 102
                }
        },
{
    assert forall|i: int| 0 <= i < s.len() implies (text::digit_value(#[trigger] s[i]) < 16 <==> {
        let n = s[i] as u32;
        48 <= n <= 57 || 65 <= n <= 70 || 97 <= n <= 102
    }) by {
        text::law_digit_values(s[i]);
    }
}

/// A side of an IPv6 address counts its groups; an IPv4 address at its end counts for
/// two where one may stand there, and anything else makes it no side.
pub proof fn law_sides_count_their_groups(parts: Seq<Seq<char>>, last: Seq<char>, mixed: bool)
    requires
        forall|i: int| 0 <= i < parts.len() ==> !(#[trigger] parts[i]).contains(':'),
        !last.contains(':'),
        parts.push(last) != seq![Seq::<char>::empty()],
    ensures
        side(seq![], mixed) == Some(0nat),
        ({
            let s = text::joined(parts.push(last), seq![':']);
            let before = forall|i: int| 0 <= i < parts.len() ==> group(#[trigger] parts[i]);
            &&& before && group(last) ==> side(s, mixed) == Some(parts.len() + 1)
            &&& before && mixed && ipv4(last) ==> side(s, mixed) == Some(parts.len() + 2)
            &&& !before ==> side(s, mixed) is None
            &&& !group(last) && !(mixed && ipv4(last)) ==> side(s, mixed) is None
        }),
{
    let all = parts.push(last);
    let s = text::joined(all, seq![':']);
    assert forall|i: int| 0 <= i < all.len() implies !(#[trigger] all[i]).contains(':') by {
        if i < parts.len() {
            assert(all[i] == parts[i]);
        }
    }
    text::law_split_undoes_join(all, ':');
    text::law_joining(parts, last, seq![':']);
    if parts.len() == 0 {
        assert(all =~= seq![last]);
        if last.len() == 0 {
            assert(last =~= Seq::<char>::empty());
            assert(false);
        }
    }
    assert(s.len() > 0);
    assert(all[parts.len() as int] == last);
    let before = forall|i: int| 0 <= i < parts.len() ==> group(#[trigger] parts[i]);
    if before {
        assert forall|i: int| 0 <= i < all.len() - 1 implies group(#[trigger] all[i]) by {
            assert(all[i] == parts[i]);
        }
        if ipv4(last) {
            lemma_quads_are_no_groups(last);
        }
    } else {
        let i = choose|i: int| 0 <= i < parts.len() && !group(#[trigger] parts[i]);
        assert(!group(all[i]));
    }
}

proof fn lemma_quads_are_no_groups(s: Seq<char>)
    requires
        ipv4(s),
    ensures
        !group(s),
{
    let parts = text::pieces(s, seq!['.']);
    text::law_join_undoes_split(s, seq!['.']);
    lemma_four_joined(parts);
    reveal_strlit(".");
    assert(octet(parts[0]));
    assert(s[parts[0].len() as int] == '.');
    assert(text::digit_value('.') == 36);
}

/// An IPv6 address without `::` has eight groups; one with it has at most seven on
/// both sides of the first one together.
pub proof fn law_version_6_has_eight_groups(s: Seq<char>, head: Seq<char>, tail: Seq<char>)
    requires
        !text::holds(s, "::"@),
        !text::holds(head + ":"@, "::"@),
    ensures
        ipv6(s) <==> side(s, true) == Some(8nat),
        ipv6(head + "::"@ + tail) <==> {
            &&& side(head, false) is Some
            &&& side(tail, true) is Some
            &&& side(head, false)->0 + side(tail, true)->0 <= 7
        },
{
    reveal_strlit("::");
    reveal_strlit(":");
    let gap = seq![':', ':'];
    assert("::"@ =~= gap);
    assert(":"@ =~= seq![':']);
    text::law_first_from(s, gap, 0);
    if text::first_of(s, gap) is Some {
        assert(text::occurs_at(s, "::"@, text::first_of(s, gap)->0 as int));
    }
    let t = head + "::"@ + tail;
    let start = head + ":"@;
    assert(text::occurs_at(t, gap, head.len() as int)) by {
        assert(t.subrange(head.len() as int, head.len() as int + 2) =~= gap);
    }
    assert forall|j: int| 0 <= j < head.len() implies !text::occurs_at(t, gap, j) by {
        assert(t.subrange(j, j + 2) =~= start.subrange(j, j + 2));
        assert(!text::occurs_at(start, "::"@, j));
    }
    text::lemma_first_is(t, gap, head.len());
    assert(t.take(head.len() as int) =~= head);
    assert(t.skip(head.len() as int + 2) =~= tail);
}

/// An IP address is one of either version.
pub proof fn law_either_version_is_an_address(s: Seq<char>)
    ensures
        ip_literal(s) <==> ipv4(s) || ipv6(s),
{
}

} // verus!
