//! Text as sequences of characters: trimming, splitting, searching and number
//! conversion, with the meaning that the standard library gives them.

use vstd::prelude::*;
use vstd::slice::slice_subrange;

verus! {

/// `String::push` puts one character at the end.
pub assume_specification[ String::push ](s: &mut String, c: char)
    ensures
        final(s)@ == old(s)@.push(c),
;

/// Whether `c` has the Unicode `White_Space` property.
pub open spec fn white(c: char) -> bool {
    ||| '\u{9}' <= c <= '\u{d}'
    ||| c == '\u{20}'
    ||| c == '\u{85}'
    ||| c == '\u{a0}'
    ||| c == '\u{1680}'
    ||| '\u{2000}' <= c <= '\u{200a}'
    ||| c == '\u{2028}'
    ||| c == '\u{2029}'
    ||| c == '\u{202f}'
    ||| c == '\u{205f}'
    ||| c == '\u{3000}'
}

/// `s` without the white space it starts with.
pub open spec fn trimmed_start(s: Seq<char>) -> Seq<char>
    decreases s.len(),
{
    if s.len() > 0 && white(s[0]) {
        trimmed_start(s.skip(1))
    } else {
        s
    }
}

/// `s` without the white space it ends with.
pub open spec fn trimmed_end(s: Seq<char>) -> Seq<char>
    decreases s.len(),
{
    if s.len() > 0 && white(s.last()) {
        trimmed_end(s.drop_last())
    } else {
        s
    }
}

/// `s` without the white space around it.
pub open spec fn trimmed(s: Seq<char>) -> Seq<char> {
    trimmed_end(trimmed_start(s))
}

/// `s` without the copies of `c` it starts with.
pub open spec fn stripped_start(s: Seq<char>, c: char) -> Seq<char>
    decreases s.len(),
{
    if s.len() > 0 && s[0] == c {
        stripped_start(s.skip(1), c)
    } else {
        s
    }
}

/// `s` without the copies of `c` it ends with.
pub open spec fn stripped_end(s: Seq<char>, c: char) -> Seq<char>
    decreases s.len(),
{
    if s.len() > 0 && s.last() == c {
        stripped_end(s.drop_last(), c)
    } else {
        s
    }
}

/// `s` without the copies of `c` around it.
pub open spec fn stripped(s: Seq<char>, c: char) -> Seq<char> {
    stripped_end(stripped_start(s, c), c)
}

/// The ASCII lower-case form of `c`; any other character is itself.
pub open spec fn lower(c: char) -> char {
    if 'A' <= c <= 'Z' {
        (c as u32 + 32) as u32 as char
    } else {
        c
    }
}

/// Whether two texts differ at most in the case of ASCII letters.
pub open spec fn alike(a: Seq<char>, b: Seq<char>) -> bool {
    &&& a.len() == b.len()
    &&& forall|i: int| 0 <= i < a.len() ==> lower(#[trigger] a[i]) == lower(b[i])
}

/// Whether `needle` stands at position `i` of `hay`.
pub open spec fn occurs_at<T>(hay: Seq<T>, needle: Seq<T>, i: int) -> bool {
    &&& 0 <= i
    &&& i + needle.len() <= hay.len()
    &&& hay.subrange(i, i + needle.len() as int) == needle
}

/// The first position from `from` on at which `needle` stands.
pub open spec fn first_from<T>(hay: Seq<T>, needle: Seq<T>, from: nat) -> Option<nat>
    decreases hay.len() + 1 - from,
{
    if from + needle.len() > hay.len() {
        None
    } else if occurs_at(hay, needle, from as int) {
        Some(from)
    } else {
        first_from(hay, needle, from + 1)
    }
}

/// The first position at which `needle` stands in `hay`.
pub open spec fn first_of<T>(hay: Seq<T>, needle: Seq<T>) -> Option<nat> {
    first_from(hay, needle, 0)
}

/// Whether `needle` stands anywhere in `hay`.
pub open spec fn holds<T>(hay: Seq<T>, needle: Seq<T>) -> bool {
    exists|i: int| occurs_at(hay, needle, i)
}

/// Whether `s` begins with `prefix`.
pub open spec fn begins<T>(s: Seq<T>, prefix: Seq<T>) -> bool {
    occurs_at(s, prefix, 0)
}

/// The pieces of `s` between the copies of `sep`, of which there is one more
/// than of `sep`.
pub open spec fn pieces(s: Seq<char>, sep: Seq<char>) -> Seq<Seq<char>>
    decreases s.len(),
{
    match first_of(s, sep) {
        Some(i) => if sep.len() == 0 {
            seq![s]
        } else {
            proof {
                law_first_from(s, sep, 0);
            }
            seq![s.take(i as int)] + pieces(s.skip((i + sep.len()) as int), sep)
        },
        None => seq![s],
    }
}

/// What stands before and after the first `c`.
pub open spec fn around_first(s: Seq<char>, c: char) -> Option<(Seq<char>, Seq<char>)> {
    match first_of(s, seq![c]) {
        Some(i) => Some((s.take(i as int), s.skip(i as int + 1))),
        None => None,
    }
}

/// The last position at which `c` stands.
pub open spec fn last_position(s: Seq<char>, c: char) -> Option<nat>
    decreases s.len(),
{
    if s.len() == 0 {
        None
    } else if s.last() == c {
        Some((s.len() - 1) as nat)
    } else {
        last_position(s.drop_last(), c)
    }
}

/// What stands before and after the last `c`.
pub open spec fn around_last(s: Seq<char>, c: char) -> Option<(Seq<char>, Seq<char>)> {
    match last_position(s, c) {
        Some(i) => Some((s.take(i as int), s.skip(i as int + 1))),
        None => None,
    }
}

/// How many characters `s` has before its first white space.
pub open spec fn word_len(s: Seq<char>) -> nat
    decreases s.len(),
{
    if s.len() == 0 || white(s[0]) {
        0
    } else {
        1 + word_len(s.skip(1))
    }
}

/// The maximal runs of characters that are not white space, in order.
pub open spec fn words(s: Seq<char>) -> Seq<Seq<char>>
    decreases s.len(),
    via words_shrink
{
    let t = trimmed_start(s);
    if t.len() == 0 {
        seq![]
    } else {
        seq![t.take(word_len(t) as int)] + words(t.skip(word_len(t) as int))
    }
}

#[via_fn]
proof fn words_shrink(s: Seq<char>) {
    lemma_trimmed_start(s);
    lemma_word_len(trimmed_start(s));
}

/// The value of `c` as a digit, in either case.
pub open spec fn digit_value(c: char) -> nat {
    if '0' <= c <= '9' {
        (c as u32 - 48) as nat
    } else if 'a' <= c <= 'z' {
        (c as u32 - 87) as nat
    } else if 'A' <= c <= 'Z' {
        (c as u32 - 55) as nat
    } else {
        36
    }
}

/// Whether every character is a digit of the given base.
pub open spec fn all_digits(s: Seq<char>, base: nat) -> bool {
    forall|i: int| 0 <= i < s.len() ==> digit_value(#[trigger] s[i]) < base
}

/// The number that digits of the given base stand for.
pub open spec fn digits_value(s: Seq<char>, base: nat) -> nat
    decreases s.len(),
{
    if s.len() == 0 {
        0
    } else {
        digits_value(s.drop_last(), base) * base + digit_value(s.last())
    }
}

/// The digits of a number text: all but one leading plus sign.
pub open spec fn unsigned_part(s: Seq<char>) -> Seq<char> {
    if s.len() > 0 && s[0] == '+' {
        s.skip(1)
    } else {
        s
    }
}

/// The unsigned number that `s` spells in the given base, where it spells one
/// and that number is at most `max`.
pub open spec fn number(s: Seq<char>, base: nat, max: nat) -> Option<nat> {
    let digits = unsigned_part(s);
    if digits.len() > 0 && all_digits(digits, base) && digits_value(digits, base) <= max {
        Some(digits_value(digits, base))
    } else {
        None
    }
}

/// The digit of the given value, in lower case.
pub open spec fn digit_char(d: nat) -> char {
    if d < 10 {
        (48 + d) as u32 as char
    } else {
        (87 + d) as u32 as char
    }
}

/// The digits of `n` in the given base, without leading zeros.
pub open spec fn spelled(n: nat, base: nat) -> Seq<char>
    decreases n,
{
    if base < 2 || n < base {
        seq![digit_char(n)]
    } else {
        proof {
            assert(n / base < n) by (nonlinear_arith)
                requires
                    2 <= base <= n,
            ;
        }
        spelled(n / base, base).push(digit_char(n % base))
    }
}

/// The decimal digits of `n`.
pub open spec fn decimal(n: nat) -> Seq<char> {
    spelled(n, 10)
}

/// The decimal digits of `n`, after a minus sign where it is negative.
pub open spec fn signed_decimal(n: int) -> Seq<char> {
    if n < 0 {
        seq!['-'] + decimal((-n) as nat)
    } else {
        decimal(n as nat)
    }
}

/// The texts with `sep` between each and the next.
pub open spec fn joined(parts: Seq<Seq<char>>, sep: Seq<char>) -> Seq<char>
    decreases parts.len(),
{
    if parts.len() == 0 {
        seq![]
    } else if parts.len() == 1 {
        parts[0]
    } else {
        joined(parts.drop_last(), sep) + sep + parts.last()
    }
}

/// What each of a list of slices holds.
pub open spec fn slice_views(parts: Seq<&[char]>) -> Seq<Seq<char>> {
    Seq::new(parts.len(), |i: int| parts[i]@)
}

/// What each of a list of texts holds.
pub open spec fn string_views(parts: Seq<String>) -> Seq<Seq<char>> {
    Seq::new(parts.len(), |i: int| parts[i]@)
}

/// What an optional text holds.
pub open spec fn option_view(s: Option<String>) -> Option<Seq<char>> {
    match s {
        Some(t) => Some(t@),
        None => None,
    }
}

/// The characters of a text, in order.
pub fn to_chars(s: &str) -> (r: Vec<char>)
    ensures
        r@ == s@,
{
    let mut out: Vec<char> = Vec::new();
    for c in it: s.chars()
        invariant
            out@ == it.seq().take(it.index()),
            it.seq() == s@,
    {
        proof {
            assert(it.seq().take(it.index() + 1) =~= it.seq().take(it.index()).push(c));
        }
        out.push(c);
    }
    proof {
        assert(s@.take(s@.len() as int) =~= s@);
    }
    out
}

/// The text made of the given characters.
pub fn from_chars(chars: &[char]) -> (r: String)
    ensures
        r@ == chars@,
{
    let mut out = String::new();
    let mut i: usize = 0;
    while i < chars.len()
        invariant
            0 <= i <= chars@.len(),
            out@ == chars@.take(i as int),
        decreases chars@.len() - i,
    {
        out.push(chars[i]);
        proof {
            assert(chars@.take(i + 1) =~= chars@.take(i as int).push(chars@[i as int]));
        }
        i += 1;
    }
    proof {
        assert(chars@.take(chars@.len() as int) =~= chars@);
    }
    out
}

/// One text after another.
pub fn prefixed(a: &str, b: &str) -> (r: String)
    ensures
        r@ == a@ + b@,
{
    let mut out = a.to_string();
    out.append(b);
    out
}

/// `char::is_whitespace`.
pub fn is_white(c: char) -> (r: bool)
    ensures
        r == white(c),
{
    ('\u{9}' <= c && c <= '\u{d}') || c == '\u{20}' || c == '\u{85}' || c == '\u{a0}' || c
        == '\u{1680}' || ('\u{2000}' <= c && c <= '\u{200a}') || c == '\u{2028}' || c == '\u{2029}'
        || c == '\u{202f}' || c == '\u{205f}' || c == '\u{3000}'
}

proof fn lemma_trimmed_start(s: Seq<char>)
    ensures
        trimmed_start(s).len() <= s.len(),
        trimmed_start(s) == s.skip(s.len() - trimmed_start(s).len()),
        trimmed_start(s).len() > 0 ==> !white(trimmed_start(s)[0]),
    decreases s.len(),
{
    if s.len() > 0 && white(s[0]) {
        lemma_trimmed_start(s.skip(1));
    }
    assert(trimmed_start(s) =~= s.skip(s.len() - trimmed_start(s).len()));
}

proof fn lemma_word_len(s: Seq<char>)
    ensures
        word_len(s) <= s.len(),
        s.len() > 0 && !white(s[0]) ==> word_len(s) > 0,
    decreases s.len(),
{
    if s.len() > 0 && !white(s[0]) {
        lemma_word_len(s.skip(1));
    }
}

/// `str::trim_start`.
pub fn trim_start(s: &[char]) -> (r: &[char])
    ensures
        r@ == trimmed_start(s@),
{
    let mut i: usize = 0;
    proof {
        assert(s@.skip(0) =~= s@);
    }
    while i < s.len() && is_white(s[i])
        invariant
            0 <= i <= s@.len(),
            trimmed_start(s@) == trimmed_start(s@.skip(i as int)),
        decreases s@.len() - i,
    {
        proof {
            assert(s@.skip(i as int).skip(1) =~= s@.skip(i + 1));
        }
        i += 1;
    }
    let r = slice_subrange(s, i, s.len());
    proof {
        assert(r@ =~= s@.skip(i as int));
    }
    r
}

/// `str::trim_end`.
pub fn trim_end(s: &[char]) -> (r: &[char])
    ensures
        r@ == trimmed_end(s@),
{
    let mut n: usize = s.len();
    proof {
        assert(s@.take(n as int) =~= s@);
    }
    while n > 0 && is_white(s[n - 1])
        invariant
            0 <= n <= s@.len(),
            trimmed_end(s@) == trimmed_end(s@.take(n as int)),
        decreases n,
    {
        proof {
            assert(s@.take(n as int).drop_last() =~= s@.take(n - 1));
        }
        n -= 1;
    }
    let r = slice_subrange(s, 0, n);
    proof {
        assert(r@ =~= s@.take(n as int));
    }
    r
}

/// `str::trim`.
pub fn trim(s: &[char]) -> (r: &[char])
    ensures
        r@ == trimmed(s@),
{
    trim_end(trim_start(s))
}

/// `str::trim_matches` with one character.
pub fn strip(s: &[char], c: char) -> (r: &[char])
    ensures
        r@ == stripped(s@, c),
{
    let mut i: usize = 0;
    proof {
        assert(s@.skip(0) =~= s@);
    }
    while i < s.len() && s[i] == c
        invariant
            0 <= i <= s@.len(),
            stripped_start(s@, c) == stripped_start(s@.skip(i as int), c),
        decreases s@.len() - i,
    {
        proof {
            assert(s@.skip(i as int).skip(1) =~= s@.skip(i + 1));
        }
        i += 1;
    }
    let t = slice_subrange(s, i, s.len());
    proof {
        assert(t@ =~= s@.skip(i as int));
    }
    let mut n: usize = t.len();
    proof {
        assert(t@.take(n as int) =~= t@);
    }
    while n > 0 && t[n - 1] == c
        invariant
            0 <= n <= t@.len(),
            stripped_end(t@, c) == stripped_end(t@.take(n as int), c),
        decreases n,
    {
        proof {
            assert(t@.take(n as int).drop_last() =~= t@.take(n - 1));
        }
        n -= 1;
    }
    let r = slice_subrange(t, 0, n);
    proof {
        assert(r@ =~= t@.take(n as int));
    }
    r
}

/// The ASCII lower-case form of a character.
pub fn to_lower(c: char) -> (r: char)
    ensures
        r == lower(c),
{
    if 'A' <= c && c <= 'Z' {
        let code: u8 = c as u8;
        (code + 32) as char
    } else {
        c
    }
}

/// `str::eq_ignore_ascii_case`.
pub fn is_alike(a: &[char], b: &[char]) -> (r: bool)
    ensures
        r == alike(a@, b@),
{
    if a.len() != b.len() {
        return false;
    }
    let mut i: usize = 0;
    while i < a.len()
        invariant
            0 <= i <= a@.len(),
            a@.len() == b@.len(),
            forall|j: int| 0 <= j < i ==> lower(#[trigger] a@[j]) == lower(b@[j]),
        decreases a@.len() - i,
    {
        if to_lower(a[i]) != to_lower(b[i]) {
            return false;
        }
        i += 1;
    }
    true
}

/// Whether two slices hold the same characters.
pub fn equal_chars(a: &[char], b: &[char]) -> (r: bool)
    ensures
        r == (a@ == b@),
{
    if a.len() != b.len() {
        return false;
    }
    let mut i: usize = 0;
    while i < a.len()
        invariant
            0 <= i <= a@.len(),
            a@.len() == b@.len(),
            forall|j: int| 0 <= j < i ==> #[trigger] a@[j] == b@[j],
        decreases a@.len() - i,
    {
        if a[i] != b[i] {
            return false;
        }
        i += 1;
    }
    proof {
        assert(a@ =~= b@);
    }
    true
}

/// Whether two texts are equal.
pub fn equal(a: &str, b: &str) -> (r: bool)
    ensures
        r == (a@ == b@),
{
    equal_chars(to_chars(a).as_slice(), to_chars(b).as_slice())
}

/// `str::starts_with`.
pub fn starts_with(s: &str, prefix: &str) -> (r: bool)
    ensures
        r == begins(s@, prefix@),
{
    let chars = to_chars(s);
    let start = to_chars(prefix);
    occurs(chars.as_slice(), start.as_slice(), 0)
}

/// Whether `needle` stands at position `i`.
fn occurs(hay: &[char], needle: &[char], i: usize) -> (r: bool)
    requires
        i <= hay@.len(),
    ensures
        r == occurs_at(hay@, needle@, i as int),
{
    if hay.len() - i < needle.len() {
        return false;
    }
    equal_chars(slice_subrange(hay, i, i + needle.len()), needle)
}

/// `first_from` finds the first occurrence and misses none.
pub proof fn law_first_from<T>(hay: Seq<T>, needle: Seq<T>, from: nat)
    ensures
        match first_from(hay, needle, from) {
            Some(i) => {
                &&& from <= i
                &&& occurs_at(hay, needle, i as int)
                &&& forall|j: int| from <= j < i ==> !occurs_at(hay, needle, j)
            },
            None => forall|j: int| from <= j ==> !occurs_at(hay, needle, j),
        },
    decreases hay.len() + 1 - from,
{
    if from + needle.len() <= hay.len() && !occurs_at(hay, needle, from as int) {
        law_first_from(hay, needle, from + 1);
    }
}

/// A position that holds the needle, with none before it, is the first.
pub proof fn lemma_first_is<T>(hay: Seq<T>, needle: Seq<T>, i: nat)
    requires
        occurs_at(hay, needle, i as int),
        forall|j: int| 0 <= j < i ==> !occurs_at(hay, needle, j),
    ensures
        first_of(hay, needle) == Some(i),
{
    law_first_from(hay, needle, 0);
}

/// `str::find`: the first position at which `needle` stands.
pub fn find(hay: &[char], needle: &[char]) -> (r: Option<usize>)
    ensures
        match r {
            Some(i) => first_of(hay@, needle@) == Some(i as nat),
            None => first_of(hay@, needle@) is None,
        },
        r matches Some(i) ==> i + needle@.len() <= hay@.len(),
{
    if hay.len() < needle.len() {
        return None;
    }
    let last: usize = hay.len() - needle.len();
    let mut i: usize = 0;
    loop
        invariant
            0 <= i <= last,
            last + needle@.len() == hay@.len(),
            first_of(hay@, needle@) == first_from(hay@, needle@, i as nat),
        decreases last - i,
    {
        if occurs(hay, needle, i) {
            return Some(i);
        }
        if i == last {
            proof {
                assert(first_from(hay@, needle@, (i + 1) as nat) is None);
            }
            return None;
        }
        i += 1;
    }
}

/// `str::contains`.
pub fn contains(s: &str, needle: &str) -> (r: bool)
    ensures
        r == holds(s@, needle@),
{
    let chars = to_chars(s);
    let wanted = to_chars(needle);
    let found = find(chars.as_slice(), wanted.as_slice());
    proof {
        law_first_from(s@, needle@, 0);
    }
    found.is_some()
}

/// `str::split` with a separator of at least one character.
pub fn split<'a>(s: &'a [char], sep: &[char]) -> (r: Vec<&'a [char]>)
    requires
        sep@.len() > 0,
    ensures
        slice_views(r@) == pieces(s@, sep@),
        r@.len() > 0,
{
    let mut out: Vec<&'a [char]> = Vec::new();
    let mut pos: usize = 0;
    proof {
        assert(s@.skip(0) =~= s@);
        assert(slice_views(out@) + pieces(s@, sep@) =~= pieces(s@, sep@));
    }
    loop
        invariant_except_break
            0 <= pos <= s@.len(),
            sep@.len() > 0,
            pieces(s@, sep@) == slice_views(out@) + pieces(s@.skip(pos as int), sep@),
        ensures
            pieces(s@, sep@) == slice_views(out@),
            out@.len() > 0,
        decreases s@.len() - pos,
    {
        let rest = slice_subrange(s, pos, s.len());
        proof {
            assert(rest@ =~= s@.skip(pos as int));
        }
        let ghost before = out@;
        match find(rest, sep) {
            None => {
                out.push(rest);
                proof {
                    assert(slice_views(out@) =~= slice_views(before) + seq![rest@]);
                }
                break;
            },
            Some(i) => {
                let piece = slice_subrange(rest, 0, i);
                out.push(piece);
                proof {
                    let tail = rest@.skip((i + sep@.len()) as int);
                    assert(piece@ =~= rest@.take(i as int));
                    assert(tail =~= s@.skip(pos + i + sep@.len()));
                    assert(slice_views(out@) =~= slice_views(before).push(piece@));
                    assert(slice_views(before) + (seq![piece@] + pieces(tail, sep@))
                        =~= slice_views(out@) + pieces(tail, sep@));
                }
                pos = pos + i + sep.len();
            },
        }
    }
    out
}

/// `str::split_once` with one character.
pub fn split_once(s: &[char], c: char) -> (r: Option<(&[char], &[char])>)
    ensures
        match r {
            Some((a, b)) => around_first(s@, c) == Some((a@, b@)),
            None => around_first(s@, c) is None,
        },
{
    let needle: [char; 1] = [c];
    proof {
        assert(needle@ =~= seq![c]);
    }
    let end: usize = s.len();
    match find(s, needle.as_slice()) {
        None => None,
        Some(i) => {
            let a = slice_subrange(s, 0, i);
            let b = slice_subrange(s, i + 1, end);
            proof {
                assert(a@ =~= s@.take(i as int));
                assert(b@ =~= s@.skip(i as int + 1));
            }
            Some((a, b))
        },
    }
}

/// `str::rsplit_once` with one character.
pub fn rsplit_once(s: &[char], c: char) -> (r: Option<(&[char], &[char])>)
    ensures
        match r {
            Some((a, b)) => around_last(s@, c) == Some((a@, b@)),
            None => around_last(s@, c) is None,
        },
{
    let mut n: usize = s.len();
    proof {
        assert(s@.take(n as int) =~= s@);
    }
    while n > 0
        invariant
            0 <= n <= s@.len(),
            last_position(s@, c) == last_position(s@.take(n as int), c),
        decreases n,
    {
        if s[n - 1] == c {
            let a = slice_subrange(s, 0, n - 1);
            let b = slice_subrange(s, n, s.len());
            proof {
                assert(a@ =~= s@.take(n - 1));
                assert(b@ =~= s@.skip(n as int));
            }
            return Some((a, b));
        }
        proof {
            assert(s@.take(n as int).drop_last() =~= s@.take(n - 1));
        }
        n -= 1;
    }
    None
}

/// `str::split_whitespace`.
pub fn split_words(s: &[char]) -> (r: Vec<&[char]>)
    ensures
        slice_views(r@) == words(s@),
{
    let mut out: Vec<&[char]> = Vec::new();
    let mut rest: &[char] = s;
    proof {
        assert(slice_views(out@) + words(s@) =~= words(s@));
    }
    loop
        invariant_except_break
            words(s@) == slice_views(out@) + words(rest@),
        ensures
            words(s@) == slice_views(out@),
        decreases rest@.len(),
    {
        let t = trim_start(rest);
        proof {
            lemma_trimmed_start(rest@);
            lemma_word_len(t@);
        }
        if t.len() == 0 {
            proof {
                assert(slice_views(out@) + words(rest@) =~= slice_views(out@));
            }
            break;
        }
        let mut n: usize = 0;
        proof {
            assert(t@.skip(0) =~= t@);
        }
        while n < t.len() && !is_white(t[n])
            invariant
                0 <= n <= t@.len(),
                word_len(t@) == n + word_len(t@.skip(n as int)),
            decreases t@.len() - n,
        {
            proof {
                assert(t@.skip(n as int).skip(1) =~= t@.skip(n + 1));
            }
            n += 1;
        }
        let word = slice_subrange(t, 0, n);
        let ghost before = out@;
        out.push(word);
        let next = slice_subrange(t, n, t.len());
        proof {
            assert(word@ =~= t@.take(n as int));
            assert(next@ =~= t@.skip(n as int));
            assert(slice_views(out@) =~= slice_views(before).push(word@));
            assert(slice_views(before) + (seq![word@] + words(next@)) =~= slice_views(out@) + words(
                next@,
            ));
        }
        rest = next;
    }
    out
}

/// The value of a character as a digit; 36 for what is none.
pub fn digit_of(c: char) -> (r: u64)
    ensures
        r == digit_value(c),
{
    if '0' <= c && c <= '9' {
        (c as u32 - 48) as u64
    } else if 'a' <= c && c <= 'z' {
        (c as u32 - 87) as u64
    } else if 'A' <= c && c <= 'Z' {
        (c as u32 - 55) as u64
    } else {
        36
    }
}

/// Digits that follow only make a number larger.
proof fn lemma_digits_grow(s: Seq<char>, base: nat, k: int)
    requires
        0 <= k <= s.len(),
        base >= 1,
    ensures
        digits_value(s.take(k), base) <= digits_value(s, base),
    decreases s.len(),
{
    if k == s.len() {
        assert(s.take(k) =~= s);
    } else {
        lemma_digits_grow(s.drop_last(), base, k);
        assert(s.drop_last().take(k) =~= s.take(k));
        let v = digits_value(s.drop_last(), base);
        assert(v * base >= v) by (nonlinear_arith)
            requires
                base >= 1,
        ;
    }
}

/// `from_str_radix` of the unsigned types: the number that `s` spells in the
/// given base, where it is at most `max`.
pub fn parse_number(s: &[char], base: u64, max: u64) -> (r: Option<u64>)
    requires
        2 <= base <= 36,
    ensures
        match r {
            Some(v) => number(s@, base as nat, max as nat) == Some(v as nat),
            None => number(s@, base as nat, max as nat) is None,
        },
{
    let digits: &[char] = if s.len() > 0 && s[0] == '+' {
        slice_subrange(s, 1, s.len())
    } else {
        s
    };
    proof {
        assert(digits@ =~= unsigned_part(s@));
    }
    if digits.len() == 0 {
        return None;
    }
    let mut v: u64 = 0;
    let mut i: usize = 0;
    proof {
        assert(digits@.take(0) =~= Seq::<char>::empty());
    }
    while i < digits.len()
        invariant
            0 <= i <= digits@.len(),
            digits@ == unsigned_part(s@),
            digits@.len() > 0,
            2 <= base <= 36,
            v <= max,
            v as nat == digits_value(digits@.take(i as int), base as nat),
            forall|j: int| 0 <= j < i ==> digit_value(#[trigger] digits@[j]) < base,
        decreases digits@.len() - i,
    {
        let d = digit_of(digits[i]);
        if d >= base {
            return None;
        }
        proof {
            assert((v as u128) * (base as u128) <= 0xffff_ffff_ffff_ffff * 36) by (nonlinear_arith)
                requires
                    v <= 0xffff_ffff_ffff_ffff,
                    base <= 36,
            ;
        }
        let wide: u128 = (v as u128) * (base as u128) + (d as u128);
        proof {
            let t = digits@.take(i + 1);
            assert(t.drop_last() =~= digits@.take(i as int));
            assert(t.last() == digits@[i as int]);
        }
        if wide > max as u128 {
            proof {
                lemma_digits_grow(digits@, base as nat, i + 1);
            }
            return None;
        }
        v = wide as u64;
        i += 1;
    }
    proof {
        assert(digits@.take(digits@.len() as int) =~= digits@);
    }
    Some(v)
}

/// The digits of `n` in the given base, in lower case.
pub fn spell(n: u64, base: u64) -> (r: String)
    requires
        2 <= base <= 36,
    ensures
        r@ == spelled(n as nat, base as nat),
    decreases n,
{
    let d: u64 = n % base;
    let c: char = if d < 10 {
        (48u8 + d as u8) as char
    } else {
        (87u8 + d as u8) as char
    };
    if n < base {
        let mut out = String::new();
        proof {
            assert(n % base == n) by (nonlinear_arith)
                requires
                    0 <= n < base,
            ;
        }
        out.push(c);
        out
    } else {
        proof {
            assert(n / base < n) by (nonlinear_arith)
                requires
                    2 <= base <= n,
            ;
        }
        let mut out = spell(n / base, base);
        out.push(c);
        out
    }
}

/// The decimal digits of `n`.
pub fn decimal_text(n: u64) -> (r: String)
    ensures
        r@ == decimal(n as nat),
{
    spell(n, 10)
}

/// The decimal digits of `n`, after a minus sign where it is negative.
pub fn signed_text(n: i64) -> (r: String)
    ensures
        r@ == signed_decimal(n as int),
{
    if n < 0 {
        let mut out = String::new();
        out.push('-');
        let magnitude: u64 = (-(n as i128)) as u64;
        let digits = decimal_text(magnitude);
        out.append(digits.as_str());
        out
    } else {
        decimal_text(n as u64)
    }
}

/// The texts with `sep` between each and the next.
pub fn join(parts: &Vec<String>, sep: &str) -> (r: String)
    ensures
        r@ == joined(string_views(parts@), sep@),
{
    let mut out = String::new();
    let mut i: usize = 0;
    let ghost all = string_views(parts@);
    proof {
        assert(all.take(0) =~= Seq::<Seq<char>>::empty());
    }
    while i < parts.len()
        invariant
            0 <= i <= parts@.len(),
            all == string_views(parts@),
            out@ == joined(all.take(i as int), sep@),
        decreases parts@.len() - i,
    {
        proof {
            let t = all.take(i + 1);
            assert(t.drop_last() =~= all.take(i as int));
            assert(t.last() == parts@[i as int]@);
        }
        if i > 0 {
            out.append(sep);
        }
        out.append(parts[i].as_str());
        proof {
            if i == 0 {
                assert(out@ =~= all.take(1)[0]);
            }
        }
        i += 1;
    }
    proof {
        assert(all.take(all.len() as int) =~= all);
    }
    out
}

/// With no `c` in what follows, a `c` is the last.
pub proof fn lemma_last_is(a: Seq<char>, c: char, b: Seq<char>)
    requires
        !b.contains(c),
    ensures
        last_position(a + seq![c] + b, c) == Some(a.len()),
    decreases b.len(),
{
    let s = a + seq![c] + b;
    if b.len() > 0 {
        assert(b.contains(b.last()));
        assert forall|i: int| 0 <= i < b.len() - 1 implies b.drop_last()[i] != c by {
            assert(b.contains(b[i]));
        }
        lemma_last_is(a, c, b.drop_last());
        assert(s.drop_last() =~= a + seq![c] + b.drop_last());
    }
}

/// With no `c` before it, a `c` is the first.
pub proof fn lemma_first_char(a: Seq<char>, c: char, b: Seq<char>)
    requires
        !a.contains(c),
    ensures
        first_of(a + seq![c] + b, seq![c]) == Some(a.len()),
{
    let s = a + seq![c] + b;
    assert(s.subrange(a.len() as int, a.len() as int + 1) =~= seq![c]);
    assert forall|j: int| 0 <= j < a.len() implies !occurs_at(s, seq![c], j) by {
        assert(a.contains(a[j]));
        assert(s.subrange(j, j + 1)[0] == a[j]);
    }
    lemma_first_is(s, seq![c], a.len());
}

/// A text without `c` has no place where it is split.
pub proof fn lemma_no_char(s: Seq<char>, c: char)
    requires
        !s.contains(c),
    ensures
        first_of(s, seq![c]) is None,
        last_position(s, c) is None,
    decreases s.len(),
{
    law_first_from(s, seq![c], 0);
    match first_of(s, seq![c]) {
        Some(i) => {
            assert(s.subrange(i as int, i as int + 1)[0] == s[i as int]);
            assert(s.contains(s[i as int]));
        },
        None => {},
    }
    if s.len() > 0 {
        assert(s.contains(s.last()));
        assert forall|i: int| 0 <= i < s.len() - 1 implies s.drop_last()[i] != c by {
            assert(s.contains(s[i]));
        }
        lemma_no_char(s.drop_last(), c);
    }
}

/// A text is split off at the first separator, and the rest is split in turn.
pub proof fn lemma_split_off(a: Seq<char>, c: char, b: Seq<char>)
    requires
        !a.contains(c),
    ensures
        pieces(a + seq![c] + b, seq![c]) == seq![a] + pieces(b, seq![c]),
{
    let s = a + seq![c] + b;
    lemma_first_char(a, c, b);
    assert(s.take(a.len() as int) =~= a);
    assert(s.skip((a.len() + 1) as int) =~= b);
}

/// A text with no white space at its ends is trimmed already.
pub proof fn lemma_trimmed_already(s: Seq<char>)
    requires
        s.len() > 0,
        !white(s[0]),
        !white(s.last()),
    ensures
        trimmed(s) == s,
{
}

/// Joining can start from the front.
proof fn lemma_joined_front(parts: Seq<Seq<char>>, sep: Seq<char>)
    requires
        parts.len() > 1,
    ensures
        joined(parts, sep) == parts[0] + sep + joined(parts.skip(1), sep),
    decreases parts.len(),
{
    let tail = parts.skip(1);
    if parts.len() == 2 {
        assert(joined(parts.drop_last(), sep) == parts[0]);
        assert(joined(tail, sep) == parts[1]);
    } else {
        lemma_joined_front(parts.drop_last(), sep);
        assert(parts.drop_last().skip(1) =~= tail.drop_last());
        assert(tail.last() == parts.last());
        assert(joined(parts, sep) =~= parts[0] + sep + joined(tail, sep));
    }
}

/// Splitting undoes joining: parts that do not hold the separator are the pieces
/// of the joined text.
pub proof fn law_split_undoes_join(parts: Seq<Seq<char>>, c: char)
    requires
        parts.len() > 0,
        forall|i: int| 0 <= i < parts.len() ==> !(#[trigger] parts[i]).contains(c),
    ensures
        pieces(joined(parts, seq![c]), seq![c]) == parts,
    decreases parts.len(),
{
    assert(!parts[0].contains(c));
    if parts.len() == 1 {
        lemma_no_char(parts[0], c);
        assert(parts =~= seq![parts[0]]);
    } else {
        let tail = parts.skip(1);
        assert forall|i: int| 0 <= i < tail.len() implies !(#[trigger] tail[i]).contains(c) by {
            assert(tail[i] == parts[i + 1]);
        }
        law_split_undoes_join(tail, c);
        lemma_joined_front(parts, seq![c]);
        lemma_split_off(parts[0], c, joined(tail, seq![c]));
        assert(parts =~= seq![parts[0]] + tail);
    }
}

/// Where no part is empty or holds the separator, two separators never meet.
pub proof fn lemma_no_double(parts: Seq<Seq<char>>, c: char)
    requires
        parts.len() > 0,
        forall|i: int|
            0 <= i < parts.len() ==> (#[trigger] parts[i]).len() > 0 && !parts[i].contains(c),
    ensures
        !holds(joined(parts, seq![c]), seq![c, c]),
        joined(parts, seq![c]).len() > 0,
        joined(parts, seq![c])[0] != c,
    decreases parts.len(),
{
    let s = joined(parts, seq![c]);
    let first = parts[0];
    assert(first.contains(first[0]));
    if parts.len() == 1 {
        if holds(s, seq![c, c]) {
            let i = choose|i: int| occurs_at(s, seq![c, c], i);
            assert(s.subrange(i, i + 2)[0] == s[i]);
            assert(first.contains(first[i]));
        }
    } else {
        let tail = parts.skip(1);
        assert forall|i: int| 0 <= i < tail.len() implies (#[trigger] tail[i]).len() > 0
            && !tail[i].contains(c) by {
            assert(tail[i] == parts[i + 1]);
        }
        lemma_no_double(tail, c);
        lemma_joined_front(parts, seq![c]);
        let rest = joined(tail, seq![c]);
        if holds(s, seq![c, c]) {
            let i = choose|i: int| occurs_at(s, seq![c, c], i);
            let found = s.subrange(i, i + 2);
            assert(found[0] == s[i]);
            assert(found[1] == s[i + 1]);
            if i < first.len() {
                assert(first.contains(first[i]));
            } else if i == first.len() {
                assert(s[i + 1] == rest[0]);
            } else {
                let j = i - first.len() - 1;
                assert(rest.subrange(j, j + 2) =~= found);
                assert(occurs_at(rest, seq![c, c], j));
            }
        }
    }
}

/// The first word ends at the first white space.
pub proof fn lemma_first_word(word: Seq<char>, rest: Seq<char>)
    requires
        word.len() > 0,
        forall|i: int| 0 <= i < word.len() ==> !white(#[trigger] word[i]),
        rest.len() > 0 ==> white(rest[0]),
    ensures
        words(word + rest) == seq![word] + words(rest),
{
    let s = word + rest;
    lemma_word_ends(word, rest);
    assert(s[0] == word[0]);
    assert(s.take(word.len() as int) =~= word);
    assert(s.skip(word.len() as int) =~= rest);
}

proof fn lemma_word_ends(word: Seq<char>, rest: Seq<char>)
    requires
        forall|i: int| 0 <= i < word.len() ==> !white(#[trigger] word[i]),
        rest.len() > 0 ==> white(rest[0]),
    ensures
        word_len(word + rest) == word.len(),
    decreases word.len(),
{
    let s = word + rest;
    if word.len() == 0 {
        assert(s =~= rest);
    } else {
        assert(s[0] == word[0]);
        assert(s.skip(1) =~= word.skip(1) + rest);
        lemma_word_ends(word.skip(1), rest);
    }
}

/// White space in front changes no words.
pub proof fn lemma_words_skip(c: char, rest: Seq<char>)
    requires
        white(c),
    ensures
        words(seq![c] + rest) == words(rest),
{
    assert((seq![c] + rest).skip(1) =~= rest);
}

/// Spelling a number and reading it gives the number back, in any base up to 36.
pub proof fn law_spelled_is_read(n: nat, base: nat, max: nat)
    requires
        2 <= base <= 36,
        n <= max,
    ensures
        number(spelled(n, base), base, max) == Some(n),
{
    lemma_spelled(n, base);
    let s = spelled(n, base);
    assert(digit_value(s[0]) < base);
    assert(unsigned_part(s) == s);
}

/// Spelled numbers are digits that stand for the number.
pub proof fn lemma_spelled(n: nat, base: nat)
    requires
        2 <= base <= 36,
    ensures
        spelled(n, base).len() > 0,
        all_digits(spelled(n, base), base),
        digits_value(spelled(n, base), base) == n,
    decreases n,
{
    let s = spelled(n, base);
    if n < base {
        assert(s.drop_last() =~= Seq::<char>::empty());
        assert(digits_value(s.drop_last(), base) * base == 0) by (nonlinear_arith)
            requires
                digits_value(s.drop_last(), base) == 0,
        ;
        assert(digit_value(s[0]) == n);
    } else {
        assert(n / base < n) by (nonlinear_arith)
            requires
                2 <= base <= n,
        ;
        lemma_spelled(n / base, base);
        assert(s.drop_last() =~= spelled(n / base, base));
        assert(n % base < base) by (nonlinear_arith)
            requires
                base >= 2,
        ;
        assert(digit_value(s.last()) == n % base);
        assert((n / base) * base + n % base == n) by (nonlinear_arith)
            requires
                base >= 2,
        ;
        assert forall|i: int| 0 <= i < s.len() implies digit_value(#[trigger] s[i]) < base by {
            if i < s.len() - 1 {
                assert(s[i] == spelled(n / base, base)[i]);
            }
        }
    }
}

/// A needle stands where each of its elements stands.
pub proof fn law_occurs_is_elementwise<T>(hay: Seq<T>, needle: Seq<T>, i: int)
    ensures
        occurs_at(hay, needle, i) <==> {
            &&& 0 <= i
            &&& i + needle.len() <= hay.len()
            &&& forall|k: int| 0 <= k < needle.len() ==> hay[i + k] == #[trigger] needle[k]
        },
{
    if 0 <= i && i + needle.len() <= hay.len() {
        let part = hay.subrange(i, i + needle.len() as int);
        assert(forall|k: int| 0 <= k < needle.len() ==> #[trigger] part[k] == hay[i + k]);
        if part == needle {
            assert forall|k: int| 0 <= k < needle.len() implies hay[i + k] == #[trigger] needle[k] by {
                assert(part[k] == needle[k]);
            }
        }
        if forall|k: int| 0 <= k < needle.len() ==> hay[i + k] == #[trigger] needle[k] {
            assert(part =~= needle);
        }
    }
}

/// A text holds another exactly where it is that other with something before it and
/// something after it.
pub proof fn law_holds(s: Seq<char>, needle: Seq<char>)
    ensures
        holds(s, needle) <==> exists|a: Seq<char>, b: Seq<char>| s == #[trigger] (a + needle + b),
{
    if holds(s, needle) {
        let i = choose|i: int| occurs_at(s, needle, i);
        let a = s.take(i);
        let b = s.skip(i + needle.len() as int);
        assert(s.subrange(i, i + needle.len() as int) == needle);
        assert(s =~= a + needle + b);
    }
    if exists|a: Seq<char>, b: Seq<char>| s == #[trigger] (a + needle + b) {
        let (a, b) = choose|a: Seq<char>, b: Seq<char>| s == #[trigger] (a + needle + b);
        lemma_holds(a, needle, b);
    }
}

/// What stands between two texts is held.
pub proof fn lemma_holds(a: Seq<char>, needle: Seq<char>, b: Seq<char>)
    ensures
        holds(a + needle + b, needle),
{
    let s = a + needle + b;
    assert(s.subrange(a.len() as int, a.len() as int + needle.len() as int) =~= needle);
    assert(occurs_at(s, needle, a.len() as int));
}

/// A text begins with another exactly where it is that other with something after
/// it.
pub proof fn law_begins(s: Seq<char>, prefix: Seq<char>)
    ensures
        begins(s, prefix) <==> exists|rest: Seq<char>| s == #[trigger] (prefix + rest),
{
    if begins(s, prefix) {
        let rest = s.skip(prefix.len() as int);
        assert(s.subrange(0, prefix.len() as int) == prefix);
        assert(s =~= prefix + rest);
    }
    if exists|rest: Seq<char>| s == #[trigger] (prefix + rest) {
        let rest = choose|rest: Seq<char>| s == #[trigger] (prefix + rest);
        assert((prefix + rest).subrange(0, prefix.len() as int) =~= prefix);
    }
}

/// Whether every character is white space.
pub open spec fn all_white(s: Seq<char>) -> bool {
    forall|i: int| 0 <= i < s.len() ==> white(#[trigger] s[i])
}

/// Trimming takes white space away from both ends, and all of it: a text is white
/// space, what is left, and white space, and what is left has none at its ends.
pub proof fn law_trimming(s: Seq<char>)
    ensures
        exists|a: Seq<char>, b: Seq<char>|
            all_white(a) && all_white(b) && s == #[trigger] (a + trimmed(s) + b),
        trimmed(s).len() > 0 ==> !white(trimmed(s)[0]) && !white(trimmed(s).last()),
{
    let t = trimmed_start(s);
    let a = s.take(s.len() - t.len());
    lemma_trimmed_start(s);
    lemma_start_is_white(s);
    lemma_trimmed_end(t);
    let r = trimmed(s);
    let b = t.skip(r.len() as int);
    assert(s =~= a + r + b);
}

proof fn lemma_start_is_white(s: Seq<char>)
    ensures
        trimmed_start(s).len() <= s.len(),
        all_white(s.take(s.len() - trimmed_start(s).len())),
    decreases s.len(),
{
    if s.len() > 0 && white(s[0]) {
        lemma_start_is_white(s.skip(1));
        lemma_trimmed_start(s.skip(1));
        let n = s.len() - trimmed_start(s).len();
        assert forall|i: int| 0 <= i < n implies white(#[trigger] s.take(n)[i]) by {
            if i > 0 {
                assert(s.skip(1).take(n - 1)[i - 1] == s[i]);
            }
        }
    }
}

proof fn lemma_trimmed_end(s: Seq<char>)
    ensures
        trimmed_end(s).len() <= s.len(),
        trimmed_end(s) == s.take(trimmed_end(s).len() as int),
        all_white(s.skip(trimmed_end(s).len() as int)),
        trimmed_end(s).len() > 0 ==> !white(trimmed_end(s).last()),
    decreases s.len(),
{
    if s.len() > 0 && white(s.last()) {
        let fewer = s.drop_last();
        lemma_trimmed_end(fewer);
        let n = trimmed_end(s).len() as int;
        assert(trimmed_end(s) =~= s.take(n));
        assert forall|i: int| 0 <= i < s.skip(n).len() implies white(#[trigger] s.skip(n)[i]) by {
            if i < fewer.skip(n).len() {
                assert(fewer.skip(n)[i] == s.skip(n)[i]);
            }
        }
    } else {
        assert(trimmed_end(s) =~= s.take(s.len() as int));
    }
}

/// White space is that of Unicode, by code point.
pub proof fn law_white_space(c: char)
    ensures
        white(c) <==> {
            let n = c as u32;
            ||| 9 <= n <= 13
            ||| n == 32
            ||| n == 133
            ||| n == 160
            ||| n == 5760
            ||| 8192 <= n <= 8202
            ||| n == 8232
            ||| n == 8233
            ||| n == 8239
            ||| n == 8287
            ||| n == 12288
        },
{
}

/// Case is that of ASCII: two characters are alike exactly where they are the same,
/// or are the capital and the small form of one of the letters A to Z.
pub proof fn law_case_is_ascii(a: char, b: char)
    ensures
        alike(seq![a], seq![b]) <==> {
            let m = a as u32;
            let n = b as u32;
            ||| m == n
            ||| 65 <= m <= 90 && n == m + 32
            ||| 65 <= n <= 90 && m == n + 32
        },
{
    assert(seq![a][0] == a);
    assert(seq![b][0] == b);
    if lower(a) == lower(b) {
        assert(alike(seq![a], seq![b]));
    }
    if alike(seq![a], seq![b]) {
        assert(lower(seq![a][0]) == lower(seq![b][0]));
    }
}

/// Texts are alike character by character.
pub proof fn law_alike_is_characterwise(a: Seq<char>, b: Seq<char>, c: char, d: char)
    ensures
        alike(a.push(c), b.push(d)) <==> alike(a, b) && alike(seq![c], seq![d]),
        alike(a, b) ==> a.len() == b.len(),
        alike(seq![], seq![]),
{
    let x = a.push(c);
    let y = b.push(d);
    assert(seq![c][0] == c);
    assert(seq![d][0] == d);
    if alike(x, y) {
        assert(x.last() == c && y.last() == d);
        assert(lower(x[a.len() as int]) == lower(y[a.len() as int]));
        assert forall|i: int| 0 <= i < a.len() implies lower(#[trigger] a[i]) == lower(b[i]) by {
            assert(x[i] == a[i] && y[i] == b[i]);
        }
        assert(alike(seq![c], seq![d]));
    }
    if alike(a, b) && alike(seq![c], seq![d]) {
        assert(lower(seq![c][0]) == lower(seq![d][0]));
        assert forall|i: int| 0 <= i < x.len() implies lower(#[trigger] x[i]) == lower(y[i]) by {
            if i < a.len() {
                assert(lower(a[i]) == lower(b[i]));
            }
        }
    }
}

/// Whether every character is `c`.
pub open spec fn all_same(s: Seq<char>, c: char) -> bool {
    forall|i: int| 0 <= i < s.len() ==> #[trigger] s[i] == c
}

/// Quotes and the like are taken away from both ends, and all of them: a text is
/// copies of `c`, what is left, and copies of `c`, and what is left has none at its
/// ends.
pub proof fn law_stripping(s: Seq<char>, c: char)
    ensures
        exists|a: Seq<char>, b: Seq<char>|
            all_same(a, c) && all_same(b, c) && s == #[trigger] (a + stripped(s, c) + b),
        stripped(s, c).len() > 0 ==> stripped(s, c)[0] != c && stripped(s, c).last() != c,
{
    let t = stripped_start(s, c);
    lemma_stripped_start(s, c);
    lemma_stripped_end(t, c);
    let r = stripped(s, c);
    let a = s.take(s.len() - t.len());
    let b = t.skip(r.len() as int);
    assert(s =~= a + r + b);
}

proof fn lemma_stripped_start(s: Seq<char>, c: char)
    ensures
        stripped_start(s, c).len() <= s.len(),
        stripped_start(s, c) == s.skip(s.len() - stripped_start(s, c).len()),
        all_same(s.take(s.len() - stripped_start(s, c).len()), c),
        stripped_start(s, c).len() > 0 ==> stripped_start(s, c)[0] != c,
    decreases s.len(),
{
    let n = s.len() - stripped_start(s, c).len();
    if s.len() > 0 && s[0] == c {
        let fewer = s.skip(1);
        lemma_stripped_start(fewer, c);
        assert(stripped_start(s, c) =~= s.skip(n));
        assert forall|i: int| 0 <= i < n implies #[trigger] s.take(n)[i] == c by {
            if i > 0 {
                assert(fewer.take(n - 1)[i - 1] == s[i]);
            }
        }
    } else {
        assert(stripped_start(s, c) =~= s.skip(0));
    }
}

proof fn lemma_stripped_end(s: Seq<char>, c: char)
    ensures
        stripped_end(s, c).len() <= s.len(),
        stripped_end(s, c) == s.take(stripped_end(s, c).len() as int),
        all_same(s.skip(stripped_end(s, c).len() as int), c),
        stripped_end(s, c).len() > 0 ==> stripped_end(s, c).last() != c,
    decreases s.len(),
{
    let n = stripped_end(s, c).len() as int;
    if s.len() > 0 && s.last() == c {
        let fewer = s.drop_last();
        lemma_stripped_end(fewer, c);
        assert(stripped_end(s, c) =~= s.take(n));
        assert forall|i: int| 0 <= i < s.skip(n).len() implies #[trigger] s.skip(n)[i] == c by {
            if i < fewer.skip(n).len() {
                assert(fewer.skip(n)[i] == s.skip(n)[i]);
            }
        }
    } else {
        assert(stripped_end(s, c) =~= s.take(s.len() as int));
    }
}

/// Splitting loses nothing and leaves no separator: joined again, the pieces are the
/// text, and no piece holds the separator.
pub proof fn law_join_undoes_split(s: Seq<char>, sep: Seq<char>)
    requires
        sep.len() > 0,
    ensures
        pieces(s, sep).len() > 0,
        joined(pieces(s, sep), sep) == s,
        forall|i: int|
            0 <= i < pieces(s, sep).len() ==> !holds(#[trigger] pieces(s, sep)[i], sep),
    decreases s.len(),
{
    let parts = pieces(s, sep);
    law_first_from(s, sep, 0);
    match first_of(s, sep) {
        None => {
            assert(parts =~= seq![s]);
        },
        Some(i) => {
            let first = s.take(i as int);
            let rest = s.skip((i + sep.len()) as int);
            let more = pieces(rest, sep);
            law_join_undoes_split(rest, sep);
            assert(parts.skip(1) =~= more);
            lemma_joined_front(parts, sep);
            assert(s.subrange(i as int, i + sep.len() as int) == sep);
            assert(s =~= first + sep + rest);
            if holds(first, sep) {
                let j = choose|j: int| occurs_at(first, sep, j);
                assert(s.subrange(j, j + sep.len() as int) =~= first.subrange(
                    j,
                    j + sep.len() as int,
                ));
                assert(occurs_at(s, sep, j));
            }
            assert forall|k: int| 0 <= k < parts.len() implies !holds(#[trigger] parts[k], sep) by {
                if k > 0 {
                    assert(parts[k] == more[k - 1]);
                }
            }
        },
    }
}

/// A text is split around the first of a character exactly where it holds one: into
/// what stands before it, which has none, and what stands after it.
pub proof fn law_around_first(a: Seq<char>, c: char, b: Seq<char>)
    requires
        !a.contains(c),
    ensures
        around_first(a + seq![c] + b, c) == Some((a, b)),
        around_first(a, c) is None,
{
    let s = a + seq![c] + b;
    lemma_first_char(a, c, b);
    lemma_no_char(a, c);
    assert(s.take(a.len() as int) =~= a);
    assert(s.skip(a.len() as int + 1) =~= b);
}

/// A text is split around the last of a character exactly where it holds one: into
/// what stands before it, and what stands after it, which has none.
pub proof fn law_around_last(a: Seq<char>, c: char, b: Seq<char>)
    requires
        !b.contains(c),
    ensures
        around_last(a + seq![c] + b, c) == Some((a, b)),
        around_last(b, c) is None,
{
    let s = a + seq![c] + b;
    lemma_last_is(a, c, b);
    lemma_no_char(b, c);
    assert(s.take(a.len() as int) =~= a);
    assert(s.skip(a.len() as int + 1) =~= b);
}

/// Digits have their values: 0 to 9, and A to Z in either case from ten on. Nothing
/// else is a digit.
pub proof fn law_digit_values(c: char)
    ensures
        48 <= c as u32 <= 57 ==> digit_value(c) == c as u32 - 48,
        65 <= c as u32 <= 90 ==> digit_value(c) == c as u32 - 55,
        97 <= c as u32 <= 122 ==> digit_value(c) == c as u32 - 87,
        digit_value(c) < 36 <==> {
            ||| 48 <= c as u32 <= 57
            ||| 65 <= c as u32 <= 90
            ||| 97 <= c as u32 <= 122
        },
{
}

/// Digits stand for a number: one more digit multiplies by the base and adds.
pub proof fn law_digits_are_a_number(s: Seq<char>, c: char, base: nat)
    ensures
        digits_value(s.push(c), base) == digits_value(s, base) * base + digit_value(c),
        digits_value(seq![], base) == 0,
{
    assert(s.push(c).drop_last() =~= s);
}

/// A number is read from digits, after a plus sign or not, where it is not too
/// large.
pub proof fn law_number_is_read(s: Seq<char>, base: nat, max: nat)
    requires
        2 <= base <= 36,
        s.len() > 0,
        forall|i: int| 0 <= i < s.len() ==> digit_value(#[trigger] s[i]) < base,
    ensures
        digits_value(s, base) <= max ==> number(s, base, max) == Some(digits_value(s, base)),
        digits_value(s, base) <= max ==> number(seq!['+'] + s, base, max) == Some(
            digits_value(s, base),
        ),
        digits_value(s, base) > max ==> number(s, base, max) is None,
        digits_value(s, base) > max ==> number(seq!['+'] + s, base, max) is None,
{
    assert(digit_value(s[0]) < base);
    assert(s[0] != '+');
    assert((seq!['+'] + s).skip(1) =~= s);
}

/// What holds anything but digits and a plus sign in front is no number, and
/// neither is nothing.
pub proof fn law_other_texts_are_no_number(s: Seq<char>, base: nat, max: nat, i: int)
    requires
        2 <= base <= 36,
        s.len() == 0 || s == seq!['+'] || (0 <= i < s.len() && digit_value(s[i]) >= base && (i > 0
            || s[i] != '+')),
    ensures
        number(s, base, max) is None,
{
    let d = unsigned_part(s);
    if s.len() > 0 && s != seq!['+'] {
        if s[0] == '+' {
            assert(d[i - 1] == s[i]);
        } else {
            assert(d[i] == s[i]);
        }
    }
}

/// Decimal digits are the usual ones: 0 to 9 for themselves, and the last digit of a
/// larger number after the digits of its tenth.
pub proof fn law_decimal_digits(n: nat, d: nat)
    requires
        d < 10,
    ensures
        decimal(d) == seq![(48 + d) as u32 as char],
        n > 0 ==> decimal(n * 10 + d) == decimal(n).push((48 + d) as u32 as char),
{
    if n > 0 {
        assert((n * 10 + d) / 10 == n);
        assert((n * 10 + d) % 10 == d);
    }
}

/// Hexadecimal digits are the usual ones, in lower case.
pub proof fn law_hexadecimal_digits(n: nat, d: nat)
    requires
        d < 16,
    ensures
        ({
            let c = if d < 10 {
                (48 + d) as u32 as char
            } else {
                (97 + (d - 10)) as u32 as char
            };
            &&& spelled(d, 16) == seq![c]
            &&& n > 0 ==> spelled(n * 16 + d, 16) == spelled(n, 16).push(c)
        }),
{
    if n > 0 {
        assert((n * 16 + d) / 16 == n);
        assert((n * 16 + d) % 16 == d);
    }
}

/// A negative number is its magnitude after a minus sign; no other has a sign.
pub proof fn law_signed_decimals(n: nat)
    ensures
        signed_decimal(n as int) == decimal(n),
        n > 0 ==> signed_decimal(-(n as int)) == seq!['-'] + decimal(n),
{
}

/// Joining puts the separator between each part and the next, and nowhere else.
pub proof fn law_joining(parts: Seq<Seq<char>>, last: Seq<char>, sep: Seq<char>)
    ensures
        joined(seq![], sep) == Seq::<char>::empty(),
        joined(seq![last], sep) == last,
        parts.len() > 0 ==> joined(parts.push(last), sep) == joined(parts, sep) + sep + last,
{
    assert(parts.push(last).drop_last() =~= parts);
}

/// Words are runs without white space: white space in front is skipped, and a word
/// ends where white space or the text does.
pub proof fn law_words(space: Seq<char>, word: Seq<char>, rest: Seq<char>)
    requires
        all_white(space),
        word.len() > 0,
        forall|i: int| 0 <= i < word.len() ==> !white(#[trigger] word[i]),
        rest.len() > 0 ==> white(rest[0]),
    ensures
        words(space + word + rest) == seq![word] + words(rest),
        words(space) == Seq::<Seq<char>>::empty(),
{
    lemma_words_after_space(space, word + rest);
    lemma_words_after_space(space, seq![]);
    lemma_first_word(word, rest);
    assert(space + word + rest =~= space + (word + rest));
    assert(space + Seq::<char>::empty() =~= space);
    assert(words(seq![]) =~= seq![]);
}

proof fn lemma_words_after_space(space: Seq<char>, rest: Seq<char>)
    requires
        all_white(space),
    ensures
        words(space + rest) == words(rest),
    decreases space.len(),
{
    if space.len() == 0 {
        assert(space + rest =~= rest);
    } else {
        let fewer = space.skip(1);
        assert forall|i: int| 0 <= i < fewer.len() implies white(#[trigger] fewer[i]) by {
            assert(fewer[i] == space[i + 1]);
        }
        lemma_words_after_space(fewer, rest);
        assert(white(space[0]));
        lemma_words_skip(space[0], fewer + rest);
        assert(space + rest =~= seq![space[0]] + (fewer + rest));
    }
}

} // verus!
