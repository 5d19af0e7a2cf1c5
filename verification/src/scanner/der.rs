//! Minimal DER encoder and tag-length-value reader.
//!
//! Just enough ASN.1 to build an OCSP request and walk an OCSP response: fixed
//! request shapes are assembled, and a response is navigated by position.

use vstd::prelude::*;
use vstd::slice::slice_subrange;

verus! {

/// `AlgorithmIdentifier` for SHA-1: `SEQUENCE { OID 1.3.14.3.2.26, NULL }`.
pub const ALGID_SHA1: [u8; 11] = [
    0x30,
    0x09,
    0x06,
    0x05,
    0x2b,
    0x0e,
    0x03,
    0x02,
    0x1a,
    0x05,
    0x00,
];

/// Number of contents lengths that the reader can take: those of four octets.
pub open spec fn readable_limit() -> nat {
    0x1_0000_0000
}

/// The shortest big-endian octets of `n`; none for zero.
pub open spec fn be_bytes(n: nat) -> Seq<u8>
    decreases n,
{
    if n == 0 {
        seq![]
    } else {
        be_bytes(n / 256).push((n % 256) as u8)
    }
}

/// The number that big-endian octets stand for.
pub open spec fn be_value(s: Seq<u8>) -> nat
    decreases s.len(),
{
    if s.len() == 0 {
        0
    } else {
        be_value(s.drop_last()) * 256 + s.last() as nat
    }
}

/// A definite DER length field: one octet below 128, else the count of octets
/// with the high bit set, then the octets.
pub open spec fn length_field(n: nat) -> Seq<u8> {
    if n < 0x80 {
        seq![n as u8]
    } else {
        seq![(0x80 + be_bytes(n).len()) as u8] + be_bytes(n)
    }
}

/// The encoding of a tag and its contents.
pub open spec fn encoding(tag: u8, content: Seq<u8>) -> Seq<u8> {
    seq![tag] + length_field(content.len()) + content
}

/// The contents octets of a non-negative `INTEGER`.
pub open spec fn integer_content(value: Seq<u8>) -> Seq<u8> {
    if value.len() == 0 {
        seq![0u8]
    } else if value[0] >= 0x80 {
        seq![0u8] + value
    } else {
        value
    }
}

/// What one tag-length-value triple holds.
pub struct TlvView {
    pub tag: u8,
    pub content: Seq<u8>,
    pub total_len: nat,
}

/// The contents length and the header length that `data` opens with, where its
/// header is complete and the length takes at most four octets.
pub open spec fn header_of(data: Seq<u8>) -> Option<(nat, nat)> {
    if data.len() < 2 {
        None
    } else if data[1] < 0x80 {
        Some((data[1] as nat, 2))
    } else {
        let n = (data[1] - 0x80) as nat;
        if n == 0 || n > 4 || data.len() < 2 + n {
            None
        } else {
            Some((be_value(data.subrange(2, 2 + n as int)), 2 + n))
        }
    }
}

/// The triple at the front of `data`.
pub open spec fn front_of(data: Seq<u8>) -> Option<TlvView> {
    match header_of(data) {
        None => None,
        Some((len, header)) => if data.len() < header + len {
            None
        } else {
            Some(
                TlvView {
                    tag: data[0],
                    content: data.subrange(header as int, (header + len) as int),
                    total_len: header + len,
                },
            )
        },
    }
}

/// The triples at the front of `data`, one after the other, up to the first
/// place where none can be read.
pub open spec fn children_of(data: Seq<u8>) -> Seq<TlvView>
    decreases data.len(),
{
    match front_of(data) {
        None => seq![],
        Some(t) => seq![t] + children_of(data.skip(t.total_len as int)),
    }
}

/// How many octets of `data` its children take up.
pub open spec fn children_extent(data: Seq<u8>) -> nat
    decreases data.len(),
{
    match front_of(data) {
        None => 0,
        Some(t) => t.total_len + children_extent(data.skip(t.total_len as int)),
    }
}

/// A parsed tag-length-value view borrowing the source buffer.
pub struct Tlv<'a> {
    pub tag: u8,
    pub content: &'a [u8],
    /// Total encoded size (header + content), used to advance to the next TLV.
    pub total_len: usize,
}

impl<'a> View for Tlv<'a> {
    type V = TlvView;

    open spec fn view(&self) -> TlvView {
        TlvView { tag: self.tag, content: self.content@, total_len: self.total_len as nat }
    }
}

/// What each of a list of triples holds.
pub open spec fn tlv_views(tlvs: Seq<Tlv<'_>>) -> Seq<TlvView> {
    Seq::new(tlvs.len(), |i: int| tlvs[i]@)
}

/// The shortest big-endian octets of `n`.
fn be_octets(n: usize) -> (r: Vec<u8>)
    ensures
        r@ == be_bytes(n as nat),
    decreases n,
{
    if n == 0 {
        Vec::new()
    } else {
        let mut r = be_octets(n / 256);
        r.push((n % 256) as u8);
        r
    }
}

/// Encode a DER length field (definite, short or long form).
pub fn encode_len(len: usize) -> (r: Vec<u8>)
    ensures
        r@ == length_field(len as nat),
{
    let mut out: Vec<u8> = Vec::new();
    if len < 0x80 {
        out.push(len as u8);
        return out;
    }
    let mut be = be_octets(len);
    proof {
        lemma_usize_octets(len);
    }
    out.push(0x80 + be.len() as u8);
    out.append(&mut be);
    out
}

/// Encode a tag-length-value triple.
pub fn tlv(tag: u8, content: &[u8]) -> (r: Vec<u8>)
    ensures
        r@ == encoding(tag, content@),
{
    let mut out: Vec<u8> = Vec::new();
    out.push(tag);
    let mut len = encode_len(content.len());
    out.append(&mut len);
    out.extend_from_slice(content);
    out
}

/// `SEQUENCE { content }`.
pub fn sequence(content: &[u8]) -> (r: Vec<u8>)
    ensures
        r@ == encoding(0x30, content@),
{
    tlv(0x30, content)
}

/// `OCTET STRING { content }`.
pub fn octet_string(content: &[u8]) -> (r: Vec<u8>)
    ensures
        r@ == encoding(0x04, content@),
{
    tlv(0x04, content)
}

/// `INTEGER` from raw value octets, inserting a leading `0x00` if the high bit
/// is set so the value stays positive. An empty input encodes as `0`.
pub fn integer(value: &[u8]) -> (r: Vec<u8>)
    ensures
        r@ == encoding(0x02, integer_content(value@)),
{
    if value.len() == 0 {
        let mut zero: Vec<u8> = Vec::new();
        zero.push(0);
        proof {
            assert(zero@ =~= integer_content(value@));
        }
        tlv(0x02, zero.as_slice())
    } else if value[0] >= 0x80 {
        let mut v: Vec<u8> = Vec::new();
        v.push(0);
        v.extend_from_slice(value);
        proof {
            assert(v@ =~= integer_content(value@));
        }
        tlv(0x02, v.as_slice())
    } else {
        tlv(0x02, value)
    }
}

/// Read a single DER TLV from the front of `data`. Returns `None` on any
/// truncation or unsupported (indefinite / >4-octet) length.
pub fn read_tlv(data: &[u8]) -> (r: Option<Tlv<'_>>)
    ensures
        match r {
            Some(t) => front_of(data@) == Some(t@),
            None => front_of(data@) is None,
        },
{
    if data.len() < 2 {
        return None;
    }
    let tag = data[0];
    let first = data[1];
    let mut content_len: usize = first as usize;
    let mut header_len: usize = 2;
    if first >= 0x80 {
        let n: usize = (first - 0x80) as usize;
        if n == 0 || n > 4 || data.len() < 2 + n {
            return None;
        }
        content_len = 0;
        let mut i: usize = 0;
        while i < n
            invariant
                0 <= i <= n <= 4,
                2 + n <= data@.len(),
                content_len as nat == be_value(data@.subrange(2, 2 + i)),
                i == 0 ==> content_len == 0,
                i == 1 ==> content_len < 0x100,
                i == 2 ==> content_len < 0x1_0000,
                i == 3 ==> content_len < 0x100_0000,
                i == 4 ==> content_len <= 0xffff_ffff,
            decreases n - i,
        {
            proof {
                let wider = data@.subrange(2, 2 + i + 1);
                assert(wider.drop_last() =~= data@.subrange(2, 2 + i));
                assert(wider.last() == data@[2 + i]);
            }
            content_len = content_len * 256 + data[2 + i] as usize;
            i += 1;
        }
        header_len = 2 + n;
    }
    if data.len() - header_len < content_len {
        return None;
    }
    let end = header_len + content_len;
    Some(Tlv { tag, content: slice_subrange(data, header_len, end), total_len: end })
}

/// Split a constructed value's content into its child TLVs in order.
pub fn children(content: &[u8]) -> (r: Vec<Tlv<'_>>)
    ensures
        tlv_views(r@) == children_of(content@),
{
    let mut out: Vec<Tlv<'_>> = Vec::new();
    let mut pos: usize = 0;
    proof {
        assert(content@.skip(0) =~= content@);
        assert(tlv_views(out@) + children_of(content@) =~= children_of(content@));
    }
    loop
        invariant_except_break
            0 <= pos <= content@.len(),
            children_of(content@) == tlv_views(out@) + children_of(content@.skip(pos as int)),
        ensures
            children_of(content@) == tlv_views(out@),
        decreases content@.len() - pos,
    {
        let rest = slice_subrange(content, pos, content.len());
        proof {
            assert(rest@ =~= content@.skip(pos as int));
        }
        match read_tlv(rest) {
            None => {
                proof {
                    assert(tlv_views(out@) + children_of(rest@) =~= tlv_views(out@));
                }
                break;
            },
            Some(t) => {
                let advance = t.total_len;
                let ghost before = out@;
                out.push(t);
                proof {
                    assert(rest@.skip(advance as int) =~= content@.skip(pos + advance));
                    assert(tlv_views(out@) =~= tlv_views(before).push(t@));
                    assert(tlv_views(before) + (seq![t@] + children_of(
                        content@.skip(pos + advance),
                    )) =~= tlv_views(out@) + children_of(content@.skip(pos + advance)));
                }
                pos = pos + advance;
            },
        }
    }
    out
}

/// 256 to the power `k`.
pub open spec fn pow256(k: nat) -> nat
    decreases k,
{
    if k == 0 {
        1
    } else {
        256 * pow256((k - 1) as nat)
    }
}

/// A number below 256 to the power `k` takes at most `k` octets.
proof fn lemma_octet_count(n: nat, k: nat)
    requires
        n < pow256(k),
    ensures
        be_bytes(n).len() <= k,
    decreases k,
{
    if n > 0 {
        lemma_octet_count(n / 256, (k - 1) as nat);
    }
}

/// A number of at least 256 to the power `k` takes more than `k` octets.
proof fn lemma_octet_count_above(n: nat, k: nat)
    requires
        n >= pow256(k),
    ensures
        be_bytes(n).len() > k,
    decreases k,
{
    if k > 0 {
        lemma_octet_count_above(n / 256, (k - 1) as nat);
    }
}

/// A `usize` takes at most eight octets.
proof fn lemma_usize_octets(n: usize)
    ensures
        be_bytes(n as nat).len() <= 8,
{
    reveal_with_fuel(pow256, 9);
    assert(pow256(8) == 0x1_0000_0000_0000_0000);
    lemma_octet_count(n as nat, 8);
}

/// Reading the shortest octets of a number gives the number back.
pub proof fn law_be_round_trip(n: nat)
    ensures
        be_value(be_bytes(n)) == n,
    decreases n,
{
    if n > 0 {
        law_be_round_trip(n / 256);
        assert(be_bytes(n).drop_last() =~= be_bytes(n / 256));
    }
}

/// What was encoded is read back: any tag, contents below 4 GiB, and whatever
/// octets follow.
pub proof fn law_read_back(tag: u8, content: Seq<u8>, rest: Seq<u8>)
    requires
        content.len() < readable_limit(),
    ensures
        front_of(encoding(tag, content) + rest) == Some(
            TlvView { tag, content, total_len: encoding(tag, content).len() },
        ),
{
    let n = content.len();
    let e = encoding(tag, content);
    let data = e + rest;
    if n < 0x80 {
        assert(data.subrange(2, 2 + n as int) =~= content);
    } else {
        reveal_with_fuel(pow256, 5);
        lemma_octet_count(n, 4);
        lemma_octet_count_above(n, 0);
        let k = be_bytes(n).len();
        assert(data[1] == (0x80 + k) as u8);
        assert(data.subrange(2, 2 + k as int) =~= be_bytes(n));
        law_be_round_trip(n);
        assert(data.subrange(2 + k as int, 2 + k + n as int) =~= content);
    }
}

/// Contents of 4 GiB and more are encoded but not read.
pub proof fn law_too_long_is_unread(tag: u8, content: Seq<u8>, rest: Seq<u8>)
    requires
        readable_limit() <= content.len() <= u64::MAX,
    ensures
        front_of(encoding(tag, content) + rest) is None,
{
    let n = content.len();
    reveal_with_fuel(pow256, 9);
    lemma_octet_count(n, 8);
    lemma_octet_count_above(n, 4);
    let data = encoding(tag, content) + rest;
    assert(data[1] == (0x80 + be_bytes(n).len()) as u8);
}

/// The encodings of a list of tags and contents, one after the other.
pub open spec fn encodings(items: Seq<(u8, Seq<u8>)>) -> Seq<u8>
    decreases items.len(),
{
    if items.len() == 0 {
        seq![]
    } else {
        encoding(items[0].0, items[0].1) + encodings(items.skip(1))
    }
}

/// The children of a list of encodings are the encoded items, in order.
pub proof fn law_children_of_encodings(items: Seq<(u8, Seq<u8>)>)
    requires
        forall|i: int| 0 <= i < items.len() ==> (#[trigger] items[i]).1.len() < readable_limit(),
    ensures
        children_of(encodings(items)) == Seq::new(
            items.len(),
            |i: int|
                TlvView {
                    tag: items[i].0,
                    content: items[i].1,
                    total_len: encoding(items[i].0, items[i].1).len(),
                },
        ),
    decreases items.len(),
{
    let all = encodings(items);
    if items.len() > 0 {
        let first = encoding(items[0].0, items[0].1);
        let rest = encodings(items.skip(1));
        law_read_back(items[0].0, items[0].1, rest);
        law_children_of_encodings(items.skip(1));
        assert(all.skip(first.len() as int) =~= rest);
    }
    assert(children_of(all) =~= Seq::new(
        items.len(),
        |i: int|
            TlvView {
                tag: items[i].0,
                content: items[i].1,
                total_len: encoding(items[i].0, items[i].1).len(),
            },
    ));
}

/// The children take up a prefix of the contents, and nothing can be read from
/// what is left.
pub proof fn law_children_leave_nothing_readable(data: Seq<u8>)
    ensures
        children_extent(data) <= data.len(),
        front_of(data.skip(children_extent(data) as int)) is None,
    decreases data.len(),
{
    match front_of(data) {
        None => {
            assert(data.skip(0) =~= data);
        },
        Some(t) => {
            let rest = data.skip(t.total_len as int);
            law_children_leave_nothing_readable(rest);
            assert(rest.skip(children_extent(rest) as int) =~= data.skip(
                children_extent(data) as int,
            ));
        },
    }
}

/// No contents are longer than the encodings they stand in.
pub proof fn lemma_contents_bound(items: Seq<(u8, Seq<u8>)>)
    ensures
        forall|i: int|
            0 <= i < items.len() ==> (#[trigger] items[i]).1.len() < encodings(items).len(),
    decreases items.len(),
{
    if items.len() > 0 {
        lemma_contents_bound(items.skip(1));
        assert forall|i: int| 0 <= i < items.len() implies (#[trigger] items[i]).1.len()
            < encodings(items).len() by {
            if i > 0 {
                assert(items[i] == items.skip(1)[i - 1]);
            }
        }
    }
}

/// An encoded `INTEGER` is never negative and keeps its value.
pub proof fn law_integer_keeps_value(value: Seq<u8>)
    ensures
        integer_content(value).len() > 0,
        integer_content(value)[0] < 0x80,
        be_value(integer_content(value)) == be_value(value),
{
    if value.len() == 0 {
        assert(seq![0u8].drop_last() =~= Seq::<u8>::empty());
        assert(be_value(seq![0u8]) == be_value(seq![0u8].drop_last()) * 256 + 0);
    } else {
        lemma_leading_zero(value);
    }
}

/// A zero octet in front changes no value.
proof fn lemma_leading_zero(value: Seq<u8>)
    ensures
        be_value(seq![0u8] + value) == be_value(value),
    decreases value.len(),
{
    let padded = seq![0u8] + value;
    if value.len() == 0 {
        assert(padded.drop_last() =~= value);
    } else {
        lemma_leading_zero(value.drop_last());
        assert(padded.drop_last() =~= seq![0u8] + value.drop_last());
    }
}

/// What is read is a part of the octets as they are: the first is the tag, and the
/// contents are those that end where the value ends.
pub proof fn law_front_is_a_part(data: Seq<u8>)
    requires
        front_of(data) is Some,
    ensures
        ({
            let t = front_of(data)->0;
            &&& t.tag == data[0]
            &&& 2 <= t.total_len - t.content.len() <= 6
            &&& t.total_len <= data.len()
            &&& t.content == data.subrange(t.total_len - t.content.len(), t.total_len as int)
        }),
{
    lemma_front_octets(data);
}

proof fn lemma_front_octets(data: Seq<u8>)
    requires
        front_of(data) is Some,
    ensures
        ({
            let (len, header) = header_of(data)->0;
            &&& 2 <= header <= 6
            &&& front_of(data)->0.content.len() == len
        }),
{
}

/// A length below 128 may stand in one octet, whatever follows.
pub proof fn law_short_length_is_read(tag: u8, content: Seq<u8>, rest: Seq<u8>)
    requires
        content.len() < 128,
    ensures
        front_of(seq![tag, content.len() as u8] + content + rest) == Some(
            TlvView { tag, content, total_len: content.len() + 2 },
        ),
{
    let data = seq![tag, content.len() as u8] + content + rest;
    assert(data[1] == content.len() as u8);
    assert(data.subrange(2, 2 + content.len() as int) =~= content);
}

/// A length may stand in one to four octets of its own, also with zeros in front,
/// whatever follows.
pub proof fn law_long_length_is_read(tag: u8, octets: Seq<u8>, content: Seq<u8>, rest: Seq<u8>)
    requires
        1 <= octets.len() <= 4,
        be_value(octets) == content.len(),
    ensures
        front_of(seq![tag, (0x80 + octets.len()) as u8] + octets + content + rest) == Some(
            TlvView { tag, content, total_len: 2 + octets.len() + content.len() },
        ),
{
    let data = seq![tag, (0x80 + octets.len()) as u8] + octets + content + rest;
    let k = octets.len() as int;
    assert(data[1] == (0x80 + octets.len()) as u8);
    assert(data.subrange(2, 2 + k) =~= octets);
    assert(data.subrange(2 + k, 2 + k + content.len() as int) =~= content);
}

/// The indefinite form, and lengths of more than four octets, are not read.
pub proof fn law_other_lengths_are_unread(data: Seq<u8>)
    requires
        data.len() >= 2,
        data[1] == 0x80 || data[1] > 0x84,
    ensures
        front_of(data) is None,
{
}

/// A value that is cut short anywhere is not read.
pub proof fn law_truncated_is_unread(data: Seq<u8>, n: int)
    requires
        front_of(data) is Some,
        0 <= n < front_of(data)->0.total_len,
    ensures
        front_of(data.take(n)) is None,
{
    let (len, header) = header_of(data)->0;
    let cut = data.take(n);
    if n >= header {
        assert(cut.subrange(2, header as int) =~= data.subrange(2, header as int));
    }
}

/// A number is the sum of its octets, each weighed by its place: one more octet
/// multiplies by 256 and adds.
pub proof fn law_octets_are_a_number(octets: Seq<u8>, last: u8)
    ensures
        be_value(octets.push(last)) == be_value(octets) * 256 + last,
        be_value(seq![]) == 0,
{
    assert(octets.push(last).drop_last() =~= octets);
}

/// A length field is the shortest: one octet below 128; else the count of the
/// octets that follow, with the high bit, and those octets with no zero in front.
pub proof fn law_length_field_is_shortest(n: nat)
    requires
        n <= u64::MAX,
    ensures
        n < 128 ==> length_field(n) == seq![n as u8],
        n >= 128 ==> {
            &&& 2 <= length_field(n).len() <= 9
            &&& length_field(n)[0] == 0x80 + (length_field(n).len() - 1)
            &&& length_field(n)[1] != 0
            &&& be_value(length_field(n).skip(1)) == n
        },
{
    if n >= 128 {
        reveal_with_fuel(pow256, 9);
        lemma_octet_count(n, 8);
        lemma_octet_count_above(n, 0);
        lemma_no_zero_in_front(n);
        law_be_round_trip(n);
        assert(length_field(n).skip(1) =~= be_bytes(n));
        assert(length_field(n)[1] == be_bytes(n)[0]);
    }
}

proof fn lemma_no_zero_in_front(n: nat)
    requires
        n > 0,
    ensures
        be_bytes(n).len() > 0,
        be_bytes(n)[0] != 0,
    decreases n,
{
    if n >= 256 {
        lemma_no_zero_in_front(n / 256);
        assert(be_bytes(n)[0] == be_bytes(n / 256)[0]);
    } else {
        assert(be_bytes(n / 256) =~= seq![]);
        assert(be_bytes(n)[0] == n as u8);
    }
}

/// An encoding is its tag, its length field and its contents.
pub proof fn law_encoding_parts(tag: u8, content: Seq<u8>)
    ensures
        encoding(tag, content)[0] == tag,
        encoding(tag, content).skip(
            encoding(tag, content).len() - content.len(),
        ) == content,
        encoding(tag, content).subrange(1, encoding(tag, content).len() - content.len())
            == length_field(content.len()),
{
    let e = encoding(tag, content);
    assert(e.skip(e.len() - content.len()) =~= content);
    assert(e.subrange(1, e.len() - content.len()) =~= length_field(content.len()));
}

/// An encoded `INTEGER` keeps its octets: nothing is taken away, and one zero comes
/// in front exactly where the first octet has its high bit set.
pub proof fn law_integer_keeps_octets(value: Seq<u8>)
    requires
        value.len() > 0,
    ensures
        integer_content(value).len() == value.len() + (if value[0] >= 0x80 {
            1int
        } else {
            0int
        }),
        integer_content(value).skip(integer_content(value).len() - value.len()) == value,
{
    let c = integer_content(value);
    assert(c.skip(c.len() - value.len()) =~= value);
}

/// The hash algorithm is SHA-1: the object identifier 1.3.14.3.2.26 and no
/// parameters.
pub proof fn law_sha1_identifier()
    ensures
        ALGID_SHA1@ == encoding(
            0x30,
            encoding(0x06, seq![0x2bu8, 0x0e, 0x03, 0x02, 0x1a]) + encoding(0x05, seq![]),
        ),
{
    let oid = encoding(0x06, seq![0x2bu8, 0x0e, 0x03, 0x02, 0x1a]);
    let null = encoding(0x05, seq![]);
    assert(oid =~= seq![0x06u8, 0x05, 0x2b, 0x0e, 0x03, 0x02, 0x1a]);
    assert(null =~= seq![0x05u8, 0x00]);
    assert(ALGID_SHA1@ =~= encoding(0x30, oid + null));
}

/// A header takes at most six octets where the contents can be read back.
pub proof fn lemma_encoding_len(tag: u8, content: Seq<u8>)
    requires
        content.len() < readable_limit(),
    ensures
        content.len() + 2 <= encoding(tag, content).len() <= content.len() + 6,
{
    reveal_with_fuel(pow256, 5);
    lemma_octet_count(content.len(), 4);
    if content.len() >= 128 {
        lemma_octet_count_above(content.len(), 0);
    }
}

/// Values are read one after the other: where one can be read it is the first child,
/// and the others are those of the octets after it; where none can be read there are
/// no children, whatever the octets.
pub proof fn law_children_one_by_one(data: Seq<u8>)
    ensures
        front_of(data) is None ==> children_of(data).len() == 0,
        front_of(data) is Some ==> {
            let t = front_of(data)->0;
            &&& children_of(data).len() > 0
            &&& children_of(data)[0] == t
            &&& children_of(data).skip(1) == children_of(data.skip(t.total_len as int))
        },
{
    if front_of(data) is Some {
        let t = front_of(data)->0;
        assert(children_of(data).skip(1) =~= children_of(data.skip(t.total_len as int)));
    }
}

} // verus!
