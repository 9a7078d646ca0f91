//! The frame codec: header-delimited framing of protocol messages.
//!
//! A frame on the wire is a header line declaring the payload length
//! in decimal, a blank line, then exactly that many payload bytes:
//! `Content-Length: <n>`, carriage return, line feed, carriage
//! return, line feed, payload. Decoding accepts further header lines
//! between the length line and the blank line and ignores them, and
//! tolerates input arriving in arbitrary chunks: bytes are
//! accumulated and a message is emitted only once a complete header
//! block and full payload are present, with back-to-back frames in
//! one chunk all emitted in order.

use vstd::prelude::*;

verus! {

/// The header prefix: the bytes of `Content-Length: `.
pub open spec fn header_prefix() -> Seq<u8> {
    seq![
        67u8,
        111u8,
        110u8,
        116u8,
        101u8,
        110u8,
        116u8,
        45u8,
        76u8,
        101u8,
        110u8,
        103u8,
        116u8,
        104u8,
        58u8,
        32u8,
    ]
}

/// The blank-line terminator of the header block: carriage return,
/// line feed, carriage return, line feed.
pub open spec fn blank_line() -> Seq<u8> {
    seq![13u8, 10u8, 13u8, 10u8]
}

/// An ASCII decimal digit.
pub open spec fn is_digit(b: u8) -> bool {
    48 <= b <= 57
}

/// Every byte of the sequence is an ASCII decimal digit.
pub open spec fn all_digits(s: Seq<u8>) -> bool {
    forall|i: int| 0 <= i < s.len() ==> is_digit(s[i])
}

/// The decimal digits of `n`, most significant first.
pub open spec fn dec_digits(n: nat) -> Seq<u8>
    decreases n,
{
    if n < 10 {
        seq![(48 + n) as u8]
    } else {
        dec_digits(n / 10) + seq![(48 + n % 10) as u8]
    }
}

/// The value of a sequence of decimal digits.
pub open spec fn dec_val(s: Seq<u8>) -> nat
    decreases s.len(),
{
    if s.len() == 0 {
        0
    } else {
        (dec_val(s.drop_last()) * 10 + (s.last() - 48)) as nat
    }
}

/// Ten to the `k`.
pub open spec fn pow10(k: nat) -> nat
    decreases k,
{
    if k == 0 {
        1
    } else {
        10 * pow10((k - 1) as nat)
    }
}

/// Ten to the twentieth and twenty-first power, spelled out once:
/// every machine word is below the former.
pub proof fn lemma_pow10_values()
    ensures
        pow10(20) == 100000000000000000000nat,
        pow10(21) == 1000000000000000000000nat,
        (usize::MAX as nat) < pow10(20),
        (u128::MAX as nat) > pow10(21),
{
    reveal_with_fuel(pow10, 22);
}

/// The wire form of one payload: header prefix, decimal length,
/// blank line, then the payload bytes.
pub open spec fn encode_spec(p: Seq<u8>) -> Seq<u8> {
    header_prefix() + dec_digits(p.len()) + blank_line() + p
}

/// The decimal digits of a number are digits, and there is at least
/// one of them.
pub proof fn lemma_dec_digits_shape(n: nat)
    ensures
        all_digits(dec_digits(n)),
        dec_digits(n).len() >= 1,
    decreases n,
{
    if n >= 10 {
        lemma_dec_digits_shape(n / 10);
        assert forall|i: int| 0 <= i < dec_digits(n).len() implies is_digit(dec_digits(n)[i]) by {
            if i < dec_digits(n / 10).len() {
                assert(dec_digits(n)[i] == dec_digits(n / 10)[i]);
            } else {
                assert(dec_digits(n)[i] == (48 + n % 10) as u8);
            }
        }
    }
}

/// Reading back the decimal digits of `n` yields `n`.
pub proof fn lemma_dec_val_digits(n: nat)
    ensures
        dec_val(dec_digits(n)) == n,
    decreases n,
{
    if n < 10 {
        assert(dec_digits(n) == seq![(48 + n) as u8]);
        assert(dec_digits(n).drop_last() =~= Seq::<u8>::empty());
        assert(dec_val(Seq::<u8>::empty()) == 0);
        assert(dec_digits(n).last() == (48 + n) as u8);
        assert(dec_val(dec_digits(n)) == n);
    } else {
        lemma_dec_val_digits(n / 10);
        let a = dec_digits(n / 10);
        let d = (48 + n % 10) as u8;
        assert(dec_digits(n) == a + seq![d]);
        assert((a + seq![d]).drop_last() =~= a);
        assert((a + seq![d]).last() == d);
        assert(dec_val(dec_digits(n)) == (n / 10) * 10 + n % 10);
        assert((n / 10) * 10 + n % 10 == n) by {
            vstd::arithmetic::div_mod::lemma_fundamental_div_mod(n as int, 10);
        }
    }
}

/// The decimal digits of a positive number do not start with zero.
pub proof fn lemma_dec_digits_canonical(n: nat)
    requires
        n >= 1,
    ensures
        dec_digits(n)[0] != 48,
    decreases n,
{
    if n >= 10 {
        lemma_dec_digits_canonical(n / 10);
        assert(dec_digits(n)[0] == dec_digits(n / 10)[0]);
    }
}

/// A number below ten to the `k` has at most `k` decimal digits.
pub proof fn lemma_dec_digits_len_le(n: nat, k: nat)
    requires
        k >= 1,
        n < pow10(k),
    ensures
        dec_digits(n).len() <= k,
    decreases n,
{
    if n >= 10 {
        assert(pow10(k) == 10 * pow10((k - 1) as nat));
        assert(n / 10 < pow10((k - 1) as nat)) by {
            assert(n < 10 * pow10((k - 1) as nat));
        }
        assert(k >= 2) by {
            if k == 1 {
                assert(pow10(1nat) == 10);
            }
        }
        lemma_dec_digits_len_le(n / 10, (k - 1) as nat);
    }
}

/// Whether the blank-line terminator starts at position `i`.
pub open spec fn blank_at(b: Seq<u8>, i: int) -> bool {
    &&& b[i] == 13
    &&& b[i + 1] == 10
    &&& b[i + 2] == 13
    &&& b[i + 3] == 10
}

/// The position of the first blank-line terminator at or after `i`,
/// if the bytes seen so far contain one.
pub open spec fn find_blank(b: Seq<u8>, i: nat) -> Option<nat>
    decreases b.len() - i,
{
    if i + 4 > b.len() {
        Option::None
    } else if blank_at(b, i as int) {
        Option::Some(i)
    } else {
        find_blank(b, (i + 1) as nat)
    }
}

/// The end of the line starting at `i`: the position of the first
/// carriage-return-line-feed pair at or after `i`, or the end of the
/// block if there is none.
pub open spec fn find_crlf(h: Seq<u8>, i: nat) -> nat
    decreases h.len() - i,
{
    if i + 2 > h.len() {
        h.len()
    } else if h[i as int] == 13 && h[i as int + 1] == 10 {
        i
    } else {
        find_crlf(h, (i + 1) as nat)
    }
}

/// The digit part of a header block: what follows the prefix on the
/// length-declaring first line.
pub open spec fn digits_of(h: Seq<u8>) -> Seq<u8> {
    h.subrange(16, find_crlf(h, 0) as int)
}

/// A well-formed header block: its first line is the prefix followed
/// by one to twenty decimal digits with no leading zero (zero itself
/// is one digit); any further header lines before the blank line are
/// ignored.
pub open spec fn header_ok(h: Seq<u8>) -> bool {
    &&& h.len() > 16
    &&& find_crlf(h, 0) > 16
    &&& h.subrange(0, 16) == header_prefix()
    &&& all_digits(digits_of(h))
    &&& digits_of(h).len() <= 20
    &&& (digits_of(h).len() == 1 || digits_of(h)[0] != 48)
}

/// A block without a carriage return has no line break: the first
/// line is the whole block.
pub proof fn lemma_find_crlf_whole(h: Seq<u8>, i: nat)
    requires
        forall|m: int| 0 <= m < h.len() ==> h[m] != 13,
        i <= h.len(),
    ensures
        find_crlf(h, i) == h.len(),
    decreases h.len() - i,
{
    if i + 2 <= h.len() {
        lemma_find_crlf_whole(h, (i + 1) as nat);
    }
}

/// The line end found lies between the start of the search and the
/// end of the block.
pub proof fn lemma_find_crlf_bounds(h: Seq<u8>, i: nat)
    requires
        i <= h.len(),
    ensures
        i <= find_crlf(h, i) <= h.len(),
    decreases h.len() - i,
{
    if i + 2 <= h.len() && !(h[i as int] == 13 && h[i as int + 1] == 10) {
        lemma_find_crlf_bounds(h, (i + 1) as nat);
    }
}

/// The payload length a well-formed header declares.
pub open spec fn header_value(h: Seq<u8>) -> nat {
    dec_val(digits_of(h))
}

/// What one decode attempt on accumulated bytes yields.
pub enum SpecDecoded {
    /// No complete header, or the payload is not all there yet.
    NeedMore,
    /// The header block is present but not well formed, or the
    /// declared length does not fit the machine.
    Malformed,
    /// One complete frame: its payload, and how many bytes of the
    /// buffer it occupied.
    Frame(Seq<u8>, int),
}

/// Decoding one frame from the front of the accumulated bytes.
pub open spec fn decode_spec(b: Seq<u8>) -> SpecDecoded {
    match find_blank(b, 0) {
        Option::None => SpecDecoded::NeedMore,
        Option::Some(i) => {
            let h = b.subrange(0, i as int);
            if !header_ok(h) {
                SpecDecoded::Malformed
            } else if header_value(h) > usize::MAX as nat {
                SpecDecoded::Malformed
            } else if b.len() < i + 4 + header_value(h) {
                SpecDecoded::NeedMore
            } else {
                SpecDecoded::Frame(
                    b.subrange(i as int + 4, i as int + 4 + header_value(h) as int),
                    i as int + 4 + header_value(h) as int,
                )
            }
        },
    }
}

/// A found terminator lies within the buffer, at or after the start
/// of the search.
pub proof fn lemma_find_blank_bounds(b: Seq<u8>, j: nat, i: nat)
    requires
        find_blank(b, j) == Option::Some(i),
    ensures
        j <= i,
        i + 4 <= b.len(),
        blank_at(b, i as int),
    decreases b.len() - j,
{
    if j + 4 <= b.len() && !blank_at(b, j as int) {
        lemma_find_blank_bounds(b, (j + 1) as nat, i);
    }
}

/// No terminator starts before the one the search found.
pub proof fn lemma_find_blank_none_before(b: Seq<u8>, j: nat, i: nat, m: int)
    requires
        find_blank(b, j) == Option::Some(i),
        j <= m < i,
    ensures
        !blank_at(b, m),
    decreases b.len() - j,
{
    lemma_find_blank_bounds(b, j, i);
    if m > j {
        lemma_find_blank_none_before(b, (j + 1) as nat, i, m);
    }
}

/// A terminator with none before it is the one the search finds.
pub proof fn lemma_find_blank_first(b: Seq<u8>, j: nat, i: nat)
    requires
        j <= i,
        i + 4 <= b.len(),
        blank_at(b, i as int),
        forall|m: int| j <= m < i ==> !blank_at(b, m),
    ensures
        find_blank(b, j) == Option::Some(i),
    decreases i - j,
{
    if j < i {
        lemma_find_blank_first(b, (j + 1) as nat, i);
    }
}

/// Appending bytes does not move an already-found terminator.
pub proof fn lemma_find_blank_extend(b: Seq<u8>, e: Seq<u8>, j: nat, i: nat)
    requires
        find_blank(b, j) == Option::Some(i),
    ensures
        find_blank(b + e, j) == Option::Some(i),
    decreases b.len() - j,
{
    lemma_find_blank_bounds(b, j, i);
    if blank_at(b, j as int) && j + 4 <= b.len() {
        assert(blank_at(b + e, j as int));
    } else {
        assert(!blank_at(b + e, j as int));
        lemma_find_blank_extend(b, e, (j + 1) as nat, i);
    }
}

/// Appending bytes to a buffer whose front already decodes as a frame
/// leaves that frame, and the bytes it occupies, unchanged.
pub proof fn lemma_decode_extend(b: Seq<u8>, e: Seq<u8>, p: Seq<u8>, k: int)
    requires
        decode_spec(b) == SpecDecoded::Frame(p, k),
    ensures
        decode_spec(b + e) == SpecDecoded::Frame(p, k),
{
    let i = find_blank(b, 0)->0;
    lemma_find_blank_bounds(b, 0, i);
    lemma_find_blank_extend(b, e, 0, i);
    let h = b.subrange(0, i as int);
    let h2 = (b + e).subrange(0, i as int);
    assert(h2 =~= h);
    assert((b + e).subrange(i as int + 4, i as int + 4 + header_value(h) as int) =~= b.subrange(
        i as int + 4,
        i as int + 4 + header_value(h) as int,
    ));
}

/// Cutting a buffer right after a decoded frame leaves a buffer that
/// decodes as exactly that frame.
pub proof fn lemma_decode_trunc(b: Seq<u8>, p: Seq<u8>, k: int)
    requires
        decode_spec(b) == SpecDecoded::Frame(p, k),
    ensures
        decode_spec(b.subrange(0, k)) == SpecDecoded::Frame(p, k),
{
    let i = find_blank(b, 0)->0;
    lemma_find_blank_bounds(b, 0, i);
    let h = b.subrange(0, i as int);
    let d = b.subrange(0, k);
    assert(k == i as int + 4 + header_value(h) as int);
    assert(blank_at(d, i as int));
    assert forall|m: int| 0 <= m < i implies !blank_at(d, m) by {
        lemma_find_blank_none_before(b, 0, i, m);
    }
    lemma_find_blank_first(d, 0, i);
    assert(d.subrange(0, i as int) =~= h);
    assert(d.subrange(i as int + 4, i as int + 4 + header_value(h) as int) =~= p);
}

/// Appends the header prefix bytes.
fn push_header_prefix(out: &mut Vec<u8>)
    ensures
        final(out)@ == old(out)@ + header_prefix(),
{
    out.push(67u8);
    out.push(111u8);
    out.push(110u8);
    out.push(116u8);
    out.push(101u8);
    out.push(110u8);
    out.push(116u8);
    out.push(45u8);
    out.push(76u8);
    out.push(101u8);
    out.push(110u8);
    out.push(103u8);
    out.push(116u8);
    out.push(104u8);
    out.push(58u8);
    out.push(32u8);
    proof {
        assert(out@ =~= old(out)@ + header_prefix());
    }
}

/// Appends the decimal digits of `n`, most significant first.
fn push_decimal(out: &mut Vec<u8>, n: usize)
    ensures
        final(out)@ == old(out)@ + dec_digits(n as nat),
    decreases n,
{
    if n < 10 {
        out.push((48 + n) as u8);
        proof {
            assert(out@ =~= old(out)@ + dec_digits(n as nat));
        }
    } else {
        push_decimal(out, n / 10);
        out.push((48 + n % 10) as u8);
        proof {
            assert(out@ =~= old(out)@ + dec_digits(n as nat));
        }
    }
}

/// Encodes one payload into its wire form: the header with the
/// correct computed payload length, immediately followed by the exact
/// payload bytes, as one unit.
pub fn encode_frame(payload: &Vec<u8>) -> (out: Vec<u8>)
    ensures
        out@ == encode_spec(payload@),
{
    let mut out: Vec<u8> = Vec::new();
    push_header_prefix(&mut out);
    push_decimal(&mut out, payload.len());
    out.push(13u8);
    out.push(10u8);
    out.push(13u8);
    out.push(10u8);
    let ghost head = header_prefix() + dec_digits(payload@.len()) + blank_line();
    proof {
        assert(out@ =~= head);
    }
    let mut i: usize = 0;
    while i < payload.len()
        invariant
            i <= payload.len(),
            out@ == head + payload@.subrange(0, i as int),
        decreases payload.len() - i,
    {
        out.push(payload[i]);
        proof {
            assert(out@ =~= head + payload@.subrange(0, i + 1 as int));
        }
        i = i + 1;
    }
    proof {
        assert(payload@.subrange(0, payload@.len() as int) =~= payload@);
        assert(out@ =~= encode_spec(payload@));
    }
    out
}

} // verus!

verus! {

/// The bytes `c` decode, frame after frame with nothing left over,
/// to exactly the payloads `ms` in order.
pub open spec fn decodes_to(c: Seq<u8>, ms: Seq<Seq<u8>>) -> bool
    decreases ms.len(),
{
    if ms.len() == 0 {
        c.len() == 0
    } else {
        decode_spec(c) matches SpecDecoded::Frame(p, k) && p == ms[0] && 0 < k <= c.len()
            && decodes_to(c.subrange(k, c.len() as int), ms.drop_first())
    }
}

/// The wire form of a whole sequence of payloads, back to back.
pub open spec fn wire_of(ps: Seq<Seq<u8>>) -> Seq<u8>
    decreases ps.len(),
{
    if ps.len() == 0 {
        Seq::empty()
    } else {
        encode_spec(ps[0]) + wire_of(ps.drop_first())
    }
}

/// The wire form of one more payload is one more encoding at the
/// end of the wire.
pub proof fn lemma_wire_of_push(ps: Seq<Seq<u8>>, p: Seq<u8>)
    ensures
        wire_of(ps.push(p)) == wire_of(ps) + encode_spec(p),
    decreases ps.len(),
{
    if ps.len() == 0 {
        assert(ps.push(p)[0] == p);
        assert(ps.push(p).drop_first() =~= Seq::<Seq<u8>>::empty());
        assert(wire_of(Seq::<Seq<u8>>::empty()) == Seq::<u8>::empty());
        assert(wire_of(ps.push(p)) =~= wire_of(ps) + encode_spec(p));
    } else {
        assert(ps.push(p)[0] == ps[0]);
        assert(ps.push(p).drop_first() =~= ps.drop_first().push(p));
        lemma_wire_of_push(ps.drop_first(), p);
        assert(wire_of(ps.push(p)) =~= wire_of(ps) + encode_spec(p));
    }
}

/// No byte of the header prefix is a carriage return.
proof fn lemma_header_prefix_no_cr()
    ensures
        forall|m: int| 0 <= m < 16 ==> #[trigger] header_prefix()[m] != 13,
{
}

/// Where each part of an encoded frame, followed by arbitrary bytes,
/// lies in the whole.
proof fn lemma_encode_layout(p: Seq<u8>, e: Seq<u8>)
    ensures
        (encode_spec(p) + e).len() == 16 + dec_digits(p.len()).len() + 4 + p.len() + e.len(),
        forall|m: int|
            0 <= m < 16 ==> (encode_spec(p) + e)[m] == #[trigger] header_prefix()[m],
        forall|m: int|
            16 <= m < 16 + dec_digits(p.len()).len() ==> (encode_spec(p) + e)[m]
                == #[trigger] dec_digits(p.len())[m - 16],
        blank_at(encode_spec(p) + e, 16 + dec_digits(p.len()).len() as int),
        forall|m: int|
            0 <= m < p.len() ==> (encode_spec(p) + e)[16 + dec_digits(p.len()).len() + 4 + m]
                == #[trigger] p[m],
{
    let ds = dec_digits(p.len());
    let b = encode_spec(p) + e;
    let i = 16 + ds.len() as int;
    assert(b[i] == blank_line()[0]);
    assert(b[i + 1] == blank_line()[1]);
    assert(b[i + 2] == blank_line()[2]);
    assert(b[i + 3] == blank_line()[3]);
}

/// Round trip with a remainder: the encoding of a payload, whatever
/// follows it, decodes to that payload, consuming exactly the
/// encoding.
#[verifier::rlimit(100)]
pub proof fn lemma_decode_encode(p: Seq<u8>, e: Seq<u8>)
    requires
        p.len() <= usize::MAX as nat,
    ensures
        decode_spec(encode_spec(p) + e) == SpecDecoded::Frame(p, encode_spec(p).len() as int),
{
    let ds = dec_digits(p.len());
    let b = encode_spec(p) + e;
    let i = 16 + ds.len();
    lemma_dec_digits_shape(p.len());
    lemma_dec_val_digits(p.len());
    lemma_pow10_values();
    lemma_dec_digits_len_le(p.len(), 20);
    if p.len() >= 1 {
        lemma_dec_digits_canonical(p.len());
    }
    lemma_encode_layout(p, e);
    lemma_header_prefix_no_cr();
    assert forall|m: int| 0 <= m < i implies !blank_at(b, m) by {
        if m < 16 {
            assert(b[m] == header_prefix()[m]);
        } else {
            assert(b[m] == ds[m - 16]);
            assert(is_digit(ds[m - 16]));
        }
    }
    lemma_find_blank_first(b, 0, i as nat);
    let h = b.subrange(0, i as int);
    assert forall|m: int| 0 <= m < h.len() implies h[m] != 13 by {
        assert(h[m] == b[m]);
        if m >= 16 {
            assert(is_digit(ds[m - 16]));
        }
    }
    lemma_find_crlf_whole(h, 0);
    assert(digits_of(h) =~= ds);
    assert(h.subrange(0, 16) =~= header_prefix());
    assert(header_ok(h));
    assert(header_value(h) == p.len());
    assert(b.subrange(i as int + 4, i as int + 4 + p.len() as int) =~= p);
}

/// A buffer drained frame by frame determines the frames: the same
/// bytes never decode to two different message sequences.
pub proof fn lemma_decodes_to_unique(c: Seq<u8>, ms1: Seq<Seq<u8>>, ms2: Seq<Seq<u8>>)
    requires
        decodes_to(c, ms1),
        decodes_to(c, ms2),
    ensures
        ms1 == ms2,
    decreases ms1.len(),
{
    if ms1.len() == 0 {
        assert(c.len() == 0);
        if ms2.len() > 0 {
            assert(decode_spec(c) matches SpecDecoded::Frame(p, k) && 0 < k <= c.len());
        }
    } else {
        assert(ms2.len() > 0);
        let k = decode_spec(c)->Frame_1;
        let p = decode_spec(c)->Frame_0;
        lemma_decodes_to_unique(c.subrange(k, c.len() as int), ms1.drop_first(), ms2.drop_first());
        assert(ms1[0] == p);
        assert(ms2[0] == p);
        assert(ms1.drop_first() == ms2.drop_first());
        assert forall|i: int| 0 <= i < ms1.len() implies ms1[i] == ms2[i] by {
            if i > 0 {
                assert(ms1[i] == ms1.drop_first()[i - 1]);
                assert(ms2[i] == ms2.drop_first()[i - 1]);
            }
        }
        assert(ms1 =~= ms2);
    }
}

/// Consuming one more decoded frame extends a drained history: if
/// `c` decodes to `ms` and the front of `d` decodes to one frame,
/// then `c` plus that frame's bytes decodes to `ms` plus its payload.
pub proof fn lemma_decodes_to_append(
    c: Seq<u8>,
    ms: Seq<Seq<u8>>,
    d: Seq<u8>,
    p: Seq<u8>,
    k: int,
)
    requires
        decodes_to(c, ms),
        decode_spec(d) == SpecDecoded::Frame(p, k),
        0 < k <= d.len(),
    ensures
        decodes_to(c + d.subrange(0, k), ms.push(p)),
    decreases ms.len(),
{
    lemma_decode_trunc(d, p, k);
    if ms.len() == 0 {
        assert(c.len() == 0);
        assert(c + d.subrange(0, k) =~= d.subrange(0, k));
        assert(ms.push(p)[0] == p);
        assert(ms.push(p).drop_first() =~= Seq::<Seq<u8>>::empty());
        assert(d.subrange(0, k).subrange(k, k) =~= Seq::<u8>::empty());
        assert(decodes_to(d.subrange(0, k).subrange(k, d.subrange(0, k).len() as int),
            ms.push(p).drop_first()));
    } else {
        let k0 = decode_spec(c)->Frame_1;
        let p0 = decode_spec(c)->Frame_0;
        lemma_decode_extend(c, d.subrange(0, k), p0, k0);
        let cc = c + d.subrange(0, k);
        assert(cc.subrange(k0, cc.len() as int) =~= c.subrange(k0, c.len() as int) + d.subrange(
            0,
            k,
        ));
        lemma_decodes_to_append(c.subrange(k0, c.len() as int), ms.drop_first(), d, p, k);
        assert(ms.push(p).drop_first() =~= ms.drop_first().push(p));
        assert(ms.push(p)[0] == ms[0]);
        assert(decodes_to(cc, ms.push(p)));
    }
}

/// The wire form of any payload sequence decodes back to exactly
/// those payloads, in their original order, however the bytes are
/// later chunked.
pub proof fn lemma_wire_decodes(ps: Seq<Seq<u8>>)
    requires
        forall|i: int| 0 <= i < ps.len() ==> #[trigger] ps[i].len() <= usize::MAX as nat,
    ensures
        decodes_to(wire_of(ps), ps),
    decreases ps.len(),
{
    if ps.len() > 0 {
        let rest = wire_of(ps.drop_first());
        lemma_decode_encode(ps[0], rest);
        let b = wire_of(ps);
        let k = encode_spec(ps[0]).len() as int;
        assert(decode_spec(b) == SpecDecoded::Frame(ps[0], k));
        assert(b.subrange(k, b.len() as int) =~= rest);
        assert(forall|i: int|
            0 <= i < ps.drop_first().len() ==> #[trigger] ps.drop_first()[i].len()
                <= usize::MAX as nat);
        lemma_wire_decodes(ps.drop_first());
    }
}

/// Plain round trip: encoding one message and decoding the result
/// yields an equal message, with nothing left over.
pub proof fn lemma_round_trip(p: Seq<u8>)
    requires
        p.len() <= usize::MAX as nat,
    ensures
        decode_spec(encode_spec(p)) == SpecDecoded::Frame(p, encode_spec(p).len() as int),
{
    lemma_decode_encode(p, Seq::empty());
    assert(encode_spec(p) + Seq::<u8>::empty() =~= encode_spec(p));
}

} // verus!

verus! {

/// What one attempt to take a frame out of the decoder yielded.
#[derive(Debug, PartialEq)]
pub enum FrameStep {
    /// The accumulated bytes do not hold a complete frame yet.
    NeedMore,
    /// The accumulated bytes start with a malformed header or an
    /// invalid length: a protocol error ending this connection.
    Malformed,
    /// One complete decoded frame, removed from the buffer.
    Frame(Vec<u8>),
}

/// The incremental frame decoder: accumulates arbitrarily chunked
/// input and hands out complete frames in wire order.
pub struct FrameDecoder {
    buf: Vec<u8>,
    consumed: Ghost<Seq<u8>>,
    emitted: Ghost<Seq<Seq<u8>>>,
}

impl FrameDecoder {
    /// The accumulated bytes not yet consumed by a decoded frame.
    pub closed spec fn pending(&self) -> Seq<u8> {
        self.buf@
    }

    /// The bytes consumed by the frames emitted so far.
    pub closed spec fn consumed(&self) -> Seq<u8> {
        self.consumed@
    }

    /// Every frame emitted so far, in the order it lay on the wire.
    pub closed spec fn emitted(&self) -> Seq<Seq<u8>> {
        self.emitted@
    }

    /// Every byte ever fed to the decoder, in order.
    pub open spec fn fed(&self) -> Seq<u8> {
        self.consumed() + self.pending()
    }

    /// The decoder invariant: the consumed bytes decode to exactly
    /// the emitted frames, in order.
    pub closed spec fn wf(&self) -> bool {
        decodes_to(self.consumed@, self.emitted@)
    }

    /// A fresh decoder with nothing fed and nothing emitted.
    pub fn new() -> (d: Self)
        ensures
            d.wf(),
            d.pending() == Seq::<u8>::empty(),
            d.consumed() == Seq::<u8>::empty(),
            d.emitted() == Seq::<Seq<u8>>::empty(),
    {
        FrameDecoder { buf: Vec::new(), consumed: Ghost(Seq::empty()), emitted: Ghost(Seq::empty()) }
    }

    /// Accumulates one chunk of input, however the underlying reads
    /// happened to split the stream.
    pub fn feed(&mut self, chunk: &[u8])
        requires
            old(self).wf(),
        ensures
            final(self).wf(),
            final(self).pending() == old(self).pending() + chunk@,
            final(self).consumed() == old(self).consumed(),
            final(self).emitted() == old(self).emitted(),
    {
        let mut j: usize = 0;
        while j < chunk.len()
            invariant
                j <= chunk@.len(),
                self.buf@ == old(self).buf@ + chunk@.subrange(0, j as int),
                self.consumed@ == old(self).consumed@,
                self.emitted@ == old(self).emitted@,
            decreases chunk@.len() - j,
        {
            self.buf.push(chunk[j]);
            proof {
                assert(self.buf@ =~= old(self).buf@ + chunk@.subrange(0, j + 1 as int));
            }
            j = j + 1;
        }
        proof {
            assert(chunk@.subrange(0, chunk@.len() as int) =~= chunk@);
        }
    }
}

/// The position of the first blank-line terminator in the buffer.
fn find_blank_exec(buf: &Vec<u8>) -> (r: Option<usize>)
    ensures
        match r {
            Option::Some(i) => find_blank(buf@, 0) == Option::Some(i as nat),
            Option::None => find_blank(buf@, 0) is None,
        },
{
    if buf.len() < 4 {
        return Option::None;
    }
    let mut i: usize = 0;
    while i <= buf.len() - 4
        invariant
            buf@.len() >= 4,
            i <= buf@.len(),
            find_blank(buf@, 0) == find_blank(buf@, i as nat),
        decreases buf@.len() - i,
    {
        if buf[i] == 13 && buf[i + 1] == 10 && buf[i + 2] == 13 && buf[i + 3] == 10 {
            proof {
                assert(blank_at(buf@, i as int));
            }
            return Option::Some(i);
        }
        proof {
            assert(!blank_at(buf@, i as int));
        }
        i = i + 1;
    }
    Option::None
}

/// The end of the length-declaring first line within the first
/// `end` bytes of the buffer.
fn find_crlf_exec(buf: &Vec<u8>, end: usize) -> (r: usize)
    requires
        end <= buf@.len(),
    ensures
        r == find_crlf(buf@.subrange(0, end as int), 0),
{
    let ghost h = buf@.subrange(0, end as int);
    if end < 2 {
        return end;
    }
    let mut m: usize = 0;
    while m <= end - 2
        invariant
            end <= buf@.len(),
            2 <= end,
            m <= end,
            h == buf@.subrange(0, end as int),
            find_crlf(h, 0) == find_crlf(h, m as nat),
        decreases end - m,
    {
        if buf[m] == 13 && buf[m + 1] == 10 {
            proof {
                assert(h[m as int] == buf@[m as int]);
                assert(h[m as int + 1] == buf@[m as int + 1]);
                assert(find_crlf(h, m as nat) == m as nat);
            }
            return m;
        }
        proof {
            assert(h[m as int] == buf@[m as int]);
            assert(h[m as int + 1] == buf@[m as int + 1]);
            assert(find_crlf(h, m as nat) == find_crlf(h, (m + 1) as nat));
        }
        m = m + 1;
    }
    proof {
        assert(m as nat + 2 > h.len());
        assert(find_crlf(h, m as nat) == h.len());
    }
    end
}

/// The header prefix byte at one position.
fn prefix_byte(j: usize) -> (b: u8)
    requires
        j < 16,
    ensures
        b == header_prefix()[j as int],
{
    match j {
        0 => 67u8,
        1 => 111u8,
        2 => 110u8,
        3 => 116u8,
        4 => 101u8,
        5 => 110u8,
        6 => 116u8,
        7 => 45u8,
        8 => 76u8,
        9 => 101u8,
        10 => 110u8,
        11 => 103u8,
        12 => 116u8,
        13 => 104u8,
        14 => 58u8,
        _ => 32u8,
    }
}

} // verus!

verus! {

/// Ten to a larger power is no smaller.
pub proof fn lemma_pow10_mono(a: nat, b: nat)
    requires
        a <= b,
    ensures
        pow10(a) <= pow10(b),
    decreases b,
{
    if a < b {
        lemma_pow10_mono(a, (b - 1) as nat);
    }
}

impl FrameDecoder {
    /// How many accumulated bytes await decoding.
    pub fn pending_len(&self) -> (n: usize)
        ensures
            n == self.pending().len(),
    {
        self.buf.len()
    }

    /// Takes one complete frame out of the accumulated bytes if one
    /// is there, exactly as the decode specification on the pending
    /// bytes says: a decoded frame is removed from the buffer and
    /// appended to the emitted history; otherwise nothing changes.
    #[verifier::loop_isolation(false)]
    pub fn next_frame(&mut self) -> (r: FrameStep)
        requires
            old(self).wf(),
        ensures
            final(self).wf(),
            final(self).fed() == old(self).fed(),
            decode_spec(old(self).pending()) is NeedMore ==> r is NeedMore && *final(self) == *old(
                self,
            ),
            decode_spec(old(self).pending()) is Malformed ==> r is Malformed && *final(self)
                == *old(self),
            decode_spec(old(self).pending()) matches SpecDecoded::Frame(p, k) ==> {
                &&& r matches FrameStep::Frame(f) && f@ == p
                &&& final(self).pending() == old(self).pending().subrange(
                    k,
                    old(self).pending().len() as int,
                )
                &&& final(self).emitted() == old(self).emitted().push(p)
                &&& final(self).consumed() == old(self).consumed() + old(self).pending().subrange(
                    0,
                    k,
                )
            },
    {
        let ghost b = self.buf@;
        let found = find_blank_exec(&self.buf);
        let i = match found {
            Option::None => {
                return FrameStep::NeedMore;
            },
            Option::Some(i) => i,
        };
        proof {
            lemma_find_blank_bounds(b, 0, i as nat);
        }
        if i <= 16 {
            proof {
                assert(!header_ok(b.subrange(0, i as int)));
            }
            return FrameStep::Malformed;
        }
        let ln = find_crlf_exec(&self.buf, i);
        proof {
            lemma_find_crlf_bounds(b.subrange(0, i as int), 0);
        }
        if ln <= 16 {
            proof {
                assert(!header_ok(b.subrange(0, i as int)));
            }
            return FrameStep::Malformed;
        }
        let mut j: usize = 0;
        while j < 16
            invariant
                j <= 16,
                forall|m: int| 0 <= m < j ==> b[m] == header_prefix()[m],
            decreases 16 - j,
        {
            if self.buf[j] != prefix_byte(j) {
                proof {
                    assert(b.subrange(0, i as int).subrange(0, 16)[j as int] == b[j as int]);
                    assert(!header_ok(b.subrange(0, i as int)));
                }
                return FrameStep::Malformed;
            }
            j = j + 1;
        }
        let dlen = ln - 16;
        if dlen > 20 {
            proof {
                assert(digits_of(b.subrange(0, i as int)).len() == ln - 16);
                assert(!header_ok(b.subrange(0, i as int)));
            }
            return FrameStep::Malformed;
        }
        j = 16;
        while j < ln
            invariant
                16 <= j <= ln,
                forall|m: int| 16 <= m < j ==> is_digit(b[m]),
            decreases ln - j,
        {
            let c = self.buf[j];
            if c < 48 || c > 57 {
                proof {
                    assert(digits_of(b.subrange(0, i as int))[j - 16] == b[j as int]);
                    assert(!header_ok(b.subrange(0, i as int)));
                }
                return FrameStep::Malformed;
            }
            j = j + 1;
        }
        if dlen > 1 && self.buf[16] == 48 {
            proof {
                assert(digits_of(b.subrange(0, i as int))[0] == b[16]);
                assert(!header_ok(b.subrange(0, i as int)));
            }
            return FrameStep::Malformed;
        }
        let ghost h = b.subrange(0, i as int);
        proof {
            assert(find_crlf(h, 0) == ln as nat);
            assert(h.subrange(0, 16) =~= header_prefix());
            assert forall|m: int| 0 <= m < digits_of(h).len() implies is_digit(
                digits_of(h)[m],
            ) by {
                assert(digits_of(h)[m] == b[16 + m]);
            }
            assert(header_ok(h));
            assert(digits_of(h) =~= b.subrange(16, ln as int));
        }
        let mut val: u128 = 0;
        j = 16;
        while j < ln
            invariant
                16 <= j <= ln,
                val as nat == dec_val(b.subrange(16, j as int)),
                (val as nat) < pow10((j - 16) as nat),
            decreases ln - j,
        {
            proof {
                lemma_pow10_values();
                lemma_pow10_mono((j - 16) as nat, 20);
            }
            let d = self.buf[j] - 48;
            val = val * 10 + d as u128;
            proof {
                assert(b.subrange(16, j + 1 as int).drop_last() =~= b.subrange(16, j as int));
                assert(b.subrange(16, j + 1 as int).last() == b[j as int]);
            }
            j = j + 1;
        }
        proof {
            assert(val as nat == header_value(h));
        }
        if val > usize::MAX as u128 {
            return FrameStep::Malformed;
        }
        let n = val as usize;
        let avail = self.buf.len() - i - 4;
        if n > avail {
            proof {
                assert(b.len() < i as nat + 4 + header_value(h));
            }
            return FrameStep::NeedMore;
        }
        let total = i + 4 + n;
        let mut payload: Vec<u8> = Vec::new();
        let mut m = i + 4;
        while m < total
            invariant
                i + 4 <= m <= total,
                payload@ == b.subrange(i as int + 4, m as int),
            decreases total - m,
        {
            payload.push(self.buf[m]);
            proof {
                assert(payload@ =~= b.subrange(i as int + 4, m + 1 as int));
            }
            m = m + 1;
        }
        let mut rest: Vec<u8> = Vec::new();
        m = total;
        while m < self.buf.len()
            invariant
                total <= m <= b.len(),
                rest@ == b.subrange(total as int, m as int),
            decreases self.buf.len() - m,
        {
            rest.push(self.buf[m]);
            proof {
                assert(rest@ =~= b.subrange(total as int, m + 1 as int));
            }
            m = m + 1;
        }
        proof {
            assert(rest@ =~= b.subrange(total as int, b.len() as int));
            assert(decode_spec(b) == SpecDecoded::Frame(payload@, total as int));
        }
        let ghost oldc = self.consumed@;
        let ghost olde = self.emitted@;
        self.buf = rest;
        proof {
            self.consumed@ = oldc + b.subrange(0, total as int);
            self.emitted@ = olde.push(payload@);
            lemma_decodes_to_append(oldc, olde, b, payload@, total as int);
            assert((oldc + b.subrange(0, total as int)) + b.subrange(total as int, b.len() as int)
                =~= oldc + b);
        }
        FrameStep::Frame(payload)
    }
}

/// What the pump reports when the underlying stream ends: nothing if
/// it ended exactly between frames, a connection-closed error if it
/// ended in the middle of one.
pub fn end_of_stream_outcome(dec: &FrameDecoder) -> (r: Option<crate::error::AdapterError>)
    ensures
        r is Some <==> dec.pending().len() > 0,
        r is Some ==> r->0 == crate::error::AdapterError::ConnectionClosed,
{
    if dec.pending_len() > 0 {
        Option::Some(crate::error::AdapterError::ConnectionClosed)
    } else {
        Option::None
    }
}

/// Completeness of incremental decoding: however the wire form of a
/// payload sequence was chunked into feeds, once the decoder has
/// drained it (no pending bytes), the emitted frames are exactly the
/// original payloads, in their original order.
pub proof fn lemma_decoder_complete(d: &FrameDecoder, ps: Seq<Seq<u8>>)
    requires
        d.wf(),
        d.pending().len() == 0,
        d.fed() == wire_of(ps),
        forall|i: int| 0 <= i < ps.len() ==> #[trigger] ps[i].len() <= usize::MAX as nat,
    ensures
        d.emitted() == ps,
{
    lemma_wire_decodes(ps);
    assert(d.consumed() =~= d.fed());
    lemma_decodes_to_unique(d.consumed(), d.emitted(), ps);
}

} // verus!
