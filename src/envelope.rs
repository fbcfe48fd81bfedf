//! The envelope around the three encoded tables, in Protobuf wire format:
//!
//!   ResourceEvents { instrumentation_library_events = 2 (one message) }
//!   InstrumentationLibraryEvents { spans = 2, events = 3, links = 4 (bytes) }
//!
//! Unset parts (resource, instrumentation library, an empty schema URL, an
//! empty buffer) are left out, as Protobuf writes default values.
use vstd::prelude::*;

verus! {

/// Base-128 varint: seven bits per byte, least significant group first, the
/// high bit set on every byte but the last.
pub open spec fn varint(v: nat) -> Seq<u8>
    decreases v,
{
    if v < 128 {
        seq![v as u8]
    } else {
        seq![((v % 128) + 128) as u8] + varint(v / 128)
    }
}

/// A length-delimited field (wire type 2) with key byte `key`.
pub open spec fn length_delimited(key: u8, b: Seq<u8>) -> Seq<u8> {
    seq![key] + varint(b.len()) + b
}

/// A bytes field, left out when empty.
pub open spec fn bytes_field(key: u8, b: Seq<u8>) -> Seq<u8> {
    if b.len() == 0 {
        Seq::empty()
    } else {
        length_delimited(key, b)
    }
}

pub open spec fn library_events_bytes(spans: Seq<u8>, events: Seq<u8>, links: Seq<u8>) -> Seq<u8> {
    bytes_field(0x12, spans) + bytes_field(0x1a, events) + bytes_field(0x22, links)
}

/// The encoded envelope around three table buffers.
pub open spec fn envelope_bytes(spans: Seq<u8>, events: Seq<u8>, links: Seq<u8>) -> Seq<u8> {
    length_delimited(0x12, library_events_bytes(spans, events, links))
}

/// The varint at `pos` and the position after it, if the bytes hold one of
/// at most `k` bytes.
pub open spec fn varint_at(b: Seq<u8>, pos: int, k: nat) -> Option<(nat, int)>
    decreases k,
{
    if k == 0 || pos < 0 || pos >= b.len() {
        None
    } else if b[pos] < 128 {
        Some((b[pos] as nat, pos + 1))
    } else {
        match varint_at(b, pos + 1, (k - 1) as nat) {
            Some((r, p)) => Some(((b[pos] - 128) as nat + 128 * r, p)),
            None => None,
        }
    }
}

/// An optional bytes field with key `key` at `pos`, within `end`: its bytes
/// and the position after it; an absent field is empty.
pub open spec fn bytes_field_at(b: Seq<u8>, pos: int, end: int, key: u8) -> Option<(Seq<u8>, int)> {
    if pos < end && b[pos] == key {
        match varint_at(b, pos + 1, 10) {
            Some((n, p)) => if p + n <= end {
                Some((b.subrange(p, p + n), p + n))
            } else {
                None
            },
            None => None,
        }
    } else {
        Some((Seq::empty(), pos))
    }
}

/// The three buffers of an `InstrumentationLibraryEvents` message that fills
/// `b[start..end]`.
pub open spec fn library_events_at(b: Seq<u8>, start: int, end: int) -> Option<(Seq<u8>, Seq<u8>, Seq<u8>)> {
    match bytes_field_at(b, start, end, 0x12) {
        Some((s, after_spans)) => match bytes_field_at(b, after_spans, end, 0x1a) {
            Some((e, after_events)) => match bytes_field_at(b, after_events, end, 0x22) {
                Some((l, after_links)) => if after_links == end {
                    Some((s, e, l))
                } else {
                    None
                },
                None => None,
            },
            None => None,
        },
        None => None,
    }
}

/// The three buffers of an envelope, if `b` is one.
pub open spec fn envelope_at(b: Seq<u8>) -> Option<(Seq<u8>, Seq<u8>, Seq<u8>)> {
    if b.len() > 0 && b[0] == 0x12 {
        match varint_at(b, 1, 10) {
            Some((n, p)) => if p + n == b.len() {
                library_events_at(b, p, p + n)
            } else {
                None
            },
            None => None,
        }
    } else {
        None
    }
}

/// Appends the varint of `v`.
fn write_varint(buf: &mut Vec<u8>, v: u64)
    ensures
        final(buf)@ == old(buf)@ + varint(v as nat),
{
    let ghost start = buf@;
    let mut x: u64 = v;
    let ghost mut written: Seq<u8> = Seq::empty();
    while x >= 128
        invariant
            buf@ == start + written,
            written + varint(x as nat) == varint(v as nat),
        decreases x,
    {
        let byte: u8 = (x % 128 + 128) as u8;
        buf.push(byte);
        proof {
            assert(varint(x as nat) == seq![byte] + varint((x / 128) as nat));
            assert(written + varint(x as nat) =~= written.push(byte) + varint((x / 128) as nat));
            written = written.push(byte);
        }
        x = x / 128;
    }
    buf.push(x as u8);
    proof {
        assert(varint(x as nat) == seq![x as u8]);
        assert(buf@ =~= start + (written + varint(x as nat)));
    }
}

fn write_bytes_field(buf: &mut Vec<u8>, key: u8, b: &[u8])
    ensures
        final(buf)@ == old(buf)@ + bytes_field(key, b@),
{
    if b.len() == 0 {
        assert(old(buf)@ + bytes_field(key, b@) =~= old(buf)@);
        return;
    }
    let ghost start = buf@;
    buf.push(key);
    write_varint(buf, b.len() as u64);
    let ghost mid = buf@;
    let n = b.len();
    let mut i: usize = 0;
    while i < n
        invariant
            n == b@.len(),
            i <= n,
            buf@ == mid + b@.take(i as int),
        decreases n - i,
    {
        buf.push(b[i]);
        assert(buf@ =~= mid + b@.take(i + 1));
        i += 1;
    }
    assert(b@.take(n as int) =~= b@);
    assert(buf@ =~= start + bytes_field(key, b@));
}

/// Encodes the envelope around the spans, events and links buffers.
pub fn encode_envelope(spans: &[u8], events: &[u8], links: &[u8]) -> (r: Vec<u8>)
    ensures
        r@ == envelope_bytes(spans@, events@, links@),
{
    let mut inner: Vec<u8> = Vec::new();
    write_bytes_field(&mut inner, 0x12, spans);
    write_bytes_field(&mut inner, 0x1a, events);
    write_bytes_field(&mut inner, 0x22, links);
    assert(inner@ =~= library_events_bytes(spans@, events@, links@));
    let mut out: Vec<u8> = Vec::new();
    write_bytes_field_always(&mut out, 0x12, inner.as_slice());
    out
}

fn write_bytes_field_always(buf: &mut Vec<u8>, key: u8, b: &[u8])
    ensures
        final(buf)@ == old(buf)@ + length_delimited(key, b@),
{
    let ghost start = buf@;
    buf.push(key);
    write_varint(buf, b.len() as u64);
    let ghost mid = buf@;
    let n = b.len();
    let mut i: usize = 0;
    while i < n
        invariant
            n == b@.len(),
            i <= n,
            buf@ == mid + b@.take(i as int),
        decreases n - i,
    {
        buf.push(b[i]);
        assert(buf@ =~= mid + b@.take(i + 1));
        i += 1;
    }
    assert(b@.take(n as int) =~= b@);
    assert(buf@ =~= start + length_delimited(key, b@));
}

proof fn lemma_varint_at_pos(b: Seq<u8>, pos: int, k: nat)
    ensures
        varint_at(b, pos, k) is Some ==> pos < varint_at(b, pos, k)->Some_0.1 <= b.len(),
    decreases k,
{
    if k > 0 && 0 <= pos < b.len() && b[pos] >= 128 {
        lemma_varint_at_pos(b, pos + 1, (k - 1) as nat);
    }
}

/// Reads the varint at `pos`, of at most `k` bytes; `None` also when its value
/// does not fit in 64 bits.
fn read_varint(b: &[u8], pos: usize, k: usize) -> (r: Option<(u64, usize)>)
    ensures
        match r {
            Some((v, p)) => varint_at(b@, pos as int, k as nat) == Some((v as nat, p as int)),
            None => varint_at(b@, pos as int, k as nat) is None || varint_at(
                b@,
                pos as int,
                k as nat,
            )->Some_0.0 > u64::MAX,
        },
    decreases k,
{
    if k == 0 || pos >= b.len() {
        return None;
    }
    let x = b[pos];
    if x < 128 {
        return Some((x as u64, pos + 1));
    }
    let low: u64 = (x - 128) as u64;
    match read_varint(b, pos + 1, k - 1) {
        None => None,
        Some((rest, p)) => {
            if rest > (u64::MAX - low) / 128 {
                proof {
                    let m = u64::MAX as int;
                    assert(rest as int * 128 + low as int > m) by (nonlinear_arith)
                        requires
                            rest as int > (m - low as int) / 128,
                            0 <= low as int <= 127,
                    ;
                }
                None
            } else {
                proof {
                    let m = u64::MAX as int;
                    assert(rest as int * 128 + low as int <= m) by (nonlinear_arith)
                        requires
                            rest as int <= (m - low as int) / 128,
                            0 <= low as int <= 127,
                    ;
                }
                Some((low + 128 * rest, p))
            }
        },
    }
}

fn copy_range(b: &[u8], start: usize, end: usize) -> (r: Vec<u8>)
    requires
        start <= end <= b@.len(),
    ensures
        r@ == b@.subrange(start as int, end as int),
{
    let mut r: Vec<u8> = Vec::new();
    let mut i: usize = start;
    while i < end
        invariant
            start <= i <= end,
            end <= b@.len(),
            r@ == b@.subrange(start as int, i as int),
        decreases end - i,
    {
        r.push(b[i]);
        assert(r@ =~= b@.subrange(start as int, i + 1));
        i += 1;
    }
    r
}

/// Reads an optional bytes field with key `key` at `pos`, within `end`.
fn read_bytes_field(b: &[u8], pos: usize, end: usize, key: u8) -> (r: Option<(Vec<u8>, usize)>)
    requires
        end <= b@.len(),
    ensures
        match r {
            Some((v, p)) => bytes_field_at(b@, pos as int, end as int, key) == Some((v@, p as int)),
            None => bytes_field_at(b@, pos as int, end as int, key) is None,
        },
{
    if pos < end && b[pos] == key {
        match read_varint(b, pos + 1, 10) {
            None => {
                proof {
                    let sv = varint_at(b@, pos + 1, 10);
                    if sv is Some {
                        let (v, q) = sv->Some_0;
                        assert(v > u64::MAX);
                        lemma_varint_at_pos(b@, pos + 1, 10);
                        assert(q + v > end);
                    }
                }
                None
            },
            Some((n, p)) => {
                if p <= end && n <= (end - p) as u64 {
                    let q = p + n as usize;
                    Some((copy_range(b, p, q), q))
                } else {
                    None
                }
            },
        }
    } else {
        Some((Vec::new(), pos))
    }
}

/// Decodes an envelope into its spans, events and links buffers; `None` when
/// `bytes` is not an envelope of that shape.
pub fn decode_envelope(bytes: &[u8]) -> (r: Option<(Vec<u8>, Vec<u8>, Vec<u8>)>)
    ensures
        match r {
            Some((s, e, l)) => envelope_at(bytes@) == Some((s@, e@, l@)),
            None => envelope_at(bytes@) is None,
        },
{
    if bytes.len() == 0 || bytes[0] != 0x12 {
        return None;
    }
    let (n, start) = match read_varint(bytes, 1, 10) {
        None => {
            proof {
                let sv = varint_at(bytes@, 1, 10);
                if sv is Some {
                    let (v, q) = sv->Some_0;
                    lemma_varint_at_pos(bytes@, 1, 10);
                    assert(q + v != bytes@.len());
                }
            }
            return None;
        },
        Some(x) => x,
    };
    proof {
        lemma_varint_at_pos(bytes@, 1, 10);
    }
    if start > bytes.len() || n != (bytes.len() - start) as u64 {
        return None;
    }
    let end = bytes.len();
    let (s, after_spans) = match read_bytes_field(bytes, start, end, 0x12) {
        None => return None,
        Some(x) => x,
    };
    let (e, after_events) = match read_bytes_field(bytes, after_spans, end, 0x1a) {
        None => return None,
        Some(x) => x,
    };
    let (l, after_links) = match read_bytes_field(bytes, after_events, end, 0x22) {
        None => return None,
        Some(x) => x,
    };
    if after_links != end {
        return None;
    }
    Some((s, e, l))
}

/// `128^m`.
pub open spec fn pow128(m: nat) -> nat
    decreases m,
{
    if m == 0 {
        1
    } else {
        128 * pow128((m - 1) as nat)
    }
}

proof fn lemma_varint_len(v: nat, m: nat)
    requires
        m >= 1,
        v < pow128(m),
    ensures
        varint(v).len() <= m,
    decreases m,
{
    if v >= 128 {
        if m == 1 {
            assert(pow128(1) == 128 * pow128(0));
        } else {
            assert(pow128(m) == 128 * pow128((m - 1) as nat));
            assert(v / 128 < pow128((m - 1) as nat));
            lemma_varint_len(v / 128, (m - 1) as nat);
        }
    }
}

proof fn lemma_varint_fits(v: nat)
    requires
        v <= u64::MAX,
    ensures
        varint(v).len() <= 10,
{
    assert(pow128(10) > u64::MAX) by {
        assert(pow128(0) == 1);
        assert(pow128(1) == 128);
        assert(pow128(2) == 0x4000);
        assert(pow128(3) == 0x20_0000);
        assert(pow128(4) == 0x1000_0000);
        assert(pow128(5) == 0x8_0000_0000);
        assert(pow128(6) == 0x400_0000_0000);
        assert(pow128(7) == 0x2_0000_0000_0000);
        assert(pow128(8) == 0x100_0000_0000_0000);
        assert(pow128(9) == 0x8000_0000_0000_0000);
        assert(pow128(10) == 0x40_0000_0000_0000_0000);
    }
    lemma_varint_len(v, 10);
}

/// The varint of `v`, read back where it was written, gives `v`.
proof fn lemma_varint_at(pre: Seq<u8>, v: nat, post: Seq<u8>, k: nat)
    requires
        varint(v).len() <= k,
    ensures
        varint_at(pre + varint(v) + post, pre.len() as int, k) == Some(
            (v, (pre.len() + varint(v).len()) as int),
        ),
    decreases v,
{
    let b = pre + varint(v) + post;
    if v < 128 {
        assert(b[pre.len() as int] == v as u8);
    } else {
        let byte = ((v % 128) + 128) as u8;
        let pre2 = pre.push(byte);
        assert(b =~= pre2 + varint(v / 128) + post);
        lemma_varint_at(pre2, v / 128, post, (k - 1) as nat);
        assert(b[pre.len() as int] == byte);
    }
}

proof fn lemma_bytes_field_at(pre: Seq<u8>, x: Seq<u8>, post: Seq<u8>, key: u8)
    requires
        x.len() <= u64::MAX,
        x.len() == 0 ==> post.len() == 0 || post[0] != key,
    ensures
        ({
            let b = pre + bytes_field(key, x) + post;
            bytes_field_at(b, pre.len() as int, b.len() as int, key) == Some(
                (x, (pre.len() + bytes_field(key, x).len()) as int),
            )
        }),
{
    let b = pre + bytes_field(key, x) + post;
    if x.len() == 0 {
        assert(b =~= pre + post);
        if post.len() > 0 {
            assert(b[pre.len() as int] == post[0]);
        }
    } else {
        lemma_varint_fits(x.len());
        let pre2 = pre.push(key);
        assert(b =~= pre2 + varint(x.len()) + (x + post));
        lemma_varint_at(pre2, x.len(), x + post, 10);
        let p = pre2.len() + varint(x.len()).len();
        assert(b.subrange(p as int, (p + x.len()) as int) =~= x);
        assert(b[pre.len() as int] == key);
    }
}

/// Decoding an encoded envelope gives back the three buffers.
pub proof fn lemma_envelope_round_trip(spans: Seq<u8>, events: Seq<u8>, links: Seq<u8>)
    requires
        spans.len() + events.len() + links.len() + 33 <= u64::MAX,
    ensures
        envelope_at(envelope_bytes(spans, events, links)) == Some((spans, events, links)),
{
    let f1 = bytes_field(0x12, spans);
    let f2 = bytes_field(0x1a, events);
    let f3 = bytes_field(0x22, links);
    let inner = library_events_bytes(spans, events, links);
    let b = envelope_bytes(spans, events, links);
    lemma_varint_fits(spans.len());
    lemma_varint_fits(events.len());
    lemma_varint_fits(links.len());
    assert(inner.len() <= u64::MAX);
    lemma_varint_fits(inner.len());
    let head = seq![0x12u8];
    assert(b =~= head + varint(inner.len()) + inner);
    lemma_varint_at(head, inner.len(), inner, 10);
    let start = 1 + varint(inner.len()).len();
    let pre = head + varint(inner.len());
    assert(b =~= pre + f1 + (f2 + f3));
    if spans.len() == 0 && f2.len() + f3.len() > 0 {
        if f2.len() > 0 {
            assert((f2 + f3)[0] == 0x1a);
        } else {
            assert((f2 + f3)[0] == f3[0]);
        }
    }
    lemma_bytes_field_at(pre, spans, f2 + f3, 0x12);
    assert(b =~= (pre + f1) + f2 + f3);
    if events.len() == 0 && f3.len() > 0 {
        assert(f3[0] == 0x22);
    }
    lemma_bytes_field_at(pre + f1, events, f3, 0x1a);
    assert(b =~= (pre + f1 + f2) + f3 + Seq::<u8>::empty());
    lemma_bytes_field_at(pre + f1 + f2, links, Seq::empty(), 0x22);
}

} // verus!
