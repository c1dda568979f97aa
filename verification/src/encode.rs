//! Writing a header and samples out as the bytes of a canonical file, and the
//! proof that decoding those bytes gives both back.

use crate::cursor::{le_u16, le_u32, tag_ok, tag_text};
use crate::error::ParseError;
use crate::wav::{
    bad_tag, declared_len, four_byte_tags, header_of, lemma_decoded_tags, parse_outcome,
    payload_of, sample_le, samples_of, Header, HeaderView,
};
use vstd::prelude::*;
use vstd::utf8::*;

verus! {

/// The two bytes of `v`, low byte first.
pub open spec fn u16_bytes(v: int) -> Seq<u8>
    recommends
        0 <= v < 65536,
{
    seq![(v % 256) as u8, (v / 256) as u8]
}

/// The four bytes of `v`, low byte first.
pub open spec fn u32_bytes(v: int) -> Seq<u8>
    recommends
        0 <= v < 4294967296,
{
    seq![
        (v % 256) as u8,
        (v / 256 % 256) as u8,
        (v / 65536 % 256) as u8,
        (v / 16777216) as u8,
    ]
}

/// The unsigned 16-bit value with the same bits as `s`.
pub open spec fn sample_bits(s: i16) -> int {
    if s < 0 {
        s + 65536
    } else {
        s as int
    }
}

/// The bytes of `samples`, two for each, low byte first.
pub open spec fn payload_bytes(samples: Seq<i16>) -> Seq<u8> {
    Seq::new(2 * samples.len(), |j: int| u16_bytes(sample_bits(samples[j / 2]))[j % 2])
}

/// Whether every number of the header fits the width of its field.
pub open spec fn in_range(h: HeaderView) -> bool {
    &&& 0 <= h.chunk_size < 4294967296
    &&& 0 <= h.subchunk1_size < 4294967296
    &&& 0 <= h.audio_format < 65536
    &&& 0 <= h.num_channels < 65536
    &&& 0 <= h.sample_rate < 4294967296
    &&& 0 <= h.byte_rate < 4294967296
    &&& 0 <= h.block_align < 65536
    &&& 0 <= h.bits_per_sample < 65536
    &&& 0 <= h.subchunk2_size < 4294967296
}

/// The 44 bytes of a header.
pub open spec fn header_bytes(h: HeaderView) -> Seq<u8> {
    encode_utf8(h.chunk_id) + u32_bytes(h.chunk_size) + encode_utf8(h.format) + encode_utf8(
        h.subchunk1_id,
    ) + u32_bytes(h.subchunk1_size) + u16_bytes(h.audio_format) + u16_bytes(h.num_channels)
        + u32_bytes(h.sample_rate) + u32_bytes(h.byte_rate) + u16_bytes(h.block_align)
        + u16_bytes(h.bits_per_sample) + encode_utf8(h.subchunk2_id) + u32_bytes(
        h.subchunk2_size,
    )
}

/// The bytes of a file: the header, then the samples.
pub open spec fn wave_bytes(h: HeaderView, samples: Seq<i16>) -> Seq<u8> {
    header_bytes(h) + payload_bytes(samples)
}

/// Appends the two bytes of `v`, low byte first.
fn push_u16(out: &mut Vec<u8>, v: u16)
    ensures
        final(out)@ == old(out)@ + u16_bytes(v as int),
{
    out.push((v % 256) as u8);
    out.push((v / 256) as u8);
    assert(out@ =~= old(out)@ + u16_bytes(v as int));
}

/// Appends the four bytes of `v`, low byte first.
fn push_u32(out: &mut Vec<u8>, v: u32)
    ensures
        final(out)@ == old(out)@ + u32_bytes(v as int),
{
    out.push((v % 256) as u8);
    out.push((v / 256 % 256) as u8);
    out.push((v / 65536 % 256) as u8);
    out.push((v / 16777216) as u8);
    assert(out@ =~= old(out)@ + u32_bytes(v as int));
}

/// Appends the UTF-8 bytes of `tag`.
fn push_tag(out: &mut Vec<u8>, tag: &str)
    ensures
        final(out)@ == old(out)@ + encode_utf8(tag@),
{
    let bytes = tag.as_bytes();
    let n: usize = bytes.len();
    let mut i: usize = 0;
    while i < n
        invariant
            i <= n,
            n == bytes@.len(),
            out@ == old(out)@ + bytes@.take(i as int),
        decreases n - i,
    {
        out.push(bytes[i]);
        i += 1;
        assert(out@ =~= old(out)@ + bytes@.take(i as int));
    }
    assert(bytes@.take(n as int) =~= bytes@);
}

/// Whether `tag` takes four bytes as UTF-8.
fn four_bytes(tag: &str) -> (r: bool)
    ensures
        r == (encode_utf8(tag@).len() == 4),
{
    tag.as_bytes().len() == 4
}

/// The bytes of `header`.
fn write_header(header: &Header) -> (out: Vec<u8>)
    ensures
        out@ == header_bytes(header@),
{
    let mut out: Vec<u8> = Vec::new();
    assert(out@ + encode_utf8(header.chunk_id@) =~= encode_utf8(header.chunk_id@));
    push_tag(&mut out, header.chunk_id.as_str());
    push_u32(&mut out, header.chunk_size);
    push_tag(&mut out, header.format.as_str());
    push_tag(&mut out, header.subchunk1_id.as_str());
    push_u32(&mut out, header.subchunk1_size);
    push_u16(&mut out, header.audio_format);
    push_u16(&mut out, header.num_channels);
    push_u32(&mut out, header.sample_rate);
    push_u32(&mut out, header.byte_rate);
    push_u16(&mut out, header.block_align);
    push_u16(&mut out, header.bits_per_sample);
    push_tag(&mut out, header.subchunk2_id.as_str());
    push_u32(&mut out, header.subchunk2_size);
    out
}

/// Appends the bytes of `samples`.
fn push_samples(out: &mut Vec<u8>, samples: &[i16])
    ensures
        final(out)@ == old(out)@ + payload_bytes(samples@),
{
    let n: usize = samples.len();
    let ghost start = out@;
    let mut i: usize = 0;
    while i < n
        invariant
            i <= n,
            n == samples@.len(),
            start == old(out)@,
            out@.len() == start.len() + 2 * i,
            out@.subrange(0, start.len() as int) == start,
            forall|j: int|
                0 <= j < 2 * i ==> #[trigger] out@[start.len() + j] == payload_bytes(samples@)[j],
        decreases n - i,
    {
        let s: i16 = samples[i];
        let bits: u16 = if s < 0 {
            (s as i32 + 65536) as u16
        } else {
            s as u16
        };
        let ghost before = out@;
        push_u16(out, bits);
        proof {
            assert(out@.subrange(0, start.len() as int) =~= before.subrange(
                0,
                start.len() as int,
            ));
            assert forall|j: int| 0 <= j < 2 * (i + 1) implies #[trigger] out@[start.len() + j]
                == payload_bytes(samples@)[j] by {
                if j < 2 * i {
                    assert(out@[start.len() + j] == before[start.len() + j]);
                } else {
                    assert(j / 2 == i);
                }
            }
        }
        i += 1;
    }
    assert forall|k: int| 0 <= k < out@.len() implies out@[k] == (start + payload_bytes(
        samples@,
    ))[k] by {
        if k < start.len() {
            assert(out@[k] == out@.subrange(0, start.len() as int)[k]);
        } else {
            assert(out@[k] == out@[start.len() + (k - start.len())]);
        }
    }
    assert(out@ =~= start + payload_bytes(samples@));
}

/// Writes `header` and `samples` out as the bytes of a file. Nothing is
/// written unless each tag takes four bytes and the header declares the
/// length of `samples` in bytes.
pub fn encode(header: &Header, samples: &[i16]) -> (r: Option<Vec<u8>>)
    ensures
        four_byte_tags(header@) && header@.subchunk2_size == 2 * samples@.len() ==> (r matches Some(b)
            && b@ == wave_bytes(header@, samples@)),
        !(four_byte_tags(header@) && header@.subchunk2_size == 2 * samples@.len()) ==> r is None,
{
    let n: usize = samples.len();
    if !four_bytes(header.chunk_id.as_str()) || !four_bytes(header.format.as_str())
        || !four_bytes(header.subchunk1_id.as_str()) || !four_bytes(header.subchunk2_id.as_str())
        || header.subchunk2_size % 2 != 0 || (header.subchunk2_size / 2) as usize != n {
        return None;
    }
    let mut out = write_header(header);
    push_samples(&mut out, samples);
    Some(out)
}

/// Splitting a 16-bit value into bytes and joining them again changes nothing.
pub proof fn lemma_u16_bytes(b: Seq<u8>, at: int, v: int)
    requires
        0 <= v < 65536,
        0 <= at,
        at + 2 <= b.len(),
        b.subrange(at, at + 2) == u16_bytes(v),
    ensures
        le_u16(b, at) == v,
{
    let part = b.subrange(at, at + 2);
    assert(part[0] == b[at] && part[1] == b[at + 1]);
}

/// Splitting a 32-bit value into bytes and joining them again changes nothing.
pub proof fn lemma_u32_bytes(b: Seq<u8>, at: int, v: int)
    requires
        0 <= v < 4294967296,
        0 <= at,
        at + 4 <= b.len(),
        b.subrange(at, at + 4) == u32_bytes(v),
    ensures
        le_u32(b, at) == v,
{
    let part = b.subrange(at, at + 4);
    assert(part[0] == b[at] && part[1] == b[at + 1] && part[2] == b[at + 2] && part[3] == b[at
        + 3]);
}

/// A tag that was written as UTF-8 is read back as it was.
pub proof fn lemma_tag_bytes(b: Seq<u8>, at: int, text: Seq<char>)
    requires
        0 <= at,
        at + 4 <= b.len(),
        b.subrange(at, at + 4) == encode_utf8(text),
    ensures
        tag_ok(b, at),
        tag_text(b, at) == text,
{
    encode_utf8_valid_utf8(text);
    encode_utf8_decode_utf8(text);
}

/// A sample that was written as two bytes is read back as it was.
pub proof fn lemma_sample_bytes(s: i16)
    ensures
        sample_le(u16_bytes(sample_bits(s))[0], u16_bytes(sample_bits(s))[1]) == s,
{
}

/// Decoding what was encoded gives back the header and the samples: parsing
/// the bytes written for a header and samples, where the header declares the
/// samples' length in bytes, succeeds with exactly that header and those
/// samples, whatever follows the payload.
pub proof fn lemma_round_trip(h: HeaderView, samples: Seq<i16>, trailing: Seq<u8>)
    requires
        four_byte_tags(h),
        in_range(h),
        h.subchunk2_size == 2 * samples.len(),
    ensures
        parse_outcome(wave_bytes(h, samples) + trailing) == Ok::<(), ParseError>(()),
        header_of(wave_bytes(h, samples) + trailing) == h,
        samples_of(payload_of(wave_bytes(h, samples) + trailing)) == samples,
{
    let b = wave_bytes(h, samples) + trailing;
    let hb = header_bytes(h);
    assert(hb.len() == 44);
    assert(b.len() == 44 + 2 * samples.len() + trailing.len());
    assert(b.subrange(0, 4) =~= encode_utf8(h.chunk_id));
    assert(b.subrange(4, 8) =~= u32_bytes(h.chunk_size));
    assert(b.subrange(8, 12) =~= encode_utf8(h.format));
    assert(b.subrange(12, 16) =~= encode_utf8(h.subchunk1_id));
    assert(b.subrange(16, 20) =~= u32_bytes(h.subchunk1_size));
    assert(b.subrange(20, 22) =~= u16_bytes(h.audio_format));
    assert(b.subrange(22, 24) =~= u16_bytes(h.num_channels));
    assert(b.subrange(24, 28) =~= u32_bytes(h.sample_rate));
    assert(b.subrange(28, 32) =~= u32_bytes(h.byte_rate));
    assert(b.subrange(32, 34) =~= u16_bytes(h.block_align));
    assert(b.subrange(34, 36) =~= u16_bytes(h.bits_per_sample));
    assert(b.subrange(36, 40) =~= encode_utf8(h.subchunk2_id));
    assert(b.subrange(40, 44) =~= u32_bytes(h.subchunk2_size));
    lemma_tag_bytes(b, 0, h.chunk_id);
    lemma_u32_bytes(b, 4, h.chunk_size);
    lemma_tag_bytes(b, 8, h.format);
    lemma_tag_bytes(b, 12, h.subchunk1_id);
    lemma_u32_bytes(b, 16, h.subchunk1_size);
    lemma_u16_bytes(b, 20, h.audio_format);
    lemma_u16_bytes(b, 22, h.num_channels);
    lemma_u32_bytes(b, 24, h.sample_rate);
    lemma_u32_bytes(b, 28, h.byte_rate);
    lemma_u16_bytes(b, 32, h.block_align);
    lemma_u16_bytes(b, 34, h.bits_per_sample);
    lemma_tag_bytes(b, 36, h.subchunk2_id);
    lemma_u32_bytes(b, 40, h.subchunk2_size);
    assert(!bad_tag(b));
    assert(declared_len(b) == 2 * samples.len());
    let payload = payload_of(b);
    assert(payload =~= payload_bytes(samples));
    assert forall|i: int| 0 <= i < samples.len() implies #[trigger] samples_of(payload)[i]
        == samples[i] by {
        lemma_sample_bytes(samples[i]);
        assert(payload[2 * i] == u16_bytes(sample_bits(samples[(2 * i) / 2]))[(2 * i) % 2]);
        assert(payload[2 * i + 1] == u16_bytes(sample_bits(samples[(2 * i + 1) / 2]))[(2 * i + 1)
            % 2]);
    }
    assert(samples_of(payload) =~= samples);
}

/// Joining two bytes into a value and splitting it again changes nothing.
pub proof fn lemma_u16_split(b: Seq<u8>, at: int)
    requires
        0 <= at,
        at + 2 <= b.len(),
    ensures
        0 <= le_u16(b, at) < 65536,
        u16_bytes(le_u16(b, at)) == b.subrange(at, at + 2),
{
    assert(u16_bytes(le_u16(b, at)) =~= b.subrange(at, at + 2));
}

/// The base-256 digits of a number that was put together from four of them.
proof fn lemma_digits(b0: int, b1: int, b2: int, b3: int)
    requires
        0 <= b0 < 256,
        0 <= b1 < 256,
        0 <= b2 < 256,
        0 <= b3 < 256,
    ensures
        0 <= b0 + 256 * b1 + 65536 * b2 + 16777216 * b3 < 4294967296,
        (b0 + 256 * b1 + 65536 * b2 + 16777216 * b3) % 256 == b0,
        (b0 + 256 * b1 + 65536 * b2 + 16777216 * b3) / 256 % 256 == b1,
        (b0 + 256 * b1 + 65536 * b2 + 16777216 * b3) / 65536 % 256 == b2,
        (b0 + 256 * b1 + 65536 * b2 + 16777216 * b3) / 16777216 == b3,
{
    let v = b0 + 256 * b1 + 65536 * b2 + 16777216 * b3;
    assert(v == b0 + 256 * (b1 + 256 * b2 + 65536 * b3));
    assert(v / 256 == b1 + 256 * (b2 + 256 * b3));
    assert(v == (b0 + 256 * b1) + 65536 * (b2 + 256 * b3));
    assert(v / 65536 == b2 + 256 * b3);
    assert(v == (b0 + 256 * b1 + 65536 * b2) + 16777216 * b3);
}

/// Joining four bytes into a value and splitting it again changes nothing.
pub proof fn lemma_u32_split(b: Seq<u8>, at: int)
    requires
        0 <= at,
        at + 4 <= b.len(),
    ensures
        0 <= le_u32(b, at) < 4294967296,
        u32_bytes(le_u32(b, at)) == b.subrange(at, at + 4),
{
    lemma_digits(b[at] as int, b[at + 1] as int, b[at + 2] as int, b[at + 3] as int);
    let w = u32_bytes(le_u32(b, at));
    let part = b.subrange(at, at + 4);
    assert(w.len() == 4 && part.len() == 4);
    assert(w[0] == part[0]);
    assert(w[1] == part[1]);
    assert(w[2] == part[2]);
    assert(w[3] == part[3]);
    assert(w =~= part);
}

/// Reading two bytes as a sample and writing it again changes nothing.
pub proof fn lemma_sample_split(lo: u8, hi: u8)
    ensures
        u16_bytes(sample_bits(sample_le(lo, hi))) == seq![lo, hi],
{
    assert(u16_bytes(sample_bits(sample_le(lo, hi))) =~= seq![lo, hi]);
}

/// A tag that was read as text is written as the bytes it was read from.
pub proof fn lemma_tag_split(b: Seq<u8>, at: int)
    requires
        0 <= at,
        at + 4 <= b.len(),
        tag_ok(b, at),
    ensures
        encode_utf8(tag_text(b, at)) == b.subrange(at, at + 4),
{
    decode_utf8_encode_utf8(b.subrange(at, at + 4));
}

/// The header read from a buffer is written as the buffer's first 44 bytes.
pub proof fn lemma_header_split(b: Seq<u8>)
    requires
        b.len() >= 44,
        !bad_tag(b),
    ensures
        in_range(header_of(b)),
        header_bytes(header_of(b)) == b.subrange(0, 44),
{
    lemma_tag_split(b, 0);
    lemma_u32_split(b, 4);
    lemma_tag_split(b, 8);
    lemma_tag_split(b, 12);
    lemma_u32_split(b, 16);
    lemma_u16_split(b, 20);
    lemma_u16_split(b, 22);
    lemma_u32_split(b, 24);
    lemma_u32_split(b, 28);
    lemma_u16_split(b, 32);
    lemma_u16_split(b, 34);
    lemma_tag_split(b, 36);
    lemma_u32_split(b, 40);
    let p1 = b.subrange(0, 4) + b.subrange(4, 8);
    assert(p1 =~= b.subrange(0, 8));
    let p2 = p1 + b.subrange(8, 12);
    assert(p2 =~= b.subrange(0, 12));
    let p3 = p2 + b.subrange(12, 16);
    assert(p3 =~= b.subrange(0, 16));
    let p4 = p3 + b.subrange(16, 20);
    assert(p4 =~= b.subrange(0, 20));
    let p5 = p4 + b.subrange(20, 22);
    assert(p5 =~= b.subrange(0, 22));
    let p6 = p5 + b.subrange(22, 24);
    assert(p6 =~= b.subrange(0, 24));
    let p7 = p6 + b.subrange(24, 28);
    assert(p7 =~= b.subrange(0, 28));
    let p8 = p7 + b.subrange(28, 32);
    assert(p8 =~= b.subrange(0, 32));
    let p9 = p8 + b.subrange(32, 34);
    assert(p9 =~= b.subrange(0, 34));
    let p10 = p9 + b.subrange(34, 36);
    assert(p10 =~= b.subrange(0, 36));
    let p11 = p10 + b.subrange(36, 40);
    assert(p11 =~= b.subrange(0, 40));
    let p12 = p11 + b.subrange(40, 44);
    assert(p12 =~= b.subrange(0, 44));
}

/// A payload of whole pairs that was read as samples is written as it was.
pub proof fn lemma_payload_split(payload: Seq<u8>)
    requires
        payload.len() % 2 == 0,
    ensures
        payload_bytes(samples_of(payload)) == payload,
{
    let samples = samples_of(payload);
    assert(2 * samples.len() == payload.len());
    assert forall|j: int| 0 <= j < payload.len() implies #[trigger] payload_bytes(samples)[j]
        == payload[j] by {
        let i = j / 2;
        assert(j == 2 * i + j % 2);
        assert(samples[i] == sample_le(payload[2 * i], payload[2 * i + 1]));
        lemma_sample_split(payload[2 * i], payload[2 * i + 1]);
        let pair = u16_bytes(sample_bits(samples[i]));
        assert(pair == seq![payload[2 * i], payload[2 * i + 1]]);
        assert(payload_bytes(samples)[j] == pair[j % 2]);
    }
    assert(payload_bytes(samples) =~= payload);
}

/// Encoding what was decoded gives back the bytes: for a buffer that parses
/// and declares an even number of payload bytes, the header and samples read
/// from it are written out as the very bytes that were consumed.
pub proof fn lemma_parse_then_encode(b: Seq<u8>)
    requires
        parse_outcome(b) is Ok,
        declared_len(b) % 2 == 0,
    ensures
        four_byte_tags(header_of(b)),
        in_range(header_of(b)),
        wave_bytes(header_of(b), samples_of(payload_of(b))) == b.take(44 + declared_len(b)),
{
    lemma_decoded_tags(b);
    lemma_header_split(b);
    lemma_payload_split(payload_of(b));
    assert(b.subrange(0, 44) + payload_of(b) =~= b.take(44 + declared_len(b)));
}

} // verus!
