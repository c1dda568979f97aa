//! The canonical 44-byte WAVE header and the 16-bit PCM payload behind it.
//!
//! The layout is fixed: a RIFF descriptor, a `fmt ` sub-chunk and a `data`
//! sub-chunk, in that order and with nothing between them. Tags only have to
//! be text; what they spell, and the values of the format fields, are stored
//! and not judged.

use crate::cursor::{
    discard, fits, le_u16, le_u32, tag_at, tag_bytes, tag_ok, tag_text, take_bytes, u16_at, u32_at,
};
use crate::error::ParseError;
use vstd::prelude::*;
use vstd::utf8::*;

verus! {

/// The number of bytes in front of the payload.
pub const HEADER_LEN: usize = 44;

/// The fields of the header, in the order in which the file stores them.
#[derive(Debug)]
pub struct Header {
    pub chunk_id: String,
    pub chunk_size: u32,
    pub format: String,
    pub subchunk1_id: String,
    pub subchunk1_size: u32,
    pub audio_format: u16,
    pub num_channels: u16,
    pub sample_rate: u32,
    pub byte_rate: u32,
    pub block_align: u16,
    pub bits_per_sample: u16,
    pub subchunk2_id: String,
    pub subchunk2_size: u32,
}

/// A header as plain values.
pub struct HeaderView {
    pub chunk_id: Seq<char>,
    pub chunk_size: int,
    pub format: Seq<char>,
    pub subchunk1_id: Seq<char>,
    pub subchunk1_size: int,
    pub audio_format: int,
    pub num_channels: int,
    pub sample_rate: int,
    pub byte_rate: int,
    pub block_align: int,
    pub bits_per_sample: int,
    pub subchunk2_id: Seq<char>,
    pub subchunk2_size: int,
}

impl View for Header {
    type V = HeaderView;

    open spec fn view(&self) -> HeaderView {
        HeaderView {
            chunk_id: self.chunk_id@,
            chunk_size: self.chunk_size as int,
            format: self.format@,
            subchunk1_id: self.subchunk1_id@,
            subchunk1_size: self.subchunk1_size as int,
            audio_format: self.audio_format as int,
            num_channels: self.num_channels as int,
            sample_rate: self.sample_rate as int,
            byte_rate: self.byte_rate as int,
            block_align: self.block_align as int,
            bits_per_sample: self.bits_per_sample as int,
            subchunk2_id: self.subchunk2_id@,
            subchunk2_size: self.subchunk2_size as int,
        }
    }
}

/// The header with empty tags and every number zero.
pub open spec fn blank_header() -> HeaderView {
    HeaderView {
        chunk_id: Seq::empty(),
        chunk_size: 0,
        format: Seq::empty(),
        subchunk1_id: Seq::empty(),
        subchunk1_size: 0,
        audio_format: 0,
        num_channels: 0,
        sample_rate: 0,
        byte_rate: 0,
        block_align: 0,
        bits_per_sample: 0,
        subchunk2_id: Seq::empty(),
        subchunk2_size: 0,
    }
}

impl Default for Header {
    fn default() -> (h: Header)
        ensures
            h@ == blank_header(),
    {
        Header {
            chunk_id: String::new(),
            chunk_size: 0,
            format: String::new(),
            subchunk1_id: String::new(),
            subchunk1_size: 0,
            audio_format: 0,
            num_channels: 0,
            sample_rate: 0,
            byte_rate: 0,
            block_align: 0,
            bits_per_sample: 0,
            subchunk2_id: String::new(),
            subchunk2_size: 0,
        }
    }
}

/// Whether each tag of the header takes four bytes as UTF-8, as every tag
/// that was read from a buffer does.
pub open spec fn four_byte_tags(h: HeaderView) -> bool {
    &&& encode_utf8(h.chunk_id).len() == 4
    &&& encode_utf8(h.format).len() == 4
    &&& encode_utf8(h.subchunk1_id).len() == 4
    &&& encode_utf8(h.subchunk2_id).len() == 4
}

/// Whether some tag lies wholly inside `b` and is not valid text.
pub open spec fn bad_tag(b: Seq<u8>) -> bool {
    ||| (fits(b.len(), 0, 4) && !tag_ok(b, 0))
    ||| (fits(b.len(), 8, 4) && !tag_ok(b, 8))
    ||| (fits(b.len(), 12, 4) && !tag_ok(b, 12))
    ||| (fits(b.len(), 36, 4) && !tag_ok(b, 36))
}

/// The header that the first 44 bytes of `b` spell.
pub open spec fn header_of(b: Seq<u8>) -> HeaderView
    recommends
        b.len() >= 44,
        !bad_tag(b),
{
    HeaderView {
        chunk_id: tag_text(b, 0),
        chunk_size: le_u32(b, 4),
        format: tag_text(b, 8),
        subchunk1_id: tag_text(b, 12),
        subchunk1_size: le_u32(b, 16),
        audio_format: le_u16(b, 20),
        num_channels: le_u16(b, 22),
        sample_rate: le_u32(b, 24),
        byte_rate: le_u32(b, 28),
        block_align: le_u16(b, 32),
        bits_per_sample: le_u16(b, 34),
        subchunk2_id: tag_text(b, 36),
        subchunk2_size: le_u32(b, 40),
    }
}

/// The payload length, in bytes, that the header of `b` declares.
pub open spec fn declared_len(b: Seq<u8>) -> int
    recommends
        b.len() >= 44,
{
    le_u32(b, 40)
}

/// The payload bytes of `b`: as many as the header declares, right behind it.
pub open spec fn payload_of(b: Seq<u8>) -> Seq<u8>
    recommends
        b.len() >= 44 + declared_len(b),
{
    b.subrange(44, 44 + declared_len(b))
}

/// The signed 16-bit sample whose low byte is `lo` and whose high byte is `hi`.
pub open spec fn sample_le(lo: u8, hi: u8) -> i16 {
    let u = lo as int + 256 * (hi as int);
    if u >= 32768 {
        (u - 65536) as i16
    } else {
        u as i16
    }
}

/// The samples that `raw` holds: one for each whole pair of bytes. A last
/// byte without a partner belongs to no sample.
pub open spec fn samples_of(raw: Seq<u8>) -> Seq<i16> {
    Seq::new((raw.len() / 2) as nat, |i: int| sample_le(raw[2 * i], raw[2 * i + 1]))
}

/// How decoding the header of `b` ends. Fields are read front to back, so a
/// tag that is there and is not text counts before bytes that are missing
/// further on.
pub open spec fn header_outcome(b: Seq<u8>) -> Result<(), ParseError> {
    if bad_tag(b) {
        Err(ParseError::InvalidEncoding)
    } else if b.len() < 44 {
        Err(ParseError::TruncatedInput)
    } else {
        Ok(())
    }
}

/// How parsing `b` ends.
pub open spec fn parse_outcome(b: Seq<u8>) -> Result<(), ParseError> {
    if header_outcome(b) is Err {
        header_outcome(b)
    } else if declared_len(b) > b.len() - 44 {
        Err(ParseError::UnexpectedEndOfFile)
    } else {
        Ok(())
    }
}

/// Parsing succeeds on every buffer that holds 44 bytes of header, whose four
/// tags are text, whatever they spell, and whose declared payload is there.
/// The samples are then half as many as the declared bytes, rounded down: of
/// an odd number of bytes the last one is dropped.
pub proof fn lemma_parse_succeeds(b: Seq<u8>)
    requires
        b.len() >= 44,
        tag_ok(b, 0),
        tag_ok(b, 8),
        tag_ok(b, 12),
        tag_ok(b, 36),
        declared_len(b) <= b.len() - 44,
    ensures
        parse_outcome(b) == Ok::<(), ParseError>(()),
        samples_of(payload_of(b)).len() == declared_len(b) / 2,
        declared_len(b) % 2 == 0 ==> 2 * samples_of(payload_of(b)).len() == declared_len(b),
{
}

/// Parsing fails for want of payload on every buffer whose header is whole
/// and declares more bytes than follow it.
pub proof fn lemma_parse_payload_missing(b: Seq<u8>)
    requires
        header_outcome(b) is Ok,
        declared_len(b) > b.len() - 44,
    ensures
        parse_outcome(b) == Err::<(), ParseError>(ParseError::UnexpectedEndOfFile),
{
}

/// Parsing succeeds only on a buffer that holds a whole header and the whole
/// declared payload, and then on any such buffer whose tags are text.
pub proof fn lemma_parse_outcomes(b: Seq<u8>)
    ensures
        parse_outcome(b) is Ok <==> b.len() >= 44 && !bad_tag(b) && declared_len(b) <= b.len()
            - 44,
        parse_outcome(b) == Err::<(), ParseError>(ParseError::InvalidEncoding) <==> bad_tag(b),
        parse_outcome(b) == Err::<(), ParseError>(ParseError::TruncatedInput) <==> !bad_tag(b)
            && b.len() < 44,
        parse_outcome(b) == Err::<(), ParseError>(ParseError::UnexpectedEndOfFile) <==> !bad_tag(
            b,
        ) && b.len() >= 44 && declared_len(b) > b.len() - 44,
{
}

/// A header that was decoded from a buffer has tags of four bytes each.
pub proof fn lemma_decoded_tags(b: Seq<u8>)
    requires
        header_outcome(b) is Ok,
    ensures
        four_byte_tags(header_of(b)),
{
    decode_utf8_encode_utf8(tag_bytes(b, 0));
    decode_utf8_encode_utf8(tag_bytes(b, 8));
    decode_utf8_encode_utf8(tag_bytes(b, 12));
    decode_utf8_encode_utf8(tag_bytes(b, 36));
}

/// Decodes the header at the front of `bytes`, consuming nothing.
pub fn read_header(bytes: &[u8]) -> (r: Result<Header, ParseError>)
    ensures
        header_outcome(bytes@) is Ok ==> (r matches Ok(h) && h@ == header_of(bytes@)
            && four_byte_tags(h@)),
        header_outcome(bytes@) matches Err(e) ==> r == Err::<Header, ParseError>(e),
{
    proof {
        if header_outcome(bytes@) is Ok {
            lemma_decoded_tags(bytes@);
        }
    }
    let chunk_id = tag_at(bytes, 0)?;
    let chunk_size = u32_at(bytes, 4)?;
    let format = tag_at(bytes, 8)?;
    let subchunk1_id = tag_at(bytes, 12)?;
    let subchunk1_size = u32_at(bytes, 16)?;
    let audio_format = u16_at(bytes, 20)?;
    let num_channels = u16_at(bytes, 22)?;
    let sample_rate = u32_at(bytes, 24)?;
    let byte_rate = u32_at(bytes, 28)?;
    let block_align = u16_at(bytes, 32)?;
    let bits_per_sample = u16_at(bytes, 34)?;
    let subchunk2_id = tag_at(bytes, 36)?;
    let subchunk2_size = u32_at(bytes, 40)?;
    Ok(
        Header {
            chunk_id,
            chunk_size,
            format,
            subchunk1_id,
            subchunk1_size,
            audio_format,
            num_channels,
            sample_rate,
            byte_rate,
            block_align,
            bits_per_sample,
            subchunk2_id,
            subchunk2_size,
        },
    )
}

/// Decodes a payload into samples, two bytes each, low byte first.
pub fn decode_samples(raw: &[u8]) -> (samples: Vec<i16>)
    ensures
        samples@ == samples_of(raw@),
        samples@.len() == raw@.len() / 2,
{
    let n: usize = raw.len() / 2;
    let mut samples: Vec<i16> = Vec::with_capacity(n);
    let mut i: usize = 0;
    while i < n
        invariant
            raw@.len() <= usize::MAX,
            n == raw@.len() / 2,
            i <= n,
            samples@.len() == i,
            forall|k: int| 0 <= k < i ==> samples@[k] == sample_le(raw@[2 * k], raw@[2 * k + 1]),
        decreases n - i,
    {
        let lo: u8 = raw[2 * i];
        let hi: u8 = raw[2 * i + 1];
        let u: i32 = lo as i32 + 256 * (hi as i32);
        let s: i16 = if u >= 32768 {
            (u - 65536) as i16
        } else {
            u as i16
        };
        samples.push(s);
        i += 1;
    }
    assert(samples@ =~= samples_of(raw@));
    samples
}

/// A decoded file: its header and its samples.
pub struct WAVFile {
    pub header: Header,
    /// The payload length in bytes, as the header declares it.
    pub data_size: u32,
    pub data: Vec<i16>,
}

impl WAVFile {
    /// Header and samples agree: the header's payload length is `data_size`,
    /// and there is one sample for each whole pair of payload bytes.
    pub open spec fn wf(&self) -> bool {
        &&& self.data_size == self.header.subchunk2_size
        &&& self.data@.len() == self.data_size as int / 2
    }

    /// A file with a blank header and no samples.
    pub fn new() -> (w: WAVFile)
        ensures
            w.header@ == blank_header(),
            w.data_size == 0,
            w.data@ == Seq::<i16>::empty(),
            w.wf(),
    {
        WAVFile { header: Header::default(), data_size: 0, data: Vec::new() }
    }

    /// Decodes the file at the front of `data`. On success the header and the
    /// payload are removed from `data` and stored in `self`; what followed the
    /// payload stays in `data`. On failure neither `self` nor `data` changes.
    pub fn parse(&mut self, data: &mut Vec<u8>) -> (r: Result<(), ParseError>)
        ensures
            r == parse_outcome(old(data)@),
            r is Err ==> *final(self) == *old(self) && final(data)@ == old(data)@,
            r is Ok ==> final(self).header@ == header_of(old(data)@),
            r is Ok ==> four_byte_tags(final(self).header@),
            r is Ok ==> final(self).data_size == declared_len(old(data)@),
            r is Ok ==> final(self).data@ == samples_of(payload_of(old(data)@)),
            r is Ok ==> final(self).data@.len() == declared_len(old(data)@) / 2,
            r is Ok ==> final(data)@ == old(data)@.skip(44 + declared_len(old(data)@)),
            r is Ok ==> final(self).wf(),
    {
        let header = match read_header(data.as_slice()) {
            Ok(h) => h,
            Err(e) => {
                return Err(e);
            },
        };
        let size: usize = header.subchunk2_size as usize;
        if data.len() - HEADER_LEN < size {
            return Err(ParseError::UnexpectedEndOfFile);
        }
        discard(data, HEADER_LEN);
        let payload = match take_bytes(data, size) {
            Ok(bytes) => bytes,
            Err(e) => {
                return Err(e);
            },
        };
        assert(payload@ =~= payload_of(old(data)@));
        assert(data@ =~= old(data)@.skip(44 + declared_len(old(data)@)));
        let samples = decode_samples(payload.as_slice());
        self.data_size = header.subchunk2_size;
        self.header = header;
        self.data = samples;
        Ok(())
    }
}

impl Default for WAVFile {
    fn default() -> (w: WAVFile)
        ensures
            w.header@ == blank_header(),
            w.data_size == 0,
            w.data@ == Seq::<i16>::empty(),
            w.wf(),
    {
        WAVFile::new()
    }
}

} // verus!
