//! The bytes of a mono 16-bit PCM WAV file.
use vstd::prelude::*;

verus! {

/// `x` as two little-endian bytes.
pub open spec fn le16(x: u16) -> Seq<u8> {
    seq![(x % 256) as u8, (x / 256) as u8]
}

/// `x` as four little-endian bytes.
pub open spec fn le32(x: u32) -> Seq<u8> {
    seq![(x % 256) as u8, ((x / 256) % 256) as u8, ((x / 65536) % 256) as u8, (x / 16777216) as u8]
}

/// The samples, each as two little-endian bytes of its two's complement.
pub open spec fn sample_bytes(samples: Seq<i16>) -> Seq<u8>
    decreases samples.len(),
{
    if samples.len() == 0 {
        Seq::empty()
    } else {
        sample_bytes(samples.drop_last()) + le16(samples.last() as u16)
    }
}

/// The four bytes of an ASCII chunk tag.
pub open spec fn tag(a: char, b: char, c: char, d: char) -> Seq<u8> {
    seq![a as u8, b as u8, c as u8, d as u8]
}

/// The 44-byte header of a mono 16-bit file of `n` samples at
/// `sample_rate`: the RIFF chunk, the format chunk and the head of the data
/// chunk.
pub open spec fn wav_header(n: nat, sample_rate: u32) -> Seq<u8> {
    let data_size = (n * 2) as u32;
    tag('R', 'I', 'F', 'F') + le32((36 + data_size) as u32) + tag('W', 'A', 'V', 'E')
        + tag('f', 'm', 't', ' ') + le32(16) + le16(1) + le16(1) + le32(sample_rate)
        + le32((sample_rate * 2) as u32) + le16(2) + le16(16)
        + tag('d', 'a', 't', 'a') + le32(data_size)
}

/// The number that four little-endian bytes write.
pub open spec fn decode_le32(b: Seq<u8>) -> int {
    b[0] + 256 * b[1] + 65536 * b[2] + 16777216 * b[3]
}

/// Four little-endian bytes read back as the number they were written from.
pub proof fn lemma_le32_round_trip(x: u32)
    ensures
        le32(x).len() == 4,
        decode_le32(le32(x)) == x,
{
    assert((x % 256) + 256 * ((x / 256) % 256) + 65536 * ((x / 65536) % 256) + 16777216 * (x
        / 16777216) == x) by (bit_vector);
}

/// Law: the two size fields of the file count every sample. Bytes 4 to 8
/// read, little-endian, the length of the file after them, 36 bytes of
/// header plus two bytes per sample; bytes 40 to 44 read the length of the
/// sample data, two bytes per sample.
pub proof fn lemma_size_fields(samples: Seq<i16>, sample_rate: u32)
    requires
        36 + 2 * samples.len() <= u32::MAX,
    ensures
        wav_file(samples, sample_rate).len() == 44 + 2 * samples.len(),
        decode_le32(wav_file(samples, sample_rate).subrange(4, 8)) == 36 + 2 * samples.len(),
        decode_le32(wav_file(samples, sample_rate).subrange(40, 44)) == 2 * samples.len(),
{
    let n = samples.len();
    let data_size = (n * 2) as u32;
    let h = wav_header(n, sample_rate);
    let f = wav_file(samples, sample_rate);
    lemma_sample_bytes_len(samples);
    lemma_le32_round_trip(data_size);
    lemma_le32_round_trip((36 + data_size) as u32);
    assert(h.len() == 44);
    assert(f.subrange(4, 8) =~= le32((36 + data_size) as u32));
    assert(f.subrange(40, 44) =~= le32(data_size));
}

/// The number that two little-endian bytes write.
pub open spec fn decode_le16(b: Seq<u8>) -> int {
    b[0] + 256 * b[1]
}

/// Two little-endian bytes read back as the number they were written from.
pub proof fn lemma_le16_round_trip(x: u16)
    ensures
        le16(x).len() == 2,
        decode_le16(le16(x)) == x,
{
    assert((x % 256) + 256 * (x / 256) == x) by (bit_vector);
}

/// Law: the header says what the file holds. It is a RIFF file of type WAVE
/// whose format chunk, 16 bytes long, gives PCM (format 1), one channel, the
/// sample rate, twice the sample rate as bytes per second, 2 bytes per frame
/// and 16 bits per sample; then comes the data chunk.
pub proof fn lemma_header_fields(samples: Seq<i16>, sample_rate: u32)
    requires
        36 + 2 * samples.len() <= u32::MAX,
        sample_rate * 16 <= u32::MAX,
    ensures
        wav_file(samples, sample_rate).subrange(0, 4) == seq![82u8, 73u8, 70u8, 70u8],
        wav_file(samples, sample_rate).subrange(8, 12) == seq![87u8, 65u8, 86u8, 69u8],
        wav_file(samples, sample_rate).subrange(12, 16) == seq![102u8, 109u8, 116u8, 32u8],
        decode_le32(wav_file(samples, sample_rate).subrange(16, 20)) == 16,
        decode_le16(wav_file(samples, sample_rate).subrange(20, 22)) == 1,
        decode_le16(wav_file(samples, sample_rate).subrange(22, 24)) == 1,
        decode_le32(wav_file(samples, sample_rate).subrange(24, 28)) == sample_rate,
        decode_le32(wav_file(samples, sample_rate).subrange(28, 32)) == 2 * sample_rate,
        decode_le16(wav_file(samples, sample_rate).subrange(32, 34)) == 2,
        decode_le16(wav_file(samples, sample_rate).subrange(34, 36)) == 16,
        wav_file(samples, sample_rate).subrange(36, 40) == seq![100u8, 97u8, 116u8, 97u8],
{
    let n = samples.len();
    let f = wav_file(samples, sample_rate);
    lemma_sample_bytes_len(samples);
    lemma_le32_round_trip(16);
    lemma_le16_round_trip(1);
    lemma_le32_round_trip(sample_rate);
    lemma_le32_round_trip((sample_rate * 2) as u32);
    lemma_le16_round_trip(2);
    lemma_le16_round_trip(16);
    assert(wav_header(n, sample_rate).len() == 44);
    assert(f.subrange(0, 4) =~= tag('R', 'I', 'F', 'F'));
    assert(f.subrange(8, 12) =~= tag('W', 'A', 'V', 'E'));
    assert(f.subrange(12, 16) =~= tag('f', 'm', 't', ' '));
    assert(f.subrange(16, 20) =~= le32(16));
    assert(f.subrange(20, 22) =~= le16(1));
    assert(f.subrange(22, 24) =~= le16(1));
    assert(f.subrange(24, 28) =~= le32(sample_rate));
    assert(f.subrange(28, 32) =~= le32((sample_rate * 2) as u32));
    assert(f.subrange(32, 34) =~= le16(2));
    assert(f.subrange(34, 36) =~= le16(16));
    assert(f.subrange(36, 40) =~= tag('d', 'a', 't', 'a'));
}

/// The two bytes of sample `i` sit at offset `2 * i` of the sample data.
proof fn lemma_sample_bytes_at(samples: Seq<i16>, i: int)
    requires
        0 <= i < samples.len(),
    ensures
        sample_bytes(samples).len() == 2 * samples.len(),
        sample_bytes(samples).subrange(2 * i, 2 * i + 2) == le16(samples[i] as u16),
    decreases samples.len(),
{
    let p = samples.drop_last();
    lemma_sample_bytes_len(samples);
    lemma_sample_bytes_len(p);
    if i == samples.len() - 1 {
        assert(sample_bytes(samples).subrange(2 * i, 2 * i + 2) =~= le16(samples.last() as u16));
    } else {
        lemma_sample_bytes_at(p, i);
        assert(sample_bytes(samples).subrange(2 * i, 2 * i + 2) =~= sample_bytes(p).subrange(
            2 * i,
            2 * i + 2,
        ));
    }
}

/// Law: sample `i` is stored at byte `44 + 2 * i` as its 16-bit two's
/// complement, little-endian: the two bytes read the sample itself when it
/// is not negative, and the sample plus 65536 when it is.
pub proof fn lemma_sample_fields(samples: Seq<i16>, sample_rate: u32, i: int)
    requires
        0 <= i < samples.len(),
    ensures
        decode_le16(wav_file(samples, sample_rate).subrange(44 + 2 * i, 46 + 2 * i)) == (if samples[i]
            >= 0 {
            samples[i] as int
        } else {
            samples[i] + 65536
        }),
{
    let x = samples[i];
    let f = wav_file(samples, sample_rate);
    lemma_sample_bytes_at(samples, i);
    assert(wav_header(samples.len(), sample_rate).len() == 44);
    assert(f.subrange(44 + 2 * i, 46 + 2 * i) =~= sample_bytes(samples).subrange(2 * i, 2 * i + 2));
    lemma_le16_round_trip(x as u16);
    assert((x as u16) as int == (if x >= 0 { x as int } else { x + 65536 })) by (bit_vector);
}

/// The whole file.
pub open spec fn wav_file(samples: Seq<i16>, sample_rate: u32) -> Seq<u8> {
    wav_header(samples.len(), sample_rate) + sample_bytes(samples)
}

fn push_le16(out: &mut Vec<u8>, x: u16)
    ensures
        final(out)@ == old(out)@ + le16(x),
{
    out.push((x % 256) as u8);
    out.push((x / 256) as u8);
    proof {
        assert(final(out)@ =~= old(out)@ + le16(x));
    }
}

fn push_le32(out: &mut Vec<u8>, x: u32)
    ensures
        final(out)@ == old(out)@ + le32(x),
{
    out.push((x % 256) as u8);
    out.push(((x / 256) % 256) as u8);
    out.push(((x / 65536) % 256) as u8);
    out.push((x / 16777216) as u8);
    proof {
        assert(final(out)@ =~= old(out)@ + le32(x));
    }
}

fn push_tag(out: &mut Vec<u8>, t: [u8; 4])
    ensures
        final(out)@ == old(out)@ + t@,
{
    out.push(t[0]);
    out.push(t[1]);
    out.push(t[2]);
    out.push(t[3]);
    proof {
        assert(final(out)@ =~= old(out)@ + t@);
    }
}

/// The header for `num_samples` samples at `sample_rate`.
fn header_bytes(num_samples: u32, sample_rate: u32) -> (out: Vec<u8>)
    requires
        36 + 2 * num_samples <= u32::MAX,
        sample_rate * 16 <= u32::MAX,
    ensures
        out@ == wav_header(num_samples as nat, sample_rate),
        out@.len() == 44,
{
    let data_size = num_samples * 2;
    let channels: u16 = 1;
    let bits_per_sample: u16 = 16;
    assert(sample_rate * (channels as u32) == sample_rate) by (nonlinear_arith)
        requires
            channels == 1,
    ;
    let per_second = sample_rate * (channels as u32);
    let byte_rate = per_second * (bits_per_sample as u32) / 8;
    let block_align = channels * bits_per_sample / 8;
    let mut out: Vec<u8> = Vec::new();
    push_tag(&mut out, [82u8, 73u8, 70u8, 70u8]);
    push_le32(&mut out, 36 + data_size);
    push_tag(&mut out, [87u8, 65u8, 86u8, 69u8]);
    push_tag(&mut out, [102u8, 109u8, 116u8, 32u8]);
    push_le32(&mut out, 16);
    push_le16(&mut out, 1);
    push_le16(&mut out, channels);
    push_le32(&mut out, sample_rate);
    push_le32(&mut out, byte_rate);
    push_le16(&mut out, block_align);
    push_le16(&mut out, bits_per_sample);
    push_tag(&mut out, [100u8, 97u8, 116u8, 97u8]);
    push_le32(&mut out, data_size);
    proof {
        assert(tag('R', 'I', 'F', 'F') =~= seq![82u8, 73u8, 70u8, 70u8]);
        assert(tag('W', 'A', 'V', 'E') =~= seq![87u8, 65u8, 86u8, 69u8]);
        assert(tag('f', 'm', 't', ' ') =~= seq![102u8, 109u8, 116u8, 32u8]);
        assert(tag('d', 'a', 't', 'a') =~= seq![100u8, 97u8, 116u8, 97u8]);
        assert(byte_rate == (sample_rate * 2) as u32);
        assert(out@ =~= wav_header(num_samples as nat, sample_rate));
    }
    out
}

/// The bytes of a mono 16-bit PCM WAV file holding `samples` at
/// `sample_rate`.
pub fn wav_bytes(samples: &[i16], sample_rate: u32) -> (bytes: Vec<u8>)
    requires
        36 + 2 * samples@.len() <= u32::MAX,
        sample_rate * 16 <= u32::MAX,
    ensures
        bytes@ == wav_file(samples@, sample_rate),
        bytes@.len() == 44 + 2 * samples@.len(),
        decode_le32(bytes@.subrange(4, 8)) == 36 + 2 * samples@.len(),
        decode_le32(bytes@.subrange(40, 44)) == 2 * samples@.len(),
{
    let mut out = header_bytes(samples.len() as u32, sample_rate);
    let ghost header = out@;
    let mut i: usize = 0;
    while i < samples.len()
        invariant
            i <= samples@.len(),
            header == wav_header(samples@.len(), sample_rate),
            header.len() == 44,
            out@ == header + sample_bytes(samples@.take(i as int)),
        decreases samples@.len() - i,
    {
        let s = samples[i];
        proof {
            assert(samples@.take(i + 1).drop_last() =~= samples@.take(i as int));
            assert(samples@.take(i + 1).last() == s);
        }
        push_le16(&mut out, s as u16);
        i = i + 1;
        proof {
            assert(out@ =~= header + sample_bytes(samples@.take(i as int)));
        }
    }
    proof {
        assert(samples@.take(samples@.len() as int) =~= samples@);
        lemma_sample_bytes_len(samples@);
        lemma_size_fields(samples@, sample_rate);
    }
    out
}

/// Each sample takes two bytes.
proof fn lemma_sample_bytes_len(samples: Seq<i16>)
    ensures
        sample_bytes(samples).len() == 2 * samples.len(),
    decreases samples.len(),
{
    if samples.len() > 0 {
        lemma_sample_bytes_len(samples.drop_last());
    }
}

} // verus!
