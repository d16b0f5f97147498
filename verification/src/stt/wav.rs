//! The WAV container of 16-bit mono PCM sent to the recogniser.
use vstd::prelude::*;

verus! {

/// `x` as two little-endian bytes.
pub open spec fn le16(x: nat) -> Seq<u8> {
    seq![(x % 256) as u8, ((x / 256) % 256) as u8]
}

/// `x` as four little-endian bytes.
pub open spec fn le32(x: nat) -> Seq<u8> {
    seq![(x % 256) as u8, ((x / 256) % 256) as u8, ((x / 65536) % 256) as u8, ((x / 16777216) % 256) as u8]
}

/// The 44-byte header of a WAV file holding `data_len` bytes of 16-bit mono
/// PCM at `rate` samples per second.
pub open spec fn wav_header_bytes(data_len: nat, rate: nat) -> Seq<u8> {
    seq![0x52u8, 0x49, 0x46, 0x46] + le32(data_len + 36) + seq![0x57u8, 0x41, 0x56, 0x45]
        + seq![0x66u8, 0x6D, 0x74, 0x20] + le32(16) + le16(1) + le16(1) + le32(rate) + le32(rate * 2)
        + le16(2) + le16(16) + seq![0x64u8, 0x61, 0x74, 0x61] + le32(data_len)
}

fn push_tag(v: &mut Vec<u8>, a: u8, b: u8, c: u8, d: u8)
    ensures
        final(v)@ == old(v)@ + seq![a, b, c, d],
{
    v.push(a);
    v.push(b);
    v.push(c);
    v.push(d);
    assert(v@ =~= old(v)@ + seq![a, b, c, d]);
}

fn push_le16(v: &mut Vec<u8>, x: u16)
    ensures
        final(v)@ == old(v)@ + le16(x as nat),
{
    v.push((x % 256) as u8);
    v.push(((x / 256) % 256) as u8);
    assert(v@ =~= old(v)@ + le16(x as nat));
}

fn push_le32(v: &mut Vec<u8>, x: u32)
    ensures
        final(v)@ == old(v)@ + le32(x as nat),
{
    v.push((x % 256) as u8);
    v.push(((x / 256) % 256) as u8);
    v.push(((x / 65536) % 256) as u8);
    v.push(((x / 16777216) % 256) as u8);
    assert(v@ =~= old(v)@ + le32(x as nat));
}

/// The WAV header for `data_len` bytes of 16-bit mono PCM at `sample_rate`.
pub fn wav_header(data_len: u32, sample_rate: u32) -> (r: Vec<u8>)
    requires
        data_len + 36 <= u32::MAX,
        sample_rate * 2 <= u32::MAX,
    ensures
        r@ == wav_header_bytes(data_len as nat, sample_rate as nat),
        r@.len() == 44,
{
    let mut h: Vec<u8> = Vec::new();
    push_tag(&mut h, 0x52, 0x49, 0x46, 0x46);
    push_le32(&mut h, data_len + 36);
    push_tag(&mut h, 0x57, 0x41, 0x56, 0x45);
    push_tag(&mut h, 0x66, 0x6D, 0x74, 0x20);
    push_le32(&mut h, 16);
    push_le16(&mut h, 1);
    push_le16(&mut h, 1);
    push_le32(&mut h, sample_rate);
    push_le32(&mut h, sample_rate * 2);
    push_le16(&mut h, 2);
    push_le16(&mut h, 16);
    push_tag(&mut h, 0x64, 0x61, 0x74, 0x61);
    push_le32(&mut h, data_len);
    assert(h@ =~= wav_header_bytes(data_len as nat, sample_rate as nat));
    h
}

/// A header followed by its PCM bytes.
pub fn wav_file(pcm: &[u8], sample_rate: u32) -> (r: Vec<u8>)
    requires
        pcm@.len() + 36 <= u32::MAX,
        sample_rate * 2 <= u32::MAX,
    ensures
        r@ == wav_header_bytes(pcm@.len(), sample_rate as nat) + pcm@,
{
    let mut r = wav_header(pcm.len() as u32, sample_rate);
    let ghost h = r@;
    let mut i: usize = 0;
    while i < pcm.len()
        invariant
            i <= pcm@.len(),
            r@ == h + pcm@.take(i as int),
        decreases pcm@.len() - i,
    {
        r.push(pcm[i]);
        i = i + 1;
        assert(r@ =~= h + pcm@.take(i as int));
    }
    assert(pcm@.take(i as int) =~= pcm@);
    r
}

/// The sizes a header records can be read back: the byte at offset 40 and
/// the next three give the data length, and those at 4..8 give it plus 36.
pub proof fn lemma_header_sizes(data_len: nat, rate: nat)
    ensures
        wav_header_bytes(data_len, rate).len() == 44,
        wav_header_bytes(data_len, rate).subrange(40, 44) == le32(data_len),
        wav_header_bytes(data_len, rate).subrange(4, 8) == le32(data_len + 36),
        wav_header_bytes(data_len, rate).subrange(24, 28) == le32(rate),
{
    assert(wav_header_bytes(data_len, rate).subrange(40, 44) =~= le32(data_len));
    assert(wav_header_bytes(data_len, rate).subrange(4, 8) =~= le32(data_len + 36));
    assert(wav_header_bytes(data_len, rate).subrange(24, 28) =~= le32(rate));
}

/// Four little-endian bytes give back the number they encode.
pub proof fn lemma_le32_roundtrip(x: nat)
    requires
        x < 0x1_0000_0000,
    ensures
        le32(x)[0] + 256 * le32(x)[1] + 65536 * le32(x)[2] + 16777216 * le32(x)[3] == x,
{
}

} // verus!
