//! Audio: chunks of samples and where they come from.

pub mod capture;
pub mod file;

pub use file::FileAudioSource;

use vstd::prelude::*;

verus! {

/// A stretch of audio: samples at sixteen kilohertz, one channel.
#[derive(Debug, Clone)]
pub struct AudioChunk {
    pub pcm: Vec<i16>,
    /// When the stretch begins, in milliseconds on the timeline of the source.
    pub content_time_ms: i64,
    /// When the stretch begins, in milliseconds of wall-clock time.
    pub wall_time_ms: i64,
}

/// The low byte of a sample.
pub open spec fn low_byte(sample: i16) -> u8 {
    ((sample as int) % 256) as u8
}

/// The high byte of a sample.
pub open spec fn high_byte(sample: i16) -> u8 {
    (((sample as int) / 256) % 256) as u8
}

/// The sample that two bytes make, the low byte first.
pub open spec fn sample_of(low: u8, high: u8) -> i16 {
    (if high < 128 {
        low + 256 * high
    } else {
        low + 256 * high - 65536
    }) as i16
}

/// The bytes of samples, each with its low byte first.
pub open spec fn sample_bytes(pcm: Seq<i16>) -> Seq<u8> {
    Seq::new(
        2 * pcm.len(),
        |i: int|
            if i % 2 == 0 {
                low_byte(pcm[i / 2])
            } else {
                high_byte(pcm[i / 2])
            },
    )
}

/// The samples that bytes make; an odd byte at the end is dropped.
pub open spec fn bytes_samples(bytes: Seq<u8>) -> Seq<i16> {
    Seq::new(bytes.len() / 2, |i: int| sample_of(bytes[2 * i], bytes[2 * i + 1]))
}

/// The bytes of samples, each with its low byte first.
pub fn samples_to_bytes(pcm: &[i16]) -> (r: Vec<u8>)
    ensures
        r@ == sample_bytes(pcm@),
{
    let mut out: Vec<u8> = Vec::new();
    let mut i: usize = 0;
    while i < pcm.len()
        invariant
            i <= pcm.len(),
            out.len() == 2 * i,
            forall|j: int| 0 <= j < 2 * i ==> out[j] == sample_bytes(pcm@)[j],
        decreases pcm.len() - i,
    {
        let s: i32 = pcm[i] as i32;
        let u: i32 = if s < 0 {
            s + 65536
        } else {
            s
        };
        let ghost before = out@;
        out.push((u % 256) as u8);
        out.push((u / 256) as u8);
        proof {
            assert(low_byte(pcm@[i as int]) == (u % 256) as u8);
            assert(high_byte(pcm@[i as int]) == (u / 256) as u8);
            assert(out@ =~= before.push((u % 256) as u8).push((u / 256) as u8));
            assert((2 * i) / 2 == i && (2 * i + 1) / 2 == i);
        }
        i += 1;
    }
    proof {
        assert(out@ =~= sample_bytes(pcm@));
    }
    out
}

/// The samples that bytes make; an odd byte at the end is dropped.
pub fn bytes_to_samples(bytes: &[u8]) -> (r: Vec<i16>)
    ensures
        r@ == bytes_samples(bytes@),
{
    let n: usize = bytes.len() / 2;
    let mut out: Vec<i16> = Vec::new();
    let mut i: usize = 0;
    while i < n
        invariant
            i <= n,
            n == bytes.len() / 2,
            out.len() == i,
            forall|j: int| 0 <= j < i ==> out[j] == bytes_samples(bytes@)[j],
        decreases n - i,
    {
        let low: i32 = bytes[2 * i] as i32;
        let high: i32 = bytes[2 * i + 1] as i32;
        let u: i32 = if high < 128 {
            low + 256 * high
        } else {
            low + 256 * high - 65536
        };
        out.push(u as i16);
        i += 1;
    }
    proof {
        assert(out@ =~= bytes_samples(bytes@));
    }
    out
}

/// Samples that were written as bytes read back as they were.
pub proof fn samples_read_back(pcm: Seq<i16>)
    ensures
        bytes_samples(sample_bytes(pcm)) == pcm,
{
    let bytes = sample_bytes(pcm);
    assert forall|i: int| 0 <= i < pcm.len() implies bytes_samples(bytes)[i] == pcm[i] by {
        assert((2 * i) / 2 == i && (2 * i + 1) / 2 == i && (2 * i) % 2 == 0 && (2 * i + 1) % 2
            == 1);
        assert(bytes[2 * i] == low_byte(pcm[i]));
        assert(bytes[2 * i + 1] == high_byte(pcm[i]));
    }
    assert(bytes_samples(bytes) =~= pcm);
}

/// The two bytes of a sample make its value modulo sixty-five thousand five
/// hundred and thirty-six, the low byte first, whichever way it is turned.
pub proof fn low_byte_comes_first(pcm: Seq<i16>, bytes: Seq<u8>)
    ensures
        sample_bytes(pcm).len() == 2 * pcm.len(),
        forall|i: int|
            0 <= i < pcm.len() ==> (sample_bytes(pcm)[2 * i] + 256 * sample_bytes(pcm)[2 * i + 1]
                - #[trigger] pcm[i]) % 65536 == 0,
        bytes_samples(bytes).len() == bytes.len() / 2,
        forall|i: int|
            0 <= i < bytes_samples(bytes).len() ==> (bytes[2 * i] + 256 * bytes[2 * i + 1]
                - #[trigger] bytes_samples(bytes)[i]) % 65536 == 0,
{
    assert forall|i: int| 0 <= i < pcm.len() implies (sample_bytes(pcm)[2 * i] + 256
        * sample_bytes(pcm)[2 * i + 1] - #[trigger] pcm[i]) % 65536 == 0 by {
        assert((2 * i) / 2 == i && (2 * i + 1) / 2 == i && (2 * i) % 2 == 0 && (2 * i + 1) % 2
            == 1);
        assert(sample_bytes(pcm)[2 * i] == low_byte(pcm[i]));
        assert(sample_bytes(pcm)[2 * i + 1] == high_byte(pcm[i]));
    }
}

} // verus!
