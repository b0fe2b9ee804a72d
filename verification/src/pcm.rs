//! The wire format of a speech segment: little-endian signed 16-bit PCM, two
//! bytes to the sample.

use vstd::prelude::*;

verus! {

/// A sample as an unsigned 16-bit number, in two's complement.
pub open spec fn unsigned_of(sample: i16) -> int {
    if sample < 0 {
        sample + 0x1_0000
    } else {
        sample as int
    }
}

/// The low byte of a sample.
pub open spec fn low_byte(sample: i16) -> u8 {
    (unsigned_of(sample) % 256) as u8
}

/// The high byte of a sample.
pub open spec fn high_byte(sample: i16) -> u8 {
    (unsigned_of(sample) / 256) as u8
}

/// The sample that two bytes stand for, low byte first.
pub open spec fn sample_of(low: u8, high: u8) -> int {
    if high >= 128 {
        low + 256 * high - 0x1_0000
    } else {
        low + 256 * high
    }
}

/// The bytes of a segment: for each sample its low byte, then its high byte.
pub open spec fn encoded(samples: Seq<i16>) -> Seq<u8> {
    Seq::new(
        2 * samples.len(),
        |i: int|
            if i % 2 == 0 {
                low_byte(samples[i / 2])
            } else {
                high_byte(samples[i / 2])
            },
    )
}

/// The two bytes of a sample stand for that sample and no other.
pub proof fn lemma_bytes_round_trip(sample: i16)
    ensures
        sample_of(low_byte(sample), high_byte(sample)) == sample,
{
}

/// Encodes a segment for the sink.
pub fn encode_pcm_le(samples: &[i16]) -> (bytes: Vec<u8>)
    ensures
        bytes@ == encoded(samples@),
        bytes@.len() == 2 * samples@.len(),
{
    let mut bytes: Vec<u8> = Vec::new();
    let mut i: usize = 0;
    while i < samples.len()
        invariant
            i <= samples@.len(),
            bytes@.len() == 2 * i,
            forall|j: int|
                0 <= j < i ==> bytes@[2 * j] == low_byte(#[trigger] samples@[j]) && bytes@[2 * j
                    + 1] == high_byte(samples@[j]),
        decreases samples@.len() - i,
    {
        let wide: i32 = samples[i] as i32;
        let unsigned: i32 = if wide < 0 {
            wide + 0x1_0000
        } else {
            wide
        };
        bytes.push((unsigned % 256) as u8);
        bytes.push((unsigned / 256) as u8);
        i = i + 1;
    }
    assert(bytes@ =~= encoded(samples@)) by {
        assert forall|k: int| 0 <= k < bytes@.len() implies bytes@[k] == encoded(samples@)[k] by {
            let j = k / 2;
            assert(0 <= j < i);
            assert(bytes@[2 * j] == low_byte(samples@[j]));
            assert(k == 2 * j || k == 2 * j + 1);
        }
    }
    bytes
}

} // verus!
