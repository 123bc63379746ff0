use vstd::prelude::*;

use base64::DecodeError;

use crate::codec::{
    base64_standard_decoding, base64_standard_encoding, is_standard_base64,
    lemma_standard_base64_injective, standard_base64, standard_decode, standard_encode,
};
use crate::error::Error;
use crate::samples::{
    decode_sample, encode_sample, le_bytes, le_samples, lemma_byte_positions, lemma_sample_positions,
};

verus! {

/// Raw L16 mono PCM audio data (little-endian i16 samples at `PCM_SAMPLE_RATE_HZ`).
#[derive(Debug, Clone)]
pub struct PCM(Vec<u8>);

impl View for PCM {
    type V = Seq<u8>;

    /// The raw bytes of the buffer.
    closed spec fn view(&self) -> Seq<u8> {
        self.0@
    }
}

impl PCM {
    /// Wrap raw PCM bytes.
    pub fn new(bytes: Vec<u8>) -> (pcm: Self)
        ensures
            pcm@ == bytes@,
    {
        PCM(bytes)
    }

    /// Consume the wrapper and return the inner byte vector.
    pub fn into_inner(self) -> (bytes: Vec<u8>)
        ensures
            bytes@ == self@,
    {
        self.0
    }

    /// Number of bytes in this PCM buffer.
    pub fn len(&self) -> (n: usize)
        ensures
            n == self@.len(),
    {
        self.0.len()
    }

    /// True when the buffer is empty.
    pub fn is_empty(&self) -> (empty: bool)
        ensures
            empty <==> self@.len() == 0,
    {
        self.0.len() == 0
    }

    /// Number of samples in this L16 mono buffer, the length that its playback
    /// duration at `PCM_SAMPLE_RATE_HZ` is measured in.
    ///
    /// Returns [`Error::ByteLengthNotEven`] when the buffer length is odd:
    /// L16 mono is always two bytes per sample, so an odd byte count is malformed.
    pub fn sample_count(&self) -> (r: Result<u64, Error>)
        ensures
            r is Err <==> self@.len() % 2 == 1,
            r matches Ok(n) ==> n == self@.len() / 2,
            r matches Err(e) ==> e == Error::ByteLengthNotEven,
    {
        let n = self.0.len();
        if n % 2 != 0 {
            return Err(Error::ByteLengthNotEven);
        }
        Ok(n as u64 / 2)
    }

    /// The samples of this buffer: each complete pair of bytes read as a
    /// little-endian `i16`; a trailing odd byte is not part of any sample.
    pub fn i16_samples(&self) -> (samples: Vec<i16>)
        ensures
            samples@ == le_samples(self@),
            samples@.len() == self@.len() / 2,
            forall|k: int|
                0 <= k < self@.len() / 2 ==> #[trigger] samples@[k] as int == self@[2 * k] + 256
                    * self@[2 * k + 1] - (if self@[2 * k + 1] >= 128 {
                    65536int
                } else {
                    0int
                }),
    {
        let len = self.0.len();
        let n = len / 2;
        let mut out: Vec<i16> = Vec::new();
        let mut k: usize = 0;
        while k < n
            invariant
                len == self.0@.len(),
                n == len / 2,
                k <= n,
                out@.len() == k,
                forall|i: int| 0 <= i < k ==> out@[i] == le_samples(self.0@)[i],
            decreases n - k,
        {
            assert(2 * k + 1 < len);
            let lo = self.0[2 * k];
            let hi = self.0[2 * k + 1];
            out.push(decode_sample(lo, hi));
            k += 1;
        }
        assert(out@ =~= le_samples(self.0@));
        proof {
            assert forall|k: int| 0 <= k < len / 2 implies #[trigger] out@[k] as int == self@[2
                * k] + 256 * self@[2 * k + 1] - (if self@[2 * k + 1] >= 128 {
                65536int
            } else {
                0int
            }) by {
                lemma_sample_positions(self@, k);
            }
        }
        out
    }

    /// Build a buffer from samples, each written as two little-endian bytes.
    pub fn from_i16_samples(samples: &Vec<i16>) -> (pcm: PCM)
        requires
            samples@.len() * 2 <= usize::MAX,
        ensures
            pcm@ == le_bytes(samples@),
            pcm@.len() == 2 * samples@.len(),
            forall|k: int|
                0 <= k < samples@.len() ==> pcm@[2 * k] + 256 * pcm@[2 * k + 1] == #[trigger] samples@[k]
                    + (if samples@[k] < 0 {
                    65536int
                } else {
                    0int
                }),
    {
        let mut out: Vec<u8> = Vec::new();
        let mut k: usize = 0;
        while k < samples.len()
            invariant
                k <= samples@.len(),
                out@.len() == 2 * k,
                forall|j: int| 0 <= j < 2 * k ==> out@[j] == le_bytes(samples@)[j],
            decreases samples@.len() - k,
        {
            let (lo, hi) = encode_sample(samples[k]);
            out.push(lo);
            out.push(hi);
            assert forall|j: int| 0 <= j < 2 * k + 2 implies out@[j] == le_bytes(samples@)[j] by {
                if j >= 2 * k {
                    assert(j / 2 == k);
                }
            }
            k += 1;
        }
        assert(out@ =~= le_bytes(samples@));
        proof {
            assert forall|k: int| 0 <= k < samples@.len() implies out@[2 * k] + 256 * out@[2 * k
                + 1] == #[trigger] samples@[k] + (if samples@[k] < 0 {
                65536int
            } else {
                0int
            }) by {
                lemma_byte_positions(samples@, k);
            }
        }
        PCM(out)
    }

    /// Encode this PCM buffer as a base64 string (STANDARD alphabet).
    pub fn to_b64(&self) -> (text: String)
        requires
            4 * ((self@.len() + 2) / 3) <= usize::MAX,
        ensures
            text@ == base64_standard_encoding(self@),
            text@.len() == 4 * ((self@.len() + 2) / 3),
            base64_standard_decoding(text@) == Some(self@),
            text@ == standard_base64(self@),
    {
        standard_encode(self.0.as_slice())
    }

    /// Decode a base64 string (STANDARD alphabet) into a PCM buffer.
    ///
    /// Returns [`base64::DecodeError`] when the input is not valid base64.
    /// Text written by [`PCM::to_b64`] decodes to the buffer it was written for,
    /// and a text that decodes is exactly what `to_b64` writes for the result.
    pub fn from_b64(s: &str) -> (r: Result<Self, DecodeError>)
        ensures
            r is Ok <==> base64_standard_decoding(s@) is Some,
            r matches Ok(pcm) ==> base64_standard_decoding(s@) == Some(pcm@),
            r matches Ok(pcm) ==> s@ == base64_standard_encoding(pcm@),
            r matches Ok(pcm) ==> s@.len() == 4 * ((pcm@.len() + 2) / 3),
            r is Ok <==> is_standard_base64(s@),
            r matches Ok(pcm) ==> s@ == standard_base64(pcm@),
            r matches Ok(pcm) ==> forall|bytes: Seq<u8>|
                #[trigger] standard_base64(bytes) == s@ ==> bytes == pcm@,
    {
        match standard_decode(s) {
            Ok(bytes) => {
                proof {
                    assert forall|other: Seq<u8>| #[trigger]
                        standard_base64(other) == s@ implies other == bytes@ by {
                        lemma_standard_base64_injective(other, bytes@);
                    }
                }
                Ok(PCM(bytes))
            },
            Err(e) => Err(e),
        }
    }
}

fn bytes_equal(a: &Vec<u8>, b: &Vec<u8>) -> (same: bool)
    ensures
        same <==> a@ == b@,
{
    if a.len() != b.len() {
        return false;
    }
    let mut i: usize = 0;
    while i < a.len()
        invariant
            a@.len() == b@.len(),
            i <= a@.len(),
            forall|j: int| 0 <= j < i ==> a@[j] == b@[j],
        decreases a@.len() - i,
    {
        if a[i] != b[i] {
            return false;
        }
        i += 1;
    }
    assert(a@ =~= b@);
    true
}

impl PartialEq for PCM {
    fn eq(&self, other: &Self) -> (same: bool)
        ensures
            same <==> (self@.len() == other@.len() && forall|i: int|
                0 <= i < self@.len() ==> #[trigger] self@[i] == other@[i]),
    {
        let same = bytes_equal(&self.0, &other.0);
        proof {
            if self@.len() == other@.len() && forall|i: int|
                0 <= i < self@.len() ==> #[trigger] self@[i] == other@[i] {
                assert(self@ =~= other@);
            }
        }
        same
    }
}

impl vstd::std_specs::cmp::PartialEqSpecImpl for PCM {
    open spec fn obeys_eq_spec() -> bool {
        true
    }

    open spec fn eq_spec(&self, other: &Self) -> bool {
        self@ == other@
    }
}

/// Two buffers are `==` exactly when they have the same length and agree at
/// every byte position.
pub proof fn lemma_eq_is_bytewise(a: PCM, b: PCM)
    ensures
        vstd::std_specs::cmp::PartialEqSpec::eq_spec(&a, &b) <==> (a@.len() == b@.len() && forall|i: int|
            0 <= i < a@.len() ==> #[trigger] a@[i] == b@[i]),
{
    if a@.len() == b@.len() && forall|i: int| 0 <= i < a@.len() ==> #[trigger] a@[i] == b@[i] {
        assert(a@ =~= b@);
    }
}

impl Default for PCM {
    /// The empty buffer.
    fn default() -> (pcm: Self)
        ensures
            pcm@ == Seq::<u8>::empty(),
    {
        PCM(Vec::new())
    }
}

impl core::ops::Deref for PCM {
    type Target = [u8];

    fn deref(&self) -> (bytes: &[u8])
        ensures
            bytes@ == self@,
    {
        self.0.as_slice()
    }
}

impl AsRef<[u8]> for PCM {
    fn as_ref(&self) -> (bytes: &[u8])
        ensures
            bytes@ == self@,
    {
        self.0.as_slice()
    }
}

impl From<Vec<u8>> for PCM {
    fn from(bytes: Vec<u8>) -> (pcm: Self)
        ensures
            pcm@ == bytes@,
    {
        PCM(bytes)
    }
}

impl vstd::std_specs::convert::FromSpecImpl<Vec<u8>> for PCM {
    open spec fn obeys_from_spec() -> bool {
        true
    }

    closed spec fn from_spec(bytes: Vec<u8>) -> Self {
        PCM(bytes)
    }
}

impl From<PCM> for Vec<u8> {
    fn from(pcm: PCM) -> (bytes: Self)
        ensures
            bytes@ == pcm@,
    {
        pcm.0
    }
}

impl vstd::std_specs::convert::FromSpecImpl<PCM> for Vec<u8> {
    open spec fn obeys_from_spec() -> bool {
        true
    }

    closed spec fn from_spec(pcm: PCM) -> Self {
        pcm.0
    }
}

} // verus!
