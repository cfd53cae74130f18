//! The sound container: an audio payload behind a header of sixteen bytes.
//!
//! The header is twelve fixed bytes followed by the payload's length as an
//! unsigned 32-bit integer, least significant byte first.

use vstd::prelude::*;

verus! {

/// Length of the container header in bytes.
pub const HEADER_LEN: usize = 16;

/// Largest payload, in bytes, whose length the header can record.
pub const MAX_PAYLOAD_LEN: u64 = 0xFFFF_FFFF;

/// Why a payload cannot be wrapped in a container.
#[derive(Debug, Clone, Copy, PartialEq, Eq, Structural)]
pub enum CodecError {
    /// The payload is longer than the header's length field can record.
    TooLarge,
}

/// The twelve bytes every container starts with.
pub open spec fn magic() -> Seq<u8> {
    seq![0x0Bu8, 0u8, 0u8, 0u8, 0u8, 0u8, 0x07u8, 0u8, 0u8, 0u8, 0u8, 0u8]
}

/// The four bytes of `n`, least significant first.
pub open spec fn length_field(n: nat) -> Seq<u8>
    recommends
        n <= MAX_PAYLOAD_LEN,
{
    seq![
        (n % 256) as u8,
        (n / 256 % 256) as u8,
        (n / 65536 % 256) as u8,
        (n / 16777216 % 256) as u8,
    ]
}

/// The header of a container whose payload is `n` bytes long.
pub open spec fn header_of(n: nat) -> Seq<u8> {
    magic() + length_field(n)
}

/// The container that wraps `audio`.
pub open spec fn encoded(audio: Seq<u8>) -> Seq<u8> {
    header_of(audio.len()) + audio
}

/// The payload of `container`: everything after the first sixteen bytes.
/// The header is not inspected, and an input shorter than a header has an
/// empty payload.
pub open spec fn decoded(container: Seq<u8>) -> Seq<u8> {
    if container.len() >= HEADER_LEN {
        container.skip(HEADER_LEN as int)
    } else {
        Seq::empty()
    }
}

/// Builds the header for a payload of `payload_len` bytes, or reports that
/// the length does not fit the header's 32-bit field.
pub fn sound_header(payload_len: u64) -> (r: Result<Vec<u8>, CodecError>)
    ensures
        payload_len <= MAX_PAYLOAD_LEN ==> (r matches Ok(h) && h@ == header_of(payload_len as nat)),
        payload_len > MAX_PAYLOAD_LEN ==> r == Err::<Vec<u8>, CodecError>(CodecError::TooLarge),
{
    if payload_len > MAX_PAYLOAD_LEN {
        return Err(CodecError::TooLarge);
    }
    let mut header: Vec<u8> = Vec::with_capacity(HEADER_LEN);
    header.push(0x0B);
    header.push(0);
    header.push(0);
    header.push(0);
    header.push(0);
    header.push(0);
    header.push(0x07);
    header.push(0);
    header.push(0);
    header.push(0);
    header.push(0);
    header.push(0);
    header.push((payload_len % 256) as u8);
    header.push((payload_len / 256 % 256) as u8);
    header.push((payload_len / 65536 % 256) as u8);
    header.push((payload_len / 16777216 % 256) as u8);
    Ok(header)
}

/// Wraps an audio payload in a sound container.
///
/// Fails with [`CodecError::TooLarge`] exactly when the payload is longer
/// than [`MAX_PAYLOAD_LEN`] bytes.
pub fn ogg_to_sound(audio: &Vec<u8>) -> (r: Result<Vec<u8>, CodecError>)
    ensures
        audio@.len() <= MAX_PAYLOAD_LEN ==> (r matches Ok(c) && c@ == encoded(audio@)),
        audio@.len() > MAX_PAYLOAD_LEN ==> r == Err::<Vec<u8>, CodecError>(CodecError::TooLarge),
{
    let n: usize = audio.len();
    if n as u64 > MAX_PAYLOAD_LEN {
        return Err(CodecError::TooLarge);
    }
    match sound_header(n as u64) {
        Err(e) => Err(e),
        Ok(mut out) => {
            let mut i: usize = 0;
            while i < n
                invariant
                    n == audio@.len(),
                    i <= n,
                    out@ == header_of(n as nat) + audio@.take(i as int),
                decreases n - i,
            {
                out.push(audio[i]);
                i += 1;
            }
            Ok(out)
        },
    }
}

/// Unwraps a sound container: drops its first sixteen bytes and returns the
/// rest unchanged. Neither the fixed bytes nor the recorded length are
/// checked.
pub fn sound_to_ogg(container: &Vec<u8>) -> (audio: Vec<u8>)
    ensures
        audio@ == decoded(container@),
{
    let n: usize = container.len();
    let mut audio: Vec<u8> = Vec::new();
    if n < HEADER_LEN {
        return audio;
    }
    let mut i: usize = HEADER_LEN;
    while i < n
        invariant
            n == container@.len(),
            HEADER_LEN <= i <= n,
            audio@ == container@.subrange(HEADER_LEN as int, i as int),
        decreases n - i,
    {
        audio.push(container[i]);
        i += 1;
    }
    audio
}

/// The container starts with the header that fits its payload: the fixed
/// bytes, and the payload's true length.
pub open spec fn well_formed(container: Seq<u8>) -> bool {
    &&& container.len() >= HEADER_LEN
    &&& container.len() - HEADER_LEN <= MAX_PAYLOAD_LEN
    &&& container.take(HEADER_LEN as int) == header_of((container.len() - HEADER_LEN) as nat)
}

/// Whether a container starts with the header that fits its payload.
/// [`sound_to_ogg`] does not ask for this; a caller that wants to be strict
/// can.
pub fn has_valid_header(container: &Vec<u8>) -> (r: bool)
    ensures
        r == well_formed(container@),
{
    let n: usize = container.len();
    if n < HEADER_LEN {
        return false;
    }
    let expected = match sound_header((n - HEADER_LEN) as u64) {
        Ok(header) => header,
        Err(_) => {
            return false;
        },
    };
    let mut i: usize = 0;
    while i < HEADER_LEN
        invariant
            i <= HEADER_LEN <= n,
            n == container@.len(),
            expected@ == header_of((n - HEADER_LEN) as nat),
            expected@.len() == HEADER_LEN,
            forall|j: int| 0 <= j < i ==> container@[j] == #[trigger] expected@[j],
        decreases HEADER_LEN - i,
    {
        if container[i] != expected[i] {
            return false;
        }
        i += 1;
    }
    assert(container@.take(HEADER_LEN as int) =~= expected@);
    true
}

/// Unwrapping a wrapped payload gives the payload back.
pub proof fn lemma_decode_encode(audio: Seq<u8>)
    ensures
        decoded(encoded(audio)) == audio,
{
}

/// A wrapped payload is well formed, and wrapping the payload of a
/// well-formed container gives the container back.
pub proof fn lemma_well_formed(audio: Seq<u8>, container: Seq<u8>)
    ensures
        audio.len() <= MAX_PAYLOAD_LEN ==> well_formed(encoded(audio)),
        well_formed(container) ==> encoded(decoded(container)) == container,
{
    if audio.len() <= MAX_PAYLOAD_LEN {
        assert(encoded(audio).take(HEADER_LEN as int) =~= header_of(audio.len()));
    }
    if well_formed(container) {
        assert(encoded(decoded(container)) =~= container.take(HEADER_LEN as int) + container.skip(
            HEADER_LEN as int,
        ));
        assert(container.take(HEADER_LEN as int) + container.skip(HEADER_LEN as int)
            =~= container);
    }
}

} // verus!
