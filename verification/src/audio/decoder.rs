//! Framing of audio bundles and assembly of the decoded PCM.
//!
//! One notification on the audio characteristic carries a bundle:
//!
//! ```text
//! byte 0      : bundle index (not used for decoding)
//! byte 1      : number of frames, 1 to 10
//! then, per frame : one size byte, followed by that many payload bytes
//! ```
//!
//! The codec itself is not part of this module. A caller splits a bundle with
//! [`split_bundle`], hands every payload to its codec in order, and gives the
//! outcomes to [`assemble_pcm`].

use vstd::prelude::*;

verus! {

/// The only sample rate the audio path supports, in Hz.
pub const SUPPORTED_SAMPLE_RATE: u32 = 16000;

/// Duration of one codec frame in milliseconds.
pub const FRAME_DURATION_MS: u32 = 20;

/// Largest frame count a bundle may announce.
pub const MAX_FRAMES_PER_BUNDLE: u8 = 10;

/// Why a PCM format was refused.
#[derive(Debug, Clone, Copy, PartialEq, Eq, Structural)]
pub enum DecoderError {
    /// The sample rate is not 16 kHz.
    UnsupportedSampleRate,
}

/// Sample rate and frame length that a codec instance is created with.
#[derive(Debug, Clone, Copy, PartialEq, Eq, Structural)]
pub struct PcmFormat {
    sample_rate: u32,
    frame_size_samples: usize,
}

impl PcmFormat {
    /// Samples in one frame of `FRAME_DURATION_MS` at `sample_rate`.
    pub open spec fn spec_frame_size(sample_rate: u32) -> int {
        sample_rate as int * FRAME_DURATION_MS as int / 1000
    }

    /// Accepts 16 kHz and nothing else; a frame then holds 320 samples.
    pub fn new(sample_rate: u32) -> (format: Result<PcmFormat, DecoderError>)
        ensures
            sample_rate != SUPPORTED_SAMPLE_RATE ==> format == Err::<PcmFormat, DecoderError>(
                DecoderError::UnsupportedSampleRate,
            ),
            sample_rate == SUPPORTED_SAMPLE_RATE ==> format is Ok
                && format->Ok_0.spec_sample_rate() == SUPPORTED_SAMPLE_RATE
                && format->Ok_0.spec_frame_size_samples() == Self::spec_frame_size(sample_rate)
                && format->Ok_0.spec_frame_size_samples() == 320,
    {
        if sample_rate != SUPPORTED_SAMPLE_RATE {
            return Err(DecoderError::UnsupportedSampleRate);
        }
        let samples: u32 = sample_rate * FRAME_DURATION_MS / 1000;
        Ok(PcmFormat { sample_rate, frame_size_samples: samples as usize })
    }

    pub closed spec fn spec_sample_rate(&self) -> u32 {
        self.sample_rate
    }

    pub closed spec fn spec_frame_size_samples(&self) -> usize {
        self.frame_size_samples
    }

    /// Sample rate in Hz.
    #[verifier::when_used_as_spec(spec_sample_rate)]
    pub fn sample_rate(&self) -> (rate: u32)
        ensures
            rate == self.spec_sample_rate(),
    {
        self.sample_rate
    }

    /// Length of the buffer that one decoded frame needs, in samples.
    #[verifier::when_used_as_spec(spec_frame_size_samples)]
    pub fn frame_size_samples(&self) -> (samples: usize)
        ensures
            samples == self.spec_frame_size_samples(),
    {
        self.frame_size_samples
    }
}

/// Payloads found from `offset` on, when `remaining` frame slots are left.
///
/// A slot is a size byte and its payload. A slot of size zero is used up
/// without yielding a payload. Framing ends where the bytes run out: before a
/// size byte, or inside a payload, which is then dropped together with all
/// that follows.
pub open spec fn frames_from(bytes: Seq<u8>, offset: int, remaining: nat) -> Seq<Seq<u8>>
    decreases remaining,
{
    if remaining == 0 || offset < 0 || offset >= bytes.len() {
        Seq::empty()
    } else {
        let size = bytes[offset] as int;
        if size == 0 {
            frames_from(bytes, offset + 1, (remaining - 1) as nat)
        } else if offset + 1 + size > bytes.len() {
            Seq::empty()
        } else {
            seq![bytes.subrange(offset + 1, offset + 1 + size)] + frames_from(
                bytes,
                offset + 1 + size,
                (remaining - 1) as nat,
            )
        }
    }
}

/// Whether the header of a bundle is acceptable: both header bytes are
/// present and the frame count lies in 1 to 10.
pub open spec fn bundle_header_ok(bytes: Seq<u8>) -> bool {
    bytes.len() >= 2 && 1 <= bytes[1] <= MAX_FRAMES_PER_BUNDLE
}

/// The frame payloads of a bundle, in wire order. A bundle with a bad header
/// has none.
pub open spec fn bundle_frames(bytes: Seq<u8>) -> Seq<Seq<u8>> {
    if bundle_header_ok(bytes) {
        frames_from(bytes, 2, bytes[1] as nat)
    } else {
        Seq::empty()
    }
}

/// Views of a list of byte vectors.
pub open spec fn payload_views(frames: Seq<Vec<u8>>) -> Seq<Seq<u8>> {
    Seq::new(frames.len(), |i: int| frames[i]@)
}

/// Framing never yields more payloads than there are slots, and no payload is
/// empty or longer than a size byte can say.
pub proof fn lemma_frames_from_bounds(bytes: Seq<u8>, offset: int, remaining: nat)
    ensures
        frames_from(bytes, offset, remaining).len() <= remaining,
        forall|i: int|
            0 <= i < frames_from(bytes, offset, remaining).len() ==> 1 <= (
            #[trigger] frames_from(bytes, offset, remaining)[i]).len() <= 255,
    decreases remaining,
{
    if remaining == 0 || offset < 0 || offset >= bytes.len() {
    } else {
        let size = bytes[offset] as int;
        if size == 0 {
            lemma_frames_from_bounds(bytes, offset + 1, (remaining - 1) as nat);
        } else if offset + 1 + size > bytes.len() {
        } else {
            lemma_frames_from_bounds(bytes, offset + 1 + size, (remaining - 1) as nat);
        }
    }
}

/// Copies `bytes[start..start + len]` into a vector of its own.
fn copy_payload(bytes: &[u8], start: usize, len: usize) -> (payload: Vec<u8>)
    requires
        start + len <= bytes@.len(),
    ensures
        payload@ == bytes@.subrange(start as int, start + len),
{
    let total: usize = bytes.len();
    let mut payload: Vec<u8> = Vec::with_capacity(len);
    let mut i: usize = 0;
    while i < len
        invariant
            i <= len,
            total == bytes@.len(),
            start + len <= bytes@.len(),
            payload@ == bytes@.subrange(start as int, start + i),
        decreases len - i,
    {
        payload.push(bytes[start + i]);
        i += 1;
    }
    payload
}

/// Splits one bundle into its frame payloads, in wire order.
///
/// Returns nothing for an input shorter than two bytes or with a frame count
/// outside 1 to 10. A frame whose size overruns the bundle ends the framing;
/// the frames before it are kept. Frames of size zero are skipped.
pub fn split_bundle(encoded: &[u8]) -> (frames: Vec<Vec<u8>>)
    ensures
        payload_views(frames@) == bundle_frames(encoded@),
        frames@.len() <= MAX_FRAMES_PER_BUNDLE,
        forall|i: int| 0 <= i < frames@.len() ==> 1 <= (#[trigger] frames@[i])@.len() <= 255,
{
    let mut frames: Vec<Vec<u8>> = Vec::new();
    if encoded.len() < 2 {
        assert(payload_views(frames@) =~= bundle_frames(encoded@));
        return frames;
    }
    let num_frames: u8 = encoded[1];
    if num_frames == 0 || num_frames > MAX_FRAMES_PER_BUNDLE {
        assert(payload_views(frames@) =~= bundle_frames(encoded@));
        return frames;
    }
    let mut offset: usize = 2;
    let mut remaining: u8 = num_frames;
    assert(payload_views(frames@) + frames_from(encoded@, 2, num_frames as nat) =~= bundle_frames(
        encoded@,
    ));
    while remaining > 0 && offset < encoded.len()
        invariant
            2 <= offset <= encoded@.len(),
            payload_views(frames@) + frames_from(encoded@, offset as int, remaining as nat)
                == bundle_frames(encoded@),
        decreases remaining,
    {
        let size: usize = encoded[offset] as usize;
        if size == 0 {
            offset += 1;
            remaining -= 1;
        } else if size > encoded.len() - offset - 1 {
            remaining = 0;
        } else {
            let payload = copy_payload(encoded, offset + 1, size);
            proof {
                assert(payload_views(frames@.push(payload)) =~= payload_views(frames@)
                    + seq![payload@]);
                assert(payload_views(frames@.push(payload)) + frames_from(
                    encoded@,
                    offset + 1 + size,
                    (remaining - 1) as nat,
                ) =~= payload_views(frames@) + frames_from(
                    encoded@,
                    offset as int,
                    remaining as nat,
                ));
            }
            frames.push(payload);
            offset += 1 + size;
            remaining -= 1;
        }
    }
    proof {
        assert(frames_from(encoded@, offset as int, remaining as nat) =~= Seq::<Seq<u8>>::empty());
        assert(payload_views(frames@) =~= bundle_frames(encoded@));
        lemma_frames_from_bounds(encoded@, 2, num_frames as nat);
        assert forall|i: int| 0 <= i < frames@.len() implies 1 <= (#[trigger] frames@[i])@.len()
            <= 255 by {
            assert(payload_views(frames@)[i] == frames@[i]@);
        }
    }
    frames
}

/// The payloads to decode for a bundle that arrived while the recording
/// flag stood at `is_recording`: those of the bundle while recording, none
/// otherwise.
pub fn frames_to_decode(is_recording: bool, encoded: &[u8]) -> (frames: Vec<Vec<u8>>)
    ensures
        payload_views(frames@) == if is_recording {
            bundle_frames(encoded@)
        } else {
            Seq::<Seq<u8>>::empty()
        },
{
    if is_recording {
        split_bundle(encoded)
    } else {
        let frames: Vec<Vec<u8>> = Vec::new();
        assert(payload_views(frames@) =~= Seq::<Seq<u8>>::empty());
        frames
    }
}

/// What the codec made of one frame payload.
#[derive(Debug)]
pub enum FrameOutcome {
    /// The codec filled `buffer` and reported `samples` decoded samples.
    Decoded { buffer: Vec<i16>, samples: usize },
    /// The codec refused the payload; the frame contributes nothing.
    Failed,
}

/// The PCM that one outcome contributes: the first `samples` entries of the
/// buffer (all of it when the count exceeds its length), nothing on failure.
pub open spec fn outcome_pcm(outcome: FrameOutcome) -> Seq<i16> {
    match outcome {
        FrameOutcome::Decoded { buffer, samples } => if samples as int >= buffer@.len() {
            buffer@
        } else {
            buffer@.take(samples as int)
        },
        FrameOutcome::Failed => Seq::empty(),
    }
}

/// In-order concatenation of the PCM of all outcomes.
pub open spec fn concat_pcm(outcomes: Seq<FrameOutcome>) -> Seq<i16>
    decreases outcomes.len(),
{
    if outcomes.len() == 0 {
        Seq::empty()
    } else {
        concat_pcm(outcomes.drop_last()) + outcome_pcm(outcomes.last())
    }
}

/// Appends the PCM of one outcome to `pcm`.
pub fn append_frame(pcm: &mut Vec<i16>, outcome: &FrameOutcome)
    ensures
        final(pcm)@ == old(pcm)@ + outcome_pcm(*outcome),
{
    match outcome {
        FrameOutcome::Decoded { buffer, samples } => {
            let count: usize = if *samples >= buffer.len() {
                buffer.len()
            } else {
                *samples
            };
            let mut i: usize = 0;
            while i < count
                invariant
                    i <= count <= buffer@.len(),
                    pcm@ == old(pcm)@ + buffer@.take(i as int),
                decreases count - i,
            {
                pcm.push(buffer[i]);
                i += 1;
                assert(buffer@.take(i as int) =~= buffer@.take(i - 1).push(buffer@[i - 1]));
            }
            assert(buffer@.take(buffer@.len() as int) =~= buffer@);
        },
        FrameOutcome::Failed => {
            assert(pcm@ + Seq::<i16>::empty() =~= pcm@);
        },
    }
}

/// Concatenates, in order, the PCM of every frame that decoded.
pub fn assemble_pcm(outcomes: &Vec<FrameOutcome>) -> (pcm: Vec<i16>)
    ensures
        pcm@ == concat_pcm(outcomes@),
{
    let mut pcm: Vec<i16> = Vec::new();
    let mut i: usize = 0;
    while i < outcomes.len()
        invariant
            i <= outcomes@.len(),
            pcm@ == concat_pcm(outcomes@.take(i as int)),
        decreases outcomes@.len() - i,
    {
        append_frame(&mut pcm, &outcomes[i]);
        i += 1;
        assert(outcomes@.take(i as int).drop_last() =~= outcomes@.take(i - 1));
    }
    assert(outcomes@.take(outcomes@.len() as int) =~= outcomes@);
    pcm
}

/// The chunk to pass on for one bundle: its PCM, unless there is none.
pub fn decoded_chunk(outcomes: &Vec<FrameOutcome>) -> (chunk: Option<Vec<i16>>)
    ensures
        concat_pcm(outcomes@).len() == 0 ==> chunk is None,
        concat_pcm(outcomes@).len() > 0 ==> chunk is Some && chunk->Some_0@ == concat_pcm(
            outcomes@,
        ),
{
    let pcm = assemble_pcm(outcomes);
    if pcm.len() == 0 {
        None
    } else {
        Some(pcm)
    }
}

/// Framing of a cut-off buffer agrees with framing of the whole buffer as
/// far as it goes.
pub proof fn lemma_frames_from_truncated(bytes: Seq<u8>, kept: int, offset: int, remaining: nat)
    requires
        0 <= kept <= bytes.len(),
    ensures
        frames_from(bytes.take(kept), offset, remaining).is_prefix_of(
            frames_from(bytes, offset, remaining),
        ),
    decreases remaining,
{
    let cut = bytes.take(kept);
    if remaining == 0 || offset < 0 || offset >= cut.len() {
    } else {
        let size = bytes[offset] as int;
        assert(cut[offset] == bytes[offset]);
        let rest = (remaining - 1) as nat;
        if size == 0 {
            lemma_frames_from_truncated(bytes, kept, offset + 1, rest);
        } else if offset + 1 + size > cut.len() {
        } else {
            let next = offset + 1 + size;
            lemma_frames_from_truncated(bytes, kept, next, rest);
            assert(cut.subrange(offset + 1, next) =~= bytes.subrange(offset + 1, next));
            let head = seq![bytes.subrange(offset + 1, next)];
            let short = frames_from(cut, next, rest);
            let long = frames_from(bytes, next, rest);
            assert((head + short) =~= (head + long).subrange(0, (head + short).len() as int));
        }
    }
}

/// A bundle cut off after `kept` bytes has a prefix of the frames of the
/// whole bundle.
pub proof fn lemma_truncated_bundle_frames(bytes: Seq<u8>, kept: int)
    requires
        0 <= kept <= bytes.len(),
    ensures
        bundle_frames(bytes.take(kept)).is_prefix_of(bundle_frames(bytes)),
{
    let cut = bytes.take(kept);
    if bundle_header_ok(cut) {
        assert(cut[1] == bytes[1]);
        lemma_frames_from_truncated(bytes, kept, 2, bytes[1] as nat);
    }
}

/// The PCM of the first outcomes is a prefix of the PCM of all of them.
pub proof fn lemma_concat_pcm_prefix(all: Seq<FrameOutcome>, count: int)
    requires
        0 <= count <= all.len(),
    ensures
        concat_pcm(all.take(count)).is_prefix_of(concat_pcm(all)),
    decreases all.len() - count,
{
    if count == all.len() {
        assert(all.take(count) =~= all);
    } else {
        lemma_concat_pcm_prefix(all, count + 1);
        assert(all.take(count + 1).drop_last() =~= all.take(count));
        assert(all.take(count + 1).last() == all[count]);
        let head = concat_pcm(all.take(count));
        let next = concat_pcm(all.take(count + 1));
        assert(next == head + outcome_pcm(all[count]));
        assert(head =~= next.subrange(0, head.len() as int));
    }
}

/// Truncation law of the bundle format. Let a bundle be cut off after `kept`
/// bytes, and let every frame that the cut bundle still holds decode as it
/// does in the whole bundle. Then the cut bundle holds a prefix of the
/// frames, and its PCM is a prefix of the PCM of the whole bundle.
pub proof fn lemma_truncated_bundle_decodes_to_prefix(
    bytes: Seq<u8>,
    kept: int,
    outcomes: Seq<FrameOutcome>,
)
    requires
        0 <= kept <= bytes.len(),
        outcomes.len() == bundle_frames(bytes).len(),
    ensures
        bundle_frames(bytes.take(kept)).is_prefix_of(bundle_frames(bytes)),
        concat_pcm(outcomes.take(bundle_frames(bytes.take(kept)).len() as int)).is_prefix_of(
            concat_pcm(outcomes),
        ),
{
    lemma_truncated_bundle_frames(bytes, kept);
    lemma_concat_pcm_prefix(outcomes, bundle_frames(bytes.take(kept)).len() as int);
}

} // verus!
