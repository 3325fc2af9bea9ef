//! The utterance buffer in front of the speech-to-text engine, the filter
//! behind it, and the choice of the model file.

use crate::storage::Transcription;
use crate::text::{blank, contains_text, ends_with, ends_with_text, is_blank, occurs_in, text_eq};
use vstd::prelude::*;

verus! {

/// Why a model name was refused.
#[derive(Debug, Clone, Copy, PartialEq, Eq, Structural)]
pub enum ModelError {
    /// Neither a known short name nor the name of a model file.
    InvalidModelName,
}

/// What to tell the operator about a configured model.
#[derive(Debug, Clone, Copy, PartialEq, Eq, Structural)]
pub enum ModelAdvice {
    /// One of the models sized for a small board.
    Recommended,
    /// A model file that names none of the small models: it may be too
    /// large or too slow.
    LargeModelFile,
    /// A short name that is not among the known ones.
    NotOptimized,
}

/// Whether a name is the name of a model file: it ends with `.bin`.
pub open spec fn names_model_file(name: Seq<char>) -> bool {
    ends_with(name, ".bin"@)
}

/// Whether a name mentions a model file: `.bin` stands somewhere in it.
/// Advice is given on this looser ground.
pub open spec fn mentions_model_file(name: Seq<char>) -> bool {
    occurs_in(name, ".bin"@)
}

/// Whether a name is one of the short names of the small models.
pub open spec fn is_short_model_name(name: Seq<char>) -> bool {
    name == "base.en"@ || name == "small.en"@ || name == "tiny.en"@
}

/// The advice for a configured model name.
pub open spec fn spec_model_advice(name: Seq<char>) -> ModelAdvice {
    if mentions_model_file(name) {
        if occurs_in(name, "base"@) || occurs_in(name, "small"@) || occurs_in(name, "tiny"@) {
            ModelAdvice::Recommended
        } else {
            ModelAdvice::LargeModelFile
        }
    } else if is_short_model_name(name) {
        ModelAdvice::Recommended
    } else {
        ModelAdvice::NotOptimized
    }
}

/// Judges a configured model name for a small board. Every name is let
/// through; the advice says whether a warning is due.
pub fn validate_model_for_pi(model_name: &str) -> (advice: Result<ModelAdvice, ModelError>)
    ensures
        advice == Ok::<ModelAdvice, ModelError>(spec_model_advice(model_name@)),
{
    if contains_text(model_name, ".bin") {
        if !contains_text(model_name, "base") && !contains_text(model_name, "small")
            && !contains_text(model_name, "tiny") {
            return Ok(ModelAdvice::LargeModelFile);
        }
        return Ok(ModelAdvice::Recommended);
    }
    if text_eq(model_name, "base.en") || text_eq(model_name, "small.en") || text_eq(
        model_name,
        "tiny.en",
    ) {
        Ok(ModelAdvice::Recommended)
    } else {
        Ok(ModelAdvice::NotOptimized)
    }
}

/// The model file that a configured name stands for: the three short names
/// map to fixed files, a name that ends with `.bin` stands for itself, and
/// no other name stands for anything.
pub open spec fn spec_model_path(name: Seq<char>) -> Option<Seq<char>> {
    if name == "base.en"@ {
        Some("ggml-base.en.bin"@)
    } else if name == "small.en"@ {
        Some("ggml-small.en-q5_1.bin"@)
    } else if name == "tiny.en"@ {
        Some("ggml-tiny.en.bin"@)
    } else if names_model_file(name) {
        Some(name)
    } else {
        None
    }
}

/// Maps a configured model name to the name of its model file.
pub fn map_model_name_to_path(model_name: &str) -> (path: Result<String, ModelError>)
    ensures
        match path {
            Ok(file) => spec_model_path(model_name@) == Some(file@),
            Err(e) => spec_model_path(model_name@) is None && e == ModelError::InvalidModelName,
        },
{
    if text_eq(model_name, "base.en") {
        Ok("ggml-base.en.bin".to_owned())
    } else if text_eq(model_name, "small.en") {
        Ok("ggml-small.en-q5_1.bin".to_owned())
    } else if text_eq(model_name, "tiny.en") {
        Ok("ggml-tiny.en.bin".to_owned())
    } else if ends_with_text(model_name, ".bin") {
        Ok(model_name.to_owned())
    } else {
        Err(ModelError::InvalidModelName)
    }
}

/// What the utterance buffer remembers between two steps.
pub struct BufferState {
    /// Samples gathered for the utterance in progress.
    pub pending: Seq<i16>,
    /// The recording flag as the previous step saw it.
    pub was_recording: bool,
}

/// Whether a step that samples the flag as `is_recording` hands out the
/// pending samples: the flag has fallen and there is something to hand out.
pub open spec fn buffer_emits(state: BufferState, is_recording: bool) -> bool {
    state.was_recording && !is_recording && state.pending.len() > 0
}

/// The state after a step that samples the flag as `is_recording` and
/// receives `chunk` (empty for a timer wake-up).
pub open spec fn buffer_step(state: BufferState, is_recording: bool, chunk: Seq<i16>) -> BufferState {
    let kept = if buffer_emits(state, is_recording) {
        Seq::empty()
    } else {
        state.pending
    };
    BufferState {
        pending: if is_recording {
            kept + chunk
        } else {
            kept
        },
        was_recording: is_recording,
    }
}

/// Turns a PCM stream and a recording flag into whole utterances.
pub struct UtteranceBuffer {
    samples: Vec<i16>,
    was_recording: bool,
}

impl View for UtteranceBuffer {
    type V = BufferState;

    closed spec fn view(&self) -> BufferState {
        BufferState { pending: self.samples@, was_recording: self.was_recording }
    }
}

impl UtteranceBuffer {
    /// An empty buffer that latches the flag as it stands at the start.
    pub fn new(is_recording: bool) -> (buffer: Self)
        ensures
            buffer@ == (BufferState { pending: Seq::empty(), was_recording: is_recording }),
    {
        UtteranceBuffer { samples: Vec::new(), was_recording: is_recording }
    }

    /// Number of samples gathered for the utterance in progress.
    pub fn pending_len(&self) -> (len: usize)
        ensures
            len == self@.pending.len(),
    {
        self.samples.len()
    }

    fn step(&mut self, is_recording: bool, chunk: &[i16]) -> (utterance: Option<Vec<i16>>)
        ensures
            final(self)@ == buffer_step(old(self)@, is_recording, chunk@),
            buffer_emits(old(self)@, is_recording) ==> utterance is Some && utterance->Some_0@ == old(
                self,
            )@.pending,
            !buffer_emits(old(self)@, is_recording) ==> utterance is None,
    {
        let mut utterance: Option<Vec<i16>> = None;
        if self.was_recording && !is_recording && self.samples.len() > 0 {
            let mut taken: Vec<i16> = Vec::new();
            std::mem::swap(&mut taken, &mut self.samples);
            utterance = Some(taken);
        }
        if is_recording {
            let mut i: usize = 0;
            let ghost before = self.samples@;
            while i < chunk.len()
                invariant
                    i <= chunk@.len(),
                    self.samples@ == before + chunk@.take(i as int),
                    self.was_recording == old(self).was_recording,
                decreases chunk@.len() - i,
            {
                self.samples.push(chunk[i]);
                i += 1;
                assert(chunk@.take(i as int) =~= chunk@.take(i - 1).push(chunk@[i - 1]));
            }
            assert(chunk@.take(chunk@.len() as int) =~= chunk@);
        }
        self.was_recording = is_recording;
        utterance
    }

    /// Takes one PCM chunk, with the recording flag sampled on its arrival.
    ///
    /// If the flag has fallen since the previous step and samples are
    /// pending, they are handed out as one utterance. The chunk is kept if
    /// the flag is up, and dropped otherwise.
    pub fn on_chunk(&mut self, is_recording: bool, chunk: &[i16]) -> (utterance: Option<Vec<i16>>)
        ensures
            final(self)@ == buffer_step(old(self)@, is_recording, chunk@),
            buffer_emits(old(self)@, is_recording) ==> utterance is Some && utterance->Some_0@ == old(
                self,
            )@.pending,
            !buffer_emits(old(self)@, is_recording) ==> utterance is None,
    {
        self.step(is_recording, chunk)
    }

    /// The timer wake-up: a step without samples, so that a fallen flag is
    /// seen even when no further audio arrives.
    pub fn on_tick(&mut self, is_recording: bool) -> (utterance: Option<Vec<i16>>)
        ensures
            final(self)@ == buffer_step(old(self)@, is_recording, Seq::empty()),
            buffer_emits(old(self)@, is_recording) ==> utterance is Some && utterance->Some_0@ == old(
                self,
            )@.pending,
            !buffer_emits(old(self)@, is_recording) ==> utterance is None,
    {
        let nothing: Vec<i16> = Vec::new();
        self.step(is_recording, nothing.as_slice())
    }

    /// The audio channel has closed: hands out whatever is pending.
    pub fn on_close(self) -> (utterance: Option<Vec<i16>>)
        ensures
            self@.pending.len() == 0 ==> utterance is None,
            self@.pending.len() > 0 ==> utterance is Some && utterance->Some_0@ == self@.pending,
    {
        if self.samples.len() > 0 {
            Some(self.samples)
        } else {
            None
        }
    }
}

/// One step of the buffer as a trace sees it: the flag as sampled, and the
/// samples that arrived (none for a timer wake-up).
pub struct BufferEvent {
    pub is_recording: bool,
    pub chunk: Seq<i16>,
}

/// The state of the buffer after a trace of steps.
pub open spec fn buffer_run(start: BufferState, events: Seq<BufferEvent>) -> BufferState
    decreases events.len(),
{
    if events.len() == 0 {
        start
    } else {
        buffer_step(
            buffer_run(start, events.drop_last()),
            events.last().is_recording,
            events.last().chunk,
        )
    }
}

/// The utterances that the buffer hands out over a trace of steps, in order.
pub open spec fn buffer_utterances(start: BufferState, events: Seq<BufferEvent>) -> Seq<Seq<i16>>
    decreases events.len(),
{
    if events.len() == 0 {
        Seq::empty()
    } else {
        let before = buffer_run(start, events.drop_last());
        let earlier = buffer_utterances(start, events.drop_last());
        if buffer_emits(before, events.last().is_recording) {
            earlier.push(before.pending)
        } else {
            earlier
        }
    }
}

/// The flag as the buffer knew it before step `i`: its initial value for the
/// first step, else the value sampled by the step before.
pub open spec fn flag_before(initial: bool, events: Seq<BufferEvent>, i: int) -> bool {
    if i <= 0 {
        initial
    } else {
        events[i - 1].is_recording
    }
}

/// The samples that arrived during the unbroken stretch of raised flag at
/// the end of a trace; none if the trace ends with the flag down.
pub open spec fn raised_stretch(events: Seq<BufferEvent>) -> Seq<i16>
    decreases events.len(),
{
    if events.len() == 0 || !events.last().is_recording {
        Seq::empty()
    } else {
        raised_stretch(events.drop_last()) + events.last().chunk
    }
}

/// Whether step `i` of a trace is a falling edge of the flag with at least
/// one sample received since the flag was raised.
pub open spec fn falling_edge_with_samples(initial: bool, events: Seq<BufferEvent>, i: int) -> bool {
    &&& 0 <= i < events.len()
    &&& flag_before(initial, events, i)
    &&& !events[i].is_recording
    &&& raised_stretch(events.take(i)).len() > 0
}

/// One utterance for every falling edge with samples, in order: the samples
/// of the raised stretch that the edge ends.
pub open spec fn edge_utterances(initial: bool, events: Seq<BufferEvent>) -> Seq<Seq<i16>>
    decreases events.len(),
{
    if events.len() == 0 {
        Seq::empty()
    } else {
        let earlier = edge_utterances(initial, events.drop_last());
        if falling_edge_with_samples(initial, events, events.len() - 1) {
            earlier.push(raised_stretch(events.drop_last()))
        } else {
            earlier
        }
    }
}

/// The buffer never hands out an utterance on a step that sees the flag up.
pub proof fn lemma_silent_while_recording(state: BufferState)
    ensures
        !buffer_emits(state, true),
{
}

/// The buffer is edge-triggered. Started empty, over any trace of chunks and
/// timer wake-ups it holds exactly the samples of the raised stretch in
/// progress, and it has handed out exactly one utterance per falling edge
/// with samples: the samples received while the flag was up before that edge.
pub proof fn lemma_edge_triggered(initial: bool, events: Seq<BufferEvent>)
    ensures
        buffer_run(
            BufferState { pending: Seq::empty(), was_recording: initial },
            events,
        ).pending == raised_stretch(events),
        buffer_run(
            BufferState { pending: Seq::empty(), was_recording: initial },
            events,
        ).was_recording == flag_before(initial, events, events.len() as int),
        buffer_utterances(BufferState { pending: Seq::empty(), was_recording: initial }, events)
            == edge_utterances(initial, events),
    decreases events.len(),
{
    let start = BufferState { pending: Seq::empty(), was_recording: initial };
    if events.len() > 0 {
        let earlier = events.drop_last();
        lemma_edge_triggered(initial, earlier);
        let before = buffer_run(start, earlier);
        let last = events.last();
        assert(events.take(events.len() - 1) =~= earlier);
        assert(before.was_recording == flag_before(initial, events, events.len() - 1)) by {
            if earlier.len() > 0 {
                assert(earlier.last() == events[events.len() - 2]);
            }
        }
        assert(buffer_emits(before, last.is_recording) == falling_edge_with_samples(
            initial,
            events,
            events.len() - 1,
        ));
        if last.is_recording {
            assert(buffer_step(before, true, last.chunk).pending =~= raised_stretch(events));
        } else {
            // With the flag down nothing stays pending: it was handed out,
            // or the flag was down before and nothing had been kept.
            if !before.was_recording && earlier.len() > 0 {
                assert(!earlier.last().is_recording);
            }
            assert(buffer_step(before, false, last.chunk).pending =~= raised_stretch(events));
        }
    }
}

/// The steps of a trace that are falling edges with samples.
pub open spec fn falling_edges(initial: bool, events: Seq<BufferEvent>) -> Set<int> {
    Set::new(|i: int| falling_edge_with_samples(initial, events, i))
}

/// Dropping the last step of a trace changes nothing about the earlier steps.
proof fn lemma_edges_of_shorter_trace(initial: bool, events: Seq<BufferEvent>, i: int)
    requires
        0 <= i < events.len() - 1,
    ensures
        falling_edge_with_samples(initial, events, i) == falling_edge_with_samples(
            initial,
            events.drop_last(),
            i,
        ),
{
    let earlier = events.drop_last();
    assert(earlier[i] == events[i]);
    if i > 0 {
        assert(earlier[i - 1] == events[i - 1]);
    }
    assert(events.take(i) =~= earlier.take(i));
}

/// There are as many utterances due as there are falling edges with samples.
proof fn lemma_edge_utterances_counted(initial: bool, events: Seq<BufferEvent>)
    ensures
        falling_edges(initial, events).finite(),
        edge_utterances(initial, events).len() == falling_edges(initial, events).len(),
        forall|i: int| falling_edges(initial, events).contains(i) ==> 0 <= i < events.len(),
    decreases events.len(),
{
    let edges = falling_edges(initial, events);
    if events.len() == 0 {
        assert(edges =~= Set::<int>::empty());
    } else {
        let earlier = events.drop_last();
        let last = events.len() - 1;
        lemma_edge_utterances_counted(initial, earlier);
        let before = falling_edges(initial, earlier);
        assert forall|i: int| 0 <= i < last implies edges.contains(i) == before.contains(i) by {
            lemma_edges_of_shorter_trace(initial, events, i);
        }
        assert(!before.contains(last));
        if falling_edge_with_samples(initial, events, last) {
            assert(edges =~= before.insert(last));
        } else {
            assert(edges =~= before);
        }
    }
}

/// Edge-triggered utterances, counted. Started empty, over any trace of
/// chunks and timer wake-ups the buffer hands out exactly one utterance per
/// falling edge of the flag with at least one sample received while the
/// flag was up.
pub proof fn lemma_one_utterance_per_edge(initial: bool, events: Seq<BufferEvent>)
    ensures
        falling_edges(initial, events).finite(),
        buffer_utterances(
            BufferState { pending: Seq::empty(), was_recording: initial },
            events,
        ).len() == falling_edges(initial, events).len(),
{
    lemma_edge_triggered(initial, events);
    lemma_edge_utterances_counted(initial, events);
}

/// Wraps the engine's answer for one utterance into a local record, or drops
/// it when the text is blank.
///
/// The record carries the given id and timestamp, names `source_node` as
/// its origin, has no device and is not yet synced.
pub fn local_transcription(
    text: String,
    id: String,
    timestamp: i64,
    source_node: &str,
) -> (record: Option<Transcription>)
    ensures
        blank(text@) ==> record is None,
        !blank(text@) ==> record is Some && record->Some_0@ == (crate::storage::TranscriptionView {
            id: id@,
            timestamp: timestamp as int,
            text: text@,
            source_node: source_node@,
            memo_device_id: None,
            synced: false,
        }),
{
    if is_blank(text.as_str()) {
        None
    } else {
        Some(
            Transcription {
                id,
                timestamp,
                text,
                source_node: source_node.to_owned(),
                memo_device_id: None,
                synced: false,
            },
        )
    }
}

} // verus!
