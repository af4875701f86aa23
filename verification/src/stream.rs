//! The streaming protocol of a decoder, and the plain-value decisions taken
//! on what the engine reports: the utterance-boundary flag, and the
//! vocabulary lookup's not-found sentinel. A fully specified simulated
//! engine stands beside them: it follows the same streaming protocol, so
//! the protocol's promises can be exercised end to end without a native
//! engine.

use vstd::prelude::*;

use crate::results::RecognizedPartial;
use crate::results::RecognizedText;
use crate::text::push_char;

verus! {

/// The engine reports an accepted waveform with a flag that is zero while
/// the utterance goes on and non-zero once a boundary (silence) was heard.
pub fn boundary_from_raw(raw: i32) -> (r: bool)
    ensures
        r == (raw != 0),
{
    raw != 0
}

/// The engine reports a vocabulary lookup with the symbol for the word, or
/// with the sentinel value for a word it does not know. Symbol zero is the
/// reserved null symbol, not a failure.
pub fn symbol_from_raw(raw: i32) -> (r: Option<i32>)
    ensures
        r == if raw == -1 {
            None::<i32>
        } else {
            Some(raw)
        },
{
    if raw == -1 {
        None
    } else {
        Some(raw)
    }
}

/// The two states of a streaming decoder: accumulating audio and producing
/// only partial hypotheses, or holding a finished utterance whose result is
/// ready to be read.
#[derive(Clone, Copy, PartialEq, Eq, Structural)]
pub enum DecodeState {
    Listening,
    UtteranceReady,
}

/// The caller-side record of one decoder's streaming protocol. Every
/// accepted waveform moves it by the engine's boundary flag; reading a
/// result puts it back to listening.
pub struct Session {
    state: DecodeState,
}

impl Session {
    /// The session's current protocol state.
    pub closed spec fn spec_state(self) -> DecodeState {
        self.state
    }

    /// A fresh session listens.
    pub fn new() -> (r: Session)
        ensures
            r.spec_state() == DecodeState::Listening,
    {
        Session { state: DecodeState::Listening }
    }

    /// Notes the boundary flag of one accepted waveform: a detected boundary
    /// means an utterance is finished and its result is ready.
    pub fn note_waveform(&mut self, boundary: bool)
        ensures
            final(self).spec_state() == if boundary {
                DecodeState::UtteranceReady
            } else {
                DecodeState::Listening
            },
    {
        self.state = if boundary {
            DecodeState::UtteranceReady
        } else {
            DecodeState::Listening
        };
    }

    /// Notes that a result was read; reading one starts the next utterance,
    /// whichever retrieval call read it.
    pub fn note_result_read(&mut self)
        ensures
            final(self).spec_state() == DecodeState::Listening,
    {
        self.state = DecodeState::Listening;
    }

    /// Whether a finished utterance is waiting, so that the boundary-case
    /// retrieval call is the one to use.
    pub fn utterance_ready(&self) -> (r: bool)
        ensures
            r == (self.spec_state() == DecodeState::UtteranceReady),
    {
        self.state == DecodeState::UtteranceReady
    }
}

/// Whether two texts hold the same characters.
pub fn str_eq(a: &str, b: &str) -> (r: bool)
    ensures
        r == (a@ == b@),
{
    let na = a.unicode_len();
    let nb = b.unicode_len();
    if na != nb {
        return false;
    }
    let mut k: usize = 0;
    while k < na
        invariant
            k <= na,
            na == a@.len(),
            na == b@.len(),
            forall|t: int| 0 <= t < k ==> a@[t] == b@[t],
        decreases na - k,
    {
        if a.get_char(k) != b.get_char(k) {
            return false;
        }
        k = k + 1;
    }
    proof {
        assert(a@ =~= b@);
    }
    true
}

/// A simulated model: a plain vocabulary standing in for a loaded model's
/// word list, so that the lookup contract can be exercised without a native
/// engine.
pub struct StubModel {
    vocab: Vec<String>,
}

impl StubModel {
    /// The vocabulary, word by word.
    pub closed spec fn spec_vocab(self) -> Seq<Seq<char>> {
        crate::json::string_views(self.vocab@)
    }

    /// Symbols are handed out as one-based positions, so the vocabulary
    /// must leave them room.
    pub open spec fn wf(self) -> bool {
        self.spec_vocab().len() < i32::MAX
    }

    /// A model over the given vocabulary.
    pub fn new(vocab: Vec<String>) -> (r: StubModel)
        requires
            vocab@.len() < i32::MAX,
        ensures
            r.wf(),
            r.spec_vocab() == crate::json::string_views(vocab@),
    {
        let r = StubModel { vocab };
        proof {
            assert(r.spec_vocab().len() == r.vocab@.len());
        }
        r
    }

    /// The model's symbol for a word: the first position at which the
    /// vocabulary holds the word, one-based because symbol zero is the
    /// reserved null symbol; nothing for a word the vocabulary lacks.
    pub fn find_word(&self, word: &str) -> (r: Option<i32>)
        requires
            self.wf(),
        ensures
            r is Some <==> (exists|k: int|
                0 <= k < self.spec_vocab().len() && self.spec_vocab()[k] == word@),
            r is Some ==> {
                let sym = r.unwrap();
                &&& sym >= 1
                &&& 0 <= sym - 1 < self.spec_vocab().len()
                &&& self.spec_vocab()[sym - 1] == word@
            },
    {
        proof {
            assert(self.spec_vocab().len() == self.vocab@.len());
        }
        let mut k: usize = 0;
        while k < self.vocab.len()
            invariant
                k <= self.vocab@.len(),
                self.wf(),
                self.spec_vocab().len() == self.vocab@.len(),
                forall|t: int| 0 <= t < k ==> self.spec_vocab()[t] != word@,
            decreases self.vocab@.len() - k,
        {
            if str_eq(self.vocab[k].as_str(), word) {
                proof {
                    assert(self.spec_vocab()[k as int] == self.vocab@[k as int]@);
                }
                return Some((k as i32) + 1);
            }
            proof {
                assert(self.spec_vocab()[k as int] == self.vocab@[k as int]@);
            }
            k = k + 1;
        }
        None
    }
}

/// The word the simulated engine hears in every burst of sound.
pub open spec fn sound_word() -> Seq<char> {
    seq!['s', 'o', 'u', 'n', 'd']
}

/// The utterance text after a given number of bursts: the engine's word,
/// repeated that often, with single spaces between.
pub open spec fn stub_text(n: int) -> Seq<char>
    decreases n,
{
    if n <= 0 {
        Seq::empty()
    } else if n == 1 {
        sound_word()
    } else {
        stub_text(n - 1) + seq![' '] + sound_word()
    }
}

/// The observable decode state of the simulated engine: how many bursts of
/// sound the current utterance holds, whether it is inside one, how much
/// silence it just heard, and whether an utterance boundary is pending.
pub struct EngineState {
    pub sounds: u64,
    pub in_sound: bool,
    pub silence: u64,
    pub ready: bool,
}

/// The state of a fresh utterance.
pub open spec fn fresh_state() -> EngineState {
    EngineState { sounds: 0, in_sound: false, silence: 0, ready: false }
}

/// A sample the engine hears as silence: magnitude at or below the
/// threshold.
pub open spec fn is_silent(sample: i16, threshold: i16) -> bool {
    -(threshold as int) <= sample as int <= threshold as int
}

/// One sample's effect. A pending boundary freezes the engine until the
/// result is read. Silence ends any burst and counts up to the needed run;
/// the boundary arrives when the run is full and the utterance holds any
/// sound. A loud sample resets the silence count and opens a burst, and the
/// first sample of a burst counts it.
pub open spec fn step(st: EngineState, threshold: i16, run_needed: u64, sample: i16) -> EngineState {
    if st.ready {
        st
    } else if is_silent(sample, threshold) {
        let sil = if st.silence < run_needed {
            (st.silence + 1) as u64
        } else {
            st.silence
        };
        EngineState {
            sounds: st.sounds,
            in_sound: false,
            silence: sil,
            ready: sil >= run_needed && st.sounds > 0,
        }
    } else {
        EngineState {
            sounds: if st.in_sound || st.sounds == u64::MAX {
                st.sounds
            } else {
                (st.sounds + 1) as u64
            },
            in_sound: true,
            silence: 0,
            ready: false,
        }
    }
}

/// A whole chunk's effect, sample by sample.
pub open spec fn run_steps(
    st: EngineState,
    threshold: i16,
    run_needed: u64,
    samples: Seq<i16>,
) -> EngineState
    decreases samples.len(),
{
    if samples.len() == 0 {
        st
    } else {
        step(run_steps(st, threshold, run_needed, samples.drop_last()), threshold, run_needed, samples.last())
    }
}

/// A simulated engine for one decoder: deterministic, fully specified, and
/// following the streaming protocol, with its release instrumented so that
/// the exactly-once discipline can be watched.
pub struct StubEngine {
    threshold: i16,
    run_needed: u64,
    sounds: u64,
    in_sound: bool,
    silence: u64,
    ready: bool,
    released: bool,
}

impl StubEngine {
    /// The engine's decode state.
    pub closed spec fn state(self) -> EngineState {
        EngineState {
            sounds: self.sounds,
            in_sound: self.in_sound,
            silence: self.silence,
            ready: self.ready,
        }
    }

    /// The silence threshold the engine was built with.
    pub closed spec fn spec_threshold(self) -> i16 {
        self.threshold
    }

    /// The length of the silence run that closes an utterance.
    pub closed spec fn spec_run_needed(self) -> u64 {
        self.run_needed
    }

    /// Whether the engine's resource has been released.
    pub closed spec fn spec_released(self) -> bool {
        self.released
    }

    /// A fresh engine: nothing heard, nothing pending, resource live.
    pub fn new(threshold: i16, run_needed: u64) -> (r: StubEngine)
        requires
            threshold >= 0,
            run_needed >= 1,
        ensures
            r.state() == fresh_state(),
            r.spec_threshold() == threshold,
            r.spec_run_needed() == run_needed,
            !r.spec_released(),
    {
        StubEngine {
            threshold,
            run_needed,
            sounds: 0,
            in_sound: false,
            silence: 0,
            ready: false,
            released: false,
        }
    }

    /// Feeds one chunk of samples and reports whether an utterance boundary
    /// is pending: false while the utterance goes on, true from the sample
    /// that completes the silence run until the result is read.
    pub fn accept_waveform(&mut self, chunk: &[i16]) -> (boundary: bool)
        requires
            !old(self).spec_released(),
        ensures
            final(self).state() == run_steps(
                old(self).state(),
                old(self).spec_threshold(),
                old(self).spec_run_needed(),
                chunk@,
            ),
            boundary == final(self).state().ready,
            final(self).spec_threshold() == old(self).spec_threshold(),
            final(self).spec_run_needed() == old(self).spec_run_needed(),
            !final(self).spec_released(),
    {
        let ghost st0 = self.state();
        let ghost t = self.threshold;
        let ghost rn = self.run_needed;
        let mut k: usize = 0;
        while k < chunk.len()
            invariant
                k <= chunk@.len(),
                self.threshold == t,
                self.run_needed == rn,
                !self.released,
                self.state() == run_steps(st0, t, rn, chunk@.take(k as int)),
            decreases chunk@.len() - k,
        {
            let sample = chunk[k];
            if !self.ready {
                let s32 = sample as i32;
                let t32 = self.threshold as i32;
                if -t32 <= s32 && s32 <= t32 {
                    if self.silence < self.run_needed {
                        self.silence = self.silence + 1;
                    }
                    self.in_sound = false;
                    self.ready = self.silence >= self.run_needed && self.sounds > 0;
                } else {
                    if !self.in_sound && self.sounds < u64::MAX {
                        self.sounds = self.sounds + 1;
                    }
                    self.in_sound = true;
                    self.silence = 0;
                }
            }
            proof {
                assert(chunk@.take(k as int + 1).drop_last() =~= chunk@.take(k as int));
                assert(chunk@.take(k as int + 1).last() == chunk@[k as int]);
            }
            k = k + 1;
        }
        proof {
            assert(chunk@.take(chunk@.len() as int) =~= chunk@);
        }
        self.ready
    }

    /// The in-progress hypothesis: the text of the bursts heard so far.
    pub fn partial_result(&self) -> (r: RecognizedPartial)
        requires
            !self.spec_released(),
        ensures
            r@.partial == stub_text(self.state().sounds as int),
    {
        RecognizedPartial { partial: render_stub_text(self.sounds) }
    }

    /// The finalized utterance once a boundary is pending: the boundary
    /// case of the protocol. Reading it starts the next utterance.
    pub fn result(&mut self) -> (r: RecognizedText)
        requires
            !old(self).spec_released(),
            old(self).state().ready,
        ensures
            r@.text == stub_text(old(self).state().sounds as int),
            r@.words is None,
            final(self).state() == fresh_state(),
            final(self).spec_threshold() == old(self).spec_threshold(),
            final(self).spec_run_needed() == old(self).spec_run_needed(),
            !final(self).spec_released(),
    {
        self.final_result()
    }

    /// The finalized utterance, pending boundary or not: flushes whatever
    /// the current utterance holds, so a terminal result exists even at a
    /// stream's end. With nothing fed, the text is empty and carries no
    /// word detail. Reading it starts the next utterance.
    pub fn final_result(&mut self) -> (r: RecognizedText)
        requires
            !old(self).spec_released(),
        ensures
            r@.text == stub_text(old(self).state().sounds as int),
            r@.words is None,
            final(self).state() == fresh_state(),
            final(self).spec_threshold() == old(self).spec_threshold(),
            final(self).spec_run_needed() == old(self).spec_run_needed(),
            !final(self).spec_released(),
    {
        let text = render_stub_text(self.sounds);
        self.sounds = 0;
        self.in_sound = false;
        self.silence = 0;
        self.ready = false;
        RecognizedText { text, result: None }
    }

    /// The finalized utterance in the engine's own wire form, as a native
    /// engine would hand it back; the decode state is cleared the same way.
    pub fn final_result_text(&mut self) -> (r: String)
        requires
            !old(self).spec_released(),
        ensures
            r@ == crate::results::render_text_only(stub_text(old(self).state().sounds as int)),
            final(self).state() == fresh_state(),
            final(self).spec_threshold() == old(self).spec_threshold(),
            final(self).spec_run_needed() == old(self).spec_run_needed(),
            !final(self).spec_released(),
    {
        let text = render_stub_text(self.sounds);
        self.sounds = 0;
        self.in_sound = false;
        self.silence = 0;
        self.ready = false;
        crate::results::render_final_text(text.as_str())
    }

    /// Releases the engine's resource. A released engine takes no further
    /// call, so the release happens exactly once.
    pub fn release(&mut self) -> (freed: bool)
        requires
            !old(self).spec_released(),
        ensures
            final(self).spec_released(),
            freed,
    {
        self.released = true;
        true
    }
}

/// The utterance text for a given number of bursts.
fn render_stub_text(n: u64) -> (r: String)
    ensures
        r@ == stub_text(n as int),
{
    proof {
        reveal_strlit("sound");
        assert("sound"@ =~= sound_word());
    }
    let mut out = String::new();
    let mut k: u64 = 0;
    while k < n
        invariant
            k <= n,
            out@ == stub_text(k as int),
        decreases n - k,
    {
        if k > 0 {
            push_char(&mut out, ' ');
        }
        out.append("sound");
        proof {
            reveal_strlit("sound");
            assert("sound"@ =~= sound_word());
        }
        k = k + 1;
    }
    out
}

} // verus!
