use vstd::prelude::*;
use crate::dispatcher::{match_whole_phrase, phrase_list, whole_phrase_spec};
use crate::fuzzy::{copy_chars, has_word};
use crate::score::{ratio, ratio_spec, score_lt, score_of, Score};
use crate::text::{
    chars_of, join, join_words, lowercase, max_chars, split_words, string_of, to_lowercase, trim,
    trimmed, views, words,
};

verus! {

/// Sample rate of the microphone stream, in Hz.
pub const IN_RATE: usize = 48000;

/// Sample rate that speech recognition takes, in Hz.
pub const OUT_RATE: usize = 16000;

/// How long a pause ends an utterance, in milliseconds.
pub const SILENCE_MS: usize = 800;

/// What the listening loop reports.
pub enum VoiceEvent {
    /// "listening", "processing", "wake", "idle" or "no mic".
    Status(&'static str),
    Command(String),
    Stop,
}

/// Whether the assistant was just called by name and waits for the command.
#[derive(Debug, Clone, Copy, PartialEq, Eq, Structural)]
pub enum VoiceState {
    Idle,
    Awake,
}

/// What to do with a transcribed utterance.
#[derive(Debug)]
pub enum VoiceAction {
    /// Ignore it.
    Nothing,
    /// Stop talking.
    Stop,
    /// Say that the assistant listens.
    Wake,
    /// Run this command.
    Dispatch(String),
}

pub open spec fn stop_words() -> Seq<Seq<char>> {
    seq!["stop"@, "stop speaking"@, "shut up"@, "silence"@]
}

pub open spec fn wake_words() -> Seq<Seq<char>> {
    seq!["tom"@, "tomi"@, "тому"@, "tom"@, "thompson"@]
}

pub open spec fn filler_words() -> Seq<Seq<char>> {
    seq![
        "tom"@, "tomi"@, "тому"@, "tom"@, "thompson"@, "say"@, "tell"@, "please"@, "can"@,
        "you"@, "pls"@,
    ]
}

/// The score a word must reach to count as the wake word: 0.55.
pub open spec fn wake_threshold() -> Score {
    Score { num: 55, den: 100 }
}

/// The score a whole utterance must reach to count as a stop word: 0.8.
pub open spec fn stop_threshold() -> Score {
    Score { num: 80, den: 100 }
}

pub open spec fn is_stop_spec(text: Seq<char>) -> bool {
    whole_phrase_spec(text, stop_words(), stop_threshold())
}

/// One of the first three words, lower-cased, is close enough to a wake word.
pub open spec fn is_wake_spec(text: Seq<char>) -> bool {
    let ws = words(text);
    exists|i: int, j: int|
        0 <= i < 3 && i < ws.len() && 0 <= j < wake_words().len()
            && !(#[trigger] score_of(ratio_spec(lowercase(ws[i]), wake_words()[j]))).lt(wake_threshold())
}

pub open spec fn not_filler(w: Seq<char>) -> bool {
    !filler_words().contains(lowercase(w))
}

/// The words of `text` but for the fillers ("tom", "please", ...), joined by spaces.
pub open spec fn strip_fillers_spec(text: Seq<char>) -> Seq<char> {
    join(words(text).filter(|w: Seq<char>| not_filler(w)))
}

/// Whether the utterance is a stop word.
pub fn is_stop(text: &str) -> (res: bool)
    ensures
        res == is_stop_spec(text@),
{
    let list = vec!["stop", "stop speaking", "shut up", "silence"];
    assert(Seq::new(list@.len(), |i: int| list@[i]@) =~= stop_words());
    match_whole_phrase(text, &list, Score { num: 80, den: 100 })
}

/// Whether the utterance calls the assistant by name in its first three words.
pub fn is_wake(text: &str) -> (res: bool)
    ensures
        res == is_wake_spec(text@),
{
    let ws = split_words(&chars_of(text));
    let list = vec!["tom", "tomi", "тому", "tom", "thompson"];
    let wakes = phrase_list(&list);
    assert(views(wakes@) =~= wake_words());
    let threshold = Score { num: 55, den: 100 };
    let ghost wv = views(ws@);
    let mut i: usize = 0;
    while i < 3 && i < ws.len()
        invariant
            i <= 3,
            i <= ws@.len(),
            wv == views(ws@),
            wv == words(text@),
            views(wakes@) == wake_words(),
            forall|k: int| 0 <= k < wakes@.len() ==> (#[trigger] wakes@[k])@.len() <= max_chars(),
            threshold == wake_threshold(),
            forall|a: int, j: int| 0 <= a < i && 0 <= j < wake_words().len()
                ==> (#[trigger] score_of(ratio_spec(lowercase(wv[a]), wake_words()[j]))).lt(wake_threshold()),
        decreases 3 - i,
    {
        let w = to_lowercase(&ws[i]);
        let mut j: usize = 0;
        while j < wakes.len()
            invariant
                i < 3,
                i < ws@.len(),
                j <= wakes@.len(),
                wv == views(ws@),
                w@ == lowercase(wv[i as int]),
            wv == words(text@),
                w@.len() <= max_chars(),
                views(wakes@) == wake_words(),
                forall|k: int| 0 <= k < wakes@.len() ==> (#[trigger] wakes@[k])@.len() <= max_chars(),
                threshold == wake_threshold(),
                forall|m: int| 0 <= m < j
                    ==> (#[trigger] score_of(ratio_spec(lowercase(wv[i as int]), wake_words()[m]))).lt(wake_threshold()),
            decreases wakes@.len() - j,
        {
            let r = ratio(&w, &wakes[j]);
            assert(wakes@[j as int]@ == wake_words()[j as int]);
            if !score_lt(r, threshold) {
                assert(!score_of(ratio_spec(lowercase(words(text@)[i as int]), wake_words()[j as int])).lt(wake_threshold()));
                assert(is_wake_spec(text@));
                return true;
            }
            j = j + 1;
        }
        i = i + 1;
    }
    false
}

/// Removes the filler words ("tom", "please", ...) from the utterance.
pub fn strip_fillers(text: &str) -> (res: String)
    ensures
        res@ == strip_fillers_spec(text@),
{
    let ws = split_words(&chars_of(text));
    let list = vec![
        "tom", "tomi", "тому", "tom", "thompson", "say", "tell", "please", "can", "you", "pls",
    ];
    let fillers = phrase_list(&list);
    assert(views(fillers@) =~= filler_words());
    let ghost wv = views(ws@);
    let ghost pred = |w: Seq<char>| not_filler(w);
    let mut kept: Vec<Vec<char>> = Vec::new();
    let mut i: usize = 0;
    assert(wv.take(0).filter(pred) =~= Seq::<Seq<char>>::empty()) by {
        reveal(Seq::filter);
    }
    while i < ws.len()
        invariant
            i <= ws@.len(),
            wv == views(ws@),
            views(fillers@) == filler_words(),
            pred == (|w: Seq<char>| not_filler(w)),
            views(kept@) == wv.take(i as int).filter(pred),
        decreases ws@.len() - i,
    {
        let w = &ws[i];
        assert(wv.take(i + 1) =~= wv.take(i as int).push(w@));
        proof {
            wv.take(i as int).lemma_filter_push(w@, pred);
        }
        let lw = to_lowercase(w);
        if !has_word(&fillers, &lw) {
            let ghost before = views(kept@);
            kept.push(copy_chars(w));
            assert(views(kept@) =~= before.push(w@));
        }
        i = i + 1;
    }
    assert(wv.take(ws@.len() as int) =~= wv);
    string_of(&join_words(&kept))
}

/// What an utterance does, from a given state.
pub open spec fn process_spec(state: VoiceState, text: Seq<char>, next: VoiceState, res: VoiceAction) -> bool {
    let t = trim(text);
    if is_stop_spec(t) {
        next == VoiceState::Idle && res is Stop
    } else if state == VoiceState::Awake {
        next == VoiceState::Idle && (res matches VoiceAction::Dispatch(c) && c@ == strip_fillers_spec(t))
    } else if is_wake_spec(t) {
        if strip_fillers_spec(t).len() == 0 {
            next == VoiceState::Awake && res is Wake
        } else {
            next == VoiceState::Idle && (res matches VoiceAction::Dispatch(c) && c@ == strip_fillers_spec(t))
        }
    } else {
        next == VoiceState::Idle && res is Nothing
    }
}

/// Handles a transcribed utterance: a stop word always stops; after the wake
/// word alone, the next utterance is the command; an utterance that starts with
/// the wake word and goes on is a command by itself; anything else is ignored.
pub fn process(state: &mut VoiceState, text: &str) -> (res: VoiceAction)
    ensures
        process_spec(*old(state), text@, *final(state), res),
{
    let t = string_of(&trimmed(&chars_of(text)));
    if is_stop(t.as_str()) {
        *state = VoiceState::Idle;
        return VoiceAction::Stop;
    }
    match *state {
        VoiceState::Awake => {
            *state = VoiceState::Idle;
            VoiceAction::Dispatch(strip_fillers(t.as_str()))
        },
        VoiceState::Idle => {
            if is_wake(t.as_str()) {
                let command = strip_fillers(t.as_str());
                if command.as_str().is_empty() {
                    *state = VoiceState::Awake;
                    VoiceAction::Wake
                } else {
                    VoiceAction::Dispatch(command)
                }
            } else {
                VoiceAction::Nothing
            }
        },
    }
}

// ---------------------------------------------------------------------------
// Cutting the microphone stream into utterances.

/// How many samples of silence end an utterance.
pub open spec fn silence_limit_spec() -> int {
    IN_RATE * SILENCE_MS / 1000
}

pub fn silence_limit() -> (res: usize)
    ensures
        res == silence_limit_spec(),
{
    IN_RATE * SILENCE_MS / 1000
}

/// What to do with a chunk of samples.
#[derive(Debug, Clone, Copy, PartialEq, Eq, Structural)]
pub enum ChunkAction {
    /// The assistant is talking: drop the utterance collected so far.
    Reset,
    /// No speech: drop the chunk.
    Ignore,
    /// Add the chunk to the utterance.
    Append,
    /// Add the chunk; the utterance is complete, transcribe it and start anew.
    Finish,
}

/// Whether speech is under way, and how many samples of silence followed it.
pub struct Listener {
    pub in_speech: bool,
    pub silence: usize,
}

impl Listener {
    pub open spec fn wf(self) -> bool {
        self.silence < silence_limit_spec() && (!self.in_speech ==> self.silence == 0)
    }

    pub fn new() -> (res: Self)
        ensures
            res.wf(),
            !res.in_speech,
    {
        Listener { in_speech: false, silence: 0 }
    }

    /// Takes a chunk of `len` samples whose level is above the start-of-speech
    /// level (`loud`) or below the end-of-speech level (`quiet`), heard while the
    /// assistant is or is not talking.
    pub fn on_chunk(&mut self, speaking: bool, loud: bool, quiet: bool, len: usize) -> (res: ChunkAction)
        requires
            old(self).wf(),
            len <= usize::MAX - silence_limit_spec(),
        ensures
            final(self).wf(),
            speaking ==> res == ChunkAction::Reset && !final(self).in_speech,
            !speaking && !loud && !old(self).in_speech ==> res == ChunkAction::Ignore && !final(self).in_speech,
            !speaking && (loud || old(self).in_speech) && !quiet ==> res == ChunkAction::Append
                && final(self).in_speech && final(self).silence == 0,
            !speaking && (loud || old(self).in_speech) && quiet ==> {
                let total = (if loud { 0 } else { old(self).silence as int }) + len;
                if total >= silence_limit_spec() {
                    res == ChunkAction::Finish && !final(self).in_speech
                } else {
                    res == ChunkAction::Append && final(self).in_speech && final(self).silence == total
                }
            },
    {
        if speaking {
            self.in_speech = false;
            self.silence = 0;
            return ChunkAction::Reset;
        }
        if loud {
            self.in_speech = true;
            self.silence = 0;
        }
        if !self.in_speech {
            return ChunkAction::Ignore;
        }
        if quiet {
            self.silence = self.silence + len;
            if self.silence >= silence_limit() {
                self.in_speech = false;
                self.silence = 0;
                return ChunkAction::Finish;
            }
            ChunkAction::Append
        } else {
            self.silence = 0;
            ChunkAction::Append
        }
    }
}

} // verus!
