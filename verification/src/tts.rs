use vstd::prelude::*;
use std::collections::VecDeque;
use crate::dispatcher::concat_chars;
use crate::text::{chars_of, decimal, decimal_chars, string_of};

verus! {

/// What the speech worker is told to do.
pub enum TtsCommand {
    Speak(String),
    Stop,
    SetMute(bool),
}

/// The speech worker's state: the texts waiting to be spoken, first one first,
/// and whether speech is muted.
pub struct Speaker {
    pub queue: VecDeque<String>,
    pub muted: bool,
}

impl Speaker {
    /// A worker with nothing queued; it starts muted until told otherwise.
    pub fn new() -> (res: Self)
        ensures
            res.queue@.len() == 0,
            res.muted,
    {
        Speaker { queue: VecDeque::new(), muted: true }
    }

    /// Takes a command. The result says whether the text being spoken, if any,
    /// must be cut off.
    pub fn handle(&mut self, cmd: TtsCommand) -> (kill: bool)
        ensures
            match cmd {
                TtsCommand::Speak(text) => final(self).queue@ == old(self).queue@.push(text)
                    && final(self).muted == old(self).muted && !kill,
                TtsCommand::Stop => final(self).queue@.len() == 0 && final(self).muted == old(self).muted
                    && kill,
                TtsCommand::SetMute(m) => final(self).muted == m && kill == m
                    && (m ==> final(self).queue@.len() == 0)
                    && (!m ==> final(self).queue@ == old(self).queue@),
            },
    {
        match cmd {
            TtsCommand::Speak(text) => {
                self.queue.push_back(text);
                false
            },
            TtsCommand::SetMute(m) => {
                self.muted = m;
                if m {
                    self.queue.clear();
                }
                m
            },
            TtsCommand::Stop => {
                self.queue.clear();
                true
            },
        }
    }

    /// When nothing is being spoken: takes the oldest queued text, and gives it
    /// to be spoken unless speech is muted (a muted text is dropped).
    pub fn next_utterance(&mut self) -> (res: Option<String>)
        ensures
            final(self).muted == old(self).muted,
            old(self).queue@.len() == 0 ==> final(self).queue@ == old(self).queue@ && res is None,
            old(self).queue@.len() > 0 ==> final(self).queue@ == old(self).queue@.drop_first()
                && (if old(self).muted { res is None } else { res == Some(old(self).queue@[0]) }),
    {
        match self.queue.pop_front() {
            Some(text) => {
                assert(self.queue@ =~= old(self).queue@.drop_first());
                if self.muted {
                    None
                } else {
                    Some(text)
                }
            },
            None => None,
        }
    }
}

// ---------------------------------------------------------------------------
// Speech synthesizer settings.

/// The speaking rate in words per minute for a SAPI-style rate:
/// `175 + 12 * rate`, kept between 80 and 400.
pub open spec fn words_per_minute_spec(rate: int) -> int {
    let wpm = 175 + rate * 12;
    if wpm < 80 { 80 } else if wpm > 400 { 400 } else { wpm }
}

pub fn words_per_minute(rate: i32) -> (res: i32)
    requires
        i32::MIN <= rate * 12 <= i32::MAX - 175,
    ensures
        res == words_per_minute_spec(rate as int),
{
    let wpm = 175 + rate * 12;
    if wpm < 80 {
        80
    } else if wpm > 400 {
        400
    } else {
        wpm
    }
}

/// The text as the PowerShell script may quote it: each `'` doubled, and carriage
/// returns, line feeds and NUL characters removed.
pub open spec fn quote_spec(text: Seq<char>) -> Seq<char>
    decreases text.len(),
{
    if text.len() == 0 {
        Seq::empty()
    } else {
        let c = text.last();
        let rest = quote_spec(text.drop_last());
        if c == '\'' {
            rest + seq!['\'', '\'']
        } else if c == '\r' || c == '\n' || c == '\0' {
            rest
        } else {
            rest.push(c)
        }
    }
}

pub fn quote_for_script(text: &Vec<char>) -> (res: Vec<char>)
    ensures
        res@ == quote_spec(text@),
{
    let mut res: Vec<char> = Vec::new();
    let mut i: usize = 0;
    while i < text.len()
        invariant
            i <= text@.len(),
            res@ == quote_spec(text@.take(i as int)),
        decreases text@.len() - i,
    {
        let c = text[i];
        assert(text@.take(i + 1).drop_last() =~= text@.take(i as int));
        assert(text@.take(i + 1).last() == c);
        let ghost before = res@;
        if c == '\'' {
            res.push('\'');
            res.push('\'');
            assert(res@ =~= before + seq!['\'', '\'']);
        } else if c == '\r' || c == '\n' || c == '\0' {
        } else {
            res.push(c);
        }
        i = i + 1;
    }
    assert(text@.take(text@.len() as int) =~= text@);
    res
}

/// An `i32` as `{}` prints it.
pub open spec fn signed_decimal(x: int) -> Seq<char> {
    if x < 0 {
        seq!['-'] + decimal((-x) as nat)
    } else {
        decimal(x as nat)
    }
}

pub fn signed_decimal_chars(x: i32) -> (res: Vec<char>)
    ensures
        res@ == signed_decimal(x as int),
{
    if x < 0 {
        let magnitude: u64 = (0 - (x as i64)) as u64;
        let mut sign: Vec<char> = Vec::new();
        sign.push('-');
        assert(sign@ =~= seq!['-']);
        concat_chars(&sign, &decimal_chars(magnitude))
    } else {
        decimal_chars(x as u64)
    }
}

/// The PowerShell script that speaks `text` with a voice whose name contains
/// `voice`, at SAPI rate `rate`.
pub open spec fn speech_script_spec(text: Seq<char>, voice: Seq<char>, rate: int) -> Seq<char> {
    "Add-Type -AssemblyName System.Speech; $s = New-Object System.Speech.Synthesis.SpeechSynthesizer; $v = $s.GetInstalledVoices() | Where-Object { $_.VoiceInfo.Name -like '*"@
        + voice
        + "*' } | Select-Object -First 1; if ($v) { $s.SelectVoice($v.VoiceInfo.Name) }; $s.Rate = "@
        + signed_decimal(rate)
        + "; $s.Speak('"@
        + quote_spec(text)
        + "')"@
}

pub fn speech_script(text: &str, voice: &str, rate: i32) -> (res: String)
    ensures
        res@ == speech_script_spec(text@, voice@, rate as int),
{
    let a = chars_of("Add-Type -AssemblyName System.Speech; $s = New-Object System.Speech.Synthesis.SpeechSynthesizer; $v = $s.GetInstalledVoices() | Where-Object { $_.VoiceInfo.Name -like '*");
    let a = concat_chars(&a, &chars_of(voice));
    let a = concat_chars(&a, &chars_of("*' } | Select-Object -First 1; if ($v) { $s.SelectVoice($v.VoiceInfo.Name) }; $s.Rate = "));
    let a = concat_chars(&a, &signed_decimal_chars(rate));
    let a = concat_chars(&a, &chars_of("; $s.Speak('"));
    let a = concat_chars(&a, &quote_for_script(&chars_of(text)));
    let a = concat_chars(&a, &chars_of("')"));
    string_of(&a)
}

} // verus!
