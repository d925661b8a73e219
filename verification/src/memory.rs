use vstd::prelude::*;
use crate::text::{chars_of, same_chars};

verus! {

/// How many history entries are kept.
pub const HISTORY_CAP: usize = 100;

/// Who said a line of the conversation.
#[derive(Debug, Clone, Copy, PartialEq, Eq, Structural)]
pub enum Roles {
    User,
    Tom,
}

/// One line of the conversation.
#[derive(Debug, Clone)]
pub struct HistoryEntry {
    pub role: Roles,
    pub text: String,
}

/// A command that the user defined: a name, a shell command line, and the
/// phrases that call it.
#[derive(Debug, Clone)]
pub struct CommandEntry {
    pub name: String,
    pub path: String,
    pub triggers: Vec<String>,
}

/// A value of the free-form part of the settings, as far as the assistant reads it.
#[derive(Debug, Clone)]
pub enum SettingValue {
    /// A JSON string.
    Text(String),
    /// A JSON number that is an integer in the range of `i64`.
    Integer(i64),
    /// Any other JSON value, kept as its JSON text.
    Json(String),
}

/// The user's settings: the named fields, and every other key of the settings
/// file with its value, in file order.
#[derive(Debug, Clone)]
pub struct SettingsEntry {
    pub accent: String,
    pub bg: String,
    pub muted: String,
    pub local_model: String,
    pub ai_mode: String,
    pub gemini_key: String,
    pub mute_status: bool,
    pub map: Vec<(String, SettingValue)>,
}

/// Everything the assistant keeps between runs.
pub struct MemoryStore {
    pub settings: SettingsEntry,
    pub history: Vec<HistoryEntry>,
    pub commands: Vec<CommandEntry>,
}

/// The history as `save_history` keeps it: the last `HISTORY_CAP` entries.
pub open spec fn capped<T>(h: Seq<T>) -> Seq<T> {
    if h.len() > HISTORY_CAP {
        h.subrange(h.len() - HISTORY_CAP, h.len() as int)
    } else {
        h
    }
}

/// Drops the oldest entries so that at most `HISTORY_CAP` remain.
pub fn trim_history(history: &mut Vec<HistoryEntry>)
    ensures
        final(history)@ == capped(old(history)@),
        final(history)@.len() <= HISTORY_CAP,
{
    let len = history.len();
    if len > HISTORY_CAP {
        let kept = history.split_off(len - HISTORY_CAP);
        *history = kept;
    }
}

/// The history as (speaker, text) pairs.
pub open spec fn history_view(h: Seq<HistoryEntry>) -> Seq<(Roles, Seq<char>)> {
    Seq::new(h.len(), |i: int| (h[i].role, h[i].text@))
}

/// Records one exchange: when the answer is not empty, the user's text and the
/// answer join the history, which is then capped.
pub fn record_exchange(history: &mut Vec<HistoryEntry>, text: &str, response: &String)
    ensures
        response@.len() == 0 ==> final(history)@ == old(history)@,
        response@.len() > 0 ==> history_view(final(history)@) == capped(
            history_view(old(history)@).push((Roles::User, text@)).push((Roles::Tom, response@)),
        ),
        final(history)@.len() <= HISTORY_CAP || final(history)@ == old(history)@,
{
    if response.as_str().is_empty() {
        return;
    }
    let ghost before = history@;
    history.push(HistoryEntry { role: Roles::User, text: text.to_string() });
    history.push(HistoryEntry { role: Roles::Tom, text: response.clone() });
    let ghost pushed = history@;
    assert(history_view(pushed) =~= history_view(before).push((Roles::User, text@)).push((Roles::Tom, response@)));
    trim_history(history);
    assert(history_view(history@) =~= capped(history_view(pushed)));
}


// ---------------------------------------------------------------------------
// The free-form settings.

/// Whether `i` is the first position of `key` in the settings map.
pub open spec fn first_key(map: Seq<(String, SettingValue)>, key: Seq<char>, i: int) -> bool {
    0 <= i < map.len() && map[i].0@ == key && forall|k: int| 0 <= k < i ==> (#[trigger] map[k].0)@ != key
}

/// The value of `key`, when the map holds it (its first occurrence).
pub open spec fn setting_spec(map: Seq<(String, SettingValue)>, key: Seq<char>) -> Option<SettingValue> {
    if exists|i: int| first_key(map, key, i) {
        Some(map[choose|i: int| first_key(map, key, i)].1)
    } else {
        None
    }
}

/// The text of `key`, when its value is a JSON string (`Value::as_str`).
pub open spec fn setting_text_spec(map: Seq<(String, SettingValue)>, key: Seq<char>) -> Option<Seq<char>> {
    match setting_spec(map, key) {
        Some(SettingValue::Text(t)) => Some(t@),
        _ => None,
    }
}

/// The integer of `key`, when its value is an integer in range (`Value::as_i64`).
pub open spec fn setting_integer_spec(map: Seq<(String, SettingValue)>, key: Seq<char>) -> Option<i64> {
    match setting_spec(map, key) {
        Some(SettingValue::Integer(n)) => Some(n),
        _ => None,
    }
}

proof fn lemma_first_key_unique(map: Seq<(String, SettingValue)>, key: Seq<char>, i: int, j: int)
    requires
        first_key(map, key, i),
        first_key(map, key, j),
    ensures
        i == j,
{
    if i < j {
        assert(map[i].0@ != key);
    } else if j < i {
        assert(map[j].0@ != key);
    }
}

impl SettingsEntry {
    /// The value that the free-form settings give `key`.
    pub fn get(&self, key: &str) -> (res: Option<&SettingValue>)
        ensures
            match res {
                Some(v) => setting_spec(self.map@, key@) == Some(*v),
                None => setting_spec(self.map@, key@) is None,
            },
    {
        let k = chars_of(key);
        let mut i: usize = 0;
        while i < self.map.len()
            invariant
                i <= self.map@.len(),
                k@ == key@,
                forall|m: int| 0 <= m < i ==> (#[trigger] self.map@[m].0)@ != key@,
            decreases self.map@.len() - i,
        {
            if same_chars(&chars_of(self.map[i].0.as_str()), &k) {
                proof {
                    assert(first_key(self.map@, key@, i as int));
                    let c = choose|c: int| first_key(self.map@, key@, c);
                    lemma_first_key_unique(self.map@, key@, i as int, c);
                }
                return Some(&self.map[i].1);
            }
            i = i + 1;
        }
        assert forall|c: int| !first_key(self.map@, key@, c) by {
            if 0 <= c < self.map@.len() {
                assert(self.map@[c].0@ != key@);
            }
        }
        None
    }

    /// The text of `key`, as `map.get(key).and_then(|v| v.as_str())` gives it.
    pub fn get_text(&self, key: &str) -> (res: Option<String>)
        ensures
            match res {
                Some(t) => setting_text_spec(self.map@, key@) == Some(t@),
                None => setting_text_spec(self.map@, key@) is None,
            },
    {
        match self.get(key) {
            Some(SettingValue::Text(t)) => Some(t.clone()),
            _ => None,
        }
    }

    /// The integer of `key`, as `map.get(key).and_then(|v| v.as_i64())` gives it.
    pub fn get_integer(&self, key: &str) -> (res: Option<i64>)
        ensures
            res == setting_integer_spec(self.map@, key@),
    {
        match self.get(key) {
            Some(SettingValue::Integer(n)) => Some(*n),
            _ => None,
        }
    }

    /// The voice for speech: `tts_voice`, or empty.
    pub fn tts_voice(&self) -> (res: String)
        ensures
            res@ == match setting_text_spec(self.map@, "tts_voice"@) {
                Some(t) => t,
                None => Seq::empty(),
            },
    {
        match self.get_text("tts_voice") {
            Some(t) => t,
            None => String::new(),
        }
    }

    /// The speech rate: `tts_rate` cut to an `i32`, or 0.
    pub fn tts_rate(&self) -> (res: i32)
        ensures
            res == match setting_integer_spec(self.map@, "tts_rate"@) {
                Some(n) => n as i32,
                None => 0,
            },
    {
        match self.get_integer("tts_rate") {
            Some(n) => #[verifier::truncate] (n as i32),
            None => 0,
        }
    }

    /// The speech model file: `model_path` when it is a non-empty text, else the default.
    pub fn model_path(&self) -> (res: String)
        ensures
            res@ == match setting_text_spec(self.map@, "model_path"@) {
                Some(t) => if t.len() > 0 { t } else { "models/ggml-base.bin"@ },
                None => "models/ggml-base.bin"@,
            },
    {
        match self.get_text("model_path") {
            Some(t) => {
                if t.as_str().is_empty() {
                    String::from_str("models/ggml-base.bin")
                } else {
                    t
                }
            },
            None => String::from_str("models/ggml-base.bin"),
        }
    }

    /// The Gemini model: `gemini_model`, or `gemini-2.0-flash`.
    pub fn gemini_model(&self) -> (res: String)
        ensures
            res@ == match setting_text_spec(self.map@, "gemini_model"@) {
                Some(t) => t,
                None => "gemini-2.0-flash"@,
            },
    {
        match self.get_text("gemini_model") {
            Some(t) => t,
            None => String::from_str("gemini-2.0-flash"),
        }
    }
}

/// The AI backend after a toggle: Ollama after Gemini, Gemini after anything else.
pub open spec fn next_ai_mode_spec(current: Seq<char>) -> Seq<char> {
    if current == "gemini"@ { "ollama"@ } else { "gemini"@ }
}

pub fn next_ai_mode(current: &str) -> (res: String)
    ensures
        res@ == next_ai_mode_spec(current@),
{
    if same_chars(&chars_of(current), &chars_of("gemini")) {
        String::from_str("ollama")
    } else {
        String::from_str("gemini")
    }
}

/// Deletes the custom command at `index`, as the settings page asks.
pub fn delete_command(commands: &mut Vec<CommandEntry>, index: usize) -> (res: Result<(), String>)
    ensures
        index >= old(commands)@.len() ==> final(commands)@ == old(commands)@ && (res matches Err(e) && e@ == "index out of range"@),
        index < old(commands)@.len() ==> final(commands)@ == old(commands)@.remove(index as int) && res is Ok,
{
    if index >= commands.len() {
        return Err(String::from_str("index out of range"));
    }
    commands.remove(index);
    Ok(())
}

} // verus!
