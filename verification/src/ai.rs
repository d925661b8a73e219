use vstd::prelude::*;
use crate::dispatcher::concat_chars;
use crate::memory::{setting_text_spec, HistoryEntry, Roles, SettingsEntry};
use crate::text::{chars_of, same_chars, string_of, trim, trimmed};

verus! {

/// How many of the last history entries go with a question as context.
pub const CONTEXT_TURNS: usize = 2;

pub open spec fn system_prompt() -> Seq<char> {
    "Відповідай стисло і без емодзі."@
}

/// The Ollama name of a speaker.
pub fn role_name(role: Roles) -> (res: String)
    ensures
        res@ == (match role {
            Roles::Tom => "assistant"@,
            Roles::User => "user"@,
        }),
{
    match role {
        Roles::Tom => String::from_str("assistant"),
        Roles::User => String::from_str("user"),
    }
}

/// The Gemini name of a speaker.
pub fn gemini_role(role: Roles) -> (res: String)
    ensures
        res@ == (match role {
            Roles::Tom => "model"@,
            Roles::User => "user"@,
        }),
{
    match role {
        Roles::Tom => String::from_str("model"),
        Roles::User => String::from_str("user"),
    }
}

/// Whether questions go to Gemini (rather than to the local Ollama).
pub fn uses_gemini(settings: &SettingsEntry) -> (res: bool)
    ensures
        res == (settings.ai_mode@ == "gemini"@),
{
    same_chars(&chars_of(settings.ai_mode.as_str()), &chars_of("gemini"))
}

/// A message of a chat request: who speaks, and what.
#[derive(Debug)]
pub struct ChatMessage {
    pub role: String,
    pub content: String,
}

/// A request to Ollama's chat endpoint.
#[derive(Debug)]
pub struct ChatRequest {
    pub model: String,
    pub messages: Vec<ChatMessage>,
    pub stream: bool,
    pub keep_alive: i32,
}

pub open spec fn messages_view(m: Seq<ChatMessage>) -> Seq<(Seq<char>, Seq<char>)> {
    Seq::new(m.len(), |i: int| (m[i].role@, m[i].content@))
}

/// The last `CONTEXT_TURNS` entries of the history (all of it when shorter).
pub open spec fn context_of(history: Seq<HistoryEntry>) -> Seq<HistoryEntry> {
    if history.len() > CONTEXT_TURNS {
        history.subrange(history.len() - CONTEXT_TURNS, history.len() as int)
    } else {
        history
    }
}

pub open spec fn ollama_role(role: Roles) -> Seq<char> {
    match role {
        Roles::Tom => "assistant"@,
        Roles::User => "user"@,
    }
}

pub open spec fn gemini_role_spec(role: Roles) -> Seq<char> {
    match role {
        Roles::Tom => "model"@,
        Roles::User => "user"@,
    }
}

/// The messages of an Ollama request: the system prompt, the context, the question.
pub open spec fn ollama_messages_spec(prompt: Seq<char>, history: Seq<HistoryEntry>) -> Seq<(Seq<char>, Seq<char>)> {
    let ctx = context_of(history);
    seq![("system"@, system_prompt())]
        + Seq::new(ctx.len(), |i: int| (ollama_role(ctx[i].role), ctx[i].text@))
        + seq![("user"@, prompt)]
}

fn context_start(history: &Vec<HistoryEntry>) -> (res: usize)
    ensures
        res == history@.len() - context_of(history@).len(),
        context_of(history@) == history@.subrange(res as int, history@.len() as int),
{
    let len = history.len();
    if len > CONTEXT_TURNS {
        len - CONTEXT_TURNS
    } else {
        assert(history@.subrange(0, len as int) =~= history@);
        0
    }
}

/// The request that asks the local model `prompt`, with the last turns as context.
pub fn ollama_request(prompt: &str, history: &Vec<HistoryEntry>, settings: &SettingsEntry) -> (res: ChatRequest)
    ensures
        res.model@ == settings.local_model@,
        messages_view(res.messages@) == ollama_messages_spec(prompt@, history@),
        !res.stream,
        res.keep_alive == -1,
{
    let mut messages: Vec<ChatMessage> = Vec::new();
    messages.push(ChatMessage {
        role: String::from_str("system"),
        content: String::from_str("Відповідай стисло і без емодзі."),
    });
    let start = context_start(history);
    let ghost ctx = context_of(history@);
    let mut i: usize = start;
    while i < history.len()
        invariant
            start <= i <= history@.len(),
            ctx == history@.subrange(start as int, history@.len() as int),
            messages_view(messages@) == seq![("system"@, system_prompt())]
                + Seq::new((i - start) as nat, |k: int| (ollama_role(ctx[k].role), ctx[k].text@)),
        decreases history@.len() - i,
    {
        let entry = &history[i];
        let ghost before = messages_view(messages@);
        messages.push(ChatMessage { role: role_name(entry.role), content: entry.text.clone() });
        assert(ctx[i - start] == history@[i as int]);
        assert(messages_view(messages@) =~= before.push((ollama_role(entry.role), entry.text@)));
        assert(messages_view(messages@) =~= seq![("system"@, system_prompt())]
            + Seq::new((i + 1 - start) as nat, |k: int| (ollama_role(ctx[k].role), ctx[k].text@)));
        i = i + 1;
    }
    let ghost before = messages_view(messages@);
    messages.push(ChatMessage { role: String::from_str("user"), content: String::from_str(prompt) });
    assert(messages_view(messages@) =~= ollama_messages_spec(prompt@, history@));
    ChatRequest { model: settings.local_model.clone(), messages, stream: false, keep_alive: -1 }
}

/// How an Ollama request ended.
pub enum OllamaReply {
    /// The service could not be reached.
    Unreachable,
    /// The request or its answer failed otherwise.
    Failed,
    /// The model answered this text.
    Answer(String),
}

pub open spec fn answer_text_spec(text: Seq<char>) -> Seq<char> {
    if trim(text).len() == 0 {
        "Не вдалось отримати відповідь."@
    } else {
        trim(text)
    }
}

/// The answer text, trimmed, or a notice when it is empty.
pub fn answer_text(text: &str) -> (res: String)
    ensures
        res@ == answer_text_spec(text@),
{
    let t = trimmed(&chars_of(text));
    if t.len() == 0 {
        String::from_str("Не вдалось отримати відповідь.")
    } else {
        string_of(&t)
    }
}

/// What to say after an Ollama request.
pub fn ollama_answer(reply: &OllamaReply) -> (res: String)
    ensures
        res@ == (match reply {
            OllamaReply::Unreachable => "Ollama недоступна. Перевір що сервіс запущений."@,
            OllamaReply::Failed => "Ollama: помилка запиту."@,
            OllamaReply::Answer(t) => answer_text_spec(t@),
        }),
{
    match reply {
        OllamaReply::Unreachable => String::from_str("Ollama недоступна. Перевір що сервіс запущений."),
        OllamaReply::Failed => String::from_str("Ollama: помилка запиту."),
        OllamaReply::Answer(t) => answer_text(t.as_str()),
    }
}

// ---------------------------------------------------------------------------
// Gemini.

/// A Gemini request: the system instruction, then (role, text) turns.
#[derive(Debug)]
pub struct GeminiRequest {
    pub url: String,
    pub system_instruction: String,
    pub contents: Vec<ChatMessage>,
}

pub open spec fn gemini_url_spec(model: Seq<char>, key: Seq<char>) -> Seq<char> {
    "https://generativelanguage.googleapis.com/v1beta/models/"@ + model + ":generateContent?key="@ + key
}

/// The model that the settings name, or the default one.
pub open spec fn gemini_model_spec(settings: SettingsEntry) -> Seq<char> {
    match setting_text_spec(settings.map@, "gemini_model"@) {
        Some(t) => t,
        None => "gemini-2.0-flash"@,
    }
}

pub open spec fn gemini_contents_spec(prompt: Seq<char>, history: Seq<HistoryEntry>) -> Seq<(Seq<char>, Seq<char>)> {
    let ctx = context_of(history);
    Seq::new(ctx.len(), |i: int| (gemini_role_spec(ctx[i].role), ctx[i].text@)) + seq![("user"@, prompt)]
}

pub open spec fn missing_key_notice() -> Seq<char> {
    "API-ключ для Gemini не знайдено."@
}

/// The address of the Gemini model that the settings name.
pub fn gemini_url(settings: &SettingsEntry) -> (res: String)
    ensures
        res@ == gemini_url_spec(gemini_model_spec(*settings), settings.gemini_key@),
{
    let model = settings.gemini_model();
    let a = concat_chars(&chars_of("https://generativelanguage.googleapis.com/v1beta/models/"), &chars_of(model.as_str()));
    let a = concat_chars(&a, &chars_of(":generateContent?key="));
    string_of(&concat_chars(&a, &chars_of(settings.gemini_key.as_str())))
}

/// The request that asks Gemini `prompt`, or the notice that no key is set.
pub fn gemini_request(prompt: &str, history: &Vec<HistoryEntry>, settings: &SettingsEntry) -> (res: Result<GeminiRequest, String>)
    ensures
        settings.gemini_key@.len() == 0 <==> res is Err,
        res matches Err(e) ==> e@ == missing_key_notice(),
        res matches Ok(r) ==> r.url@ == gemini_url_spec(gemini_model_spec(*settings), settings.gemini_key@)
            && r.system_instruction@ == system_prompt()
            && messages_view(r.contents@) == gemini_contents_spec(prompt@, history@),
{
    if settings.gemini_key.as_str().is_empty() {
        return Err(String::from_str("API-ключ для Gemini не знайдено."));
    }
    let mut contents: Vec<ChatMessage> = Vec::new();
    let start = context_start(history);
    let ghost ctx = context_of(history@);
    let mut i: usize = start;
    while i < history.len()
        invariant
            start <= i <= history@.len(),
            ctx == history@.subrange(start as int, history@.len() as int),
            messages_view(contents@) == Seq::new((i - start) as nat, |k: int| (gemini_role_spec(ctx[k].role), ctx[k].text@)),
        decreases history@.len() - i,
    {
        let entry = &history[i];
        let ghost before = messages_view(contents@);
        contents.push(ChatMessage { role: gemini_role(entry.role), content: entry.text.clone() });
        assert(ctx[i - start] == history@[i as int]);
        assert(messages_view(contents@) =~= before.push((gemini_role_spec(entry.role), entry.text@)));
        assert(messages_view(contents@) =~= Seq::new((i + 1 - start) as nat, |k: int| (gemini_role_spec(ctx[k].role), ctx[k].text@)));
        i = i + 1;
    }
    contents.push(ChatMessage { role: String::from_str("user"), content: String::from_str(prompt) });
    assert(messages_view(contents@) =~= gemini_contents_spec(prompt@, history@));
    Ok(GeminiRequest {
        url: gemini_url(settings),
        system_instruction: String::from_str("Відповідай стисло і без емодзі."),
        contents,
    })
}

/// A part of a Gemini vision request.
#[derive(Debug)]
pub enum VisionPart {
    /// A text part.
    Text(String),
    /// Data given inline: its MIME type and its Base64 text.
    InlineData { mime_type: String, data: String },
}

/// A Gemini request about an image: where it goes, and the parts of its one turn.
#[derive(Debug)]
pub struct VisionRequest {
    pub url: String,
    pub parts: Vec<VisionPart>,
}

/// The request that asks Gemini `prompt` about the PNG image `image_b64`
/// (Base64), or the notice that no key is set.
pub fn gemini_vision_request(prompt: &str, image_b64: &str, settings: &SettingsEntry) -> (res: Result<VisionRequest, String>)
    ensures
        res is Err <==> settings.gemini_key@.len() == 0,
        res matches Err(e) ==> e@ == missing_key_notice(),
        res matches Ok(r) ==> {
            &&& r.url@ == gemini_url_spec(gemini_model_spec(*settings), settings.gemini_key@)
            &&& r.parts@.len() == 2
            &&& r.parts@[0] matches VisionPart::Text(t) && t@ == prompt@
            &&& r.parts@[1] matches VisionPart::InlineData { mime_type, data }
                && mime_type@ == "image/png"@ && data@ == image_b64@
        },
{
    if settings.gemini_key.as_str().is_empty() {
        return Err(String::from_str("API-ключ для Gemini не знайдено."));
    }
    let mut parts: Vec<VisionPart> = Vec::new();
    parts.push(VisionPart::Text(String::from_str(prompt)));
    parts.push(VisionPart::InlineData {
        mime_type: String::from_str("image/png"),
        data: String::from_str(image_b64),
    });
    Ok(VisionRequest { url: gemini_url(settings), parts })
}

pub open spec fn gemini_status_spec(status: u16) -> Option<Seq<char>> {
    if status == 200 {
        None
    } else if status == 429 {
        Some("Gemini: перевищено квоту, спробуйте пізніше."@)
    } else if status == 400 || status == 403 {
        Some("Ви на авторизованi або невказаний ключ."@)
    } else {
        Some("Gemini: сервери переповнені."@)
    }
}

/// The notice for a Gemini HTTP status, or nothing when the request succeeded.
pub fn gemini_status(status: u16) -> (res: Option<String>)
    ensures
        match res {
            Some(t) => gemini_status_spec(status) == Some(t@),
            None => gemini_status_spec(status) is None,
        },
{
    if status == 200 {
        None
    } else if status == 429 {
        Some(String::from_str("Gemini: перевищено квоту, спробуйте пізніше."))
    } else if status == 400 || status == 403 {
        Some(String::from_str("Ви на авторизованi або невказаний ключ."))
    } else {
        Some(String::from_str("Gemini: сервери переповнені."))
    }
}

/// How a Gemini request ended.
pub enum GeminiReply {
    /// The request could not be sent, or the answer could not be read.
    Failed,
    /// The server answered with this HTTP status; when it is 200, `text` is the
    /// text of the first part of the first candidate, if there is one.
    Status { status: u16, text: Option<String> },
}

/// What to say after a Gemini request.
pub fn gemini_answer(reply: &GeminiReply) -> (res: String)
    ensures
        res@ == (match reply {
            GeminiReply::Failed => "Gemini: сервери переповнені."@,
            GeminiReply::Status { status, text } => match gemini_status_spec(*status) {
                Some(notice) => notice,
                None => match text {
                    Some(t) => answer_text_spec(t@),
                    None => "Не вдалось отримати відповідь."@,
                },
            },
        }),
{
    match reply {
        GeminiReply::Failed => String::from_str("Gemini: сервери переповнені."),
        GeminiReply::Status { status, text } => match gemini_status(*status) {
            Some(notice) => notice,
            None => match text {
                Some(t) => answer_text(t.as_str()),
                None => String::from_str("Не вдалось отримати відповідь."),
            },
        },
    }
}

} // verus!
