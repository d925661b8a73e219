use thompson::ai::{
    answer_text, gemini_answer, gemini_request, gemini_role, gemini_status, gemini_url,
    gemini_vision_request, ollama_answer, ollama_request, role_name, uses_gemini, GeminiReply,
    OllamaReply, VisionPart,
};
use thompson::auto::{
    control_reply, encode_screenshot, first_window_id, hypr_dispatch, hypr_find_address, info,
    is_cpu_sensor, media_toggle, music_info, music_next, music_prev, music_toggle, next,
    not_found_reply, open_reply, prev, sound_toggle, strip_window_trigger, time_message, window,
    xdotool_subcommand, PlayerOutcome, TrackInfo, WindowAction,
};
use thompson::commands::Command;
use thompson::dispatcher::custom_reply;
use thompson::memory::{
    delete_command, next_ai_mode, record_exchange, trim_history, CommandEntry, HistoryEntry,
    Roles, SettingValue, SettingsEntry,
};
use thompson::text::{decimal_chars, is_whitespace, parse_decimal};

fn chars(s: &str) -> Vec<char> {
    s.chars().collect()
}

fn settings() -> SettingsEntry {
    SettingsEntry {
        accent: String::new(),
        bg: String::new(),
        muted: String::new(),
        local_model: "llama3".to_string(),
        ai_mode: "gemini".to_string(),
        gemini_key: "KEY".to_string(),
        mute_status: false,
        map: vec![
            ("tts_rate".to_string(), SettingValue::Integer(3)),
            ("model_path".to_string(), SettingValue::Text(String::new())),
            ("gemini_model".to_string(), SettingValue::Text("gemini-pro".to_string())),
            ("tts_voice".to_string(), SettingValue::Json("[1,2]".to_string())),
            ("tts_rate".to_string(), SettingValue::Integer(9)),
        ],
    }
}

fn entry(role: Roles, text: &str) -> HistoryEntry {
    HistoryEntry { role, text: text.to_string() }
}

#[test]
fn settings_lookups() {
    let s = settings();
    assert_eq!(s.tts_rate(), 3);
    assert_eq!(s.tts_voice(), "");
    assert_eq!(s.model_path(), "models/ggml-base.bin");
    assert_eq!(s.gemini_model(), "gemini-pro");
    assert_eq!(s.get_integer("missing"), None);
    let mut big = settings();
    big.map = vec![("tts_rate".to_string(), SettingValue::Integer(4294967297))];
    assert_eq!(big.tts_rate(), 1);
}

#[test]
fn ai_mode_toggles() {
    assert_eq!(next_ai_mode("gemini"), "ollama");
    assert_eq!(next_ai_mode("ollama"), "gemini");
    assert_eq!(next_ai_mode(""), "gemini");
    assert!(uses_gemini(&settings()));
}

#[test]
fn deleting_commands() {
    let mut commands = vec![
        CommandEntry { name: "a".to_string(), path: "x".to_string(), triggers: vec![] },
        CommandEntry { name: "b".to_string(), path: "y".to_string(), triggers: vec![] },
    ];
    assert_eq!(delete_command(&mut commands, 2), Err("index out of range".to_string()));
    assert_eq!(commands.len(), 2);
    assert_eq!(delete_command(&mut commands, 0), Ok(()));
    assert_eq!(commands.len(), 1);
    assert_eq!(commands[0].name, "b");
}

#[test]
fn history_is_capped_at_one_hundred() {
    let mut h: Vec<HistoryEntry> = (0..150).map(|i| entry(Roles::User, &i.to_string())).collect();
    trim_history(&mut h);
    assert_eq!(h.len(), 100);
    assert_eq!(h[0].text, "50");
    let mut h: Vec<HistoryEntry> = (0..99).map(|i| entry(Roles::User, &i.to_string())).collect();
    record_exchange(&mut h, "hi", &"hello".to_string());
    assert_eq!(h.len(), 100);
    assert_eq!(h[0].text, "1");
    assert_eq!(h[98].text, "hi");
    assert_eq!(h[98].role, Roles::User);
    assert_eq!(h[99].text, "hello");
    assert_eq!(h[99].role, Roles::Tom);
    record_exchange(&mut h, "quiet", &String::new());
    assert_eq!(h.len(), 100);
    assert_eq!(h[99].text, "hello");
}

#[test]
fn ollama_request_has_context() {
    let history = vec![entry(Roles::User, "a"), entry(Roles::Tom, "b"), entry(Roles::User, "c")];
    let r = ollama_request("question", &history, &settings());
    assert_eq!(r.model, "llama3");
    assert!(!r.stream);
    assert_eq!(r.keep_alive, -1);
    let m: Vec<(String, String)> = r.messages.into_iter().map(|m| (m.role, m.content)).collect();
    assert_eq!(
        m,
        vec![
            ("system".to_string(), "Відповідай стисло і без емодзі.".to_string()),
            ("assistant".to_string(), "b".to_string()),
            ("user".to_string(), "c".to_string()),
            ("user".to_string(), "question".to_string()),
        ]
    );
    assert_eq!(role_name(Roles::Tom), "assistant");
    assert_eq!(gemini_role(Roles::Tom), "model");
}

#[test]
fn gemini_request_and_answers() {
    let history = vec![entry(Roles::Tom, "b")];
    let r = gemini_request("q", &history, &settings()).expect("key is set");
    assert_eq!(r.url, "https://generativelanguage.googleapis.com/v1beta/models/gemini-pro:generateContent?key=KEY");
    assert_eq!(gemini_url(&settings()), r.url);
    let c: Vec<(String, String)> = r.contents.into_iter().map(|m| (m.role, m.content)).collect();
    assert_eq!(c, vec![("model".to_string(), "b".to_string()), ("user".to_string(), "q".to_string())]);
    let mut no_key = settings();
    no_key.gemini_key = String::new();
    assert_eq!(gemini_request("q", &history, &no_key).err(), Some("API-ключ для Gemini не знайдено.".to_string()));
    assert_eq!(gemini_status(200), None);
    assert_eq!(gemini_status(429), Some("Gemini: перевищено квоту, спробуйте пізніше.".to_string()));
    assert_eq!(gemini_status(403), Some("Ви на авторизованi або невказаний ключ.".to_string()));
    assert_eq!(gemini_status(500), Some("Gemini: сервери переповнені.".to_string()));
    assert_eq!(gemini_answer(&GeminiReply::Status { status: 200, text: Some("  hi \n".to_string()) }), "hi");
    assert_eq!(gemini_answer(&GeminiReply::Status { status: 200, text: None }), "Не вдалось отримати відповідь.");
    assert_eq!(gemini_answer(&GeminiReply::Failed), "Gemini: сервери переповнені.");
}

#[test]
fn ollama_answers() {
    assert_eq!(ollama_answer(&OllamaReply::Unreachable), "Ollama недоступна. Перевір що сервіс запущений.");
    assert_eq!(ollama_answer(&OllamaReply::Failed), "Ollama: помилка запиту.");
    assert_eq!(ollama_answer(&OllamaReply::Answer(" ok ".to_string())), "ok");
    assert_eq!(answer_text("   "), "Не вдалось отримати відповідь.");
}

#[test]
fn media_answers() {
    assert_eq!(media_toggle(PlayerOutcome::Done), "Музика перемкнена");
    assert_eq!(music_toggle(PlayerOutcome::Failed), "Не керувати музикою.");
    assert_eq!(next(PlayerOutcome::NoPlayer), "Немає активного плеєра.");
    assert_eq!(music_next(PlayerOutcome::Failed), "Не вдалося перемкнути музику.");
    assert_eq!(prev(PlayerOutcome::Done), "Музика перемкнена");
    assert_eq!(music_prev(PlayerOutcome::Done), "Музика перемкнена");
    let t = TrackInfo::Track { title: Some("Song".to_string()), artist: Some("Band".to_string()) };
    assert_eq!(info(&t), "Зараз грає: Song від Band.");
    let t = TrackInfo::Track { title: None, artist: None };
    assert_eq!(music_info(&t), "Зараз грає: Назва треку невідомa.");
    assert_eq!(info(&TrackInfo::NoMetadata), "Немає інформації про трек.");
    assert_eq!(sound_toggle(true), "Звук перемкнено.");
    assert_eq!(sound_toggle(false), "Не вдалося керувати звуком.");
}

#[test]
fn window_commands() {
    assert_eq!(strip_window_trigger("Close Window Firefox"), "firefox");
    assert_eq!(strip_window_trigger("close"), "");
    match window(Command::WindowHide, "hide window Terminal") {
        Ok((a, t)) => {
            assert_eq!(a, WindowAction::Hide);
            assert_eq!(t, "terminal");
        }
        Err(e) => panic!("unexpected {}", e),
    }
    assert_eq!(
        window(Command::WindowOpen, "open window"),
        Err("Вкажіть назву вікна у коммандi пiсля 'window'.".to_string())
    );
    assert_eq!(open_reply("gimp", true), "Відкриваю «gimp».");
    assert_eq!(open_reply("gimp", false), "Не вдалося відкрити «gimp».");
    assert_eq!(not_found_reply("x"), "Вікно «x» не знайдено.");
    assert_eq!(control_reply(true), "Готово.");
    assert_eq!(xdotool_subcommand(WindowAction::Close), "windowclose");
    assert_eq!(
        hypr_dispatch(WindowAction::Hide, "0x1"),
        ("movetoworkspacesilent".to_string(), "special:minimized,address:0x1".to_string())
    );
    assert_eq!(custom_reply("build", true), "Виконую 'build'.");
    assert_eq!(custom_reply("build", false), "Не вдалось виконати 'build'.");
}

#[test]
fn window_manager_output() {
    assert_eq!(first_window_id("123\r\n456\n"), Some("123".to_string()));
    assert_eq!(first_window_id(""), None);
    assert_eq!(first_window_id("\n5"), None);
    let clients = "Window 55aa -> thompson:\n\tclass: thompson-app\n\ttitle: Firefox notes\nWindow 77bb -> Firefox:\n\tclass: firefox\n\ttitle: Mozilla Firefox\n";
    assert_eq!(hypr_find_address("FireFox", clients), Some("0x77bb".to_string()));
    assert_eq!(hypr_find_address("gimp", clients), None);
}

#[test]
fn sensors_and_time() {
    assert!(is_cpu_sensor("AMD k10temp Tctl"));
    assert!(is_cpu_sensor("Package id 0"));
    assert!(!is_cpu_sensor("nvme Composite"));
    assert_eq!(time_message(9, 5, 3, 11, 2024), "Зараз 09:05, 03.11.2024.");
    assert_eq!(time_message(23, 59, 31, 12, 987), "Зараз 23:59, 31.12.0987.");
    assert_eq!(time_message(0, 0, 1, 1, -5), "Зараз 00:00, 01.01.-0005.");
    assert_eq!(time_message(0, 0, 1, 1, 12345), "Зараз 00:00, 01.01.+12345.");
}

#[test]
fn numbers() {
    assert_eq!(parse_decimal(&chars("+42")), Some(42));
    assert_eq!(parse_decimal(&chars("18446744073709551615")), Some(u64::MAX));
    assert_eq!(parse_decimal(&chars("18446744073709551616")), None);
    assert_eq!(parse_decimal(&chars("-1")), None);
    assert_eq!(parse_decimal(&chars("+")), None);
    assert_eq!(parse_decimal(&chars("")), None);
    assert_eq!(parse_decimal(&chars("0x1")), None);
    let d: String = decimal_chars(1234567).into_iter().collect();
    assert_eq!(d, "1234567");
    let back = parse_decimal(&decimal_chars(98765));
    assert_eq!(back, Some(98765));
}

#[test]
fn screenshot_encoding() {
    let b64 = encode_screenshot(1, 1, vec![255, 0, 0, 255]);
    // every PNG file starts with the same eight bytes
    assert!(b64.starts_with("iVBORw0KGgo"));
    assert_eq!(b64.len() % 4, 0);
}

#[test]
fn gemini_vision_request_carries_prompt_and_image() {
    let r = gemini_vision_request("what is this?", "QUJD", &settings()).expect("key is set");
    assert_eq!(r.url, "https://generativelanguage.googleapis.com/v1beta/models/gemini-pro:generateContent?key=KEY");
    assert_eq!(r.parts.len(), 2);
    match &r.parts[0] {
        VisionPart::Text(t) => assert_eq!(t, "what is this?"),
        other => panic!("unexpected {:?}", other),
    }
    match &r.parts[1] {
        VisionPart::InlineData { mime_type, data } => {
            assert_eq!(mime_type, "image/png");
            assert_eq!(data, "QUJD");
        }
        other => panic!("unexpected {:?}", other),
    }
    let mut no_key = settings();
    no_key.gemini_key = String::new();
    assert_eq!(
        gemini_vision_request("q", "QUJD", &no_key).err(),
        Some("API-ключ для Gemini не знайдено.".to_string())
    );
}

#[test]
fn white_space_is_what_std_says() {
    for u in 0u32..=0x10FFFF {
        if let Some(c) = char::from_u32(u) {
            assert_eq!(is_whitespace(c), c.is_whitespace(), "{:#x}", u);
        }
    }
}
