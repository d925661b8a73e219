use thompson::commands::Command;
use thompson::dispatcher::{
    cmd_threshold, continue_dictation, find_command, find_custom, match_whole_phrase,
    parse_reminder, strip_dictation_trigger, Action, Dispatcher, PendingDialog,
};
use thompson::fuzzy::token_set_ratio;
use thompson::memory::CommandEntry;
use thompson::score::{ratio, Score};

fn chars(s: &str) -> Vec<char> {
    s.chars().collect()
}

fn value(s: Score) -> f64 {
    s.num as f64 / s.den as f64
}

#[test]
fn test_tsr() {
    let str1 = "плагін запусти";
    let str2 = "запусти плагін";

    assert!(value(token_set_ratio(str1, str2)) == 1.0)
}

#[test]
fn test_tsr_neg() {
    let str1 = "котра година";
    let str2 = "запусти плагін";

    assert!(value(token_set_ratio(str1, str2)) < 0.3)
}

#[test]
fn test_formula() {
    let str1 = "томікс ну запусти плагін будь ласка";
    let str2 = "запусти плагін";

    assert!(
        0.7 * value(token_set_ratio(str1, str2))
            + 0.3 * value(ratio(&chars(str1), &chars(str2)))
            >= value(cmd_threshold())
    )
}

#[test]
fn test_findcmd() {
    match find_command("стоп") {
        Some((cmd, score)) => {
            assert_eq!(cmd, Command::Stop);
            assert!((value(score) - 1.0).abs() < 1e-9)
        }
        None => panic!("Expected command."),
    }
}

#[test]
fn test_cmds() {
    let cases = [
        ("стоп", Command::Stop),
        ("котра година", Command::Ctime),
        ("статистика", Command::Stats),
        ("що на екрані", Command::Screen),
        ("музика", Command::MusicToggle),
        ("наступний трек", Command::MusicNext),
        ("попередній трек", Command::MusicPrev),
        ("який трек", Command::MusicInfo),
        ("нагадування", Command::Remind),
        ("відкрий браузер", Command::OpenBrowser),
        ("увімкнути звук", Command::ToggleSound),
    ];
    for (phrase, expected) in cases {
        let (cmd, _) = find_command(phrase).unwrap_or_else(|| panic!("No match for a command!"));
        assert_eq!(cmd, expected);
    }
}

#[test]
fn test_dt_inline() {
    assert_eq!(strip_dictation_trigger("type hello world"), "hello world")
}

#[test]
fn test_dt_none() {
    assert_eq!(strip_dictation_trigger("print this"), "")
}

#[test]
fn test_dt_highcase() {
    assert_eq!(strip_dictation_trigger("Type HELLO WORLD"), "HELLO WORLD")
}

#[test]
fn test_dt_no_trigger() {
    assert_eq!(strip_dictation_trigger("hello"), "")
}

#[test]
fn test_reminder() {
    assert_eq!(
        parse_reminder("remind me in 5 minutes to drink tea"),
        (5, "to drink tea".to_string())
    );
}

#[test]
fn test_reminder_no_label() {
    assert_eq!(parse_reminder("remind me in 5 mins"), (5, "Час минув!".to_string()));
}

#[test]
fn test_reminder_no_time() {
    assert_eq!(parse_reminder("remind me to drink tea"), (5, "to drink tea".to_string()));
}

// ---------------------------------------------------------------------------

#[test]
fn english_phrases_find_their_commands() {
    let cases = [
        ("stop", Command::Stop),
        ("what time is it", Command::Ctime),
        ("system information", Command::Stats),
        ("next song", Command::MusicNext),
        ("previous track", Command::MusicPrev),
        ("open browser", Command::OpenBrowser),
        ("remind me", Command::Remind),
    ];
    for (phrase, expected) in cases {
        let (cmd, score) = find_command(phrase).expect("a command");
        assert_eq!(cmd, expected);
        assert!(value(score) >= 0.55);
    }
}

#[test]
fn unrelated_text_finds_no_command() {
    assert!(find_command("qzxv wqpl").is_none());
}

#[test]
fn find_command_ignores_case() {
    let (cmd, score) = find_command("NEXT SONG").expect("a command");
    assert_eq!(cmd, Command::MusicNext);
    assert!((value(score) - 1.0).abs() < 1e-9);
}

#[test]
fn token_set_ratio_is_symmetric_and_ignores_repeats() {
    let a = value(token_set_ratio("open the door", "door open please"));
    let b = value(token_set_ratio("door open please", "open the door"));
    assert!((a - b).abs() < 1e-12);
    assert!(value(token_set_ratio("go go home", "home go")) == 1.0);
}

#[test]
fn token_set_ratio_exact_value() {
    // common = {"a"}, t0 = "a", t1 = "a b", t2 = "a c": best is ratio("a b", "a") = 2*1/4
    // and ratio("a b", "a c") = 2*2/6; the best is 2/3.
    let s = token_set_ratio("a b", "a c");
    assert!((value(s) - 2.0 / 3.0).abs() < 1e-12);
}

#[test]
fn ratio_exact_values() {
    assert_eq!(value(ratio(&chars(""), &chars(""))), 1.0);
    assert_eq!(value(ratio(&chars("abc"), &chars(""))), 0.0);
    // lewenstein / levenshtein: Indel distance 3 over 21 characters
    let r = ratio(&chars("lewenstein"), &chars("levenshtein"));
    assert_eq!((r.num, r.den), (18, 21));
}

#[test]
fn whole_phrase_answers() {
    let yes = vec!["так", "yes", "ok"];
    let threshold = Score { num: 80, den: 100 };
    assert!(match_whole_phrase("  Yes ", &yes, threshold));
    assert!(!match_whole_phrase("yesterday evening", &yes, threshold));
}

#[test]
fn reminder_takes_the_first_number_only() {
    assert_eq!(parse_reminder("remind me in 10 minutes to call 3 friends"), (10, "to call 3 friends".to_string()));
    assert_eq!(parse_reminder("нагадай через +7 хвилин випити чай"), (7, "випити чай".to_string()));
    assert_eq!(parse_reminder("remind me in 99999999999999999999 min"), (5, "99999999999999999999".to_string()));
}

#[test]
fn dictation_triggers_in_order() {
    assert_eq!(strip_dictation_trigger("type this   note"), "note");
    assert_eq!(strip_dictation_trigger("Напиши привіт"), "привіт");
    assert_eq!(strip_dictation_trigger("typewriter"), "writer");
}

#[test]
fn dictation_answers() {
    assert_eq!(continue_dictation("hello"), "Надруковано: hello");
    assert_eq!(continue_dictation("cancel"), "Скасовано.");
}

#[test]
fn custom_commands_match_by_trigger() {
    let commands = vec![
        CommandEntry { name: "plug".to_string(), path: "run-plug".to_string(), triggers: vec!["запусти плагін".to_string()] },
        CommandEntry { name: "other".to_string(), path: "run-other".to_string(), triggers: vec!["плагін запусти".to_string()] },
    ];
    assert_eq!(
        find_custom("ну запусти плагін", &commands),
        Some(("plug".to_string(), "run-plug".to_string()))
    );
    assert_eq!(find_custom("qzxv", &commands), None);
}

#[test]
fn dispatcher_plans_answers_and_commands() {
    let (tx, _rx) = tokio::sync::mpsc::unbounded_channel::<String>();
    let mut d = Dispatcher::new(tx);
    let commands: Vec<CommandEntry> = Vec::new();
    match d.plan("yes", &commands) {
        Action::Reply(r) => assert_eq!(r, "Підтверджено."),
        other => panic!("unexpected {:?}", other),
    }
    match d.plan("no", &commands) {
        Action::Reply(r) => assert_eq!(r, "Скасовано."),
        other => panic!("unexpected {:?}", other),
    }
    assert!(matches!(d.plan("what time is it", &commands), Action::CurrentTime));
    assert!(matches!(d.plan("next song", &commands), Action::MusicNext));
    match d.plan("remind me in 3 minutes to stretch", &commands) {
        Action::Remind { minutes, label, reply } => {
            assert_eq!(minutes, 3);
            assert_eq!(label, "to stretch");
            assert_eq!(reply, "Нагадаю через 3 хв.");
        }
        other => panic!("unexpected {:?}", other),
    }
    match d.plan("stop", &commands) {
        Action::Reply(r) => assert_eq!(r, ""),
        other => panic!("unexpected {:?}", other),
    }
    match d.plan("open browser", &commands) {
        Action::OpenBrowser { url, reply } => {
            assert_eq!(url, "https://google.com");
            assert_eq!(reply, "Браузер відкрито!");
        }
        other => panic!("unexpected {:?}", other),
    }
    assert!(matches!(d.plan("qzxv wqpl ghjk", &commands), Action::AskAi));
}

#[test]
fn dispatcher_dictation_dialog() {
    let (tx, _rx) = tokio::sync::mpsc::unbounded_channel::<String>();
    let mut d = Dispatcher::new(tx);
    let commands: Vec<CommandEntry> = Vec::new();
    match d.plan("type", &commands) {
        Action::Reply(r) => assert_eq!(r, "Що надрукувати?"),
        other => panic!("unexpected {:?}", other),
    }
    match d.plan("remind me", &commands) {
        Action::Type { text, reply } => {
            assert_eq!(text, "remind me");
            assert_eq!(reply, "Надруковано: remind me");
        }
        other => panic!("unexpected {:?}", other),
    }
    match d.plan("type", &commands) {
        Action::Reply(r) => assert_eq!(r, "Що надрукувати?"),
        other => panic!("unexpected {:?}", other),
    }
    match d.plan("cancel", &commands) {
        Action::Reply(r) => assert_eq!(r, "Скасовано."),
        other => panic!("unexpected {:?}", other),
    }
    match d.plan("type this hello world", &commands) {
        Action::Type { text, reply } => {
            assert_eq!(text, "hello world");
            assert_eq!(reply, "Надруковано: hello world");
        }
        other => panic!("unexpected {:?}", other),
    }
    assert!(matches!(d.plan("remind me", &commands), Action::Remind { .. }));
    let _ = PendingDialog::Idle;
}

#[test]
fn reminders_go_out_on_the_given_channel() {
    let (tx, mut rx) = tokio::sync::mpsc::unbounded_channel::<String>();
    let mut d = Dispatcher::new(tx);
    let _ = d.plan("remind me in 1 minute to stretch", &Vec::new());
    d.events().send("to stretch".to_string()).unwrap();
    assert_eq!(rx.try_recv().unwrap(), "to stretch");
}

#[test]
fn usage_phrases_find_their_commands() {
    let cases = [
        ("what time it is", Command::Ctime),
        ("screenshot analysis", Command::Screen),
        ("play / pause", Command::MusicToggle),
        ("play pause", Command::MusicToggle),
        ("next song", Command::MusicNext),
        ("previous song", Command::MusicPrev),
        ("remind me in 5 minutes to drink tea", Command::Remind),
        ("open browser", Command::OpenBrowser),
        ("type this hello", Command::Dictation),
        ("stop", Command::Stop),
    ];
    for (phrase, expected) in cases {
        assert_eq!(find_command(phrase).map(|(c, _)| c), Some(expected), "{}", phrase);
    }
}
