use thompson::tts::{quote_for_script, signed_decimal_chars, speech_script, words_per_minute, Speaker, TtsCommand};
use thompson::voice::{
    is_stop, is_wake, process, silence_limit, strip_fillers, ChunkAction, Listener, VoiceAction,
    VoiceState,
};

#[test]
fn stop_words_stop_in_any_state() {
    for start in [VoiceState::Idle, VoiceState::Awake] {
        let mut state = start;
        assert!(matches!(process(&mut state, "  Stop "), VoiceAction::Stop));
        assert_eq!(state, VoiceState::Idle);
    }
    assert!(is_stop("shut up"));
    assert!(!is_stop("stop the music please"));
}

#[test]
fn wake_word_alone_then_command() {
    let mut state = VoiceState::Idle;
    assert!(matches!(process(&mut state, "Tom"), VoiceAction::Wake));
    assert_eq!(state, VoiceState::Awake);
    match process(&mut state, "please next song") {
        VoiceAction::Dispatch(c) => assert_eq!(c, "next song"),
        other => panic!("unexpected {:?}", other),
    }
    assert_eq!(state, VoiceState::Idle);
}

#[test]
fn wake_word_with_command() {
    let mut state = VoiceState::Idle;
    match process(&mut state, "Tom, what time is it") {
        VoiceAction::Dispatch(c) => assert_eq!(c, "Tom, what time is it"),
        other => panic!("unexpected {:?}", other),
    }
    let mut state = VoiceState::Idle;
    match process(&mut state, "tom what time is it") {
        VoiceAction::Dispatch(c) => assert_eq!(c, "what time is it"),
        other => panic!("unexpected {:?}", other),
    }
    assert_eq!(state, VoiceState::Idle);
}

#[test]
fn speech_without_wake_word_is_ignored() {
    let mut state = VoiceState::Idle;
    assert!(matches!(process(&mut state, "open browser now"), VoiceAction::Nothing));
    assert_eq!(state, VoiceState::Idle);
    assert!(is_wake("hey there thompson"));
    assert!(!is_wake("hello big world thompson"));
}

#[test]
fn fillers_are_removed() {
    assert_eq!(strip_fillers("Tom can you please open browser"), "open browser");
    assert_eq!(strip_fillers("tom please"), "");
}

#[test]
fn listener_cuts_utterances() {
    let limit = silence_limit();
    assert_eq!(limit, 38400);
    let mut l = Listener::new();
    assert_eq!(l.on_chunk(false, false, true, 100), ChunkAction::Ignore);
    assert_eq!(l.on_chunk(false, true, false, 100), ChunkAction::Append);
    assert_eq!(l.on_chunk(false, false, true, 20000), ChunkAction::Append);
    assert_eq!(l.on_chunk(false, false, true, 20000), ChunkAction::Finish);
    assert!(!l.in_speech);
    assert_eq!(l.on_chunk(false, true, false, 10), ChunkAction::Append);
    assert_eq!(l.on_chunk(true, true, false, 10), ChunkAction::Reset);
    assert!(!l.in_speech);
}

#[test]
fn speaker_queue_is_first_in_first_out() {
    let mut s = Speaker::new();
    assert!(s.muted);
    assert!(!s.handle(TtsCommand::SetMute(false)));
    assert!(!s.handle(TtsCommand::Speak("one".to_string())));
    assert!(!s.handle(TtsCommand::Speak("two".to_string())));
    assert_eq!(s.next_utterance(), Some("one".to_string()));
    assert_eq!(s.next_utterance(), Some("two".to_string()));
    assert_eq!(s.next_utterance(), None);
}

#[test]
fn stop_and_mute_clear_the_queue() {
    let mut s = Speaker::new();
    s.handle(TtsCommand::SetMute(false));
    s.handle(TtsCommand::Speak("one".to_string()));
    assert!(s.handle(TtsCommand::Stop));
    assert_eq!(s.next_utterance(), None);
    s.handle(TtsCommand::Speak("two".to_string()));
    assert!(s.handle(TtsCommand::SetMute(true)));
    assert_eq!(s.queue.len(), 0);
    s.handle(TtsCommand::Speak("three".to_string()));
    assert_eq!(s.next_utterance(), None);
    assert_eq!(s.queue.len(), 0);
}

#[test]
fn speech_rate() {
    assert_eq!(words_per_minute(0), 175);
    assert_eq!(words_per_minute(5), 235);
    assert_eq!(words_per_minute(-10), 80);
    assert_eq!(words_per_minute(30), 400);
}

#[test]
fn script_quoting() {
    let q: String = quote_for_script(&"it's\r\nok\0".chars().collect()).into_iter().collect();
    assert_eq!(q, "it''sok");
    let n: String = signed_decimal_chars(-12).into_iter().collect();
    assert_eq!(n, "-12");
    let script = speech_script("Hi 'you'", "Anna", -3);
    assert_eq!(
        script,
        "Add-Type -AssemblyName System.Speech; $s = New-Object System.Speech.Synthesis.SpeechSynthesizer; $v = $s.GetInstalledVoices() | Where-Object { $_.VoiceInfo.Name -like '*Anna*' } | Select-Object -First 1; if ($v) { $s.SelectVoice($v.VoiceInfo.Name) }; $s.Rate = -3; $s.Speak('Hi ''you''')"
    );
}

#[test]
fn stripping_fillers_twice_changes_nothing() {
    let once = strip_fillers("Tom please   tell me\tthe time you");
    assert_eq!(once, "me the time");
    assert_eq!(strip_fillers(&once), once);
}
