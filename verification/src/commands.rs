use vstd::prelude::*;
use crate::text::{chars_of, max_chars};

verus! {

/// The built-in commands.
#[derive(Debug, Clone, Copy, PartialEq, Eq, Structural)]
pub enum Command {
    Stop,
    Ctime,
    Stats,
    WindowOpen,
    WindowHide,
    WindowClose,
    Screen,
    ToggleSound,
    MusicToggle,
    MusicNext,
    MusicPrev,
    MusicInfo,
    Remind,
    OpenBrowser,
    Dictation,
}

/// The phrases of `Command::Stop`.
pub open spec fn stop_phrases() -> Seq<(Command, Seq<char>)> {
    seq![(Command::Stop, "stop"@), (Command::Stop, "stop speaking"@), (Command::Stop, "shut up"@), (Command::Stop, "silence"@), (Command::Stop, "стоп"@)]
}

/// The phrases of `Command::Ctime`.
pub open spec fn ctime_phrases() -> Seq<(Command, Seq<char>)> {
    seq![(Command::Ctime, "what time is it"@), (Command::Ctime, "what is the time"@), (Command::Ctime, "tell me the time"@), (Command::Ctime, "котра година"@)]
}

/// The phrases of `Command::Stats`.
pub open spec fn stats_phrases() -> Seq<(Command, Seq<char>)> {
    seq![(Command::Stats, "statistics"@), (Command::Stats, "stats"@), (Command::Stats, "sysinfo"@), (Command::Stats, "system information"@), (Command::Stats, "статистика"@)]
}

/// The phrases of `Command::WindowClose`.
pub open spec fn window_close_phrases() -> Seq<(Command, Seq<char>)> {
    seq![(Command::WindowClose, "close window"@), (Command::WindowClose, "close"@)]
}

/// The phrases of `Command::WindowHide`.
pub open spec fn window_hide_phrases() -> Seq<(Command, Seq<char>)> {
    seq![(Command::WindowHide, "hide window"@), (Command::WindowHide, "minimize window"@), (Command::WindowHide, "hide"@), (Command::WindowHide, "minimize"@)]
}

/// The phrases of `Command::WindowOpen`.
pub open spec fn window_open_phrases() -> Seq<(Command, Seq<char>)> {
    seq![(Command::WindowOpen, "open window"@), (Command::WindowOpen, "show window"@), (Command::WindowOpen, "open"@), (Command::WindowOpen, "show"@)]
}

/// The phrases of `Command::Screen`.
pub open spec fn screen_phrases() -> Seq<(Command, Seq<char>)> {
    seq![(Command::Screen, "screen analysis"@), (Command::Screen, "what's on the screen"@), (Command::Screen, "check the screen"@), (Command::Screen, "що на екрані"@)]
}

/// The phrases of `Command::ToggleSound`.
pub open spec fn toggle_sound_phrases() -> Seq<(Command, Seq<char>)> {
    seq![(Command::ToggleSound, "turn off the system sound"@), (Command::ToggleSound, "turn on the system sound"@), (Command::ToggleSound, "toggle system sound"@), (Command::ToggleSound, "toggle sound"@), (Command::ToggleSound, "turn the sound on"@), (Command::ToggleSound, "turn the sound off"@), (Command::ToggleSound, "увімкнути звук"@)]
}

/// The phrases of `Command::MusicToggle`.
pub open spec fn music_toggle_phrases() -> Seq<(Command, Seq<char>)> {
    seq![(Command::MusicToggle, "turn off the music"@), (Command::MusicToggle, "turn on the music"@), (Command::MusicToggle, "toggle music"@), (Command::MusicToggle, "play / pause"@), (Command::MusicToggle, "музика"@)]
}

/// The phrases of `Command::MusicNext`.
pub open spec fn music_next_phrases() -> Seq<(Command, Seq<char>)> {
    seq![(Command::MusicNext, "next song"@), (Command::MusicNext, "next track"@), (Command::MusicNext, "наступний трек"@)]
}

/// The phrases of `Command::MusicPrev`.
pub open spec fn music_prev_phrases() -> Seq<(Command, Seq<char>)> {
    seq![(Command::MusicPrev, "previous song"@), (Command::MusicPrev, "previous track"@), (Command::MusicPrev, "prev song"@), (Command::MusicPrev, "prev track"@), (Command::MusicPrev, "попередній трек"@)]
}

/// The phrases of `Command::MusicInfo`.
pub open spec fn music_info_phrases() -> Seq<(Command, Seq<char>)> {
    seq![(Command::MusicInfo, "what is the song"@), (Command::MusicInfo, "what's playing"@), (Command::MusicInfo, "song name"@), (Command::MusicInfo, "track name"@), (Command::MusicInfo, "який трек"@)]
}

/// The phrases of `Command::Dictation`.
pub open spec fn dictation_phrases() -> Seq<(Command, Seq<char>)> {
    seq![(Command::Dictation, "type"@), (Command::Dictation, "write"@), (Command::Dictation, "input"@)]
}

/// The phrases of `Command::Remind`.
pub open spec fn remind_phrases() -> Seq<(Command, Seq<char>)> {
    seq![(Command::Remind, "remind me"@), (Command::Remind, "reminder"@), (Command::Remind, "set a timer"@), (Command::Remind, "set a reminder"@), (Command::Remind, "нагадування"@)]
}

/// The phrases of `Command::OpenBrowser`.
pub open spec fn open_browser_phrases() -> Seq<(Command, Seq<char>)> {
    seq![(Command::OpenBrowser, "open browser"@), (Command::OpenBrowser, "show browser"@), (Command::OpenBrowser, "browser"@), (Command::OpenBrowser, "відкрий браузер"@)]
}

/// The phrases that call each built-in command, in the order in which they are
/// tried: each command's phrases together, the commands in table order.
pub open spec fn command_phrases_spec() -> Seq<(Command, Seq<char>)> {
    Seq::empty()
        + stop_phrases()
        + ctime_phrases()
        + stats_phrases()
        + window_close_phrases()
        + window_hide_phrases()
        + window_open_phrases()
        + screen_phrases()
        + toggle_sound_phrases()
        + music_toggle_phrases()
        + music_next_phrases()
        + music_prev_phrases()
        + music_info_phrases()
        + dictation_phrases()
        + remind_phrases()
        + open_browser_phrases()
}

pub open spec fn table_views(t: Seq<(Command, Vec<char>)>) -> Seq<(Command, Seq<char>)> {
    Seq::new(t.len(), |i: int| (t[i].0, t[i].1@))
}

pub open spec fn table_bounded(t: Seq<(Command, Vec<char>)>) -> bool {
    forall|i: int| 0 <= i < t.len() ==> (#[trigger] t[i]).1@.len() <= max_chars()
}

fn add_phrase(table: &mut Vec<(Command, Vec<char>)>, cmd: Command, phrase: &str)
    requires
        table_bounded(old(table)@),
    ensures
        table_views(final(table)@) == table_views(old(table)@).push((cmd, phrase@)),
        table_bounded(final(table)@),
{
    let ghost before = table_views(table@);
    table.push((cmd, chars_of(phrase)));
    assert(table_views(table@) =~= before.push((cmd, phrase@)));
}

fn add_stop(table: &mut Vec<(Command, Vec<char>)>)
    requires
        table_bounded(old(table)@),
    ensures
        table_views(final(table)@) == table_views(old(table)@) + stop_phrases(),
        table_bounded(final(table)@),
{
    let ghost before = table_views(table@);
    add_phrase(table, Command::Stop, "stop");
    add_phrase(table, Command::Stop, "stop speaking");
    add_phrase(table, Command::Stop, "shut up");
    add_phrase(table, Command::Stop, "silence");
    add_phrase(table, Command::Stop, "стоп");
    assert(table_views(table@) =~= before + stop_phrases());
}

fn add_ctime(table: &mut Vec<(Command, Vec<char>)>)
    requires
        table_bounded(old(table)@),
    ensures
        table_views(final(table)@) == table_views(old(table)@) + ctime_phrases(),
        table_bounded(final(table)@),
{
    let ghost before = table_views(table@);
    add_phrase(table, Command::Ctime, "what time is it");
    add_phrase(table, Command::Ctime, "what is the time");
    add_phrase(table, Command::Ctime, "tell me the time");
    add_phrase(table, Command::Ctime, "котра година");
    assert(table_views(table@) =~= before + ctime_phrases());
}

fn add_stats(table: &mut Vec<(Command, Vec<char>)>)
    requires
        table_bounded(old(table)@),
    ensures
        table_views(final(table)@) == table_views(old(table)@) + stats_phrases(),
        table_bounded(final(table)@),
{
    let ghost before = table_views(table@);
    add_phrase(table, Command::Stats, "statistics");
    add_phrase(table, Command::Stats, "stats");
    add_phrase(table, Command::Stats, "sysinfo");
    add_phrase(table, Command::Stats, "system information");
    add_phrase(table, Command::Stats, "статистика");
    assert(table_views(table@) =~= before + stats_phrases());
}

fn add_window_close(table: &mut Vec<(Command, Vec<char>)>)
    requires
        table_bounded(old(table)@),
    ensures
        table_views(final(table)@) == table_views(old(table)@) + window_close_phrases(),
        table_bounded(final(table)@),
{
    let ghost before = table_views(table@);
    add_phrase(table, Command::WindowClose, "close window");
    add_phrase(table, Command::WindowClose, "close");
    assert(table_views(table@) =~= before + window_close_phrases());
}

fn add_window_hide(table: &mut Vec<(Command, Vec<char>)>)
    requires
        table_bounded(old(table)@),
    ensures
        table_views(final(table)@) == table_views(old(table)@) + window_hide_phrases(),
        table_bounded(final(table)@),
{
    let ghost before = table_views(table@);
    add_phrase(table, Command::WindowHide, "hide window");
    add_phrase(table, Command::WindowHide, "minimize window");
    add_phrase(table, Command::WindowHide, "hide");
    add_phrase(table, Command::WindowHide, "minimize");
    assert(table_views(table@) =~= before + window_hide_phrases());
}

fn add_window_open(table: &mut Vec<(Command, Vec<char>)>)
    requires
        table_bounded(old(table)@),
    ensures
        table_views(final(table)@) == table_views(old(table)@) + window_open_phrases(),
        table_bounded(final(table)@),
{
    let ghost before = table_views(table@);
    add_phrase(table, Command::WindowOpen, "open window");
    add_phrase(table, Command::WindowOpen, "show window");
    add_phrase(table, Command::WindowOpen, "open");
    add_phrase(table, Command::WindowOpen, "show");
    assert(table_views(table@) =~= before + window_open_phrases());
}

fn add_screen(table: &mut Vec<(Command, Vec<char>)>)
    requires
        table_bounded(old(table)@),
    ensures
        table_views(final(table)@) == table_views(old(table)@) + screen_phrases(),
        table_bounded(final(table)@),
{
    let ghost before = table_views(table@);
    add_phrase(table, Command::Screen, "screen analysis");
    add_phrase(table, Command::Screen, "what's on the screen");
    add_phrase(table, Command::Screen, "check the screen");
    add_phrase(table, Command::Screen, "що на екрані");
    assert(table_views(table@) =~= before + screen_phrases());
}

fn add_toggle_sound(table: &mut Vec<(Command, Vec<char>)>)
    requires
        table_bounded(old(table)@),
    ensures
        table_views(final(table)@) == table_views(old(table)@) + toggle_sound_phrases(),
        table_bounded(final(table)@),
{
    let ghost before = table_views(table@);
    add_phrase(table, Command::ToggleSound, "turn off the system sound");
    add_phrase(table, Command::ToggleSound, "turn on the system sound");
    add_phrase(table, Command::ToggleSound, "toggle system sound");
    add_phrase(table, Command::ToggleSound, "toggle sound");
    add_phrase(table, Command::ToggleSound, "turn the sound on");
    add_phrase(table, Command::ToggleSound, "turn the sound off");
    add_phrase(table, Command::ToggleSound, "увімкнути звук");
    assert(table_views(table@) =~= before + toggle_sound_phrases());
}

fn add_music_toggle(table: &mut Vec<(Command, Vec<char>)>)
    requires
        table_bounded(old(table)@),
    ensures
        table_views(final(table)@) == table_views(old(table)@) + music_toggle_phrases(),
        table_bounded(final(table)@),
{
    let ghost before = table_views(table@);
    add_phrase(table, Command::MusicToggle, "turn off the music");
    add_phrase(table, Command::MusicToggle, "turn on the music");
    add_phrase(table, Command::MusicToggle, "toggle music");
    add_phrase(table, Command::MusicToggle, "play / pause");
    add_phrase(table, Command::MusicToggle, "музика");
    assert(table_views(table@) =~= before + music_toggle_phrases());
}

fn add_music_next(table: &mut Vec<(Command, Vec<char>)>)
    requires
        table_bounded(old(table)@),
    ensures
        table_views(final(table)@) == table_views(old(table)@) + music_next_phrases(),
        table_bounded(final(table)@),
{
    let ghost before = table_views(table@);
    add_phrase(table, Command::MusicNext, "next song");
    add_phrase(table, Command::MusicNext, "next track");
    add_phrase(table, Command::MusicNext, "наступний трек");
    assert(table_views(table@) =~= before + music_next_phrases());
}

fn add_music_prev(table: &mut Vec<(Command, Vec<char>)>)
    requires
        table_bounded(old(table)@),
    ensures
        table_views(final(table)@) == table_views(old(table)@) + music_prev_phrases(),
        table_bounded(final(table)@),
{
    let ghost before = table_views(table@);
    add_phrase(table, Command::MusicPrev, "previous song");
    add_phrase(table, Command::MusicPrev, "previous track");
    add_phrase(table, Command::MusicPrev, "prev song");
    add_phrase(table, Command::MusicPrev, "prev track");
    add_phrase(table, Command::MusicPrev, "попередній трек");
    assert(table_views(table@) =~= before + music_prev_phrases());
}

fn add_music_info(table: &mut Vec<(Command, Vec<char>)>)
    requires
        table_bounded(old(table)@),
    ensures
        table_views(final(table)@) == table_views(old(table)@) + music_info_phrases(),
        table_bounded(final(table)@),
{
    let ghost before = table_views(table@);
    add_phrase(table, Command::MusicInfo, "what is the song");
    add_phrase(table, Command::MusicInfo, "what's playing");
    add_phrase(table, Command::MusicInfo, "song name");
    add_phrase(table, Command::MusicInfo, "track name");
    add_phrase(table, Command::MusicInfo, "який трек");
    assert(table_views(table@) =~= before + music_info_phrases());
}

fn add_dictation(table: &mut Vec<(Command, Vec<char>)>)
    requires
        table_bounded(old(table)@),
    ensures
        table_views(final(table)@) == table_views(old(table)@) + dictation_phrases(),
        table_bounded(final(table)@),
{
    let ghost before = table_views(table@);
    add_phrase(table, Command::Dictation, "type");
    add_phrase(table, Command::Dictation, "write");
    add_phrase(table, Command::Dictation, "input");
    assert(table_views(table@) =~= before + dictation_phrases());
}

fn add_remind(table: &mut Vec<(Command, Vec<char>)>)
    requires
        table_bounded(old(table)@),
    ensures
        table_views(final(table)@) == table_views(old(table)@) + remind_phrases(),
        table_bounded(final(table)@),
{
    let ghost before = table_views(table@);
    add_phrase(table, Command::Remind, "remind me");
    add_phrase(table, Command::Remind, "reminder");
    add_phrase(table, Command::Remind, "set a timer");
    add_phrase(table, Command::Remind, "set a reminder");
    add_phrase(table, Command::Remind, "нагадування");
    assert(table_views(table@) =~= before + remind_phrases());
}

fn add_open_browser(table: &mut Vec<(Command, Vec<char>)>)
    requires
        table_bounded(old(table)@),
    ensures
        table_views(final(table)@) == table_views(old(table)@) + open_browser_phrases(),
        table_bounded(final(table)@),
{
    let ghost before = table_views(table@);
    add_phrase(table, Command::OpenBrowser, "open browser");
    add_phrase(table, Command::OpenBrowser, "show browser");
    add_phrase(table, Command::OpenBrowser, "browser");
    add_phrase(table, Command::OpenBrowser, "відкрий браузер");
    assert(table_views(table@) =~= before + open_browser_phrases());
}

/// The phrase table, as character vectors.
pub fn command_phrases() -> (res: Vec<(Command, Vec<char>)>)
    ensures
        table_views(res@) == command_phrases_spec(),
        table_bounded(res@),
{
    let mut t: Vec<(Command, Vec<char>)> = Vec::new();
    assert(table_views(t@) =~= Seq::<(Command, Seq<char>)>::empty());
    add_stop(&mut t);
    add_ctime(&mut t);
    add_stats(&mut t);
    add_window_close(&mut t);
    add_window_hide(&mut t);
    add_window_open(&mut t);
    add_screen(&mut t);
    add_toggle_sound(&mut t);
    add_music_toggle(&mut t);
    add_music_next(&mut t);
    add_music_prev(&mut t);
    add_music_info(&mut t);
    add_dictation(&mut t);
    add_remind(&mut t);
    add_open_browser(&mut t);
    t
}

} // verus!
