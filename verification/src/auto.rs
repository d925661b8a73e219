use vstd::prelude::*;
use base64::Engine;
use chrono::{Datelike, Timelike};
use crate::commands::Command;
use crate::dispatcher::{chars_from, concat_chars, phrase_list, strip_leading_trigger, strip_prefix_spec};
use crate::text::{
    chars_of, contains, decimal, decimal_chars, has_prefix, has_substring, lowercase,
    padded, padded_chars, same_chars, starts_with, string_of, to_lowercase, trim, trimmed, views,
    words, split_words,
};

verus! {

// ---------------------------------------------------------------------------
// Music and sound.

/// How a command to the media player went.
#[derive(Debug, Clone, Copy, PartialEq, Eq, Structural)]
pub enum PlayerOutcome {
    /// No media player is active.
    NoPlayer,
    /// The player refused the command.
    Failed,
    /// The player obeyed.
    Done,
}

/// The answer to play/pause.
pub fn media_toggle(outcome: PlayerOutcome) -> (res: String)
    ensures
        res@ == (match outcome {
            PlayerOutcome::NoPlayer => "Немає активного плеєра."@,
            PlayerOutcome::Failed => "Не керувати музикою."@,
            PlayerOutcome::Done => "Музика перемкнена"@,
        }),
{
    match outcome {
        PlayerOutcome::NoPlayer => String::from_str("Немає активного плеєра."),
        PlayerOutcome::Failed => String::from_str("Не керувати музикою."),
        PlayerOutcome::Done => String::from_str("Музика перемкнена"),
    }
}

pub open spec fn switch_reply(outcome: PlayerOutcome) -> Seq<char> {
    match outcome {
        PlayerOutcome::NoPlayer => "Немає активного плеєра."@,
        PlayerOutcome::Failed => "Не вдалося перемкнути музику."@,
        PlayerOutcome::Done => "Музика перемкнена"@,
    }
}

/// The answer to "next track".
pub fn next(outcome: PlayerOutcome) -> (res: String)
    ensures
        res@ == switch_reply(outcome),
{
    match outcome {
        PlayerOutcome::NoPlayer => String::from_str("Немає активного плеєра."),
        PlayerOutcome::Failed => String::from_str("Не вдалося перемкнути музику."),
        PlayerOutcome::Done => String::from_str("Музика перемкнена"),
    }
}

/// The answer to "previous track".
pub fn prev(outcome: PlayerOutcome) -> (res: String)
    ensures
        res@ == switch_reply(outcome),
{
    next(outcome)
}

/// What the media player says of the current track.
pub enum TrackInfo {
    /// No media player is active.
    NoPlayer,
    /// The player gave no metadata.
    NoMetadata,
    /// The track's title and first artist, when the player gives them.
    Track { title: Option<String>, artist: Option<String> },
}

pub open spec fn info_spec(track: TrackInfo) -> Seq<char> {
    match track {
        TrackInfo::NoPlayer => "Немає активного плеєра."@,
        TrackInfo::NoMetadata => "Немає інформації про трек."@,
        TrackInfo::Track { title, artist } => {
            let t = match title {
                Some(t) => t@,
                None => "Назва треку невідомa."@,
            };
            let a = match artist {
                Some(a) => a@,
                None => Seq::empty(),
            };
            if a.len() == 0 {
                "Зараз грає: "@ + t
            } else {
                "Зараз грає: "@ + t + " від "@ + a + "."@
            }
        },
    }
}

/// The answer to "what is playing".
pub fn info(track: &TrackInfo) -> (res: String)
    ensures
        res@ == info_spec(*track),
{
    match track {
        TrackInfo::NoPlayer => String::from_str("Немає активного плеєра."),
        TrackInfo::NoMetadata => String::from_str("Немає інформації про трек."),
        TrackInfo::Track { title, artist } => {
            let t = match title {
                Some(t) => chars_of(t.as_str()),
                None => chars_of("Назва треку невідомa."),
            };
            let a = match artist {
                Some(a) => chars_of(a.as_str()),
                None => Vec::new(),
            };
            let head = concat_chars(&chars_of("Зараз грає: "), &t);
            if a.len() == 0 {
                string_of(&head)
            } else {
                let x = concat_chars(&head, &chars_of(" від "));
                let x = concat_chars(&x, &a);
                string_of(&concat_chars(&x, &chars_of(".")))
            }
        },
    }
}

/// The answer to "toggle the system sound", given whether the mixer obeyed.
pub fn sound_toggle(ok: bool) -> (res: String)
    ensures
        res@ == (if ok { "Звук перемкнено."@ } else { "Не вдалося керувати звуком."@ }),
{
    if ok {
        String::from_str("Звук перемкнено.")
    } else {
        String::from_str("Не вдалося керувати звуком.")
    }
}

pub fn music_toggle(outcome: PlayerOutcome) -> (res: String)
    ensures
        res@ == (match outcome {
            PlayerOutcome::NoPlayer => "Немає активного плеєра."@,
            PlayerOutcome::Failed => "Не керувати музикою."@,
            PlayerOutcome::Done => "Музика перемкнена"@,
        }),
{
    media_toggle(outcome)
}

pub fn music_next(outcome: PlayerOutcome) -> (res: String)
    ensures
        res@ == switch_reply(outcome),
{
    next(outcome)
}

pub fn music_prev(outcome: PlayerOutcome) -> (res: String)
    ensures
        res@ == switch_reply(outcome),
{
    prev(outcome)
}

pub fn music_info(track: &TrackInfo) -> (res: String)
    ensures
        res@ == info_spec(*track),
{
    info(track)
}

// ---------------------------------------------------------------------------
// Windows.

/// What to do with a window.
#[derive(Debug, Clone, Copy, PartialEq, Eq, Structural)]
pub enum WindowAction {
    Show,
    Hide,
    Close,
}

pub open spec fn window_triggers() -> Seq<Seq<char>> {
    seq![
        "закрий вікно"@, "мінімізуй"@, "close window"@, "заховай вікно"@, "згорни вікно"@,
        "hide window"@, "сховай вікно"@, "відкрий вікно"@, "minimize window"@, "покажи вікно"@,
        "переключи вікно"@, "open window"@, "show window"@,
    ]
}

/// The window title after a window trigger at the start of `text`, lower-cased.
pub open spec fn strip_window_spec(text: Seq<char>) -> Seq<char> {
    let rest = strip_prefix_spec(text, lowercase(text), window_triggers());
    if rest.len() == 0 { rest } else { lowercase(rest) }
}

/// The window title that follows "close window", "hide window", ... at the start
/// of `text`, lower-cased; empty when no trigger starts the text.
pub fn strip_window_trigger(text: &str) -> (res: String)
    ensures
        res@ == strip_window_spec(text@),
{
    let list = vec![
        "закрий вікно", "мінімізуй", "close window", "заховай вікно", "згорни вікно",
        "hide window", "сховай вікно", "відкрий вікно", "minimize window", "покажи вікно",
        "переключи вікно", "open window", "show window",
    ];
    let triggers = phrase_list(&list);
    assert(views(triggers@) =~= window_triggers());
    let rest = strip_leading_trigger(&chars_of(text), &triggers);
    if rest.len() == 0 {
        String::new()
    } else {
        string_of(&to_lowercase(&rest))
    }
}

pub open spec fn window_action_of(cmd: Command) -> WindowAction {
    match cmd {
        Command::WindowOpen => WindowAction::Show,
        Command::WindowHide => WindowAction::Hide,
        _ => WindowAction::Close,
    }
}

pub open spec fn is_window_command(cmd: Command) -> bool {
    cmd == Command::WindowOpen || cmd == Command::WindowHide || cmd == Command::WindowClose
}

/// The window command that `text` asks for: the action and the window title, or
/// the notice that the title is missing.
pub fn window(cmd: Command, text: &str) -> (res: Result<(WindowAction, String), String>)
    requires
        is_window_command(cmd),
    ensures
        strip_window_spec(text@).len() == 0 <==> res is Err,
        res matches Err(e) ==> e@ == "Вкажіть назву вікна у коммандi пiсля 'window'."@,
        res matches Ok((a, t)) ==> a == window_action_of(cmd) && t@ == strip_window_spec(text@),
{
    let action = match cmd {
        Command::WindowOpen => WindowAction::Show,
        Command::WindowHide => WindowAction::Hide,
        _ => WindowAction::Close,
    };
    let title = strip_window_trigger(text);
    if title.as_str().is_empty() {
        return Err(String::from_str("Вкажіть назву вікна у коммандi пiсля 'window'."));
    }
    Ok((action, title))
}

/// `prefix + «title» + suffix`.
fn quoted(prefix: &str, title: &str, suffix: &str) -> (res: String)
    ensures
        res@ == prefix@ + "«"@ + title@ + "»"@ + suffix@,
{
    let a = concat_chars(&chars_of(prefix), &chars_of("«"));
    let a = concat_chars(&a, &chars_of(title));
    let a = concat_chars(&a, &chars_of("»"));
    string_of(&concat_chars(&a, &chars_of(suffix)))
}

/// The answer to "open window", given whether the program started.
pub fn open_reply(title: &str, started: bool) -> (res: String)
    ensures
        res@ == (if started {
            "Відкриваю "@ + "«"@ + title@ + "»"@ + "."@
        } else {
            "Не вдалося відкрити "@ + "«"@ + title@ + "»"@ + "."@
        }),
{
    if started {
        quoted("Відкриваю ", title, ".")
    } else {
        quoted("Не вдалося відкрити ", title, ".")
    }
}

/// The answer when no window has the title.
pub fn not_found_reply(title: &str) -> (res: String)
    ensures
        res@ == "Вікно "@ + "«"@ + title@ + "»"@ + " не знайдено."@,
{
    quoted("Вікно ", title, " не знайдено.")
}

/// The answer once the window manager was asked, given whether it obeyed.
pub fn control_reply(ok: bool) -> (res: String)
    ensures
        res@ == (if ok { "Готово."@ } else { "Не вдалося керувати вікном."@ }),
{
    if ok {
        String::from_str("Готово.")
    } else {
        String::from_str("Не вдалося керувати вікном.")
    }
}

/// The `xdotool` subcommand for hiding or closing a window.
pub fn xdotool_subcommand(action: WindowAction) -> (res: String)
    requires
        action != WindowAction::Show,
    ensures
        res@ == (if action == WindowAction::Hide { "windowminimize"@ } else { "windowclose"@ }),
{
    match action {
        WindowAction::Hide => String::from_str("windowminimize"),
        _ => String::from_str("windowclose"),
    }
}

/// The `hyprctl dispatch` dispatcher and argument for hiding or closing the
/// window at `address`.
pub fn hypr_dispatch(action: WindowAction, address: &str) -> (res: (String, String))
    requires
        action != WindowAction::Show,
    ensures
        action == WindowAction::Close ==> res.0@ == "closewindow"@ && res.1@ == "address:"@ + address@,
        action == WindowAction::Hide ==> res.0@ == "movetoworkspacesilent"@
            && res.1@ == "special:minimized,address:"@ + address@,
{
    match action {
        WindowAction::Close => (
            String::from_str("closewindow"),
            string_of(&concat_chars(&chars_of("address:"), &chars_of(address))),
        ),
        _ => (
            String::from_str("movetoworkspacesilent"),
            string_of(&concat_chars(&chars_of("special:minimized,address:"), &chars_of(address))),
        ),
    }
}

// ---------------------------------------------------------------------------
// Lines of program output, as `str::lines` yields them.

/// A line without the carriage return before its line feed.
pub open spec fn strip_cr(x: Seq<char>) -> Seq<char> {
    if x.len() > 0 && x.last() == '\r' { x.drop_last() } else { x }
}

/// The finished lines and the line under way, after reading `s` from the left.
pub open spec fn lines_state(s: Seq<char>) -> (Seq<Seq<char>>, Seq<char>)
    decreases s.len(),
{
    if s.len() == 0 {
        (Seq::empty(), Seq::empty())
    } else {
        let (ls, cur) = lines_state(s.drop_last());
        if s.last() == '\n' {
            (ls.push(strip_cr(cur)), Seq::empty())
        } else {
            (ls, cur.push(s.last()))
        }
    }
}

/// The lines of `s`: split at each `\n`, a `\r` before it removed, and no empty
/// line after a final `\n`.
pub open spec fn lines(s: Seq<char>) -> Seq<Seq<char>> {
    let (ls, cur) = lines_state(s);
    if cur.len() > 0 { ls.push(cur) } else { ls }
}

/// The lines of `s`.
pub fn split_lines(s: &Vec<char>) -> (res: Vec<Vec<char>>)
    ensures
        views(res@) == lines(s@),
{
    let mut ls: Vec<Vec<char>> = Vec::new();
    let mut cur: Vec<char> = Vec::new();
    let mut i: usize = 0;
    while i < s.len()
        invariant
            i <= s@.len(),
            (views(ls@), cur@) == lines_state(s@.take(i as int)),
        decreases s@.len() - i,
    {
        let c = s[i];
        assert(s@.take(i + 1).drop_last() =~= s@.take(i as int));
        assert(s@.take(i + 1).last() == c);
        if c == '\n' {
            if cur.len() > 0 && cur[cur.len() - 1] == '\r' {
                cur.pop();
            }
            let ghost before = views(ls@);
            ls.push(cur);
            assert(views(ls@) =~= before.push(ls@.last()@));
            cur = Vec::new();
        } else {
            cur.push(c);
        }
        i = i + 1;
    }
    assert(s@.take(s@.len() as int) =~= s@);
    if cur.len() > 0 {
        let ghost before = views(ls@);
        ls.push(cur);
        assert(views(ls@) =~= before.push(ls@.last()@));
    }
    ls
}

/// The first window id that `xdotool search` printed: its first line, unless
/// that is missing or empty.
pub open spec fn first_window_id_spec(output: Seq<char>) -> Option<Seq<char>> {
    if lines(output).len() > 0 && lines(output)[0].len() > 0 {
        Some(lines(output)[0])
    } else {
        None
    }
}

pub fn first_window_id(output: &str) -> (res: Option<String>)
    ensures
        match res {
            Some(id) => first_window_id_spec(output@) == Some(id@),
            None => first_window_id_spec(output@) is None,
        },
{
    let ls = split_lines(&chars_of(output));
    if ls.len() > 0 && ls[0].len() > 0 {
        Some(string_of(&ls[0]))
    } else {
        None
    }
}

/// Reading `hyprctl clients` line by line: the address of the window seen last,
/// whether that window is the assistant's own, and the answer once found.
pub open spec fn hypr_scan(ls: Seq<Seq<char>>, needle: Seq<char>) -> (Option<Seq<char>>, bool, Option<Option<Seq<char>>>)
    decreases ls.len(),
{
    if ls.len() == 0 {
        (None, false, None)
    } else {
        let (addr, own, found) = hypr_scan(ls.drop_last(), needle);
        let line = ls.last();
        if found is Some {
            (addr, own, found)
        } else if starts_with(line, "Window "@) {
            let ws = words(line.skip(7));
            (if ws.len() > 0 { Some("0x"@ + ws[0]) } else { None }, false, None)
        } else {
            let l = trim(line);
            let own2 = own || l == "class: thompson-app"@;
            if !own2 && (starts_with(l, "class: "@) || starts_with(l, "title: "@))
                && contains(lowercase(l.skip(7)), needle) {
                (addr, own2, Some(addr))
            } else {
                (addr, own2, None)
            }
        }
    }
}

/// The address of the first window in `hyprctl clients` output whose class or
/// title contains `needle` (ignoring case), skipping the assistant's own window.
pub open spec fn hypr_find_address_spec(needle: Seq<char>, output: Seq<char>) -> Option<Seq<char>> {
    match hypr_scan(lines(output), lowercase(needle)).2 {
        Some(a) => a,
        None => None,
    }
}

pub fn hypr_find_address(needle: &str, output: &str) -> (res: Option<String>)
    ensures
        match res {
            Some(a) => hypr_find_address_spec(needle@, output@) == Some(a@),
            None => hypr_find_address_spec(needle@, output@) is None,
        },
{
    let ls = split_lines(&chars_of(output));
    let n = to_lowercase(&chars_of(needle));
    let window = chars_of("Window ");
    let class = chars_of("class: ");
    let title = chars_of("title: ");
    let own_class = chars_of("class: thompson-app");
    assert(window@.len() == 7 && class@.len() == 7 && title@.len() == 7) by {
        reveal_strlit("Window ");
        reveal_strlit("class: ");
        reveal_strlit("title: ");
    }
    let ghost lv = views(ls@);
    let mut addr: Option<Vec<char>> = None;
    let mut own = false;
    let mut i: usize = 0;
    while i < ls.len()
        invariant
            i <= ls@.len(),
            lv == views(ls@),
            lv == lines(output@),
            n@ == lowercase(needle@),
            window@ == "Window "@,
            class@ == "class: "@,
            title@ == "title: "@,
            own_class@ == "class: thompson-app"@,
            window@.len() == 7 && class@.len() == 7 && title@.len() == 7,
            ({
                let (a, o, f) = hypr_scan(lv.take(i as int), lowercase(needle@));
                &&& f is None
                &&& o == own
                &&& a == match addr { Some(v) => Some(v@), None => None }
            }),
        decreases ls@.len() - i,
    {
        let line = &ls[i];
        assert(lv.take(i + 1).drop_last() =~= lv.take(i as int));
        assert(lv.take(i + 1).last() == line@);
        if has_prefix(line, &window) {
            let ws = split_words(&chars_from(line, 7));
            if ws.len() > 0 {
                addr = Some(concat_chars(&chars_of("0x"), &ws[0]));
            } else {
                addr = None;
            }
            own = false;
        } else {
            let l = trimmed(line);
            if same_chars(&l, &own_class) {
                own = true;
            }
            if !own && (has_prefix(&l, &class) || has_prefix(&l, &title)) {
                let v = to_lowercase(&chars_from(&l, 7));
                if has_substring(&v, &n) {
                    assert(hypr_scan(lv.take(i + 1), lowercase(needle@)).2 is Some);
                    assert(lv.take(ls@.len() as int) =~= lv);
                    proof {
                        lemma_hypr_scan_found(lv, lowercase(needle@), (i + 1) as nat);
                    }
                    return match addr {
                        Some(v) => Some(string_of(&v)),
                        None => None,
                    };
                }
            }
        }
        i = i + 1;
    }
    assert(lv.take(ls@.len() as int) =~= lv);
    None
}

/// Once the scan has found its answer, later lines do not change it.
pub proof fn lemma_hypr_scan_found(ls: Seq<Seq<char>>, needle: Seq<char>, k: nat)
    requires
        k <= ls.len(),
        hypr_scan(ls.take(k as int), needle).2 is Some,
    ensures
        hypr_scan(ls, needle).2 == hypr_scan(ls.take(k as int), needle).2,
    decreases ls.len() - k,
{
    if k < ls.len() {
        assert(ls.take(k as int + 1).drop_last() =~= ls.take(k as int));
        lemma_hypr_scan_found(ls, needle, k + 1);
    } else {
        assert(ls.take(k as int) =~= ls);
    }
}

// ---------------------------------------------------------------------------
// System statistics.

/// Whether a temperature sensor measures the processor: its lower-cased label
/// contains "cpu", "package", "tctl" or "k10temp".
pub open spec fn is_cpu_sensor_spec(label: Seq<char>) -> bool {
    let l = lowercase(label);
    contains(l, "cpu"@) || contains(l, "package"@) || contains(l, "tctl"@) || contains(l, "k10temp"@)
}

pub fn is_cpu_sensor(label: &str) -> (res: bool)
    ensures
        res == is_cpu_sensor_spec(label@),
{
    let l = to_lowercase(&chars_of(label));
    has_substring(&l, &chars_of("cpu")) || has_substring(&l, &chars_of("package"))
        || has_substring(&l, &chars_of("tctl")) || has_substring(&l, &chars_of("k10temp"))
}

// ---------------------------------------------------------------------------
// The time.

/// A year as chrono's `%Y` writes it: four digits from 0 to 9999, otherwise
/// with a sign and at least four digits.
pub open spec fn year_text(year: int) -> Seq<char> {
    if 0 <= year <= 9999 {
        padded(year as nat, 4)
    } else if year < 0 {
        seq!['-'] + padded((-year) as nat, 4)
    } else {
        seq!['+'] + decimal(year as nat)
    }
}

/// "Зараз HH:MM, DD.MM.YYYY."
pub open spec fn time_text(hour: u32, minute: u32, day: u32, month: u32, year: i32) -> Seq<char> {
    "Зараз "@ + padded(hour as nat, 2) + ":"@ + padded(minute as nat, 2) + ", "@
        + padded(day as nat, 2) + "."@ + padded(month as nat, 2) + "."@ + year_text(year as int) + "."@
}

pub fn time_message(hour: u32, minute: u32, day: u32, month: u32, year: i32) -> (res: String)
    ensures
        res@ == time_text(hour, minute, day, month, year),
{
    let a = concat_chars(&chars_of("Зараз "), &padded_chars(hour as u64, 2));
    let a = concat_chars(&a, &chars_of(":"));
    let a = concat_chars(&a, &padded_chars(minute as u64, 2));
    let a = concat_chars(&a, &chars_of(", "));
    let a = concat_chars(&a, &padded_chars(day as u64, 2));
    let a = concat_chars(&a, &chars_of("."));
    let a = concat_chars(&a, &padded_chars(month as u64, 2));
    let a = concat_chars(&a, &chars_of("."));
    let y: Vec<char> = if 0 <= year && year <= 9999 {
        padded_chars(year as u64, 4)
    } else if year < 0 {
        let mut sign: Vec<char> = Vec::new();
        sign.push('-');
        assert(sign@ =~= seq!['-']);
        concat_chars(&sign, &padded_chars((0 - (year as i64)) as u64, 4))
    } else {
        let mut sign: Vec<char> = Vec::new();
        sign.push('+');
        assert(sign@ =~= seq!['+']);
        concat_chars(&sign, &decimal_chars(year as u64))
    };
    let a = concat_chars(&a, &y);
    string_of(&concat_chars(&a, &chars_of(".")))
}

/// Reads the local clock.
///
/// Trusted: calls `chrono::Local::now()` and reads the hour, minute, day, month and
/// year of the result. What the clock reads is not stated; the contract claims
/// only the ranges that chrono documents for these fields.
#[verifier::external_body]
fn local_clock() -> (res: (u32, u32, u32, u32, i32))
    ensures
        res.0 < 24,
        res.1 < 60,
        1 <= res.2 <= 31,
        1 <= res.3 <= 12,
{
    let now = chrono::Local::now();
    (now.hour(), now.minute(), now.day(), now.month(), now.year())
}

/// The answer to "what time is it", from the local clock.
pub fn time_reply() -> (res: String)
    ensures
        exists|h: u32, m: u32, d: u32, mo: u32, y: i32|
            h < 24 && m < 60 && 1 <= d <= 31 && 1 <= mo <= 12 && res@ == #[trigger] time_text(h, m, d, mo, y),
{
    let (h, m, d, mo, y) = local_clock();
    time_message(h, m, d, mo, y)
}

// ---------------------------------------------------------------------------
// Screenshots.

/// The PNG file that the `image` crate writes for an RGBA image.
pub uninterp spec fn png_file(width: u32, height: u32, rgba: Seq<u8>) -> Seq<u8>;

/// The character of a 6-bit value in the standard Base64 alphabet.
pub open spec fn base64_char(v: int) -> char {
    if v < 26 {
        (65 + v) as char
    } else if v < 52 {
        (97 + v - 26) as char
    } else if v < 62 {
        (48 + v - 52) as char
    } else if v == 62 {
        '+'
    } else {
        '/'
    }
}

/// Standard Base64 (RFC 4648, with `=` padding) of `data`.
pub open spec fn base64_spec(data: Seq<u8>) -> Seq<char>
    decreases data.len(),
{
    if data.len() == 0 {
        Seq::empty()
    } else if data.len() == 1 {
        let b0 = data[0] as int;
        seq![base64_char(b0 / 4), base64_char((b0 % 4) * 16), '=', '=']
    } else if data.len() == 2 {
        let b0 = data[0] as int;
        let b1 = data[1] as int;
        seq![base64_char(b0 / 4), base64_char((b0 % 4) * 16 + b1 / 16), base64_char((b1 % 16) * 4), '=']
    } else {
        let b0 = data[0] as int;
        let b1 = data[1] as int;
        let b2 = data[2] as int;
        seq![
            base64_char(b0 / 4),
            base64_char((b0 % 4) * 16 + b1 / 16),
            base64_char((b1 % 16) * 4 + b2 / 64),
            base64_char(b2 % 64),
        ] + base64_spec(data.skip(3))
    }
}

/// Trusted: writes the image as PNG with `image::RgbaImage::from_raw` and
/// `ImageBuffer::write_to` into an in-memory buffer, and gives the buffer (what
/// was written; a write error is ignored, as the assistant ignores it). The
/// contract names the bytes; it claims that they depend on the image alone, and
/// that they fit in a `Vec<u8>` (at most `isize::MAX` bytes, as std documents).
#[verifier::external_body]
fn encode_png(width: u32, height: u32, rgba: Vec<u8>) -> (res: Vec<u8>)
    requires
        rgba@.len() == 4 * (width as int) * (height as int),
    ensures
        res@ == png_file(width, height, rgba@),
        res@.len() <= isize::MAX,
{
    let mut buf = std::io::Cursor::new(Vec::new());
    if let Some(image) = image::RgbaImage::from_raw(width, height, rgba) {
        let _ = image.write_to(&mut buf, image::ImageFormat::Png);
    }
    buf.into_inner()
}

/// Trusted: calls `base64::engine::general_purpose::STANDARD.encode`. The contract
/// claims what the crate documents: standard Base64 with padding. The input must
/// be short enough that the encoded length fits in a `usize`.
#[verifier::external_body]
fn base64_encode(data: &Vec<u8>) -> (res: String)
    requires
        data@.len() <= isize::MAX,
    ensures
        res@ == base64_spec(data@),
{
    base64::engine::general_purpose::STANDARD.encode(data)
}

/// A screenshot, given as RGBA pixels, as Base64 text of its PNG file.
pub fn encode_screenshot(width: u32, height: u32, rgba: Vec<u8>) -> (res: String)
    requires
        rgba@.len() == 4 * (width as int) * (height as int),
    ensures
        res@ == base64_spec(png_file(width, height, rgba@)),
{
    let png = encode_png(width, height, rgba);
    base64_encode(&png)
}

} // verus!
