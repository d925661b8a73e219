use vstd::prelude::*;
use crate::commands::{command_phrases, command_phrases_spec, table_views, Command};
use crate::fuzzy::{token_set_ratio_chars, tsr_spec};
use crate::fuzzy::{copy_chars, has_word};
use crate::memory::CommandEntry;
use crate::score::{
    lemma_le_lt, ratio, ratio_spec, score_lt, score_of, weighted, weighted_spec, Score,
};
use crate::text::{
    chars_of, decimal, decimal_chars, has_prefix, join, join_words, lowercase, max_chars,
    parse_decimal, parse_u64, split_words, starts_with, string_of, to_lowercase, trim,
    trim_start, trimmed, trimmed_start, views, words,
};

verus! {

// ---------------------------------------------------------------------------
// Thresholds.

/// The score a phrase must reach to call a command: 0.55.
pub open spec fn command_threshold() -> Score {
    Score { num: 55, den: 100 }
}

/// The score a whole answer must reach to count as a confirmation or a refusal: 0.8.
pub open spec fn answer_threshold() -> Score {
    Score { num: 80, den: 100 }
}

pub fn cmd_threshold() -> (res: Score)
    ensures
        res == command_threshold(),
{
    Score { num: 55, den: 100 }
}

pub fn confirm_threshold() -> (res: Score)
    ensures
        res == answer_threshold(),
{
    Score { num: 80, den: 100 }
}

pub fn cancel_threshold() -> (res: Score)
    ensures
        res == answer_threshold(),
{
    Score { num: 80, den: 100 }
}

/// A list of phrases as character vectors.
pub fn phrase_list(list: &Vec<&str>) -> (res: Vec<Vec<char>>)
    ensures
        views(res@) == Seq::new(list@.len(), |i: int| list@[i]@),
        forall|i: int| 0 <= i < res@.len() ==> (#[trigger] res@[i])@.len() <= max_chars(),
{
    let mut res: Vec<Vec<char>> = Vec::new();
    let mut i: usize = 0;
    while i < list.len()
        invariant
            i <= list@.len(),
            views(res@) == Seq::new(i as nat, |k: int| list@[k]@),
            forall|k: int| 0 <= k < res@.len() ==> (#[trigger] res@[k])@.len() <= max_chars(),
        decreases list@.len() - i,
    {
        let item: &str = list[i];
        let ghost before = views(res@);
        res.push(chars_of(item));
        assert(views(res@) =~= before.push(list@[i as int]@));
        assert(views(res@) =~= Seq::new((i + 1) as nat, |k: int| list@[k]@));
        i = i + 1;
    }
    res
}

// ---------------------------------------------------------------------------
// Whole-phrase answers.

/// Whether the trimmed, lower-cased `text` is close enough to one of `phrases`.
pub open spec fn whole_phrase_spec(text: Seq<char>, phrases: Seq<Seq<char>>, threshold: Score) -> bool {
    exists|i: int|
        0 <= i < phrases.len() && !(#[trigger] score_of(ratio_spec(lowercase(trim(text)), phrases[i]))).lt(threshold)
}

/// `match_whole_phrase` on phrases given as character vectors.
pub fn match_whole_phrase_chars(text: &Vec<char>, phrases: &Vec<Vec<char>>, threshold: Score) -> (res: bool)
    requires
        threshold.den > 0,
        forall|i: int| 0 <= i < phrases@.len() ==> (#[trigger] phrases@[i])@.len() <= max_chars(),
    ensures
        res == whole_phrase_spec(text@, views(phrases@), threshold),
{
    let t = to_lowercase(&trimmed(text));
    let mut i: usize = 0;
    while i < phrases.len()
        invariant
            i <= phrases@.len(),
            t@ == lowercase(trim(text@)),
            t@.len() <= max_chars(),
            threshold.den > 0,
            forall|k: int| 0 <= k < phrases@.len() ==> (#[trigger] phrases@[k])@.len() <= max_chars(),
            forall|k: int| 0 <= k < i ==> (#[trigger] score_of(ratio_spec(t@, views(phrases@)[k]))).lt(threshold),
        decreases phrases@.len() - i,
    {
        let r = ratio(&t, &phrases[i]);
        assert(r == score_of(ratio_spec(t@, views(phrases@)[i as int])));
        if !score_lt(r, threshold) {
            return true;
        }
        i = i + 1;
    }
    false
}

/// Whether the whole (trimmed, lower-cased) `text` is close enough to one of
/// `phrases`: its ratio to some phrase reaches `threshold`.
pub fn match_whole_phrase(text: &str, phrases: &Vec<&str>, threshold: Score) -> (res: bool)
    requires
        threshold.den > 0,
    ensures
        res == whole_phrase_spec(text@, Seq::new(phrases@.len(), |i: int| phrases@[i]@), threshold),
{
    let list = phrase_list(phrases);
    match_whole_phrase_chars(&chars_of(text), &list, threshold)
}

// ---------------------------------------------------------------------------
// Built-in commands.

/// The score of `phrase` for an already lower-cased `text`:
/// `0.7 * token_set_ratio + 0.3 * ratio`.
pub open spec fn phrase_score(text: Seq<char>, phrase: Seq<char>) -> Score {
    weighted_spec(tsr_spec(text, phrase), score_of(ratio_spec(text, phrase)))
}

/// The best of the first `n` phrases of `table` for `text`: the first phrase whose
/// score is greater than every score before it and than zero.
pub open spec fn best_upto(text: Seq<char>, table: Seq<(Command, Seq<char>)>, n: nat) -> Option<(Command, Score)>
    decreases n,
{
    if n == 0 {
        None
    } else {
        let prev = best_upto(text, table, (n - 1) as nat);
        let sc = phrase_score(text, table[n - 1].1);
        let cur = match prev {
            Some(b) => b.1,
            None => Score { num: 0, den: 1 },
        };
        if cur.lt(sc) {
            Some((table[n - 1].0, sc))
        } else {
            prev
        }
    }
}

/// The command that `text` calls, with its score: the best phrase of the table
/// for the lower-cased text, when its score reaches the threshold.
pub open spec fn find_command_spec(text: Seq<char>) -> Option<(Command, Score)> {
    let table = command_phrases_spec();
    match best_upto(lowercase(text), table, table.len()) {
        Some(b) => if b.1.lt(command_threshold()) { None } else { Some(b) },
        None => None,
    }
}

pub open spec fn best_command(best: Option<(Command, Score)>) -> Command {
    match best {
        Some(b) => b.0,
        None => Command::Stop,
    }
}

/// `best` is the first of the best-scoring phrases among the first `n`, when
/// some phrase scores above zero.
pub open spec fn is_best(text: Seq<char>, table: Seq<(Command, Seq<char>)>, n: int, best: Option<(Command, Score)>) -> bool {
    match best {
        None => forall|j: int| 0 <= j < n ==> (#[trigger] phrase_score(text, table[j].1)).num == 0,
        Some(b) => exists|i: int|
            0 <= i < n && table[i].0 == b.0 && #[trigger] phrase_score(text, table[i].1) == b.1 && b.1.num > 0
                && (forall|j: int| 0 <= j < n ==> !b.1.lt(#[trigger] phrase_score(text, table[j].1)))
                && (forall|j: int| 0 <= j < i ==> (#[trigger] phrase_score(text, table[j].1)).lt(b.1)),
    }
}

/// Finds the built-in command that `text` calls, with its score. The phrase it
/// picks scores best of all the table, comes first among equal scores, and
/// reaches the threshold; when there is none, every phrase scores below it.
pub fn find_command(text: &str) -> (res: Option<(Command, Score)>)
    ensures
        res == find_command_spec(text@),
        ({
            let t = lowercase(text@);
            let table = command_phrases_spec();
            match res {
                Some((c, s)) => !s.lt(command_threshold()) && exists|i: int|
                    0 <= i < table.len() && table[i].0 == c && #[trigger] phrase_score(t, table[i].1) == s
                        && (forall|j: int| 0 <= j < table.len() ==> !s.lt(#[trigger] phrase_score(t, table[j].1)))
                        && (forall|j: int| 0 <= j < i ==> (#[trigger] phrase_score(t, table[j].1)).lt(s)),
                None => forall|j: int| 0 <= j < table.len() ==> (#[trigger] phrase_score(t, table[j].1)).lt(command_threshold()),
            }
        }),
{
    let t = to_lowercase(&chars_of(text));
    let table = command_phrases();
    let ghost spec_table = command_phrases_spec();
    let mut best: Option<(Command, Score)> = None;
    let mut i: usize = 0;
    while i < table.len()
        invariant
            i <= table@.len(),
            table_views(table@) == spec_table,
            spec_table == command_phrases_spec(),
            forall|k: int| 0 <= k < table@.len() ==> (#[trigger] table@[k]).1@.len() <= max_chars(),
            t@ == lowercase(text@),
            t@.len() <= max_chars(),
            best == best_upto(t@, spec_table, i as nat),
            best matches Some(b) ==> b.1.den > 0,
            forall|k: int| 0 <= k < i ==> (#[trigger] phrase_score(t@, spec_table[k].1)).den > 0,
            is_best(t@, spec_table, i as int, best),
        decreases table@.len() - i,
    {
        let phrase = &table[i].1;
        assert(spec_table[i as int] == (table@[i as int].0, phrase@));
        let tsr = token_set_ratio_chars(&t, phrase);
        let r = ratio(&t, phrase);
        let sc = weighted(tsr, r);
        assert(sc == phrase_score(t@, phrase@));
        let cur = match best {
            Some(b) => b.1,
            None => Score { num: 0, den: 1 },
        };
        let ghost old_best = best;
        let ghost n = i as int;
        if score_lt(cur, sc) {
            best = Some((table[i].0, sc));
            proof {
                assert forall|j: int| 0 <= j < n + 1 implies !sc.lt(#[trigger] phrase_score(t@, spec_table[j].1))
                    && (j < n ==> phrase_score(t@, spec_table[j].1).lt(sc)) by {
                    if j < n {
                        let pj = phrase_score(t@, spec_table[j].1);
                        match old_best {
                            Some(b) => {
                                assert(!b.1.lt(pj));
                                lemma_le_lt(pj, b.1, sc);
                            },
                            None => {
                                assert(pj.num == 0);
                                lemma_le_lt(pj, Score { num: 0, den: 1 }, sc);
                            },
                        }
                    }
                }
                assert(cur.num * sc.den >= 0) by (nonlinear_arith)
                    requires cur.num >= 0, sc.den >= 0;
                assert(sc.num * cur.den > 0);
                assert(sc.num > 0) by (nonlinear_arith)
                    requires sc.num * cur.den > 0, sc.num >= 0, cur.den >= 0;
                assert(spec_table[n].0 == table@[n].0);
                assert(phrase_score(t@, spec_table[n].1) == sc);
                assert(is_best(t@, spec_table, n + 1, best)) by {
                    assert(0 <= n < n + 1 && spec_table[n].0 == best_command(best) && phrase_score(t@, spec_table[n].1) == sc);
                }
            }
        } else {
            proof {
                match old_best {
                    Some(b) => {
                        let i0 = choose|i0: int| 0 <= i0 < n && spec_table[i0].0 == b.0
                            && #[trigger] phrase_score(t@, spec_table[i0].1) == b.1 && b.1.num > 0
                            && (forall|j: int| 0 <= j < n ==> !b.1.lt(#[trigger] phrase_score(t@, spec_table[j].1)))
                            && (forall|j: int| 0 <= j < i0 ==> (#[trigger] phrase_score(t@, spec_table[j].1)).lt(b.1));
                        assert(phrase_score(t@, spec_table[n].1) == sc);
                        assert(is_best(t@, spec_table, n + 1, best)) by {
                            assert(0 <= i0 < n + 1 && spec_table[i0].0 == b.0 && phrase_score(t@, spec_table[i0].1) == b.1);
                        }
                    },
                    None => {
                        assert(phrase_score(t@, spec_table[n].1) == sc);
                        assert(cur == Score { num: 0, den: 1 });
                        assert(!cur.lt(sc));
                        assert(sc.num * 1 <= 0 * sc.den);
                        assert(sc.num == 0);
                    },
                }
            }
        }
        assert(phrase_score(t@, spec_table[n].1).den > 0);
        i = i + 1;
    }
    let ghost tv = command_phrases_spec();
    match best {
        Some(b) => {
            if score_lt(b.1, cmd_threshold()) {
                proof {
                    assert forall|j: int| 0 <= j < tv.len() implies (#[trigger] phrase_score(t@, tv[j].1)).lt(command_threshold()) by {
                        lemma_le_lt(phrase_score(t@, tv[j].1), b.1, command_threshold());
                    }
                }
                None
            } else {
                Some(b)
            }
        },
        None => {
            proof {
                assert forall|j: int| 0 <= j < tv.len() implies (#[trigger] phrase_score(t@, tv[j].1)).lt(command_threshold()) by {
                    assert(phrase_score(t@, tv[j].1).num == 0);
                }
            }
            None
        },
    }
}

// ---------------------------------------------------------------------------
// Custom commands.

/// Whether one of the triggers of `entry` is close enough to `text`.
pub open spec fn custom_matches(text: Seq<char>, entry: CommandEntry) -> bool {
    exists|j: int|
        0 <= j < entry.triggers@.len() && !(#[trigger] tsr_spec(text, entry.triggers@[j]@)).lt(command_threshold())
}

/// Finds the first custom command with a trigger close enough to `text`, and
/// gives its name and command line.
pub fn find_custom(text: &str, commands: &Vec<CommandEntry>) -> (res: Option<(String, String)>)
    ensures
        match res {
            Some((name, path)) => exists|i: int|
                0 <= i < commands@.len() && custom_matches(text@, #[trigger] commands@[i])
                    && (forall|k: int| 0 <= k < i ==> !custom_matches(text@, #[trigger] commands@[k]))
                    && name@ == commands@[i].name@ && path@ == commands@[i].path@,
            None => forall|i: int| 0 <= i < commands@.len() ==> !custom_matches(text@, #[trigger] commands@[i]),
        },
{
    let t = chars_of(text);
    let threshold = cmd_threshold();
    let mut i: usize = 0;
    while i < commands.len()
        invariant
            i <= commands@.len(),
            t@ == text@,
            threshold == command_threshold(),
            forall|k: int| 0 <= k < i ==> !custom_matches(text@, #[trigger] commands@[k]),
        decreases commands@.len() - i,
    {
        let entry = &commands[i];
        let mut j: usize = 0;
        while j < entry.triggers.len()
            invariant
                i < commands@.len(),
                *entry == commands@[i as int],
                j <= entry.triggers@.len(),
                t@ == text@,
                threshold == command_threshold(),
                forall|k: int| 0 <= k < i ==> !custom_matches(text@, #[trigger] commands@[k]),
                forall|m: int| 0 <= m < j ==> (#[trigger] tsr_spec(text@, entry.triggers@[m]@)).lt(command_threshold()),
            decreases entry.triggers@.len() - j,
        {
            let trig = chars_of(entry.triggers[j].as_str());
            let sc = token_set_ratio_chars(&t, &trig);
            if !score_lt(sc, threshold) {
                assert(custom_matches(text@, commands@[i as int]));
                return Some((entry.name.clone(), entry.path.clone()));
            }
            j = j + 1;
        }
        i = i + 1;
    }
    None
}


// ---------------------------------------------------------------------------
// Text helpers.

/// `a` followed by `b`.
pub fn concat_chars(a: &Vec<char>, b: &Vec<char>) -> (res: Vec<char>)
    ensures
        res@ == a@ + b@,
{
    let mut res = copy_chars(a);
    let mut i: usize = 0;
    while i < b.len()
        invariant
            i <= b@.len(),
            res@ == a@ + b@.take(i as int),
        decreases b@.len() - i,
    {
        res.push(b[i]);
        assert(b@.take(i + 1) =~= b@.take(i as int).push(b@[i as int]));
        i = i + 1;
    }
    assert(b@.take(b@.len() as int) =~= b@);
    res
}

/// The characters of `s` from position `k` on.
pub fn chars_from(s: &Vec<char>, k: usize) -> (res: Vec<char>)
    requires
        k <= s@.len(),
    ensures
        res@ == s@.skip(k as int),
{
    let mut res: Vec<char> = Vec::new();
    let mut j: usize = k;
    while j < s.len()
        invariant
            k <= j <= s@.len(),
            res@ == s@.subrange(k as int, j as int),
        decreases s@.len() - j,
    {
        res.push(s[j]);
        assert(s@.subrange(k as int, j + 1) =~= s@.subrange(k as int, j as int).push(s@[j as int]));
        j = j + 1;
    }
    assert(res@ =~= s@.skip(k as int));
    res
}

/// What follows the first of `triggers` that the lower-cased text begins with,
/// measured in characters of `text`, without leading whitespace; empty when no
/// trigger matches.
pub open spec fn strip_prefix_spec(text: Seq<char>, lower: Seq<char>, triggers: Seq<Seq<char>>) -> Seq<char>
    decreases triggers.len(),
{
    if triggers.len() == 0 {
        Seq::empty()
    } else if starts_with(lower, triggers[0]) {
        if triggers[0].len() <= text.len() {
            trim_start(text.skip(triggers[0].len() as int))
        } else {
            Seq::empty()
        }
    } else {
        strip_prefix_spec(text, lower, triggers.skip(1))
    }
}

pub fn strip_leading_trigger(text: &Vec<char>, triggers: &Vec<Vec<char>>) -> (res: Vec<char>)
    ensures
        res@ == strip_prefix_spec(text@, lowercase(text@), views(triggers@)),
{
    let lower = to_lowercase(text);
    let ghost tv = views(triggers@);
    let mut i: usize = 0;
    assert(tv.skip(0) =~= tv);
    while i < triggers.len()
        invariant
            i <= triggers@.len(),
            tv == views(triggers@),
            lower@ == lowercase(text@),
            strip_prefix_spec(text@, lower@, tv.skip(i as int)) == strip_prefix_spec(text@, lower@, tv),
        decreases triggers@.len() - i,
    {
        assert(tv.skip(i as int)[0] == tv[i as int]);
        assert(tv.skip(i as int).skip(1) =~= tv.skip(i + 1));
        let trig = &triggers[i];
        if has_prefix(&lower, trig) {
            if trig.len() <= text.len() {
                return trimmed_start(&chars_from(text, trig.len()));
            } else {
                return Vec::new();
            }
        }
        i = i + 1;
    }
    assert(tv.skip(i as int).len() == 0);
    Vec::new()
}

// ---------------------------------------------------------------------------
// Dictation.

pub open spec fn cancel_phrases() -> Seq<Seq<char>> {
    seq!["ні"@, "no"@, "скасуй"@, "відміни"@, "не треба"@, "cancel"@]
}

pub open spec fn confirm_phrases() -> Seq<Seq<char>> {
    seq!["так"@, "yes"@, "підтверджую"@, "підтверди"@, "ок"@, "ok"@, "добре"@, "гаразд"@]
}

pub fn cancel_list() -> (res: Vec<&'static str>)
    ensures
        Seq::new(res@.len(), |i: int| res@[i]@) == cancel_phrases(),
{
    let res = vec!["ні", "no", "скасуй", "відміни", "не треба", "cancel"];
    assert(Seq::new(res@.len(), |i: int| res@[i]@) =~= cancel_phrases());
    res
}

pub fn confirm_list() -> (res: Vec<&'static str>)
    ensures
        Seq::new(res@.len(), |i: int| res@[i]@) == confirm_phrases(),
{
    let res = vec!["так", "yes", "підтверджую", "підтверди", "ок", "ok", "добре", "гаразд"];
    assert(Seq::new(res@.len(), |i: int| res@[i]@) =~= confirm_phrases());
    res
}

pub open spec fn dictation_triggers() -> Seq<Seq<char>> {
    seq!["напиши"@, "надрукуй"@, "введи текст"@, "type this"@, "print this"@, "type"@]
}

/// The text that follows a dictation trigger at the start of `text`.
pub open spec fn strip_dictation_spec(text: Seq<char>) -> Seq<char> {
    strip_prefix_spec(text, lowercase(text), dictation_triggers())
}

/// The text after a dictation trigger ("type", "напиши", ...) at the start of
/// `text`, ignoring case, without leading whitespace; empty when there is none.
pub fn strip_dictation_trigger(text: &str) -> (res: String)
    ensures
        res@ == strip_dictation_spec(text@),
{
    let list = vec!["напиши", "надрукуй", "введи текст", "type this", "print this", "type"];
    let triggers = phrase_list(&list);
    assert(views(triggers@) =~= dictation_triggers());
    string_of(&strip_leading_trigger(&chars_of(text), &triggers))
}

/// The answer to a dictated text: a refusal cancels, anything else is typed.
pub open spec fn continue_dictation_spec(text: Seq<char>) -> Seq<char> {
    if whole_phrase_spec(text, cancel_phrases(), answer_threshold()) {
        "Скасовано."@
    } else {
        "Надруковано: "@ + text
    }
}

pub fn continue_dictation(text: &str) -> (res: String)
    ensures
        res@ == continue_dictation_spec(text@),
{
    if match_whole_phrase(text, &cancel_list(), cancel_threshold()) {
        return String::from_str("Скасовано.");
    }
    string_of(&concat_chars(&chars_of("Надруковано: "), &chars_of(text)))
}

/// What to do with a dictated text: a refusal cancels; anything else is typed
/// into the focused window, and the answer says so.
pub open spec fn dictation_spec(text: Seq<char>, res: Action) -> bool {
    if whole_phrase_spec(text, cancel_phrases(), answer_threshold()) {
        res matches Action::Reply(r) && r@ == continue_dictation_spec(text)
    } else {
        res matches Action::Type { text: t, reply } && t@ == text && reply@ == continue_dictation_spec(text)
    }
}

/// The action for a dictated text.
pub fn dictate(text: &str) -> (res: Action)
    ensures
        dictation_spec(text@, res),
{
    if match_whole_phrase(text, &cancel_list(), cancel_threshold()) {
        return Action::Reply(continue_dictation(text));
    }
    Action::Type { text: String::from_str(text), reply: continue_dictation(text) }
}

// ---------------------------------------------------------------------------
// Reminders.

pub open spec fn reminder_skip_words() -> Seq<Seq<char>> {
    seq![
        "нагади"@, "нагадай"@, "нагадування"@, "remind"@, "me"@, "reminder"@, "встанови"@,
        "нагадування"@, "через"@, "in"@, "after"@, "хв"@, "хвилин"@, "min"@, "mins"@,
        "minutes"@, "хвилину"@, "хвилини"@,
    ]
}

/// Reads the words from the left: the first word that is a number gives the
/// minutes; the other words, but for the filler words, make the label.
pub open spec fn reminder_scan(ws: Seq<Seq<char>>) -> (Option<u64>, Seq<Seq<char>>)
    decreases ws.len(),
{
    if ws.len() == 0 {
        (None, Seq::empty())
    } else {
        let (m, labels) = reminder_scan(ws.drop_last());
        let w = ws.last();
        if m is None && parse_u64(w) is Some {
            (parse_u64(w), labels)
        } else if reminder_skip_words().contains(lowercase(w)) {
            (m, labels)
        } else {
            (m, labels.push(w))
        }
    }
}

/// The minutes (five when none is given) and the label of a reminder request.
pub open spec fn reminder_spec(text: Seq<char>) -> (u64, Seq<char>) {
    let (m, labels) = reminder_scan(words(text));
    (
        match m {
            Some(n) => n,
            None => 5,
        },
        if labels.len() == 0 { "Час минув!"@ } else { join(labels) },
    )
}

/// Reads the minutes and the label of a reminder request.
pub fn parse_reminder(text: &str) -> (res: (u64, String))
    ensures
        res.0 == reminder_spec(text@).0,
        res.1@ == reminder_spec(text@).1,
{
    let t = chars_of(text);
    let ws = split_words(&t);
    let list = vec![
        "нагади", "нагадай", "нагадування", "remind", "me", "reminder", "встанови",
        "нагадування", "через", "in", "after", "хв", "хвилин", "min", "mins",
        "minutes", "хвилину", "хвилини",
    ];
    let skip = phrase_list(&list);
    assert(views(skip@) =~= reminder_skip_words());
    let ghost wv = views(ws@);
    let mut minutes: Option<u64> = None;
    let mut labels: Vec<Vec<char>> = Vec::new();
    let mut i: usize = 0;
    while i < ws.len()
        invariant
            i <= ws@.len(),
            wv == views(ws@),
            views(skip@) == reminder_skip_words(),
            (minutes, views(labels@)) == reminder_scan(wv.take(i as int)),
        decreases ws@.len() - i,
    {
        let w = &ws[i];
        assert(wv.take(i + 1).drop_last() =~= wv.take(i as int));
        assert(wv.take(i + 1).last() == w@);
        let mut taken = false;
        if minutes.is_none() {
            match parse_decimal(w) {
                Some(n) => {
                    minutes = Some(n);
                    taken = true;
                },
                None => {},
            }
        }
        if !taken {
            let lw = to_lowercase(w);
            if !has_word(&skip, &lw) {
                let ghost before = views(labels@);
                labels.push(copy_chars(w));
                assert(views(labels@) =~= before.push(w@));
            }
        }
        i = i + 1;
    }
    assert(wv.take(ws@.len() as int) =~= wv);
    let m = match minutes {
        Some(n) => n,
        None => 5,
    };
    let label = if labels.len() == 0 {
        chars_of("Час минув!")
    } else {
        join_words(&labels)
    };
    (m, string_of(&label))
}

/// The answer to a reminder request.
pub open spec fn remind_reply_spec(minutes: u64) -> Seq<char> {
    "Нагадаю через "@ + decimal(minutes as nat) + " хв."@
}

pub fn remind_reply(minutes: u64) -> (res: String)
    ensures
        res@ == remind_reply_spec(minutes),
{
    let a = concat_chars(&chars_of("Нагадаю через "), &decimal_chars(minutes));
    string_of(&concat_chars(&a, &chars_of(" хв.")))
}


// ---------------------------------------------------------------------------
// The dispatcher: what to do with a line of text.

#[verifier::external_type_specification]
#[verifier::external_body]
#[verifier::reject_recursive_types(T)]
pub struct ExUnboundedSender<T>(tokio::sync::mpsc::UnboundedSender<T>);

/// A question the dispatcher has asked and waits to have answered.
#[derive(Debug, Clone, Copy, PartialEq, Eq, Structural)]
pub enum PendingDialog {
    Idle,
    Dictation,
}

/// What the caller must do with a line of text. `Reply` is the whole answer;
/// every other action needs the outside world first.
#[derive(Debug)]
pub enum Action {
    /// Answer with this text (an empty text means: say nothing).
    Reply(String),
    /// Tell the time.
    CurrentTime,
    /// Describe the screen.
    Screen,
    /// Start a timer of `minutes` minutes that sends `label`, and answer `reply`.
    Remind { minutes: u64, label: String, reply: String },
    /// Open `url` in the web browser, and answer `reply`.
    OpenBrowser { url: String, reply: String },
    /// Type `text` into the focused window, and answer `reply`.
    Type { text: String, reply: String },
    /// Report system statistics.
    Stats,
    /// Show, hide or close a window (the command says which).
    Window(Command),
    MusicToggle,
    MusicNext,
    MusicPrev,
    MusicInfo,
    ToggleSound,
    /// Run the custom command `name`, whose command line is `path`.
    Custom { name: String, path: String },
    /// Ask the language model.
    AskAi,
}

pub struct Dispatcher {
    pending: PendingDialog,
    events: tokio::sync::mpsc::UnboundedSender<String>,
}

/// What a built-in command (other than `Screen`) makes of `text`, and whether
/// dictation is pending afterwards.
pub open spec fn builtin_spec(cmd: Command, text: Seq<char>, res: Action, dictating: bool) -> bool {
    match cmd {
        Command::Stop => res matches Action::Reply(r) && r@.len() == 0 && !dictating,
        Command::Ctime => res is CurrentTime && !dictating,
        Command::Remind => res matches Action::Remind { minutes, label, reply }
            && minutes == reminder_spec(text).0 && label@ == reminder_spec(text).1
            && reply@ == remind_reply_spec(minutes) && !dictating,
        Command::OpenBrowser => res matches Action::OpenBrowser { url, reply } && url@ == "https://google.com"@
            && reply@ == "Браузер відкрито!"@ && !dictating,
        Command::Stats => res is Stats && !dictating,
        Command::Dictation => {
            let inline = strip_dictation_spec(text);
            if inline.len() > 0 {
                dictation_spec(inline, res) && !dictating
            } else {
                res matches Action::Reply(r) && r@ == "Що надрукувати?"@ && dictating
            }
        },
        Command::WindowOpen | Command::WindowHide | Command::WindowClose => res == Action::Window(cmd)
            && !dictating,
        Command::Screen => res matches Action::Reply(r) && r@.len() == 0 && !dictating,
        Command::MusicToggle => res is MusicToggle && !dictating,
        Command::MusicNext => res is MusicNext && !dictating,
        Command::MusicPrev => res is MusicPrev && !dictating,
        Command::MusicInfo => res is MusicInfo && !dictating,
        Command::ToggleSound => res is ToggleSound && !dictating,
    }
}

/// What a line of text asks for, when no question is pending.
pub open spec fn dispatch_spec(text: Seq<char>, commands: Seq<CommandEntry>, res: Action, dictating: bool) -> bool {
    if whole_phrase_spec(text, confirm_phrases(), answer_threshold()) {
        res matches Action::Reply(r) && r@ == "Підтверджено."@ && !dictating
    } else if whole_phrase_spec(text, cancel_phrases(), answer_threshold()) {
        res matches Action::Reply(r) && r@ == "Скасовано."@ && !dictating
    } else if find_command_spec(text) is Some {
        let cmd = (find_command_spec(text)->0).0;
        if cmd == Command::Screen {
            res is Screen && !dictating
        } else {
            builtin_spec(cmd, text, res, dictating)
        }
    } else if exists|i: int| 0 <= i < commands.len() && custom_matches(text, #[trigger] commands[i]) {
        &&& !dictating
        &&& res matches Action::Custom { name, path } && exists|i: int|
            0 <= i < commands.len() && custom_matches(text, #[trigger] commands[i])
                && (forall|k: int| 0 <= k < i ==> !custom_matches(text, #[trigger] commands[k]))
                && name@ == commands[i].name@ && path@ == commands[i].path@
    } else {
        res is AskAi && !dictating
    }
}

impl Dispatcher {
    /// The question that waits for an answer.
    pub closed spec fn dialog(&self) -> PendingDialog {
        self.pending
    }

    /// The channel on which reminders are delivered.
    pub closed spec fn channel(&self) -> tokio::sync::mpsc::UnboundedSender<String> {
        self.events
    }

    pub fn new(tx: tokio::sync::mpsc::UnboundedSender<String>) -> (res: Self)
        ensures
            res.dialog() == PendingDialog::Idle,
            res.channel() == tx,
    {
        Dispatcher { pending: PendingDialog::Idle, events: tx }
    }

    /// The channel on which reminders are delivered.
    pub fn events(&self) -> (res: &tokio::sync::mpsc::UnboundedSender<String>)
        ensures
            *res == self.channel(),
    {
        &self.events
    }

    /// Decides what to do with `text`. A pending dictation takes the text as what
    /// to type; otherwise confirmations and refusals come first, then the
    /// built-in commands, then the custom ones, and the language model last.
    pub fn plan(&mut self, text: &str, commands: &Vec<CommandEntry>) -> (res: Action)
        ensures
            final(self).channel() == old(self).channel(),
            old(self).dialog() == PendingDialog::Dictation ==> final(self).dialog() == PendingDialog::Idle,
            old(self).dialog() == PendingDialog::Dictation ==> dictation_spec(text@, res),
            old(self).dialog() == PendingDialog::Idle ==> dispatch_spec(
                text@,
                commands@,
                res,
                final(self).dialog() == PendingDialog::Dictation,
            ),
    {
        let pending = self.pending;
        self.pending = PendingDialog::Idle;
        match pending {
            PendingDialog::Dictation => dictate(text),
            PendingDialog::Idle => self.dispatch(text, commands),
        }
    }

    fn dispatch(&mut self, text: &str, commands: &Vec<CommandEntry>) -> (res: Action)
        requires
            old(self).dialog() == PendingDialog::Idle,
        ensures
            final(self).channel() == old(self).channel(),
            dispatch_spec(text@, commands@, res, final(self).dialog() == PendingDialog::Dictation),
    {
        if match_whole_phrase(text, &confirm_list(), confirm_threshold()) {
            return Action::Reply(String::from_str("Підтверджено."));
        }
        if match_whole_phrase(text, &cancel_list(), cancel_threshold()) {
            return Action::Reply(String::from_str("Скасовано."));
        }
        match find_command(text) {
            Some((cmd, _)) => {
                if cmd == Command::Screen {
                    return Action::Screen;
                }
                return self.run_builtin(cmd, text);
            },
            None => {},
        }
        match find_custom(text, commands) {
            Some((name, path)) => Action::Custom { name, path },
            None => Action::AskAi,
        }
    }

    fn run_builtin(&mut self, cmd: Command, text: &str) -> (res: Action)
        requires
            old(self).dialog() == PendingDialog::Idle,
        ensures
            final(self).channel() == old(self).channel(),
            builtin_spec(cmd, text@, res, final(self).dialog() == PendingDialog::Dictation),
    {
        match cmd {
            Command::Stop => Action::Reply(String::new()),
            Command::Ctime => Action::CurrentTime,
            Command::Remind => {
                let (minutes, label) = parse_reminder(text);
                Action::Remind { minutes, label, reply: remind_reply(minutes) }
            },
            Command::OpenBrowser => Action::OpenBrowser {
                url: String::from_str("https://google.com"),
                reply: String::from_str("Браузер відкрито!"),
            },
            Command::Stats => Action::Stats,
            Command::Dictation => {
                let inline = strip_dictation_trigger(text);
                if !inline.as_str().is_empty() {
                    dictate(inline.as_str())
                } else {
                    self.pending = PendingDialog::Dictation;
                    Action::Reply(String::from_str("Що надрукувати?"))
                }
            },
            Command::WindowOpen | Command::WindowHide | Command::WindowClose => Action::Window(cmd),
            Command::Screen => Action::Reply(String::new()),
            Command::MusicToggle => Action::MusicToggle,
            Command::MusicNext => Action::MusicNext,
            Command::MusicPrev => Action::MusicPrev,
            Command::MusicInfo => Action::MusicInfo,
            Command::ToggleSound => Action::ToggleSound,
        }
    }
}


/// The answer once a custom command was started, or failed to start.
pub fn custom_reply(name: &str, started: bool) -> (res: String)
    ensures
        res@ == (if started { "Виконую '"@ + name@ + "'."@ } else { "Не вдалось виконати '"@ + name@ + "'."@ }),
{
    let head = if started { chars_of("Виконую '") } else { chars_of("Не вдалось виконати '") };
    let a = concat_chars(&head, &chars_of(name));
    string_of(&concat_chars(&a, &chars_of("'.")))
}

} // verus!
