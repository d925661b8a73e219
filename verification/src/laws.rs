use vstd::prelude::*;
use crate::fuzzy::{
    lemma_join_words_of, lemma_lex_total,
    lemma_lex_transitive, lemma_sorted_no_dups, lemma_sorted_of, lex_lt, sorted_of,
    strictly_sorted, tsr_spec, tsr_texts, word_set,
};
use crate::ai::{gemini_contents_spec, ollama_messages_spec};
use crate::commands::{command_phrases_spec, Command};
use crate::dispatcher::{best_upto, command_threshold, custom_matches, find_command_spec, phrase_score, reminder_scan, reminder_skip_words, reminder_spec};
use crate::memory::{next_ai_mode_spec, CommandEntry, HistoryEntry, Roles};
use crate::score::{lemma_lcs_bounds, lemma_lcs_self, lemma_lcs_symmetric, max_spec, ratio_spec, score_of, Score};
use crate::text::{
    decimal, digit_char, digits_value, is_digit, join, lowercase, max_chars, parse_digits, parse_u64,
    split_state, trim, white_space, words,
};
use crate::voice::{
    filler_words, is_stop_spec, is_wake_spec, not_filler, process_spec, strip_fillers_spec, wake_threshold,
    wake_words, VoiceAction, VoiceState,
};

verus! {

// ---------------------------------------------------------------------------
// Similarity scores.

/// The ratio of two texts does not depend on their order, lies between 0 and 1,
/// and is 1 for a text and itself.
pub proof fn law_ratio(a: Seq<char>, b: Seq<char>)
    ensures
        ratio_spec(a, b) == ratio_spec(b, a),
        0 <= ratio_spec(a, b).0 <= ratio_spec(a, b).1,
        0 < ratio_spec(a, b).1,
        ratio_spec(a, a).0 == ratio_spec(a, a).1,
{
    lemma_lcs_symmetric(a, b);
    lemma_lcs_bounds(a, b);
    lemma_lcs_self(a);
}

/// Inserting a word that is missing from a strictly sorted list keeps some
/// strictly sorted listing of the larger set.
proof fn lemma_insert_sorted(q: Seq<Seq<char>>, x: Seq<char>)
    requires
        strictly_sorted(q),
        !q.contains(x),
    ensures
        exists|r: Seq<Seq<char>>| strictly_sorted(r) && r.to_set() == q.to_set().insert(x),
    decreases q.len(),
{
    if q.len() == 0 {
        let r = seq![x];
        assert(r.to_set() =~= q.to_set().insert(x)) by {
            assert forall|y: Seq<char>| r.contains(y) <==> q.to_set().insert(x).contains(y) by {
                if r.contains(y) {
                    let k = choose|k: int| 0 <= k < r.len() && r[k] == y;
                }
                if y == x {
                    assert(r[0] == y);
                }
            }
        }
        assert(strictly_sorted(r));
        return;
    }
    lemma_lex_total(x, q[0]);
    if lex_lt(x, q[0]) {
        let r = seq![x] + q;
        assert forall|i: int, j: int| 0 <= i < j < r.len() implies lex_lt(#[trigger] r[i], #[trigger] r[j]) by {
            if i == 0 {
                if j > 1 {
                    lemma_lex_transitive(x, q[0], q[j - 1]);
                }
            } else {
                assert(r[i] == q[i - 1] && r[j] == q[j - 1]);
            }
        }
        assert(r.to_set() =~= q.to_set().insert(x)) by {
            assert forall|y: Seq<char>| r.contains(y) <==> q.to_set().insert(x).contains(y) by {
                if r.contains(y) {
                    let k = choose|k: int| 0 <= k < r.len() && r[k] == y;
                    if k > 0 {
                        assert(q[k - 1] == y);
                    }
                }
                if q.contains(y) {
                    let k = choose|k: int| 0 <= k < q.len() && q[k] == y;
                    assert(r[k + 1] == y);
                }
                if y == x {
                    assert(r[0] == y);
                }
            }
        }
    } else {
        assert(q[0] != x) by {
            assert(q.contains(q[0]));
        }
        let head = q[0];
        let tail = q.skip(1);
        assert(strictly_sorted(tail)) by {
            assert forall|i: int, j: int| 0 <= i < j < tail.len() implies lex_lt(#[trigger] tail[i], #[trigger] tail[j]) by {
                assert(tail[i] == q[i + 1] && tail[j] == q[j + 1]);
            }
        }
        assert(!tail.contains(x)) by {
            if tail.contains(x) {
                let k = choose|k: int| 0 <= k < tail.len() && tail[k] == x;
                assert(q[k + 1] == x);
            }
        }
        lemma_insert_sorted(tail, x);
        let r2 = choose|r: Seq<Seq<char>>| strictly_sorted(r) && r.to_set() == tail.to_set().insert(x);
        let r = seq![head] + r2;
        assert forall|i: int, j: int| 0 <= i < j < r.len() implies lex_lt(#[trigger] r[i], #[trigger] r[j]) by {
            if i == 0 {
                let y = r2[j - 1];
                assert(r2.to_set().contains(y));
                if y == x {
                } else {
                    let k = choose|k: int| 0 <= k < tail.len() && tail[k] == y;
                    assert(q[k + 1] == y);
                }
            } else {
                assert(r[i] == r2[i - 1] && r[j] == r2[j - 1]);
            }
        }
        assert(r.to_set() =~= q.to_set().insert(x)) by {
            assert forall|y: Seq<char>| r.contains(y) <==> q.to_set().insert(x).contains(y) by {
                if r.contains(y) {
                    let k = choose|k: int| 0 <= k < r.len() && r[k] == y;
                    if k > 0 {
                        assert(r2[k - 1] == y);
                        assert(r2.to_set().contains(y));
                        if y != x {
                            let m = choose|m: int| 0 <= m < tail.len() && tail[m] == y;
                            assert(q[m + 1] == y);
                        }
                    }
                }
                if q.contains(y) {
                    let k = choose|k: int| 0 <= k < q.len() && q[k] == y;
                    if k == 0 {
                        assert(r[0] == y);
                    } else {
                        assert(tail[k - 1] == y);
                        assert(tail.to_set().insert(x).contains(y));
                        assert(r2.to_set().contains(y));
                        let m = choose|m: int| 0 <= m < r2.len() && r2[m] == y;
                        assert(r[m + 1] == y);
                    }
                }
                if y == x {
                    assert(r2.to_set().contains(x));
                    let m = choose|m: int| 0 <= m < r2.len() && r2[m] == x;
                    assert(r[m + 1] == y);
                }
            }
        }
    }
}

/// Every finite list of words has a strictly sorted listing of its set.
proof fn lemma_sorted_listing(ws: Seq<Seq<char>>)
    ensures
        strictly_sorted(sorted_of(ws.to_set())),
        sorted_of(ws.to_set()).to_set() == ws.to_set(),
    decreases ws.len(),
{
    if ws.len() == 0 {
        let e: Seq<Seq<char>> = seq![];
        assert(e.to_set() =~= ws.to_set());
        lemma_sorted_of(e);
        return;
    }
    let w2 = ws.drop_last();
    let x = ws.last();
    lemma_sorted_listing(w2);
    let q = sorted_of(w2.to_set());
    assert(ws =~= w2.push(x));
    w2.lemma_push_to_set_commute(x);
    if q.contains(x) {
        assert(q.to_set().contains(x));
        assert(ws.to_set() =~= w2.to_set());
    } else {
        lemma_insert_sorted(q, x);
        let r = choose|r: Seq<Seq<char>>| strictly_sorted(r) && r.to_set() == q.to_set().insert(x);
        lemma_sorted_of(r);
    }
}

/// The sorted listing of a subset of the words of `s`, joined, is no longer than `s`.
proof fn lemma_listing_len(set: Set<Seq<char>>, s: Seq<char>)
    requires
        set.subset_of(words(s).to_set()),
        strictly_sorted(sorted_of(set)),
        sorted_of(set).to_set() == set,
    ensures
        join(sorted_of(set)).len() <= s.len(),
{
    let q = sorted_of(set);
    lemma_sorted_no_dups(q);
    assert forall|k: int| 0 <= k < q.len() implies words(s).contains(#[trigger] q[k]) by {
        assert(q.to_set().contains(q[k]));
        assert(words(s).to_set().contains(q[k]));
    }
    lemma_join_words_of(q, s);
}

/// A sorted listing of a subset of a set of words exists.
proof fn lemma_subset_listing(set: Set<Seq<char>>, ws: Seq<Seq<char>>)
    requires
        set.subset_of(ws.to_set()),
    ensures
        strictly_sorted(sorted_of(set)),
        sorted_of(set).to_set() == set,
{
    let kept = ws.filter(|w: Seq<char>| set.contains(w));
    assert(kept.to_set() =~= set) by {
        assert forall|y: Seq<char>| kept.contains(y) <==> set.contains(y) by {
            if set.contains(y) {
                assert(ws.to_set().contains(y));
                let k = choose|k: int| 0 <= k < ws.len() && ws[k] == y;
                ws.filter_lemma(|w: Seq<char>| set.contains(w));
                ws.lemma_filter_contains_rev(|w: Seq<char>| set.contains(w), y);
            }
            if kept.contains(y) {
                ws.filter_lemma(|w: Seq<char>| set.contains(w));
            }
        }
    }
    lemma_sorted_listing(kept);
}

/// The token set ratio ignores the order of the words and repeated words: two
/// texts with the same set of (lower-cased) words score exactly 1.
pub proof fn law_token_set_ratio_same_words(a: Seq<char>, b: Seq<char>)
    requires
        lowercase(a).len() <= max_chars(),
        word_set(a) == word_set(b),
    ensures
        tsr_spec(a, b).num == tsr_spec(a, b).den,
        tsr_spec(a, b).den > 0,
{
    let s1 = word_set(a);
    let s2 = word_set(b);
    assert(s1.intersect(s2) =~= s1);
    assert(s1.difference(s2) =~= Set::empty());
    assert(s2.difference(s1) =~= Set::empty());
    let e: Seq<Seq<char>> = seq![];
    assert(e.to_set() =~= Set::<Seq<char>>::empty());
    lemma_sorted_of(e);
    let c = sorted_of(s1);
    assert(c + e =~= c);
    let (t0, t1, t2) = tsr_texts(a, b);
    assert(t0 == t1 && t1 == t2);
    lemma_subset_listing(s1, words(lowercase(a)));
    lemma_listing_len(s1, lowercase(a));
    lemma_lcs_self(t0);
    assert(isize::MAX <= 0x7fff_ffff_ffff_ffff);
    let r = score_of(ratio_spec(t0, t0));
    assert(!r.lt(r));
}

/// Transitivity of the order of scores.
proof fn lemma_trans(a: Score, b: Score, c: Score)
    requires
        a.den > 0,
        b.den > 0,
        c.den > 0,
    ensures
        !b.lt(a) && !c.lt(b) ==> !c.lt(a),
        a.lt(b) && !c.lt(b) ==> a.lt(c),
        !b.lt(a) && b.lt(c) ==> a.lt(c),
{
    if a.lt(b) && !c.lt(b) {
        crate::score::lemma_lt_le(a, b, c);
    }
    if !b.lt(a) && b.lt(c) {
        crate::score::lemma_le_lt(a, b, c);
    }
    if !b.lt(a) && !c.lt(b) && c.lt(a) {
        crate::score::lemma_lt_le(c, a, b);
    }
}

/// The largest of three scores does not depend on the order in which they are taken.
proof fn lemma_max3(x: Score, y: Score, z: Score)
    requires
        x.den > 0,
        y.den > 0,
        z.den > 0,
    ensures
        max_spec(x, max_spec(y, z)).same(max_spec(y, max_spec(x, z))),
{
    lemma_trans(x, y, z);
    lemma_trans(x, z, y);
    lemma_trans(y, x, z);
    lemma_trans(y, z, x);
    lemma_trans(z, x, y);
    lemma_trans(z, y, x);
    let m1 = max_spec(x, max_spec(y, z));
    let m2 = max_spec(y, max_spec(x, z));
    assert(!m1.lt(x) && !m1.lt(y) && !m1.lt(z));
    assert(!m2.lt(x) && !m2.lt(y) && !m2.lt(z));
    assert(m1 == x || m1 == y || m1 == z);
    assert(m2 == x || m2 == y || m2 == z);
    assert(!m1.lt(m2) && !m2.lt(m1));
}

/// The token set ratio does not depend on the order of its two texts.
pub proof fn law_token_set_ratio_symmetric(a: Seq<char>, b: Seq<char>)
    requires
        lowercase(a).len() <= max_chars(),
        lowercase(b).len() <= max_chars(),
    ensures
        tsr_spec(a, b).same(tsr_spec(b, a)),
{
    let s1 = word_set(a);
    let s2 = word_set(b);
    assert(s2.intersect(s1) =~= s1.intersect(s2));
    let (t0, t1, t2) = tsr_texts(a, b);
    let (u0, u1, u2) = tsr_texts(b, a);
    assert(u0 == t0 && u1 == t2 && u2 == t1);
    // lengths, so that the denominators are positive
    lemma_subset_listing(s1.intersect(s2), words(lowercase(a)));
    lemma_subset_listing(s1.difference(s2), words(lowercase(a)));
    lemma_subset_listing(s2.difference(s1), words(lowercase(b)));
    lemma_listing_len(s1.intersect(s2), lowercase(a));
    lemma_sorted_no_dups(sorted_of(s1.intersect(s2)));
    let c = sorted_of(s1.intersect(s2));
    let d1 = sorted_of(s1.difference(s2));
    let d2 = sorted_of(s2.difference(s1));
    lemma_sorted_no_dups(d1);
    lemma_sorted_no_dups(d2);
    crate::fuzzy::lemma_concat_listing_len(c, d1, s2, s1, lowercase(a));
    crate::fuzzy::lemma_concat_listing_len(c, d2, s1, s2, lowercase(b));
    lemma_lcs_symmetric(t1, t2);
    lemma_lcs_bounds(t0, t1);
    lemma_lcs_bounds(t0, t2);
    lemma_lcs_bounds(t1, t2);
    assert(isize::MAX <= 0x7fff_ffff_ffff_ffff);
    let r0 = score_of(ratio_spec(t0, t1));
    let r1 = score_of(ratio_spec(t0, t2));
    let r2 = score_of(ratio_spec(t1, t2));
    assert(score_of(ratio_spec(t2, t1)) == r2);
    lemma_max3(r0, r1, r2);
}

// ---------------------------------------------------------------------------
// Decimal numbers.

proof fn lemma_digit_char(d: int)
    requires
        0 <= d < 10,
    ensures
        is_digit(digit_char(d)),
        digit_char(d) as int - '0' as int == d,
{
}

proof fn lemma_decimal_digits(n: nat)
    ensures
        decimal(n).len() > 0,
        forall|i: int| 0 <= i < decimal(n).len() ==> is_digit(#[trigger] decimal(n)[i]),
        digits_value(decimal(n)) == n,
    decreases n,
{
    if n < 10 {
        lemma_digit_char(n as int);
        let d = decimal(n);
        assert(d.drop_last() =~= Seq::<char>::empty());
        assert(d.last() == digit_char(n as int));
        assert(digits_value(d) == digits_value(d.drop_last()) * 10 + (d.last() as int - '0' as int));
    } else {
        lemma_decimal_digits(n / 10);
        lemma_digit_char((n % 10) as int);
        let d = decimal(n);
        assert(d.drop_last() =~= decimal(n / 10));
        assert(d.last() == digit_char((n % 10) as int));
        assert(digits_value(d) == digits_value(d.drop_last()) * 10 + (d.last() as int - '0' as int));
        assert forall|i: int| 0 <= i < d.len() implies is_digit(#[trigger] d[i]) by {
            if i < d.len() - 1 {
                assert(d[i] == decimal(n / 10)[i]);
            }
        }
    }
}

/// Reading back the decimal digits of a number gives the number.
pub proof fn law_parse_decimal_roundtrip(n: u64)
    ensures
        parse_u64(decimal(n as nat)) == Some(n),
{
    lemma_decimal_digits(n as nat);
    let d = decimal(n as nat);
    assert(d[0] != '+') by {
        assert(is_digit(d[0]));
    }
    assert(parse_u64(d) == parse_digits(d));
}

// ---------------------------------------------------------------------------
// The voice state machine.

/// Saying the wake word alone makes the assistant listen, and the next utterance
/// (unless it is a stop word) is taken as the command, without the fillers.
pub proof fn law_wake_then_command(first: Seq<char>, second: Seq<char>, s1: VoiceState, r1: VoiceAction, s2: VoiceState, r2: VoiceAction)
    requires
        !is_stop_spec(crate::text::trim(first)),
        is_wake_spec(crate::text::trim(first)),
        strip_fillers_spec(crate::text::trim(first)).len() == 0,
        !is_stop_spec(crate::text::trim(second)),
        process_spec(VoiceState::Idle, first, s1, r1),
        process_spec(s1, second, s2, r2),
    ensures
        r1 is Wake,
        s1 == VoiceState::Awake,
        r2 matches VoiceAction::Dispatch(c) && c@ == strip_fillers_spec(crate::text::trim(second)),
        s2 == VoiceState::Idle,
{
}

/// A stop word stops, whatever the state, and leaves the assistant idle.
pub proof fn law_stop_always_stops(state: VoiceState, text: Seq<char>, next: VoiceState, res: VoiceAction)
    requires
        is_stop_spec(crate::text::trim(text)),
        process_spec(state, text, next, res),
    ensures
        res is Stop,
        next == VoiceState::Idle,
{
}

// ---------------------------------------------------------------------------
// Settings.

/// Toggling the AI backend twice comes back to where it was.
pub proof fn law_toggle_ai_mode_twice(mode: Seq<char>)
    requires
        mode == "gemini"@ || mode == "ollama"@,
    ensures
        next_ai_mode_spec(next_ai_mode_spec(mode)) == mode,
{
    reveal_strlit("gemini");
    reveal_strlit("ollama");
    assert("gemini"@ != "ollama"@) by {
        assert("gemini"@[0] != "ollama"@[0]);
    }
}


// ---------------------------------------------------------------------------
// Words and fillers.

/// A word as `split_whitespace` yields it: not empty, and without white space.
pub open spec fn plain_word(w: Seq<char>) -> bool {
    w.len() > 0 && forall|i: int| 0 <= i < w.len() ==> !white_space(#[trigger] w[i])
}

proof fn lemma_split_state_plain(s: Seq<char>)
    ensures
        forall|k: int| 0 <= k < split_state(s).0.len() ==> plain_word(#[trigger] split_state(s).0[k]),
        forall|i: int| 0 <= i < split_state(s).1.len() ==> !white_space(#[trigger] split_state(s).1[i]),
    decreases s.len(),
{
    if s.len() > 0 {
        lemma_split_state_plain(s.drop_last());
        let (ws, cur) = split_state(s.drop_last());
        if !white_space(s.last()) {
            assert forall|i: int| 0 <= i < cur.push(s.last()).len() implies !white_space(#[trigger] cur.push(s.last())[i]) by {
                if i < cur.len() {
                    assert(cur.push(s.last())[i] == cur[i]);
                }
            }
        } else if cur.len() > 0 {
            assert forall|k: int| 0 <= k < ws.push(cur).len() implies plain_word(#[trigger] ws.push(cur)[k]) by {
                if k < ws.len() {
                    assert(ws.push(cur)[k] == ws[k]);
                }
            }
        }
    }
}

/// Every word of a text is a plain word.
proof fn lemma_words_plain(s: Seq<char>)
    ensures
        forall|k: int| 0 <= k < words(s).len() ==> plain_word(#[trigger] words(s)[k]),
{
    lemma_split_state_plain(s);
    let (ws, cur) = split_state(s);
    if cur.len() > 0 {
        assert forall|k: int| 0 <= k < ws.push(cur).len() implies plain_word(#[trigger] ws.push(cur)[k]) by {
            if k < ws.len() {
                assert(ws.push(cur)[k] == ws[k]);
            }
        }
    }
}

/// Reading on through characters that are not white space extends the word under way.
proof fn lemma_split_state_extend(s: Seq<char>, w: Seq<char>)
    requires
        forall|i: int| 0 <= i < w.len() ==> !white_space(#[trigger] w[i]),
    ensures
        split_state(s + w) == (split_state(s).0, split_state(s).1 + w),
    decreases w.len(),
{
    if w.len() == 0 {
        assert(s + w =~= s);
        assert(split_state(s).1 + w =~= split_state(s).1);
    } else {
        let wd = w.drop_last();
        lemma_split_state_extend(s, wd);
        assert((s + w).drop_last() =~= s + wd);
        assert((s + w).last() == w.last());
        assert(!white_space(w[w.len() - 1]));
        assert((split_state(s).1 + wd).push(w.last()) =~= split_state(s).1 + w);
    }
}

/// Joining plain words by spaces and reading them back stops after the last word.
proof fn lemma_split_state_join(ws: Seq<Seq<char>>)
    requires
        ws.len() > 0,
        forall|k: int| 0 <= k < ws.len() ==> plain_word(#[trigger] ws[k]),
    ensures
        split_state(join(ws)) == (ws.drop_last(), ws.last()),
    decreases ws.len(),
{
    let e: Seq<char> = Seq::empty();
    assert(plain_word(ws[ws.len() - 1]));
    if ws.len() == 1 {
        lemma_split_state_extend(e, ws[0]);
        assert(e + ws[0] =~= ws[0]);
        assert(split_state(e).1 + ws[0] =~= ws[0]);
        assert(ws.drop_last() =~= Seq::<Seq<char>>::empty());
    } else {
        let dl = ws.drop_last();
        assert forall|k: int| 0 <= k < dl.len() implies plain_word(#[trigger] dl[k]) by {
            assert(dl[k] == ws[k]);
        }
        lemma_split_state_join(dl);
        assert(plain_word(dl[dl.len() - 1]));
        let sp = join(dl).push(' ');
        assert(sp.drop_last() =~= join(dl));
        assert(white_space(' '));
        assert(split_state(sp) == (dl.drop_last().push(dl.last()), e));
        assert(dl.drop_last().push(dl.last()) =~= dl);
        lemma_split_state_extend(sp, ws.last());
        assert(e + ws.last() =~= ws.last());
    }
}

/// Splitting plain words joined by spaces gives the words back.
pub proof fn lemma_words_of_join(ws: Seq<Seq<char>>)
    requires
        forall|k: int| 0 <= k < ws.len() ==> plain_word(#[trigger] ws[k]),
    ensures
        words(join(ws)) == ws,
{
    if ws.len() == 0 {
        assert(split_state(Seq::<char>::empty()).1.len() == 0);
    } else {
        lemma_split_state_join(ws);
        assert(ws.drop_last().push(ws.last()) =~= ws);
    }
}

/// Filtering keeps what all elements have.
proof fn lemma_filter_keeps_plain(s: Seq<Seq<char>>, pred: spec_fn(Seq<char>) -> bool)
    requires
        forall|k: int| 0 <= k < s.len() ==> plain_word(#[trigger] s[k]),
    ensures
        forall|k: int| 0 <= k < s.filter(pred).len() ==> plain_word(#[trigger] s.filter(pred)[k]),
    decreases s.len(),
{
    reveal(Seq::filter);
    if s.len() > 0 {
        let dl = s.drop_last();
        assert forall|k: int| 0 <= k < dl.len() implies plain_word(#[trigger] dl[k]) by {
            assert(dl[k] == s[k]);
        }
        lemma_filter_keeps_plain(dl, pred);
        let f = dl.filter(pred);
        assert(plain_word(s[s.len() - 1]));
        if pred(s.last()) {
            assert forall|k: int| 0 <= k < f.push(s.last()).len() implies plain_word(#[trigger] f.push(s.last())[k]) by {
                if k < f.len() {
                    assert(f.push(s.last())[k] == f[k]);
                }
            }
        }
    }
}

/// Filtering a sequence whose elements all pass changes nothing.
proof fn lemma_filter_all_pass(s: Seq<Seq<char>>, pred: spec_fn(Seq<char>) -> bool)
    requires
        forall|k: int| 0 <= k < s.len() ==> pred(#[trigger] s[k]),
    ensures
        s.filter(pred) == s,
    decreases s.len(),
{
    reveal(Seq::filter);
    if s.len() > 0 {
        let dl = s.drop_last();
        assert forall|k: int| 0 <= k < dl.len() implies pred(#[trigger] dl[k]) by {
            assert(dl[k] == s[k]);
        }
        lemma_filter_all_pass(dl, pred);
        assert(pred(s[s.len() - 1]));
        assert(dl.push(s.last()) =~= s);
    }
}

/// Removing the fillers twice removes no more than once.
pub proof fn law_strip_fillers_idempotent(text: Seq<char>)
    ensures
        strip_fillers_spec(strip_fillers_spec(text)) == strip_fillers_spec(text),
{
    let pred = |w: Seq<char>| not_filler(w);
    let kept = words(text).filter(pred);
    lemma_words_plain(text);
    lemma_filter_keeps_plain(words(text), pred);
    lemma_words_of_join(kept);
    assert forall|k: int| 0 <= k < kept.len() implies pred(#[trigger] kept[k]) by {
        words(text).lemma_filter_pred(pred, k);
    }
    lemma_filter_all_pass(kept, pred);
}


// ---------------------------------------------------------------------------
// Questions to the language models.

/// How many of the last history entries go with a question: two, or fewer when
/// the history is shorter.
pub open spec fn context_count(history: Seq<HistoryEntry>) -> int {
    if history.len() < 2 { history.len() as int } else { 2 }
}

/// A Gemini question carries the last two turns of the history (or all of it
/// when shorter), oldest first, each with its Gemini role ("model" for the
/// assistant, "user" for the user), and then the question as the user's turn.
pub proof fn law_gemini_context(prompt: Seq<char>, history: Seq<HistoryEntry>)
    ensures
        ({
            let n = context_count(history);
            let c = gemini_contents_spec(prompt, history);
            &&& c.len() == n + 1
            &&& forall|k: int| 0 <= k < n ==> #[trigger] c[k] == (
                (if history[history.len() - n + k].role == Roles::Tom { "model"@ } else { "user"@ }),
                history[history.len() - n + k].text@,
            )
            &&& c[n] == ("user"@, prompt)
        }),
{
}

/// An Ollama question starts with the system prompt, carries the last two turns
/// of the history (or all of it when shorter), oldest first, each with its Ollama
/// role ("assistant" or "user"), and ends with the question as the user's turn.
pub proof fn law_ollama_context(prompt: Seq<char>, history: Seq<HistoryEntry>)
    ensures
        ({
            let n = context_count(history);
            let m = ollama_messages_spec(prompt, history);
            &&& m.len() == n + 2
            &&& m[0] == ("system"@, "Відповідай стисло і без емодзі."@)
            &&& forall|k: int| 0 <= k < n ==> #[trigger] m[k + 1] == (
                (if history[history.len() - n + k].role == Roles::Tom { "assistant"@ } else { "user"@ }),
                history[history.len() - n + k].text@,
            )
            &&& m[n + 1] == ("user"@, prompt)
        }),
{
}


// ---------------------------------------------------------------------------
// Reminders.

/// The label words of a reminder are words of the request, and none is a filler.
proof fn lemma_reminder_labels(ws: Seq<Seq<char>>)
    requires
        forall|k: int| 0 <= k < ws.len() ==> plain_word(#[trigger] ws[k]),
    ensures
        forall|k: int| 0 <= k < reminder_scan(ws).1.len() ==> plain_word(#[trigger] reminder_scan(ws).1[k])
            && !reminder_skip_words().contains(lowercase(reminder_scan(ws).1[k])),
    decreases ws.len(),
{
    if ws.len() > 0 {
        let dl = ws.drop_last();
        assert forall|k: int| 0 <= k < dl.len() implies plain_word(#[trigger] dl[k]) by {
            assert(dl[k] == ws[k]);
        }
        lemma_reminder_labels(dl);
        let labels = reminder_scan(dl).1;
        let w = ws.last();
        assert(plain_word(ws[ws.len() - 1]));
        assert forall|k: int| 0 <= k < labels.push(w).len() && labels.push(w)[k] != w
            implies labels.push(w)[k] == labels[k] by {}
    }
}

/// The minutes of a reminder are the first word of the request that is a
/// number, and five when no word is.
proof fn lemma_reminder_minutes(ws: Seq<Seq<char>>)
    ensures
        reminder_scan(ws).0 is None <==> forall|m: int| 0 <= m < ws.len() ==> (#[trigger] parse_u64(ws[m])) is None,
        reminder_scan(ws).0 is Some ==> exists|i: int| 0 <= i < ws.len() && reminder_scan(ws).0 == #[trigger] parse_u64(ws[i])
            && forall|m: int| 0 <= m < i ==> (#[trigger] parse_u64(ws[m])) is None,
    decreases ws.len(),
{
    if ws.len() > 0 {
        let dl = ws.drop_last();
        lemma_reminder_minutes(dl);
        assert forall|m: int| 0 <= m < dl.len() implies dl[m] == ws[m] by {}
        if reminder_scan(dl).0 is Some {
            let i = choose|i: int| 0 <= i < dl.len() && reminder_scan(dl).0 == #[trigger] parse_u64(dl[i])
                && forall|m: int| 0 <= m < i ==> (#[trigger] parse_u64(dl[m])) is None;
            assert(reminder_scan(ws).0 == parse_u64(ws[i]));
        } else if parse_u64(ws.last()) is Some {
            assert(reminder_scan(ws).0 == parse_u64(ws[ws.len() - 1]));
        } else {
            assert forall|m: int| 0 <= m < ws.len() implies (#[trigger] parse_u64(ws[m])) is None by {
                if m < dl.len() {
                    assert(parse_u64(dl[m]) is None);
                }
            }
        }
    }
}

/// A reminder waits for the first word of the request that is a number of
/// minutes, and five minutes when no word is a number.
pub proof fn law_reminder_minutes(text: Seq<char>)
    ensures
        (forall|m: int| 0 <= m < words(text).len() ==> (#[trigger] parse_u64(words(text)[m])) is None)
            ==> reminder_spec(text).0 == 5,
        forall|i: int| 0 <= i < words(text).len() && (#[trigger] parse_u64(words(text)[i])) is Some
            && (forall|m: int| 0 <= m < i ==> (#[trigger] parse_u64(words(text)[m])) is None)
            ==> Some(reminder_spec(text).0) == parse_u64(words(text)[i]),
{
    let ws = words(text);
    lemma_reminder_minutes(ws);
    assert forall|i: int| 0 <= i < ws.len() && (#[trigger] parse_u64(ws[i])) is Some
        && (forall|m: int| 0 <= m < i ==> (#[trigger] parse_u64(ws[m])) is None)
        implies Some(reminder_spec(text).0) == parse_u64(ws[i]) by {
        let i2 = choose|i2: int| 0 <= i2 < ws.len() && reminder_scan(ws).0 == #[trigger] parse_u64(ws[i2])
            && forall|m: int| 0 <= m < i2 ==> (#[trigger] parse_u64(ws[m])) is None;
        if i2 < i {
            assert(parse_u64(ws[i2]) is None);
        } else if i < i2 {
            assert(parse_u64(ws[i]) is None);
        }
    }
}

/// A reminder's label leaves out every word that only says "remind me", "in",
/// "after" or names the unit: no word of the label, lower-cased, is one of
/// "нагади", "нагадай", "нагадування", "remind", "me", "reminder", "встанови",
/// "через", "in", "after", "хв", "хвилин", "min", "mins", "minutes", "хвилину",
/// "хвилини"; unless no word is left, and the label is "Час минув!".
pub proof fn law_reminder_label_skips_fillers(text: Seq<char>)
    ensures
        ({
            let label = reminder_spec(text).1;
            ||| label == "Час минув!"@
            ||| forall|k: int| 0 <= k < words(label).len() ==> !seq![
                "нагади"@, "нагадай"@, "нагадування"@, "remind"@, "me"@, "reminder"@, "встанови"@,
                "через"@, "in"@, "after"@, "хв"@, "хвилин"@, "min"@, "mins"@, "minutes"@,
                "хвилину"@, "хвилини"@,
            ].contains(lowercase(#[trigger] words(label)[k]))
        }),
{
    let skip = seq![
        "нагади"@, "нагадай"@, "нагадування"@, "remind"@, "me"@, "reminder"@, "встанови"@,
        "через"@, "in"@, "after"@, "хв"@, "хвилин"@, "min"@, "mins"@, "minutes"@,
        "хвилину"@, "хвилини"@,
    ];
    lemma_words_plain(text);
    let labels = reminder_scan(words(text)).1;
    lemma_reminder_labels(words(text));
    if labels.len() > 0 {
        lemma_words_of_join(labels);
        assert forall|k: int| 0 <= k < labels.len() implies !skip.contains(lowercase(#[trigger] labels[k])) by {
            if skip.contains(lowercase(labels[k])) {
                let m = choose|m: int| 0 <= m < skip.len() && skip[m] == lowercase(labels[k]);
                let m2: int = if m < 7 { m } else { m + 1 };
                assert(reminder_skip_words()[m2] == skip[m]);
                assert(reminder_skip_words().contains(lowercase(labels[k])));
            }
        }
    }
}


// ---------------------------------------------------------------------------
// Token set ratio: bounds, and texts that hold all the words of another.

/// The three texts that the token set ratio compares are no longer than the
/// lower-cased texts they come from.
proof fn lemma_tsr_texts_len(a: Seq<char>, b: Seq<char>)
    requires
        lowercase(a).len() <= max_chars(),
        lowercase(b).len() <= max_chars(),
    ensures
        tsr_texts(a, b).0.len() <= lowercase(a).len(),
        tsr_texts(a, b).1.len() <= lowercase(a).len(),
        tsr_texts(a, b).2.len() <= lowercase(b).len(),
{
    let s1 = word_set(a);
    let s2 = word_set(b);
    lemma_subset_listing(s1.intersect(s2), words(lowercase(a)));
    lemma_subset_listing(s1.difference(s2), words(lowercase(a)));
    lemma_subset_listing(s2.difference(s1), words(lowercase(b)));
    let c = sorted_of(s1.intersect(s2));
    let d1 = sorted_of(s1.difference(s2));
    let d2 = sorted_of(s2.difference(s1));
    lemma_sorted_no_dups(c);
    lemma_sorted_no_dups(d1);
    lemma_sorted_no_dups(d2);
    crate::fuzzy::lemma_concat_listing_len(c, d1, s2, s1, lowercase(a));
    crate::fuzzy::lemma_concat_listing_len(c, d2, s1, s2, lowercase(b));
}

/// A ratio of two texts of bounded length is a fraction in `[0, 1]` with a
/// positive, bounded denominator.
proof fn lemma_ratio_bounds(x: Seq<char>, y: Seq<char>)
    requires
        x.len() <= max_chars(),
        y.len() <= max_chars(),
    ensures
        score_of(ratio_spec(x, y)).den > 0,
        score_of(ratio_spec(x, y)).num <= score_of(ratio_spec(x, y)).den,
        score_of(ratio_spec(x, y)).den <= 2 * max_chars(),
        score_of(ratio_spec(x, y)).num == ratio_spec(x, y).0,
        score_of(ratio_spec(x, y)).den == ratio_spec(x, y).1,
{
    lemma_lcs_bounds(x, y);
    assert(isize::MAX <= 0x7fff_ffff_ffff_ffff);
}

/// The token set ratio of texts of bounded length is a fraction in `[0, 1]`
/// with a positive, bounded denominator.
pub proof fn lemma_tsr_bounds(a: Seq<char>, b: Seq<char>)
    requires
        lowercase(a).len() <= max_chars(),
        lowercase(b).len() <= max_chars(),
    ensures
        tsr_spec(a, b).den > 0,
        tsr_spec(a, b).num <= tsr_spec(a, b).den,
        tsr_spec(a, b).den <= 2 * max_chars(),
{
    lemma_tsr_texts_len(a, b);
    let (t0, t1, t2) = tsr_texts(a, b);
    lemma_ratio_bounds(t0, t1);
    lemma_ratio_bounds(t0, t2);
    lemma_ratio_bounds(t1, t2);
}

/// A text that holds every word of `b` (ignoring case and order, and whatever
/// other words it has) has token set ratio 1 with `b`.
pub proof fn law_token_set_ratio_subset(a: Seq<char>, b: Seq<char>)
    requires
        lowercase(a).len() <= max_chars(),
        lowercase(b).len() <= max_chars(),
        word_set(b).subset_of(word_set(a)),
    ensures
        tsr_spec(a, b).num == tsr_spec(a, b).den,
        tsr_spec(a, b).den > 0,
{
    let s1 = word_set(a);
    let s2 = word_set(b);
    assert(s1.intersect(s2) =~= s2);
    assert(s2.difference(s1) =~= Set::empty());
    let e: Seq<Seq<char>> = seq![];
    assert(e.to_set() =~= Set::<Seq<char>>::empty());
    lemma_sorted_of(e);
    let c = sorted_of(s2);
    assert(c + e =~= c);
    let (t0, t1, t2) = tsr_texts(a, b);
    assert(t2 == t0);
    lemma_tsr_texts_len(a, b);
    lemma_ratio_bounds(t0, t1);
    lemma_ratio_bounds(t0, t2);
    lemma_ratio_bounds(t1, t2);
    lemma_lcs_self(t0);
    let r0 = score_of(ratio_spec(t0, t1));
    let r1 = score_of(ratio_spec(t0, t2));
    let r2 = score_of(ratio_spec(t1, t2));
    assert(r1.num == r1.den);
    let m = max_spec(r1, r2);
    assert(m.num == m.den) by {
        if r1.lt(r2) {
            assert(r2.num * r1.den > r1.num * r2.den);
            assert(r2.num * r1.den <= r2.den * r1.den) by (nonlinear_arith)
                requires r2.num <= r2.den;
            assert(r1.num * r2.den == r1.den * r2.den);
        }
    }
    assert(max_spec(r0, m).num == max_spec(r0, m).den) by {
        if r0.lt(m) {
        } else {
            assert(r0.num * m.den >= m.num * r0.den);
            assert(r0.num * m.den >= m.den * r0.den);
            assert(r0.num >= r0.den) by (nonlinear_arith)
                requires r0.num * m.den >= m.den * r0.den, m.den > 0;
        }
    }
}

/// A custom command is called by any text that holds every word of one of its
/// triggers, whatever the order, the case and the other words of the text.
pub proof fn law_custom_trigger_words(text: Seq<char>, entry: CommandEntry, j: int)
    requires
        0 <= j < entry.triggers@.len(),
        lowercase(text).len() <= max_chars(),
        lowercase(entry.triggers@[j]@).len() <= max_chars(),
        word_set(entry.triggers@[j]@).subset_of(word_set(text)),
    ensures
        custom_matches(text, entry),
{
    let trig = entry.triggers@[j]@;
    law_token_set_ratio_subset(text, trig);
    let r = tsr_spec(text, trig);
    assert(!r.lt(command_threshold())) by {
        assert(r.num * 100 >= 55 * r.den) by (nonlinear_arith)
            requires r.num == r.den, r.den > 0;
    }
}


// ---------------------------------------------------------------------------
// Wake words.

/// The wake words that the assistant answers to.
pub open spec fn names() -> Seq<Seq<char>> {
    seq!["tom"@, "tomi"@, "тому"@, "thompson"@]
}

/// Each wake word is a single plain word.
proof fn lemma_name_plain(k: int)
    requires
        0 <= k < 4,
    ensures
        plain_word(names()[k]),
        names()[k].len() <= 8,
{
    if k == 0 {
        reveal_strlit("tom");
        let w = "tom"@;
        assert(w.len() == 3);
        assert forall|i: int| 0 <= i < w.len() implies !white_space(#[trigger] w[i]) by {
            if i == 0 {
                assert(w[0] == 't');
            } else if i == 1 {
                assert(w[1] == 'o');
            } else if i == 2 {
                assert(w[2] == 'm');
            }
        }
    }
    if k == 1 {
        reveal_strlit("tomi");
        let w = "tomi"@;
        assert(w.len() == 4);
        assert forall|i: int| 0 <= i < w.len() implies !white_space(#[trigger] w[i]) by {
            if i == 0 {
                assert(w[0] == 't');
            } else if i == 1 {
                assert(w[1] == 'o');
            } else if i == 2 {
                assert(w[2] == 'm');
            } else if i == 3 {
                assert(w[3] == 'i');
            }
        }
    }
    if k == 2 {
        reveal_strlit("тому");
        let w = "тому"@;
        assert(w.len() == 4);
        assert forall|i: int| 0 <= i < w.len() implies !white_space(#[trigger] w[i]) by {
            if i == 0 {
                assert(w[0] == 'т');
            } else if i == 1 {
                assert(w[1] == 'о');
            } else if i == 2 {
                assert(w[2] == 'м');
            } else if i == 3 {
                assert(w[3] == 'у');
            }
        }
    }
    if k == 3 {
        reveal_strlit("thompson");
        let w = "thompson"@;
        assert(w.len() == 8);
        assert forall|i: int| 0 <= i < w.len() implies !white_space(#[trigger] w[i]) by {
            if i == 0 {
                assert(w[0] == 't');
            } else if i == 1 {
                assert(w[1] == 'h');
            } else if i == 2 {
                assert(w[2] == 'o');
            } else if i == 3 {
                assert(w[3] == 'm');
            } else if i == 4 {
                assert(w[4] == 'p');
            } else if i == 5 {
                assert(w[5] == 's');
            } else if i == 6 {
                assert(w[6] == 'o');
            } else if i == 7 {
                assert(w[7] == 'n');
            }
        }
    }
}

/// The wake word alone is nothing but filler: once the fillers are taken out,
/// nothing is left.
pub proof fn law_names_are_fillers(k: int)
    requires
        0 <= k < 4,
        lowercase(names()[k]) == names()[k],
    ensures
        strip_fillers_spec(names()[k]).len() == 0,
{
    let w = names()[k];
    lemma_name_plain(k);
    assert(join(seq![w]) == w);
    lemma_words_of_join(seq![w]);
    let m: int = if k == 3 { 4 } else { k };
    assert(filler_words()[m] == w);
    assert(filler_words().contains(lowercase(w)));
    let pred = |x: Seq<char>| not_filler(x);
    reveal(Seq::filter);
    assert(seq![w].drop_last() =~= Seq::<Seq<char>>::empty());
    assert(!pred(w));
    assert(Seq::<Seq<char>>::empty().filter(pred) =~= Seq::<Seq<char>>::empty());
    assert(seq![w].last() == w);
    assert(seq![w].filter(pred) =~= Seq::<Seq<char>>::empty());
}

/// Saying only the assistant's name ("Tom", "Thompson", ...) when it is idle
/// wakes it: it answers that it listens, and waits for the command.
pub proof fn law_name_alone_wakes(text: Seq<char>, k: int, next: VoiceState, res: VoiceAction)
    requires
        0 <= k < 4,
        trim(text) == names()[k],
        lowercase(names()[k]) == names()[k],
        !is_stop_spec(names()[k]),
        process_spec(VoiceState::Idle, text, next, res),
    ensures
        res is Wake,
        next == VoiceState::Awake,
{
    let w = names()[k];
    law_names_are_fillers(k);
    lemma_name_plain(k);
    assert(join(seq![w]) == w);
    lemma_words_of_join(seq![w]);
    let m: int = if k == 3 { 4 } else { k };
    assert(wake_words()[m] == w);
    lemma_lcs_self(w);
    assert(isize::MAX <= 0x7fff_ffff_ffff_ffff);
    assert(words(w)[0] == w);
    assert(ratio_spec(w, w) == (2 * w.len() as int, 2 * w.len() as int));
    let r = score_of(ratio_spec(lowercase(words(w)[0]), wake_words()[m]));
    assert(r.num == r.den && r.den > 0);
    assert(!r.lt(wake_threshold())) by {
        assert(r.num * 100 >= 55 * r.den) by (nonlinear_arith)
            requires r.num == r.den, r.den > 0;
    }
    assert(is_wake_spec(w));
}


// ---------------------------------------------------------------------------
// The phrases of the built-in commands.

/// The phrases of the built-in commands, each with the command it calls.
#[verifier::opaque]
pub open spec fn listed() -> Seq<(Command, Seq<char>)> {
    seq![
        (Command::Stop, "stop"@),
        (Command::Stop, "stop speaking"@),
        (Command::Stop, "shut up"@),
        (Command::Stop, "silence"@),
        (Command::Stop, "стоп"@),
        (Command::Ctime, "what time is it"@),
        (Command::Ctime, "what is the time"@),
        (Command::Ctime, "tell me the time"@),
        (Command::Ctime, "котра година"@),
        (Command::Stats, "statistics"@),
        (Command::Stats, "stats"@),
        (Command::Stats, "sysinfo"@),
        (Command::Stats, "system information"@),
        (Command::Stats, "статистика"@),
        (Command::WindowClose, "close window"@),
        (Command::WindowClose, "close"@),
        (Command::WindowHide, "hide window"@),
        (Command::WindowHide, "minimize window"@),
        (Command::WindowHide, "hide"@),
        (Command::WindowHide, "minimize"@),
        (Command::WindowOpen, "open window"@),
        (Command::WindowOpen, "show window"@),
        (Command::WindowOpen, "open"@),
        (Command::WindowOpen, "show"@),
        (Command::Screen, "screen analysis"@),
        (Command::Screen, "what's on the screen"@),
        (Command::Screen, "check the screen"@),
        (Command::Screen, "що на екрані"@),
        (Command::ToggleSound, "turn off the system sound"@),
        (Command::ToggleSound, "turn on the system sound"@),
        (Command::ToggleSound, "toggle system sound"@),
        (Command::ToggleSound, "toggle sound"@),
        (Command::ToggleSound, "turn the sound on"@),
        (Command::ToggleSound, "turn the sound off"@),
        (Command::ToggleSound, "увімкнути звук"@),
        (Command::MusicToggle, "turn off the music"@),
        (Command::MusicToggle, "turn on the music"@),
        (Command::MusicToggle, "toggle music"@),
        (Command::MusicToggle, "play / pause"@),
        (Command::MusicToggle, "музика"@),
        (Command::MusicNext, "next song"@),
        (Command::MusicNext, "next track"@),
        (Command::MusicNext, "наступний трек"@),
        (Command::MusicPrev, "previous song"@),
        (Command::MusicPrev, "previous track"@),
        (Command::MusicPrev, "prev song"@),
        (Command::MusicPrev, "prev track"@),
        (Command::MusicPrev, "попередній трек"@),
        (Command::MusicInfo, "what is the song"@),
        (Command::MusicInfo, "what's playing"@),
        (Command::MusicInfo, "song name"@),
        (Command::MusicInfo, "track name"@),
        (Command::MusicInfo, "який трек"@),
        (Command::Dictation, "type"@),
        (Command::Dictation, "write"@),
        (Command::Dictation, "input"@),
        (Command::Remind, "remind me"@),
        (Command::Remind, "reminder"@),
        (Command::Remind, "set a timer"@),
        (Command::Remind, "set a reminder"@),
        (Command::Remind, "нагадування"@),
        (Command::OpenBrowser, "open browser"@),
        (Command::OpenBrowser, "show browser"@),
        (Command::OpenBrowser, "browser"@),
        (Command::OpenBrowser, "відкрий браузер"@)
    ]
}

/// The command table is the list above.
proof fn lemma_table_is_listed()
    ensures
        command_phrases_spec() == listed(),
{
    reveal(listed);
    assert(command_phrases_spec() =~= listed());
}

/// The length of each phrase of the list, up to `n`, is between 1 and 32.
pub open spec fn lengths_ok(t: Seq<(Command, Seq<char>)>, n: nat) -> bool
    decreases n,
{
    n == 0 || (0 < t[n - 1].1.len() <= 32 && lengths_ok(t, (n - 1) as nat))
}

proof fn lemma_lengths_ok(t: Seq<(Command, Seq<char>)>, n: nat)
    requires
        lengths_ok(t, n),
    ensures
        forall|j: int| 0 <= j < n ==> 0 < (#[trigger] t[j]).1.len() <= 32,
    decreases n,
{
    if n > 0 {
        lemma_lengths_ok(t, (n - 1) as nat);
    }
}

/// The lengths of the listed phrases.
proof fn lemma_listed_lengths()
    ensures
        listed()[0].1.len() == 4,
        listed()[1].1.len() == 13,
        listed()[2].1.len() == 7,
        listed()[3].1.len() == 7,
        listed()[4].1.len() == 4,
        listed()[5].1.len() == 15,
        listed()[6].1.len() == 16,
        listed()[7].1.len() == 16,
        listed()[8].1.len() == 12,
        listed()[9].1.len() == 10,
        listed()[10].1.len() == 5,
        listed()[11].1.len() == 7,
        listed()[12].1.len() == 18,
        listed()[13].1.len() == 10,
        listed()[14].1.len() == 12,
        listed()[15].1.len() == 5,
        listed()[16].1.len() == 11,
        listed()[17].1.len() == 15,
        listed()[18].1.len() == 4,
        listed()[19].1.len() == 8,
        listed()[20].1.len() == 11,
        listed()[21].1.len() == 11,
        listed()[22].1.len() == 4,
        listed()[23].1.len() == 4,
        listed()[24].1.len() == 15,
        listed()[25].1.len() == 20,
        listed()[26].1.len() == 16,
        listed()[27].1.len() == 12,
        listed()[28].1.len() == 25,
        listed()[29].1.len() == 24,
        listed()[30].1.len() == 19,
        listed()[31].1.len() == 12,
        listed()[32].1.len() == 17,
        listed()[33].1.len() == 18,
        listed()[34].1.len() == 14,
        listed()[35].1.len() == 18,
        listed()[36].1.len() == 17,
        listed()[37].1.len() == 12,
        listed()[38].1.len() == 12,
        listed()[39].1.len() == 6,
        listed()[40].1.len() == 9,
        listed()[41].1.len() == 10,
        listed()[42].1.len() == 14,
        listed()[43].1.len() == 13,
        listed()[44].1.len() == 14,
        listed()[45].1.len() == 9,
        listed()[46].1.len() == 10,
        listed()[47].1.len() == 15,
        listed()[48].1.len() == 16,
        listed()[49].1.len() == 14,
        listed()[50].1.len() == 9,
        listed()[51].1.len() == 10,
        listed()[52].1.len() == 9,
        listed()[53].1.len() == 4,
        listed()[54].1.len() == 5,
        listed()[55].1.len() == 5,
        listed()[56].1.len() == 9,
        listed()[57].1.len() == 8,
        listed()[58].1.len() == 11,
        listed()[59].1.len() == 14,
        listed()[60].1.len() == 11,
        listed()[61].1.len() == 12,
        listed()[62].1.len() == 12,
        listed()[63].1.len() == 7,
        listed()[64].1.len() == 15,
        listed().len() == 65,
{
    reveal(listed);
    reveal_strlit("stop");
    reveal_strlit("stop speaking");
    reveal_strlit("shut up");
    reveal_strlit("silence");
    reveal_strlit("стоп");
    reveal_strlit("what time is it");
    reveal_strlit("what is the time");
    reveal_strlit("tell me the time");
    reveal_strlit("котра година");
    reveal_strlit("statistics");
    reveal_strlit("stats");
    reveal_strlit("sysinfo");
    reveal_strlit("system information");
    reveal_strlit("статистика");
    reveal_strlit("close window");
    reveal_strlit("close");
    reveal_strlit("hide window");
    reveal_strlit("minimize window");
    reveal_strlit("hide");
    reveal_strlit("minimize");
    reveal_strlit("open window");
    reveal_strlit("show window");
    reveal_strlit("open");
    reveal_strlit("show");
    reveal_strlit("screen analysis");
    reveal_strlit("what's on the screen");
    reveal_strlit("check the screen");
    reveal_strlit("що на екрані");
    reveal_strlit("turn off the system sound");
    reveal_strlit("turn on the system sound");
    reveal_strlit("toggle system sound");
    reveal_strlit("toggle sound");
    reveal_strlit("turn the sound on");
    reveal_strlit("turn the sound off");
    reveal_strlit("увімкнути звук");
    reveal_strlit("turn off the music");
    reveal_strlit("turn on the music");
    reveal_strlit("toggle music");
    reveal_strlit("play / pause");
    reveal_strlit("музика");
    reveal_strlit("next song");
    reveal_strlit("next track");
    reveal_strlit("наступний трек");
    reveal_strlit("previous song");
    reveal_strlit("previous track");
    reveal_strlit("prev song");
    reveal_strlit("prev track");
    reveal_strlit("попередній трек");
    reveal_strlit("what is the song");
    reveal_strlit("what's playing");
    reveal_strlit("song name");
    reveal_strlit("track name");
    reveal_strlit("який трек");
    reveal_strlit("type");
    reveal_strlit("write");
    reveal_strlit("input");
    reveal_strlit("remind me");
    reveal_strlit("reminder");
    reveal_strlit("set a timer");
    reveal_strlit("set a reminder");
    reveal_strlit("нагадування");
    reveal_strlit("open browser");
    reveal_strlit("show browser");
    reveal_strlit("browser");
    reveal_strlit("відкрий браузер");
    assert("stop"@.len() == 4);
    assert("stop speaking"@.len() == 13);
    assert("shut up"@.len() == 7);
    assert("silence"@.len() == 7);
    assert("стоп"@.len() == 4);
    assert("what time is it"@.len() == 15);
    assert("what is the time"@.len() == 16);
    assert("tell me the time"@.len() == 16);
    assert("котра година"@.len() == 12);
    assert("statistics"@.len() == 10);
    assert("stats"@.len() == 5);
    assert("sysinfo"@.len() == 7);
    assert("system information"@.len() == 18);
    assert("статистика"@.len() == 10);
    assert("close window"@.len() == 12);
    assert("close"@.len() == 5);
    assert("hide window"@.len() == 11);
    assert("minimize window"@.len() == 15);
    assert("hide"@.len() == 4);
    assert("minimize"@.len() == 8);
    assert("open window"@.len() == 11);
    assert("show window"@.len() == 11);
    assert("open"@.len() == 4);
    assert("show"@.len() == 4);
    assert("screen analysis"@.len() == 15);
    assert("what's on the screen"@.len() == 20);
    assert("check the screen"@.len() == 16);
    assert("що на екрані"@.len() == 12);
    assert("turn off the system sound"@.len() == 25);
    assert("turn on the system sound"@.len() == 24);
    assert("toggle system sound"@.len() == 19);
    assert("toggle sound"@.len() == 12);
    assert("turn the sound on"@.len() == 17);
    assert("turn the sound off"@.len() == 18);
    assert("увімкнути звук"@.len() == 14);
    assert("turn off the music"@.len() == 18);
    assert("turn on the music"@.len() == 17);
    assert("toggle music"@.len() == 12);
    assert("play / pause"@.len() == 12);
    assert("музика"@.len() == 6);
    assert("next song"@.len() == 9);
    assert("next track"@.len() == 10);
    assert("наступний трек"@.len() == 14);
    assert("previous song"@.len() == 13);
    assert("previous track"@.len() == 14);
    assert("prev song"@.len() == 9);
    assert("prev track"@.len() == 10);
    assert("попередній трек"@.len() == 15);
    assert("what is the song"@.len() == 16);
    assert("what's playing"@.len() == 14);
    assert("song name"@.len() == 9);
    assert("track name"@.len() == 10);
    assert("який трек"@.len() == 9);
    assert("type"@.len() == 4);
    assert("write"@.len() == 5);
    assert("input"@.len() == 5);
    assert("remind me"@.len() == 9);
    assert("reminder"@.len() == 8);
    assert("set a timer"@.len() == 11);
    assert("set a reminder"@.len() == 14);
    assert("нагадування"@.len() == 11);
    assert("open browser"@.len() == 12);
    assert("show browser"@.len() == 12);
    assert("browser"@.len() == 7);
    assert("відкрий браузер"@.len() == 15);
}

/// Every listed phrase has between 1 and 32 characters.
proof fn lemma_listed_short()
    ensures
        forall|j: int| 0 <= j < listed().len() ==> 0 < (#[trigger] listed()[j]).1.len() <= 32,
{
    lemma_listed_lengths();
    reveal_with_fuel(lengths_ok, 66);
    assert(lengths_ok(listed(), 65));
    lemma_lengths_ok(listed(), 65);
}

/// No phrase among the first `n` of `t` is `p`.
pub open spec fn absent(t: Seq<(Command, Seq<char>)>, p: Seq<char>, n: nat) -> bool
    decreases n,
{
    n == 0 || (t[n - 1].1 != p && absent(t, p, (n - 1) as nat))
}

proof fn lemma_absent(t: Seq<(Command, Seq<char>)>, p: Seq<char>, n: nat)
    requires
        absent(t, p, n),
    ensures
        forall|j: int| 0 <= j < n ==> (#[trigger] t[j]).1 != p,
    decreases n,
{
    if n > 0 {
        lemma_absent(t, p, (n - 1) as nat);
    }
}

proof fn lemma_first_0()
    ensures
        forall|j: int| 0 <= j < 0 ==> (#[trigger] listed()[j]).1 != listed()[0].1,
{
    lemma_listed_lengths();
    reveal(listed);
    let t = listed();
}

proof fn lemma_first_1()
    ensures
        forall|j: int| 0 <= j < 1 ==> (#[trigger] listed()[j]).1 != listed()[1].1,
{
    lemma_listed_lengths();
    reveal(listed);
    let t = listed();
    reveal_with_fuel(absent, 2);
    assert(absent(t, t[1].1, 1));
    lemma_absent(t, t[1].1, 1);
}

proof fn lemma_first_2()
    ensures
        forall|j: int| 0 <= j < 2 ==> (#[trigger] listed()[j]).1 != listed()[2].1,
{
    lemma_listed_lengths();
    reveal(listed);
    let t = listed();
    reveal_with_fuel(absent, 3);
    assert(absent(t, t[2].1, 2));
    lemma_absent(t, t[2].1, 2);
}

proof fn lemma_first_3()
    ensures
        forall|j: int| 0 <= j < 3 ==> (#[trigger] listed()[j]).1 != listed()[3].1,
{
    lemma_listed_lengths();
    reveal(listed);
    let t = listed();
    reveal_strlit("silence");
    reveal_strlit("shut up");
    assert(t[2].1[1] != t[3].1[1]);
    reveal_with_fuel(absent, 4);
    assert(absent(t, t[3].1, 3));
    lemma_absent(t, t[3].1, 3);
}

proof fn lemma_first_4()
    ensures
        forall|j: int| 0 <= j < 4 ==> (#[trigger] listed()[j]).1 != listed()[4].1,
{
    lemma_listed_lengths();
    reveal(listed);
    let t = listed();
    reveal_strlit("стоп");
    reveal_strlit("stop");
    assert(t[0].1[0] != t[4].1[0]);
    reveal_with_fuel(absent, 5);
    assert(absent(t, t[4].1, 4));
    lemma_absent(t, t[4].1, 4);
}

proof fn lemma_first_5()
    ensures
        forall|j: int| 0 <= j < 5 ==> (#[trigger] listed()[j]).1 != listed()[5].1,
{
    lemma_listed_lengths();
    reveal(listed);
    let t = listed();
    reveal_with_fuel(absent, 6);
    assert(absent(t, t[5].1, 5));
    lemma_absent(t, t[5].1, 5);
}

proof fn lemma_first_6()
    ensures
        forall|j: int| 0 <= j < 6 ==> (#[trigger] listed()[j]).1 != listed()[6].1,
{
    lemma_listed_lengths();
    reveal(listed);
    let t = listed();
    reveal_with_fuel(absent, 7);
    assert(absent(t, t[6].1, 6));
    lemma_absent(t, t[6].1, 6);
}

proof fn lemma_first_7()
    ensures
        forall|j: int| 0 <= j < 7 ==> (#[trigger] listed()[j]).1 != listed()[7].1,
{
    lemma_listed_lengths();
    reveal(listed);
    let t = listed();
    reveal_strlit("tell me the time");
    reveal_strlit("what is the time");
    assert(t[6].1[0] != t[7].1[0]);
    reveal_with_fuel(absent, 8);
    assert(absent(t, t[7].1, 7));
    lemma_absent(t, t[7].1, 7);
}

proof fn lemma_first_8()
    ensures
        forall|j: int| 0 <= j < 8 ==> (#[trigger] listed()[j]).1 != listed()[8].1,
{
    lemma_listed_lengths();
    reveal(listed);
    let t = listed();
    reveal_with_fuel(absent, 9);
    assert(absent(t, t[8].1, 8));
    lemma_absent(t, t[8].1, 8);
}

proof fn lemma_first_9()
    ensures
        forall|j: int| 0 <= j < 9 ==> (#[trigger] listed()[j]).1 != listed()[9].1,
{
    lemma_listed_lengths();
    reveal(listed);
    let t = listed();
    reveal_with_fuel(absent, 10);
    assert(absent(t, t[9].1, 9));
    lemma_absent(t, t[9].1, 9);
}

proof fn lemma_first_10()
    ensures
        forall|j: int| 0 <= j < 10 ==> (#[trigger] listed()[j]).1 != listed()[10].1,
{
    lemma_listed_lengths();
    reveal(listed);
    let t = listed();
    reveal_with_fuel(absent, 11);
    assert(absent(t, t[10].1, 10));
    lemma_absent(t, t[10].1, 10);
}

proof fn lemma_first_11()
    ensures
        forall|j: int| 0 <= j < 11 ==> (#[trigger] listed()[j]).1 != listed()[11].1,
{
    lemma_listed_lengths();
    reveal(listed);
    let t = listed();
    reveal_strlit("sysinfo");
    reveal_strlit("shut up");
    assert(t[2].1[1] != t[11].1[1]);
    reveal_strlit("silence");
    assert(t[3].1[1] != t[11].1[1]);
    reveal_with_fuel(absent, 12);
    assert(absent(t, t[11].1, 11));
    lemma_absent(t, t[11].1, 11);
}

proof fn lemma_first_12()
    ensures
        forall|j: int| 0 <= j < 12 ==> (#[trigger] listed()[j]).1 != listed()[12].1,
{
    lemma_listed_lengths();
    reveal(listed);
    let t = listed();
    reveal_with_fuel(absent, 13);
    assert(absent(t, t[12].1, 12));
    lemma_absent(t, t[12].1, 12);
}

proof fn lemma_first_13()
    ensures
        forall|j: int| 0 <= j < 13 ==> (#[trigger] listed()[j]).1 != listed()[13].1,
{
    lemma_listed_lengths();
    reveal(listed);
    let t = listed();
    reveal_strlit("статистика");
    reveal_strlit("statistics");
    assert(t[9].1[0] != t[13].1[0]);
    reveal_with_fuel(absent, 14);
    assert(absent(t, t[13].1, 13));
    lemma_absent(t, t[13].1, 13);
}

proof fn lemma_first_14()
    ensures
        forall|j: int| 0 <= j < 14 ==> (#[trigger] listed()[j]).1 != listed()[14].1,
{
    lemma_listed_lengths();
    reveal(listed);
    let t = listed();
    reveal_strlit("close window");
    reveal_strlit("котра година");
    assert(t[8].1[0] != t[14].1[0]);
    reveal_with_fuel(absent, 15);
    assert(absent(t, t[14].1, 14));
    lemma_absent(t, t[14].1, 14);
}

proof fn lemma_first_15()
    ensures
        forall|j: int| 0 <= j < 15 ==> (#[trigger] listed()[j]).1 != listed()[15].1,
{
    lemma_listed_lengths();
    reveal(listed);
    let t = listed();
    reveal_strlit("close");
    reveal_strlit("stats");
    assert(t[10].1[0] != t[15].1[0]);
    reveal_with_fuel(absent, 16);
    assert(absent(t, t[15].1, 15));
    lemma_absent(t, t[15].1, 15);
}

proof fn lemma_first_16()
    ensures
        forall|j: int| 0 <= j < 16 ==> (#[trigger] listed()[j]).1 != listed()[16].1,
{
    lemma_listed_lengths();
    reveal(listed);
    let t = listed();
    reveal_with_fuel(absent, 17);
    assert(absent(t, t[16].1, 16));
    lemma_absent(t, t[16].1, 16);
}

proof fn lemma_first_17()
    ensures
        forall|j: int| 0 <= j < 17 ==> (#[trigger] listed()[j]).1 != listed()[17].1,
{
    lemma_listed_lengths();
    reveal(listed);
    let t = listed();
    reveal_strlit("minimize window");
    reveal_strlit("what time is it");
    assert(t[5].1[0] != t[17].1[0]);
    reveal_with_fuel(absent, 18);
    assert(absent(t, t[17].1, 17));
    lemma_absent(t, t[17].1, 17);
}

proof fn lemma_first_18()
    ensures
        forall|j: int| 0 <= j < 18 ==> (#[trigger] listed()[j]).1 != listed()[18].1,
{
    lemma_listed_lengths();
    reveal(listed);
    let t = listed();
    reveal_strlit("hide");
    reveal_strlit("stop");
    assert(t[0].1[0] != t[18].1[0]);
    reveal_strlit("стоп");
    assert(t[4].1[0] != t[18].1[0]);
    reveal_with_fuel(absent, 19);
    assert(absent(t, t[18].1, 18));
    lemma_absent(t, t[18].1, 18);
}

proof fn lemma_first_19()
    ensures
        forall|j: int| 0 <= j < 19 ==> (#[trigger] listed()[j]).1 != listed()[19].1,
{
    lemma_listed_lengths();
    reveal(listed);
    let t = listed();
    reveal_with_fuel(absent, 20);
    assert(absent(t, t[19].1, 19));
    lemma_absent(t, t[19].1, 19);
}

proof fn lemma_first_20()
    ensures
        forall|j: int| 0 <= j < 20 ==> (#[trigger] listed()[j]).1 != listed()[20].1,
{
    lemma_listed_lengths();
    reveal(listed);
    let t = listed();
    reveal_strlit("open window");
    reveal_strlit("hide window");
    assert(t[16].1[0] != t[20].1[0]);
    reveal_with_fuel(absent, 21);
    assert(absent(t, t[20].1, 20));
    lemma_absent(t, t[20].1, 20);
}

proof fn lemma_first_21()
    ensures
        forall|j: int| 0 <= j < 21 ==> (#[trigger] listed()[j]).1 != listed()[21].1,
{
    lemma_listed_lengths();
    reveal(listed);
    let t = listed();
    reveal_strlit("show window");
    reveal_strlit("hide window");
    assert(t[16].1[0] != t[21].1[0]);
    reveal_strlit("open window");
    assert(t[20].1[0] != t[21].1[0]);
    reveal_with_fuel(absent, 22);
    assert(absent(t, t[21].1, 21));
    lemma_absent(t, t[21].1, 21);
}

proof fn lemma_first_22()
    ensures
        forall|j: int| 0 <= j < 22 ==> (#[trigger] listed()[j]).1 != listed()[22].1,
{
    lemma_listed_lengths();
    reveal(listed);
    let t = listed();
    reveal_strlit("open");
    reveal_strlit("stop");
    assert(t[0].1[0] != t[22].1[0]);
    reveal_strlit("стоп");
    assert(t[4].1[0] != t[22].1[0]);
    reveal_strlit("hide");
    assert(t[18].1[0] != t[22].1[0]);
    reveal_with_fuel(absent, 23);
    assert(absent(t, t[22].1, 22));
    lemma_absent(t, t[22].1, 22);
}

proof fn lemma_first_23()
    ensures
        forall|j: int| 0 <= j < 23 ==> (#[trigger] listed()[j]).1 != listed()[23].1,
{
    lemma_listed_lengths();
    reveal(listed);
    let t = listed();
    reveal_strlit("show");
    reveal_strlit("stop");
    assert(t[0].1[1] != t[23].1[1]);
    reveal_strlit("стоп");
    assert(t[4].1[0] != t[23].1[0]);
    reveal_strlit("hide");
    assert(t[18].1[0] != t[23].1[0]);
    reveal_strlit("open");
    assert(t[22].1[0] != t[23].1[0]);
    reveal_with_fuel(absent, 24);
    assert(absent(t, t[23].1, 23));
    lemma_absent(t, t[23].1, 23);
}

proof fn lemma_first_24()
    ensures
        forall|j: int| 0 <= j < 24 ==> (#[trigger] listed()[j]).1 != listed()[24].1,
{
    lemma_listed_lengths();
    reveal(listed);
    let t = listed();
    reveal_strlit("screen analysis");
    reveal_strlit("what time is it");
    assert(t[5].1[0] != t[24].1[0]);
    reveal_strlit("minimize window");
    assert(t[17].1[0] != t[24].1[0]);
    reveal_with_fuel(absent, 25);
    assert(absent(t, t[24].1, 24));
    lemma_absent(t, t[24].1, 24);
}

proof fn lemma_first_25()
    ensures
        forall|j: int| 0 <= j < 25 ==> (#[trigger] listed()[j]).1 != listed()[25].1,
{
    lemma_listed_lengths();
    reveal(listed);
    let t = listed();
    reveal_with_fuel(absent, 26);
    assert(absent(t, t[25].1, 25));
    lemma_absent(t, t[25].1, 25);
}

proof fn lemma_first_26()
    ensures
        forall|j: int| 0 <= j < 26 ==> (#[trigger] listed()[j]).1 != listed()[26].1,
{
    lemma_listed_lengths();
    reveal(listed);
    let t = listed();
    reveal_strlit("check the screen");
    reveal_strlit("what is the time");
    assert(t[6].1[0] != t[26].1[0]);
    reveal_strlit("tell me the time");
    assert(t[7].1[0] != t[26].1[0]);
    reveal_with_fuel(absent, 27);
    assert(absent(t, t[26].1, 26));
    lemma_absent(t, t[26].1, 26);
}

proof fn lemma_first_27()
    ensures
        forall|j: int| 0 <= j < 27 ==> (#[trigger] listed()[j]).1 != listed()[27].1,
{
    lemma_listed_lengths();
    reveal(listed);
    let t = listed();
    reveal_strlit("що на екрані");
    reveal_strlit("котра година");
    assert(t[8].1[0] != t[27].1[0]);
    reveal_strlit("close window");
    assert(t[14].1[0] != t[27].1[0]);
    reveal_with_fuel(absent, 28);
    assert(absent(t, t[27].1, 27));
    lemma_absent(t, t[27].1, 27);
}

proof fn lemma_first_28()
    ensures
        forall|j: int| 0 <= j < 28 ==> (#[trigger] listed()[j]).1 != listed()[28].1,
{
    lemma_listed_lengths();
    reveal(listed);
    let t = listed();
    reveal_with_fuel(absent, 29);
    assert(absent(t, t[28].1, 28));
    lemma_absent(t, t[28].1, 28);
}

proof fn lemma_first_29()
    ensures
        forall|j: int| 0 <= j < 29 ==> (#[trigger] listed()[j]).1 != listed()[29].1,
{
    lemma_listed_lengths();
    reveal(listed);
    let t = listed();
    reveal_with_fuel(absent, 30);
    assert(absent(t, t[29].1, 29));
    lemma_absent(t, t[29].1, 29);
}

proof fn lemma_first_30()
    ensures
        forall|j: int| 0 <= j < 30 ==> (#[trigger] listed()[j]).1 != listed()[30].1,
{
    lemma_listed_lengths();
    reveal(listed);
    let t = listed();
    reveal_with_fuel(absent, 31);
    assert(absent(t, t[30].1, 30));
    lemma_absent(t, t[30].1, 30);
}

proof fn lemma_first_31()
    ensures
        forall|j: int| 0 <= j < 31 ==> (#[trigger] listed()[j]).1 != listed()[31].1,
{
    lemma_listed_lengths();
    reveal(listed);
    let t = listed();
    reveal_strlit("toggle sound");
    reveal_strlit("котра година");
    assert(t[8].1[0] != t[31].1[0]);
    reveal_strlit("close window");
    assert(t[14].1[0] != t[31].1[0]);
    reveal_strlit("що на екрані");
    assert(t[27].1[0] != t[31].1[0]);
    reveal_with_fuel(absent, 32);
    assert(absent(t, t[31].1, 31));
    lemma_absent(t, t[31].1, 31);
}

proof fn lemma_first_32()
    ensures
        forall|j: int| 0 <= j < 32 ==> (#[trigger] listed()[j]).1 != listed()[32].1,
{
    lemma_listed_lengths();
    reveal(listed);
    let t = listed();
    reveal_with_fuel(absent, 33);
    assert(absent(t, t[32].1, 32));
    lemma_absent(t, t[32].1, 32);
}

proof fn lemma_first_33()
    ensures
        forall|j: int| 0 <= j < 33 ==> (#[trigger] listed()[j]).1 != listed()[33].1,
{
    lemma_listed_lengths();
    reveal(listed);
    let t = listed();
    reveal_strlit("turn the sound off");
    reveal_strlit("system information");
    assert(t[12].1[0] != t[33].1[0]);
    reveal_with_fuel(absent, 34);
    assert(absent(t, t[33].1, 33));
    lemma_absent(t, t[33].1, 33);
}

proof fn lemma_first_34()
    ensures
        forall|j: int| 0 <= j < 34 ==> (#[trigger] listed()[j]).1 != listed()[34].1,
{
    lemma_listed_lengths();
    reveal(listed);
    let t = listed();
    reveal_with_fuel(absent, 35);
    assert(absent(t, t[34].1, 34));
    lemma_absent(t, t[34].1, 34);
}

proof fn lemma_first_35()
    ensures
        forall|j: int| 0 <= j < 35 ==> (#[trigger] listed()[j]).1 != listed()[35].1,
{
    lemma_listed_lengths();
    reveal(listed);
    let t = listed();
    reveal_strlit("turn off the music");
    reveal_strlit("system information");
    assert(t[12].1[0] != t[35].1[0]);
    reveal_strlit("turn the sound off");
    assert(t[33].1[5] != t[35].1[5]);
    reveal_with_fuel(absent, 36);
    assert(absent(t, t[35].1, 35));
    lemma_absent(t, t[35].1, 35);
}

proof fn lemma_first_36()
    ensures
        forall|j: int| 0 <= j < 36 ==> (#[trigger] listed()[j]).1 != listed()[36].1,
{
    lemma_listed_lengths();
    reveal(listed);
    let t = listed();
    reveal_strlit("turn on the music");
    reveal_strlit("turn the sound on");
    assert(t[32].1[5] != t[36].1[5]);
    reveal_with_fuel(absent, 37);
    assert(absent(t, t[36].1, 36));
    lemma_absent(t, t[36].1, 36);
}

proof fn lemma_first_37()
    ensures
        forall|j: int| 0 <= j < 37 ==> (#[trigger] listed()[j]).1 != listed()[37].1,
{
    lemma_listed_lengths();
    reveal(listed);
    let t = listed();
    reveal_strlit("toggle music");
    reveal_strlit("котра година");
    assert(t[8].1[0] != t[37].1[0]);
    reveal_strlit("close window");
    assert(t[14].1[0] != t[37].1[0]);
    reveal_strlit("що на екрані");
    assert(t[27].1[0] != t[37].1[0]);
    reveal_strlit("toggle sound");
    assert(t[31].1[7] != t[37].1[7]);
    reveal_with_fuel(absent, 38);
    assert(absent(t, t[37].1, 37));
    lemma_absent(t, t[37].1, 37);
}

proof fn lemma_first_38()
    ensures
        forall|j: int| 0 <= j < 38 ==> (#[trigger] listed()[j]).1 != listed()[38].1,
{
    lemma_listed_lengths();
    reveal(listed);
    let t = listed();
    reveal_strlit("play / pause");
    reveal_strlit("котра година");
    assert(t[8].1[0] != t[38].1[0]);
    reveal_strlit("close window");
    assert(t[14].1[0] != t[38].1[0]);
    reveal_strlit("що на екрані");
    assert(t[27].1[0] != t[38].1[0]);
    reveal_strlit("toggle sound");
    assert(t[31].1[0] != t[38].1[0]);
    reveal_strlit("toggle music");
    assert(t[37].1[0] != t[38].1[0]);
    reveal_with_fuel(absent, 39);
    assert(absent(t, t[38].1, 38));
    lemma_absent(t, t[38].1, 38);
}

proof fn lemma_first_39()
    ensures
        forall|j: int| 0 <= j < 39 ==> (#[trigger] listed()[j]).1 != listed()[39].1,
{
    lemma_listed_lengths();
    reveal(listed);
    let t = listed();
    reveal_with_fuel(absent, 40);
    assert(absent(t, t[39].1, 39));
    lemma_absent(t, t[39].1, 39);
}

proof fn lemma_first_40()
    ensures
        forall|j: int| 0 <= j < 40 ==> (#[trigger] listed()[j]).1 != listed()[40].1,
{
    lemma_listed_lengths();
    reveal(listed);
    let t = listed();
    reveal_with_fuel(absent, 41);
    assert(absent(t, t[40].1, 40));
    lemma_absent(t, t[40].1, 40);
}

proof fn lemma_first_41()
    ensures
        forall|j: int| 0 <= j < 41 ==> (#[trigger] listed()[j]).1 != listed()[41].1,
{
    lemma_listed_lengths();
    reveal(listed);
    let t = listed();
    reveal_strlit("next track");
    reveal_strlit("statistics");
    assert(t[9].1[0] != t[41].1[0]);
    reveal_strlit("статистика");
    assert(t[13].1[0] != t[41].1[0]);
    reveal_with_fuel(absent, 42);
    assert(absent(t, t[41].1, 41));
    lemma_absent(t, t[41].1, 41);
}

proof fn lemma_first_42()
    ensures
        forall|j: int| 0 <= j < 42 ==> (#[trigger] listed()[j]).1 != listed()[42].1,
{
    lemma_listed_lengths();
    reveal(listed);
    let t = listed();
    reveal_strlit("наступний трек");
    reveal_strlit("увімкнути звук");
    assert(t[34].1[0] != t[42].1[0]);
    reveal_with_fuel(absent, 43);
    assert(absent(t, t[42].1, 42));
    lemma_absent(t, t[42].1, 42);
}

proof fn lemma_first_43()
    ensures
        forall|j: int| 0 <= j < 43 ==> (#[trigger] listed()[j]).1 != listed()[43].1,
{
    lemma_listed_lengths();
    reveal(listed);
    let t = listed();
    reveal_strlit("previous song");
    reveal_strlit("stop speaking");
    assert(t[1].1[0] != t[43].1[0]);
    reveal_with_fuel(absent, 44);
    assert(absent(t, t[43].1, 43));
    lemma_absent(t, t[43].1, 43);
}

proof fn lemma_first_44()
    ensures
        forall|j: int| 0 <= j < 44 ==> (#[trigger] listed()[j]).1 != listed()[44].1,
{
    lemma_listed_lengths();
    reveal(listed);
    let t = listed();
    reveal_strlit("previous track");
    reveal_strlit("увімкнути звук");
    assert(t[34].1[0] != t[44].1[0]);
    reveal_strlit("наступний трек");
    assert(t[42].1[0] != t[44].1[0]);
    reveal_with_fuel(absent, 45);
    assert(absent(t, t[44].1, 44));
    lemma_absent(t, t[44].1, 44);
}

proof fn lemma_first_45()
    ensures
        forall|j: int| 0 <= j < 45 ==> (#[trigger] listed()[j]).1 != listed()[45].1,
{
    lemma_listed_lengths();
    reveal(listed);
    let t = listed();
    reveal_strlit("prev song");
    reveal_strlit("next song");
    assert(t[40].1[0] != t[45].1[0]);
    reveal_with_fuel(absent, 46);
    assert(absent(t, t[45].1, 45));
    lemma_absent(t, t[45].1, 45);
}

proof fn lemma_first_46()
    ensures
        forall|j: int| 0 <= j < 46 ==> (#[trigger] listed()[j]).1 != listed()[46].1,
{
    lemma_listed_lengths();
    reveal(listed);
    let t = listed();
    reveal_strlit("prev track");
    reveal_strlit("statistics");
    assert(t[9].1[0] != t[46].1[0]);
    reveal_strlit("статистика");
    assert(t[13].1[0] != t[46].1[0]);
    reveal_strlit("next track");
    assert(t[41].1[0] != t[46].1[0]);
    reveal_with_fuel(absent, 47);
    assert(absent(t, t[46].1, 46));
    lemma_absent(t, t[46].1, 46);
}

proof fn lemma_first_47()
    ensures
        forall|j: int| 0 <= j < 47 ==> (#[trigger] listed()[j]).1 != listed()[47].1,
{
    lemma_listed_lengths();
    reveal(listed);
    let t = listed();
    reveal_strlit("попередній трек");
    reveal_strlit("what time is it");
    assert(t[5].1[0] != t[47].1[0]);
    reveal_strlit("minimize window");
    assert(t[17].1[0] != t[47].1[0]);
    reveal_strlit("screen analysis");
    assert(t[24].1[0] != t[47].1[0]);
    reveal_with_fuel(absent, 48);
    assert(absent(t, t[47].1, 47));
    lemma_absent(t, t[47].1, 47);
}

proof fn lemma_first_48()
    ensures
        forall|j: int| 0 <= j < 48 ==> (#[trigger] listed()[j]).1 != listed()[48].1,
{
    lemma_listed_lengths();
    reveal(listed);
    let t = listed();
    reveal_strlit("what is the song");
    reveal_strlit("what is the time");
    assert(t[6].1[12] != t[48].1[12]);
    reveal_strlit("tell me the time");
    assert(t[7].1[0] != t[48].1[0]);
    reveal_strlit("check the screen");
    assert(t[26].1[0] != t[48].1[0]);
    reveal_with_fuel(absent, 49);
    assert(absent(t, t[48].1, 48));
    lemma_absent(t, t[48].1, 48);
}

proof fn lemma_first_49()
    ensures
        forall|j: int| 0 <= j < 49 ==> (#[trigger] listed()[j]).1 != listed()[49].1,
{
    lemma_listed_lengths();
    reveal(listed);
    let t = listed();
    reveal_strlit("what's playing");
    reveal_strlit("увімкнути звук");
    assert(t[34].1[0] != t[49].1[0]);
    reveal_strlit("наступний трек");
    assert(t[42].1[0] != t[49].1[0]);
    reveal_strlit("previous track");
    assert(t[44].1[0] != t[49].1[0]);
    reveal_with_fuel(absent, 50);
    assert(absent(t, t[49].1, 49));
    lemma_absent(t, t[49].1, 49);
}

proof fn lemma_first_50()
    ensures
        forall|j: int| 0 <= j < 50 ==> (#[trigger] listed()[j]).1 != listed()[50].1,
{
    lemma_listed_lengths();
    reveal(listed);
    let t = listed();
    reveal_strlit("song name");
    reveal_strlit("next song");
    assert(t[40].1[0] != t[50].1[0]);
    reveal_strlit("prev song");
    assert(t[45].1[0] != t[50].1[0]);
    reveal_with_fuel(absent, 51);
    assert(absent(t, t[50].1, 50));
    lemma_absent(t, t[50].1, 50);
}

proof fn lemma_first_51()
    ensures
        forall|j: int| 0 <= j < 51 ==> (#[trigger] listed()[j]).1 != listed()[51].1,
{
    lemma_listed_lengths();
    reveal(listed);
    let t = listed();
    reveal_strlit("track name");
    reveal_strlit("statistics");
    assert(t[9].1[0] != t[51].1[0]);
    reveal_strlit("статистика");
    assert(t[13].1[0] != t[51].1[0]);
    reveal_strlit("next track");
    assert(t[41].1[0] != t[51].1[0]);
    reveal_strlit("prev track");
    assert(t[46].1[0] != t[51].1[0]);
    reveal_with_fuel(absent, 52);
    assert(absent(t, t[51].1, 51));
    lemma_absent(t, t[51].1, 51);
}

proof fn lemma_first_52()
    ensures
        forall|j: int| 0 <= j < 52 ==> (#[trigger] listed()[j]).1 != listed()[52].1,
{
    lemma_listed_lengths();
    reveal(listed);
    let t = listed();
    reveal_strlit("який трек");
    reveal_strlit("next song");
    assert(t[40].1[0] != t[52].1[0]);
    reveal_strlit("prev song");
    assert(t[45].1[0] != t[52].1[0]);
    reveal_strlit("song name");
    assert(t[50].1[0] != t[52].1[0]);
    reveal_with_fuel(absent, 53);
    assert(absent(t, t[52].1, 52));
    lemma_absent(t, t[52].1, 52);
}

proof fn lemma_first_53()
    ensures
        forall|j: int| 0 <= j < 53 ==> (#[trigger] listed()[j]).1 != listed()[53].1,
{
    lemma_listed_lengths();
    reveal(listed);
    let t = listed();
    reveal_strlit("type");
    reveal_strlit("stop");
    assert(t[0].1[0] != t[53].1[0]);
    reveal_strlit("стоп");
    assert(t[4].1[0] != t[53].1[0]);
    reveal_strlit("hide");
    assert(t[18].1[0] != t[53].1[0]);
    reveal_strlit("open");
    assert(t[22].1[0] != t[53].1[0]);
    reveal_strlit("show");
    assert(t[23].1[0] != t[53].1[0]);
    reveal_with_fuel(absent, 54);
    assert(absent(t, t[53].1, 53));
    lemma_absent(t, t[53].1, 53);
}

proof fn lemma_first_54()
    ensures
        forall|j: int| 0 <= j < 54 ==> (#[trigger] listed()[j]).1 != listed()[54].1,
{
    lemma_listed_lengths();
    reveal(listed);
    let t = listed();
    reveal_strlit("write");
    reveal_strlit("stats");
    assert(t[10].1[0] != t[54].1[0]);
    reveal_strlit("close");
    assert(t[15].1[0] != t[54].1[0]);
    reveal_with_fuel(absent, 55);
    assert(absent(t, t[54].1, 54));
    lemma_absent(t, t[54].1, 54);
}

proof fn lemma_first_55()
    ensures
        forall|j: int| 0 <= j < 55 ==> (#[trigger] listed()[j]).1 != listed()[55].1,
{
    lemma_listed_lengths();
    reveal(listed);
    let t = listed();
    reveal_strlit("input");
    reveal_strlit("stats");
    assert(t[10].1[0] != t[55].1[0]);
    reveal_strlit("close");
    assert(t[15].1[0] != t[55].1[0]);
    reveal_strlit("write");
    assert(t[54].1[0] != t[55].1[0]);
    reveal_with_fuel(absent, 56);
    assert(absent(t, t[55].1, 55));
    lemma_absent(t, t[55].1, 55);
}

proof fn lemma_first_56()
    ensures
        forall|j: int| 0 <= j < 56 ==> (#[trigger] listed()[j]).1 != listed()[56].1,
{
    lemma_listed_lengths();
    reveal(listed);
    let t = listed();
    reveal_strlit("remind me");
    reveal_strlit("next song");
    assert(t[40].1[0] != t[56].1[0]);
    reveal_strlit("prev song");
    assert(t[45].1[0] != t[56].1[0]);
    reveal_strlit("song name");
    assert(t[50].1[0] != t[56].1[0]);
    reveal_strlit("який трек");
    assert(t[52].1[0] != t[56].1[0]);
    reveal_with_fuel(absent, 57);
    assert(absent(t, t[56].1, 56));
    lemma_absent(t, t[56].1, 56);
}

proof fn lemma_first_57()
    ensures
        forall|j: int| 0 <= j < 57 ==> (#[trigger] listed()[j]).1 != listed()[57].1,
{
    lemma_listed_lengths();
    reveal(listed);
    let t = listed();
    reveal_strlit("reminder");
    reveal_strlit("minimize");
    assert(t[19].1[0] != t[57].1[0]);
    reveal_with_fuel(absent, 58);
    assert(absent(t, t[57].1, 57));
    lemma_absent(t, t[57].1, 57);
}

proof fn lemma_first_58()
    ensures
        forall|j: int| 0 <= j < 58 ==> (#[trigger] listed()[j]).1 != listed()[58].1,
{
    lemma_listed_lengths();
    reveal(listed);
    let t = listed();
    reveal_strlit("set a timer");
    reveal_strlit("hide window");
    assert(t[16].1[0] != t[58].1[0]);
    reveal_strlit("open window");
    assert(t[20].1[0] != t[58].1[0]);
    reveal_strlit("show window");
    assert(t[21].1[1] != t[58].1[1]);
    reveal_with_fuel(absent, 59);
    assert(absent(t, t[58].1, 58));
    lemma_absent(t, t[58].1, 58);
}

proof fn lemma_first_59()
    ensures
        forall|j: int| 0 <= j < 59 ==> (#[trigger] listed()[j]).1 != listed()[59].1,
{
    lemma_listed_lengths();
    reveal(listed);
    let t = listed();
    reveal_strlit("set a reminder");
    reveal_strlit("увімкнути звук");
    assert(t[34].1[0] != t[59].1[0]);
    reveal_strlit("наступний трек");
    assert(t[42].1[0] != t[59].1[0]);
    reveal_strlit("previous track");
    assert(t[44].1[0] != t[59].1[0]);
    reveal_strlit("what's playing");
    assert(t[49].1[0] != t[59].1[0]);
    reveal_with_fuel(absent, 60);
    assert(absent(t, t[59].1, 59));
    lemma_absent(t, t[59].1, 59);
}

proof fn lemma_first_60()
    ensures
        forall|j: int| 0 <= j < 60 ==> (#[trigger] listed()[j]).1 != listed()[60].1,
{
    lemma_listed_lengths();
    reveal(listed);
    let t = listed();
    reveal_strlit("нагадування");
    reveal_strlit("hide window");
    assert(t[16].1[0] != t[60].1[0]);
    reveal_strlit("open window");
    assert(t[20].1[0] != t[60].1[0]);
    reveal_strlit("show window");
    assert(t[21].1[0] != t[60].1[0]);
    reveal_strlit("set a timer");
    assert(t[58].1[0] != t[60].1[0]);
    reveal_with_fuel(absent, 61);
    assert(absent(t, t[60].1, 60));
    lemma_absent(t, t[60].1, 60);
}

proof fn lemma_first_61()
    ensures
        forall|j: int| 0 <= j < 61 ==> (#[trigger] listed()[j]).1 != listed()[61].1,
{
    lemma_listed_lengths();
    reveal(listed);
    let t = listed();
    reveal_strlit("open browser");
    reveal_strlit("котра година");
    assert(t[8].1[0] != t[61].1[0]);
    reveal_strlit("close window");
    assert(t[14].1[0] != t[61].1[0]);
    reveal_strlit("що на екрані");
    assert(t[27].1[0] != t[61].1[0]);
    reveal_strlit("toggle sound");
    assert(t[31].1[0] != t[61].1[0]);
    reveal_strlit("toggle music");
    assert(t[37].1[0] != t[61].1[0]);
    reveal_strlit("play / pause");
    assert(t[38].1[0] != t[61].1[0]);
    reveal_with_fuel(absent, 62);
    assert(absent(t, t[61].1, 61));
    lemma_absent(t, t[61].1, 61);
}

proof fn lemma_first_62()
    ensures
        forall|j: int| 0 <= j < 62 ==> (#[trigger] listed()[j]).1 != listed()[62].1,
{
    lemma_listed_lengths();
    reveal(listed);
    let t = listed();
    reveal_strlit("show browser");
    reveal_strlit("котра година");
    assert(t[8].1[0] != t[62].1[0]);
    reveal_strlit("close window");
    assert(t[14].1[0] != t[62].1[0]);
    reveal_strlit("що на екрані");
    assert(t[27].1[0] != t[62].1[0]);
    reveal_strlit("toggle sound");
    assert(t[31].1[0] != t[62].1[0]);
    reveal_strlit("toggle music");
    assert(t[37].1[0] != t[62].1[0]);
    reveal_strlit("play / pause");
    assert(t[38].1[0] != t[62].1[0]);
    reveal_strlit("open browser");
    assert(t[61].1[0] != t[62].1[0]);
    reveal_with_fuel(absent, 63);
    assert(absent(t, t[62].1, 62));
    lemma_absent(t, t[62].1, 62);
}

proof fn lemma_first_63()
    ensures
        forall|j: int| 0 <= j < 63 ==> (#[trigger] listed()[j]).1 != listed()[63].1,
{
    lemma_listed_lengths();
    reveal(listed);
    let t = listed();
    reveal_strlit("browser");
    reveal_strlit("shut up");
    assert(t[2].1[0] != t[63].1[0]);
    reveal_strlit("silence");
    assert(t[3].1[0] != t[63].1[0]);
    reveal_strlit("sysinfo");
    assert(t[11].1[0] != t[63].1[0]);
    reveal_with_fuel(absent, 64);
    assert(absent(t, t[63].1, 63));
    lemma_absent(t, t[63].1, 63);
}

proof fn lemma_first_64()
    ensures
        forall|j: int| 0 <= j < 64 ==> (#[trigger] listed()[j]).1 != listed()[64].1,
{
    lemma_listed_lengths();
    reveal(listed);
    let t = listed();
    reveal_strlit("відкрий браузер");
    reveal_strlit("what time is it");
    assert(t[5].1[0] != t[64].1[0]);
    reveal_strlit("minimize window");
    assert(t[17].1[0] != t[64].1[0]);
    reveal_strlit("screen analysis");
    assert(t[24].1[0] != t[64].1[0]);
    reveal_strlit("попередній трек");
    assert(t[47].1[0] != t[64].1[0]);
    reveal_with_fuel(absent, 65);
    assert(absent(t, t[64].1, 64));
    lemma_absent(t, t[64].1, 64);
}

/// No phrase of the list comes before its first place.
proof fn lemma_first(k: int)
    requires
        0 <= k < 65,
    ensures
        forall|j: int| 0 <= j < k ==> (#[trigger] listed()[j]).1 != listed()[k].1,
{
    if k == 0 {
        lemma_first_0();
    } else if k == 1 {
        lemma_first_1();
    } else if k == 2 {
        lemma_first_2();
    } else if k == 3 {
        lemma_first_3();
    } else if k == 4 {
        lemma_first_4();
    } else if k == 5 {
        lemma_first_5();
    } else if k == 6 {
        lemma_first_6();
    } else if k == 7 {
        lemma_first_7();
    } else if k == 8 {
        lemma_first_8();
    } else if k == 9 {
        lemma_first_9();
    } else if k == 10 {
        lemma_first_10();
    } else if k == 11 {
        lemma_first_11();
    } else if k == 12 {
        lemma_first_12();
    } else if k == 13 {
        lemma_first_13();
    } else if k == 14 {
        lemma_first_14();
    } else if k == 15 {
        lemma_first_15();
    } else if k == 16 {
        lemma_first_16();
    } else if k == 17 {
        lemma_first_17();
    } else if k == 18 {
        lemma_first_18();
    } else if k == 19 {
        lemma_first_19();
    } else if k == 20 {
        lemma_first_20();
    } else if k == 21 {
        lemma_first_21();
    } else if k == 22 {
        lemma_first_22();
    } else if k == 23 {
        lemma_first_23();
    } else if k == 24 {
        lemma_first_24();
    } else if k == 25 {
        lemma_first_25();
    } else if k == 26 {
        lemma_first_26();
    } else if k == 27 {
        lemma_first_27();
    } else if k == 28 {
        lemma_first_28();
    } else if k == 29 {
        lemma_first_29();
    } else if k == 30 {
        lemma_first_30();
    } else if k == 31 {
        lemma_first_31();
    } else if k == 32 {
        lemma_first_32();
    } else if k == 33 {
        lemma_first_33();
    } else if k == 34 {
        lemma_first_34();
    } else if k == 35 {
        lemma_first_35();
    } else if k == 36 {
        lemma_first_36();
    } else if k == 37 {
        lemma_first_37();
    } else if k == 38 {
        lemma_first_38();
    } else if k == 39 {
        lemma_first_39();
    } else if k == 40 {
        lemma_first_40();
    } else if k == 41 {
        lemma_first_41();
    } else if k == 42 {
        lemma_first_42();
    } else if k == 43 {
        lemma_first_43();
    } else if k == 44 {
        lemma_first_44();
    } else if k == 45 {
        lemma_first_45();
    } else if k == 46 {
        lemma_first_46();
    } else if k == 47 {
        lemma_first_47();
    } else if k == 48 {
        lemma_first_48();
    } else if k == 49 {
        lemma_first_49();
    } else if k == 50 {
        lemma_first_50();
    } else if k == 51 {
        lemma_first_51();
    } else if k == 52 {
        lemma_first_52();
    } else if k == 53 {
        lemma_first_53();
    } else if k == 54 {
        lemma_first_54();
    } else if k == 55 {
        lemma_first_55();
    } else if k == 56 {
        lemma_first_56();
    } else if k == 57 {
        lemma_first_57();
    } else if k == 58 {
        lemma_first_58();
    } else if k == 59 {
        lemma_first_59();
    } else if k == 60 {
        lemma_first_60();
    } else if k == 61 {
        lemma_first_61();
    } else if k == 62 {
        lemma_first_62();
    } else if k == 63 {
        lemma_first_63();
    } else if k == 64 {
        lemma_first_64();
    }
}


/// Two texts whose longest common subsequence is as long as each of them are equal.
proof fn lemma_lcs_full(a: Seq<char>, b: Seq<char>)
    requires
        crate::score::lcs(a, b) == a.len(),
        crate::score::lcs(a, b) == b.len(),
    ensures
        a == b,
    decreases a.len() + b.len(),
{
    if a.len() == 0 {
        assert(a =~= b);
    } else if a.last() == b.last() {
        lemma_lcs_full(a.drop_last(), b.drop_last());
        assert(a =~= a.drop_last().push(a.last()));
        assert(b =~= b.drop_last().push(b.last()));
    } else {
        lemma_lcs_bounds(a.drop_last(), b);
        lemma_lcs_bounds(a, b.drop_last());
    }
}

/// `0.7 * a + 0.3 * b` of two scores in `[0, 1]` is in `[0, 1]`; it is below 1
/// when `b` is, and it is 1 when both are.
proof fn lemma_weighted_unit(a: Score, b: Score)
    requires
        0 < a.den <= 2 * max_chars(),
        0 < b.den <= 2 * max_chars(),
        a.num <= a.den,
        b.num <= b.den,
    ensures
        crate::score::weighted_spec(a, b).den > 0,
        crate::score::weighted_spec(a, b).num <= crate::score::weighted_spec(a, b).den,
        b.num < b.den ==> crate::score::weighted_spec(a, b).num < crate::score::weighted_spec(a, b).den,
        a.num == a.den && b.num == b.den ==> crate::score::weighted_spec(a, b).num == crate::score::weighted_spec(a, b).den,
{
    assert(isize::MAX <= 0x7fff_ffff_ffff_ffff);
    let (an, ad, bn, bd) = (a.num as int, a.den as int, b.num as int, b.den as int);
    assert(an * bd <= ad * bd && bn * ad <= ad * bd && ad * bd > 0) by (nonlinear_arith)
        requires an <= ad, bn <= bd, ad > 0, bd > 0, an >= 0, bn >= 0;
    assert(ad * bd <= 0x1000_0000_0000_0000_0000_0000_0000_0000) by (nonlinear_arith)
        requires 0 < ad <= 0x4000_0000_0000_0000, 0 < bd <= 0x4000_0000_0000_0000;
    assert(bn < bd ==> bn * ad < ad * bd) by (nonlinear_arith)
        requires ad > 0, bn >= 0;
    assert(an == ad && bn == bd ==> an * bd == ad * bd && bn * ad == ad * bd) by (nonlinear_arith);
}

/// The score of a listed phrase `q` for an own-lower-case text `p`: in `[0, 1]`,
/// 1 exactly when `q` is `p`.
proof fn lemma_phrase_score_unit(p: Seq<char>, q: Seq<char>)
    requires
        lowercase(p) == p,
        lowercase(q) == q,
        0 < p.len() <= 32,
        0 < q.len() <= 32,
    ensures
        phrase_score(p, q).den > 0,
        phrase_score(p, q).num <= phrase_score(p, q).den,
        q != p ==> phrase_score(p, q).num < phrase_score(p, q).den,
        q == p ==> phrase_score(p, q).num == phrase_score(p, q).den,
{
    assert(isize::MAX >= 0x7fff_ffff);
    lemma_tsr_bounds(p, q);
    lemma_ratio_bounds(p, q);
    let r = score_of(ratio_spec(p, q));
    lemma_lcs_bounds(p, q);
    if q != p {
        if r.num == r.den {
            lemma_lcs_full(p, q);
        }
    } else {
        lemma_lcs_self(p);
        law_token_set_ratio_same_words(p, q);
    }
    lemma_weighted_unit(tsr_spec(p, q), r);
}

/// Comparing a score with a score of exactly 1.
proof fn lemma_vs_one(x: Score, one: Score)
    requires
        x.den > 0,
        one.num == one.den,
        one.den > 0,
    ensures
        x.lt(one) <==> x.num < x.den,
        one.lt(x) <==> x.den < x.num,
{
    let (xn, xd, d) = (x.num as int, x.den as int, one.den as int);
    assert(xn * d < d * xd <==> xn < xd) by (nonlinear_arith)
        requires d > 0;
    assert(d * xd < xn * d <==> xd < xn) by (nonlinear_arith)
        requires d > 0;
}

/// When the phrase at `ip` scores 1, those before it less, and all at most 1,
/// the best of the first `n > ip` phrases is the one at `ip`.
proof fn lemma_best_is_exact(t: Seq<char>, table: Seq<(Command, Seq<char>)>, ip: int, n: nat)
    requires
        0 <= ip < table.len(),
        n <= table.len(),
        phrase_score(t, table[ip].1).num == phrase_score(t, table[ip].1).den,
        forall|j: int| 0 <= j < table.len() ==> (#[trigger] phrase_score(t, table[j].1)).den > 0
            && phrase_score(t, table[j].1).num <= phrase_score(t, table[j].1).den,
        forall|j: int| 0 <= j < ip ==> (#[trigger] phrase_score(t, table[j].1)).num < phrase_score(t, table[j].1).den,
    ensures
        n <= ip ==> (best_upto(t, table, n) matches Some(b) ==> b.1.num < b.1.den && b.1.den > 0),
        n > ip ==> best_upto(t, table, n) == Some((table[ip].0, phrase_score(t, table[ip].1))),
    decreases n,
{
    if n > 0 {
        lemma_best_is_exact(t, table, ip, (n - 1) as nat);
        let one = phrase_score(t, table[ip].1);
        let sc = phrase_score(t, table[n - 1].1);
        let prev = best_upto(t, table, (n - 1) as nat);
        let cur = match prev {
            Some(b) => b.1,
            None => Score { num: 0, den: 1 },
        };
        assert(one.den > 0);
        lemma_vs_one(cur, one);
        lemma_vs_one(sc, one);
        if n - 1 < ip {
            assert(sc.num < sc.den);
            if cur.lt(sc) {
                assert(best_upto(t, table, n) == Some((table[n - 1].0, sc)));
            }
        } else if n - 1 == ip {
            assert(cur.num < cur.den);
            assert(cur.num * one.den < one.num * cur.den) by (nonlinear_arith)
                requires cur.num < cur.den, one.num == one.den, one.den > 0;
        } else {
            assert(prev == Some((table[ip].0, one)));
            assert(!one.lt(sc)) by (nonlinear_arith)
                requires sc.num <= sc.den, one.num == one.den, one.den > 0,
                    one.lt(sc) == (one.num * sc.den < sc.num * one.den);
        }
    }
}

/// In a table of own-lower-case phrases of 1 to 32 characters, a phrase that
/// does not occur earlier is the best match for itself, with a full score.
proof fn lemma_exact_wins(table: Seq<(Command, Seq<char>)>, k: int)
    requires
        0 <= k < table.len(),
        forall|j: int| 0 <= j < table.len() ==> lowercase(#[trigger] table[j].1) == table[j].1
            && 0 < table[j].1.len() <= 32,
        forall|j: int| 0 <= j < k ==> (#[trigger] table[j]).1 != table[k].1,
    ensures
        best_upto(table[k].1, table, table.len()) == Some((table[k].0, phrase_score(table[k].1, table[k].1))),
        phrase_score(table[k].1, table[k].1).num == phrase_score(table[k].1, table[k].1).den,
        phrase_score(table[k].1, table[k].1).den > 0,
{
    let p = table[k].1;
    assert(lowercase(table[k].1) == table[k].1);
    assert forall|j: int| 0 <= j < table.len() implies (#[trigger] phrase_score(p, table[j].1)).den > 0
        && phrase_score(p, table[j].1).num <= phrase_score(p, table[j].1).den
        && (table[j].1 != p ==> phrase_score(p, table[j].1).num < phrase_score(p, table[j].1).den)
        && (table[j].1 == p ==> phrase_score(p, table[j].1).num == phrase_score(p, table[j].1).den) by {
        assert(lowercase(table[j].1) == table[j].1);
        lemma_phrase_score_unit(p, table[j].1);
    }
    assert forall|j: int| 0 <= j < k implies (#[trigger] phrase_score(p, table[j].1)).num < phrase_score(p, table[j].1).den by {
        assert(table[j].1 != p);
    }
    lemma_best_is_exact(p, table, k, table.len());
}

/// Each phrase of the list calls its own command, with a full score: for every
/// phrase `p` listed under a command `c`, `find_command(p)` gives `c` and 1.
/// (The phrases are their own lower case, as `str::to_lowercase` leaves them.)
pub proof fn law_phrases_find_their_commands(k: int)
    requires
        0 <= k < listed().len(),
        forall|j: int| 0 <= j < listed().len() ==> lowercase(#[trigger] listed()[j].1) == listed()[j].1,
    ensures
        find_command_spec(listed()[k].1) matches Some((c, s)) && c == listed()[k].0 && s.num == s.den && s.den > 0,
{
    lemma_table_is_listed();
    lemma_listed_short();
    lemma_first(k);
    let table = listed();
    lemma_exact_wins(table, k);
    let p = table[k].1;
    let s = phrase_score(p, p);
    assert(lowercase(p) == p);
    assert(!s.lt(command_threshold())) by (nonlinear_arith)
        requires s.num == s.den, s.den > 0, s.lt(command_threshold()) == (s.num * 100 < 55 * s.den);
}

} // verus!
