use vstd::prelude::*;
use crate::text::{
    chars_of, join, join_words, lemma_join_len, lemma_words_weight, lowercase, max_chars,
    same_chars, split_words, to_lowercase, views, weight, words,
};
use crate::score::{max_spec, ratio, ratio_spec, score_max, score_of, Score};

verus! {

// ---------------------------------------------------------------------------
// Lexicographic order on character sequences: the order of `str` (UTF-8 bytes
// compare as code points do).

pub open spec fn lex_lt(a: Seq<char>, b: Seq<char>) -> bool
    decreases a.len(),
{
    if a.len() == 0 {
        b.len() > 0
    } else if b.len() == 0 {
        false
    } else if a[0] == b[0] {
        lex_lt(a.skip(1), b.skip(1))
    } else {
        (a[0] as int) < (b[0] as int)
    }
}

pub proof fn lemma_lex_irreflexive(a: Seq<char>)
    ensures
        !lex_lt(a, a),
    decreases a.len(),
{
    if a.len() > 0 {
        lemma_lex_irreflexive(a.skip(1));
    }
}

pub proof fn lemma_lex_asymmetric(a: Seq<char>, b: Seq<char>)
    ensures
        lex_lt(a, b) ==> !lex_lt(b, a),
    decreases a.len(),
{
    if a.len() > 0 && b.len() > 0 && a[0] == b[0] {
        lemma_lex_asymmetric(a.skip(1), b.skip(1));
    }
}

pub proof fn lemma_lex_transitive(a: Seq<char>, b: Seq<char>, c: Seq<char>)
    requires
        lex_lt(a, b),
        lex_lt(b, c),
    ensures
        lex_lt(a, c),
    decreases a.len(),
{
    if a.len() > 0 && b.len() > 0 && c.len() > 0 && a[0] == b[0] && b[0] == c[0] {
        lemma_lex_transitive(a.skip(1), b.skip(1), c.skip(1));
    }
}

pub proof fn lemma_lex_total(a: Seq<char>, b: Seq<char>)
    ensures
        a != b ==> lex_lt(a, b) || lex_lt(b, a),
    decreases a.len(),
{
    if a.len() > 0 && b.len() > 0 && a[0] == b[0] {
        lemma_lex_total(a.skip(1), b.skip(1));
        if a.skip(1) == b.skip(1) {
            assert(a =~= seq![a[0]] + a.skip(1));
            assert(b =~= seq![b[0]] + b.skip(1));
        }
    } else if a.len() == 0 && b.len() == 0 {
        assert(a =~= b);
    } else if a.len() > 0 && b.len() > 0 {
        assert((a[0] as int) != (b[0] as int));
    }
}

/// Whether `a` comes before `b` in lexicographic order.
pub fn lex_less(a: &Vec<char>, b: &Vec<char>) -> (res: bool)
    ensures
        res == lex_lt(a@, b@),
{
    let mut i: usize = 0;
    assert(a@.skip(0) =~= a@);
    assert(b@.skip(0) =~= b@);
    loop
        invariant
            i <= a@.len(),
            i <= b@.len(),
            lex_lt(a@, b@) == lex_lt(a@.skip(i as int), b@.skip(i as int)),
        decreases a@.len() - i,
    {
        if i == a.len() {
            return i < b.len();
        }
        if i == b.len() {
            return false;
        }
        if a[i] != b[i] {
            return a[i] < b[i];
        }
        assert(a@.skip(i as int).skip(1) =~= a@.skip(i + 1));
        assert(b@.skip(i as int).skip(1) =~= b@.skip(i + 1));
        i = i + 1;
    }
}

// ---------------------------------------------------------------------------
// Word sets, kept as strictly sorted sequences (as `BTreeSet<&str>` keeps them).

pub open spec fn strictly_sorted(q: Seq<Seq<char>>) -> bool {
    forall|i: int, j: int| 0 <= i < j < q.len() ==> lex_lt(#[trigger] q[i], #[trigger] q[j])
}

pub open spec fn no_dups(q: Seq<Seq<char>>) -> bool {
    forall|i: int, j: int| 0 <= i < q.len() && 0 <= j < q.len() && i != j ==> #[trigger] q[i] != #[trigger] q[j]
}

/// The elements of a finite set of words, in increasing order, each once.
pub open spec fn sorted_of(s: Set<Seq<char>>) -> Seq<Seq<char>> {
    choose|q: Seq<Seq<char>>| strictly_sorted(q) && q.to_set() == s
}

pub proof fn lemma_sorted_no_dups(q: Seq<Seq<char>>)
    requires
        strictly_sorted(q),
    ensures
        no_dups(q),
{
    assert forall|i: int, j: int| 0 <= i < q.len() && 0 <= j < q.len() && i != j implies #[trigger] q[i] != #[trigger] q[j] by {
        if i < j {
            lemma_lex_irreflexive(q[i]);
        } else {
            lemma_lex_irreflexive(q[j]);
        }
    }
}

/// A finite set of words has exactly one strictly sorted listing.
pub proof fn lemma_sorted_unique(q1: Seq<Seq<char>>, q2: Seq<Seq<char>>)
    requires
        strictly_sorted(q1),
        strictly_sorted(q2),
        q1.to_set() == q2.to_set(),
    ensures
        q1 == q2,
    decreases q1.len(),
{
    if q1.len() == 0 {
        if q2.len() > 0 {
            assert(q2.to_set().contains(q2[0]));
        }
        assert(q1 =~= q2);
        return;
    }
    assert(q1.to_set().contains(q1[0]));
    assert(q2.to_set().contains(q1[0]));
    let k = choose|k: int| 0 <= k < q2.len() && q2[k] == q1[0];
    assert(q2.to_set().contains(q2[0]));
    assert(q1.to_set().contains(q2[0]));
    let m = choose|m: int| 0 <= m < q1.len() && q1[m] == q2[0];
    if k > 0 && m > 0 {
        assert(lex_lt(q2[0], q2[k]));
        assert(lex_lt(q1[0], q1[m]));
        lemma_lex_asymmetric(q1[0], q2[0]);
    } else if k > 0 {
        assert(q1[0] == q2[0]);
    }
    assert(q1[0] == q2[0]);
    let r1 = q1.skip(1);
    let r2 = q2.skip(1);
    lemma_sorted_no_dups(q1);
    lemma_sorted_no_dups(q2);
    assert forall|x: Seq<char>| r1.contains(x) <==> r2.contains(x) by {
        if r1.contains(x) {
            let i = choose|i: int| 0 <= i < r1.len() && r1[i] == x;
            assert(q1[i + 1] == x);
            assert(q1.to_set().contains(x));
            assert(q2.to_set().contains(x));
            let j = choose|j: int| 0 <= j < q2.len() && q2[j] == x;
            assert(j != 0);
            assert(r2[j - 1] == x);
        }
        if r2.contains(x) {
            let i = choose|i: int| 0 <= i < r2.len() && r2[i] == x;
            assert(q2[i + 1] == x);
            assert(q2.to_set().contains(x));
            assert(q1.to_set().contains(x));
            let j = choose|j: int| 0 <= j < q1.len() && q1[j] == x;
            assert(j != 0);
            assert(r1[j - 1] == x);
        }
    }
    assert(r1.to_set() =~= r2.to_set());
    assert(strictly_sorted(r1)) by {
        assert forall|i: int, j: int| 0 <= i < j < r1.len() implies lex_lt(#[trigger] r1[i], #[trigger] r1[j]) by {
            assert(r1[i] == q1[i + 1] && r1[j] == q1[j + 1]);
        }
    }
    assert(strictly_sorted(r2)) by {
        assert forall|i: int, j: int| 0 <= i < j < r2.len() implies lex_lt(#[trigger] r2[i], #[trigger] r2[j]) by {
            assert(r2[i] == q2[i + 1] && r2[j] == q2[j + 1]);
        }
    }
    lemma_sorted_unique(r1, r2);
    assert(q1 =~= seq![q1[0]] + r1);
    assert(q2 =~= seq![q2[0]] + r2);
}

/// `sorted_of(q.to_set())` is `q` itself, for a strictly sorted `q`.
pub proof fn lemma_sorted_of(q: Seq<Seq<char>>)
    requires
        strictly_sorted(q),
    ensures
        sorted_of(q.to_set()) == q,
{
    let s = q.to_set();
    assert(exists|x: Seq<Seq<char>>| strictly_sorted(x) && x.to_set() == s);
    let c = sorted_of(s);
    lemma_sorted_unique(c, q);
}

/// Whether `w` is one of the words in `ws`.
pub fn has_word(ws: &Vec<Vec<char>>, w: &Vec<char>) -> (res: bool)
    ensures
        res == views(ws@).contains(w@),
{
    let mut i: usize = 0;
    while i < ws.len()
        invariant
            i <= ws@.len(),
            forall|k: int| 0 <= k < i ==> views(ws@)[k] != w@,
        decreases ws@.len() - i,
    {
        if same_chars(&ws[i], w) {
            assert(views(ws@)[i as int] == w@);
            return true;
        }
        i = i + 1;
    }
    false
}

/// A copy of a character vector.
pub fn copy_chars(v: &Vec<char>) -> (res: Vec<char>)
    ensures
        res@ == v@,
{
    let mut res: Vec<char> = Vec::new();
    let mut i: usize = 0;
    while i < v.len()
        invariant
            i <= v@.len(),
            res@ == v@.take(i as int),
        decreases v@.len() - i,
    {
        res.push(v[i]);
        assert(v@.take(i + 1) =~= v@.take(i as int).push(v@[i as int]));
        i = i + 1;
    }
    assert(v@.take(v@.len() as int) =~= v@);
    res
}

/// The distinct words of `ws`, in increasing order.
pub fn sorted_unique(ws: &Vec<Vec<char>>) -> (res: Vec<Vec<char>>)
    ensures
        strictly_sorted(views(res@)),
        views(res@).to_set() == views(ws@).to_set(),
{
    let mut res: Vec<Vec<char>> = Vec::new();
    let mut i: usize = 0;
    while i < ws.len()
        invariant
            i <= ws@.len(),
            strictly_sorted(views(res@)),
            views(res@).to_set() == views(ws@).take(i as int).to_set(),
        decreases ws@.len() - i,
    {
        let w = &ws[i];
        let mut pos: usize = 0;
        while pos < res.len() && lex_less(&res[pos], w)
            invariant
                pos <= res@.len(),
                forall|k: int| 0 <= k < pos ==> lex_lt(#[trigger] views(res@)[k], w@),
            decreases res@.len() - pos,
        {
            pos = pos + 1;
        }
        let ghost old_res = views(res@);
        assert(views(ws@).take(i + 1) =~= views(ws@).take(i as int).push(w@));
        if pos < res.len() && same_chars(&res[pos], w) {
            assert(old_res[pos as int] == w@);
            assert(views(res@).to_set() =~= views(ws@).take(i + 1).to_set());
        } else {
            // every element from `pos` on is greater than `w`
            assert forall|k: int| pos <= k < old_res.len() implies lex_lt(w@, #[trigger] old_res[k]) by {
                lemma_lex_total(old_res[pos as int], w@);
                if k > pos {
                    lemma_lex_transitive(w@, old_res[pos as int], old_res[k]);
                }
            }
            res.insert(pos, copy_chars(w));
            let ghost new_res = views(res@);
            assert(new_res =~= old_res.insert(pos as int, w@));
            assert forall|a: int, b: int| 0 <= a < b < new_res.len() implies lex_lt(#[trigger] new_res[a], #[trigger] new_res[b]) by {
                if b < pos {
                } else if b == pos {
                } else if a < pos {
                    lemma_lex_transitive(new_res[a], w@, new_res[b]);
                } else if a == pos {
                } else {
                }
            }
            assert(views(ws@).take(i + 1).to_set() == views(ws@).take(i as int).to_set().insert(w@)) by {
                views(ws@).take(i as int).lemma_push_to_set_commute(w@);
            }
            assert(new_res.to_set() =~= views(ws@).take(i + 1).to_set()) by {
                assert forall|x: Seq<char>| new_res.to_set().contains(x) <==> old_res.to_set().insert(w@).contains(x) by {
                    if new_res.contains(x) {
                        let k = choose|k: int| 0 <= k < new_res.len() && new_res[k] == x;
                        if k < pos {
                            assert(old_res[k] == x);
                        } else if k > pos {
                            assert(old_res[k - 1] == x);
                        }
                    }
                    if old_res.contains(x) {
                        let k = choose|k: int| 0 <= k < old_res.len() && old_res[k] == x;
                        if k < pos {
                            assert(new_res[k] == x);
                        } else {
                            assert(new_res[k + 1] == x);
                        }
                    }
                    if x == w@ {
                        assert(new_res[pos as int] == x);
                    }
                }
            }
        }
        i = i + 1;
    }
    assert(views(ws@).take(ws@.len() as int) =~= views(ws@));
    res
}

/// The words of the strictly sorted `ws` that are in `other` (when `inside`) or
/// that are not (otherwise), in the same order.
pub fn select_words(ws: &Vec<Vec<char>>, other: &Vec<Vec<char>>, inside: bool) -> (res: Vec<Vec<char>>)
    requires
        strictly_sorted(views(ws@)),
    ensures
        strictly_sorted(views(res@)),
        views(res@).to_set() == views(ws@).to_set().filter(|x: Seq<char>| views(other@).contains(x) == inside),
{
    let mut res: Vec<Vec<char>> = Vec::new();
    let mut i: usize = 0;
    while i < ws.len()
        invariant
            i <= ws@.len(),
            strictly_sorted(views(ws@)),
            strictly_sorted(views(res@)),
            forall|a: int, j: int| 0 <= a < res@.len() && i <= j < ws@.len() ==> lex_lt(#[trigger] views(res@)[a], #[trigger] views(ws@)[j]),
            forall|x: Seq<char>| views(res@).contains(x) <==> (views(ws@).take(i as int).contains(x) && views(other@).contains(x) == inside),
        decreases ws@.len() - i,
    {
        let ghost old_res = views(res@);
        let ghost wi = views(ws@)[i as int];
        let ghost pre0 = views(ws@).take(i as int);
        let ghost pre1 = views(ws@).take(i + 1);
        assert(pre1 =~= pre0.push(wi));
        if has_word(other, &ws[i]) == inside {
            res.push(copy_chars(&ws[i]));
            assert(views(res@) =~= old_res.push(wi));
            assert forall|a: int, j: int| 0 <= a < res@.len() && i + 1 <= j < ws@.len() implies lex_lt(#[trigger] views(res@)[a], #[trigger] views(ws@)[j]) by {
                if a < old_res.len() {
                    assert(lex_lt(old_res[a], views(ws@)[j]));
                } else {
                    assert(lex_lt(views(ws@)[i as int], views(ws@)[j]));
                }
            }
            assert forall|x: Seq<char>| views(res@).contains(x) <==> (pre1.contains(x) && views(other@).contains(x) == inside) by {
                if views(res@).contains(x) {
                    let k = choose|k: int| 0 <= k < views(res@).len() && views(res@)[k] == x;
                    if k < old_res.len() {
                        assert(old_res[k] == x);
                        assert(old_res.contains(x));
                        let m = choose|m: int| 0 <= m < i && pre0[m] == x;
                        assert(pre1[m] == x);
                    } else {
                        assert(pre1[i as int] == x);
                    }
                }
                if pre1.contains(x) && views(other@).contains(x) == inside {
                    let m = choose|m: int| 0 <= m < i + 1 && pre1[m] == x;
                    if m < i {
                        assert(pre0[m] == x);
                        assert(old_res.contains(x));
                        let k = choose|k: int| 0 <= k < old_res.len() && old_res[k] == x;
                        assert(views(res@)[k] == x);
                    } else {
                        assert(views(res@)[old_res.len() as int] == x);
                    }
                }
            }
        } else {
            assert forall|x: Seq<char>| views(res@).contains(x) <==> (pre1.contains(x) && views(other@).contains(x) == inside) by {
                if views(res@).contains(x) {
                    let m = choose|m: int| 0 <= m < i && pre0[m] == x;
                    assert(pre1[m] == x);
                }
                if pre1.contains(x) && views(other@).contains(x) == inside {
                    let m = choose|m: int| 0 <= m < i + 1 && pre1[m] == x;
                    if m < i {
                        assert(pre0[m] == x);
                    } else {
                        assert(x == wi);
                    }
                }
            }
        }
        i = i + 1;
    }
    assert(views(ws@).take(ws@.len() as int) =~= views(ws@));
    assert(views(res@).to_set() =~= views(ws@).to_set().filter(|x: Seq<char>| views(other@).contains(x) == inside));
    res
}


// ---------------------------------------------------------------------------
// Room taken by word lists.

pub proof fn lemma_weight_remove(u: Seq<Seq<char>>, i: int)
    requires
        0 <= i < u.len(),
    ensures
        weight(u) == weight(u.remove(i)) + u[i].len() + 1,
    decreases u.len(),
{
    if i == u.len() - 1 {
        assert(u.remove(i) =~= u.drop_last());
    } else {
        lemma_weight_remove(u.drop_last(), i);
        assert(u.remove(i).drop_last() =~= u.drop_last().remove(i));
        assert(u.remove(i).last() == u.last());
    }
}

/// Distinct words that all occur in `w` take no more room than `w` does.
pub proof fn lemma_weight_subset(u: Seq<Seq<char>>, w: Seq<Seq<char>>)
    requires
        no_dups(u),
        forall|k: int| 0 <= k < u.len() ==> w.contains(#[trigger] u[k]),
    ensures
        weight(u) <= weight(w),
    decreases w.len(),
{
    if w.len() == 0 {
        if u.len() > 0 {
            assert(w.contains(u[0]));
        }
        return;
    }
    let x = w.last();
    let w2 = w.drop_last();
    if u.contains(x) {
        let i = choose|i: int| 0 <= i < u.len() && u[i] == x;
        let u2 = u.remove(i);
        assert forall|k: int| 0 <= k < u2.len() implies w2.contains(#[trigger] u2[k]) by {
            let kk = if k < i { k } else { k + 1 };
            assert(u2[k] == u[kk]);
            assert(u[kk] != x);
            assert(w.contains(u[kk]));
            let m = choose|m: int| 0 <= m < w.len() && w[m] == u[kk];
            assert(m != w.len() - 1);
            assert(w2[m] == u[kk]);
        }
        assert(no_dups(u2)) by {
            assert forall|a: int, b: int| 0 <= a < u2.len() && 0 <= b < u2.len() && a != b implies #[trigger] u2[a] != #[trigger] u2[b] by {
                let aa = if a < i { a } else { a + 1 };
                let bb = if b < i { b } else { b + 1 };
                assert(u2[a] == u[aa] && u2[b] == u[bb]);
            }
        }
        lemma_weight_subset(u2, w2);
        lemma_weight_remove(u, i);
    } else {
        assert forall|k: int| 0 <= k < u.len() implies w2.contains(#[trigger] u[k]) by {
            assert(w.contains(u[k]));
            let m = choose|m: int| 0 <= m < w.len() && w[m] == u[k];
            assert(m != w.len() - 1);
            assert(w2[m] == u[k]);
        }
        lemma_weight_subset(u, w2);
    }
}

/// Joining distinct words of `s` gives a text no longer than `s`.
pub proof fn lemma_join_words_of(u: Seq<Seq<char>>, s: Seq<char>)
    requires
        no_dups(u),
        forall|k: int| 0 <= k < u.len() ==> words(s).contains(#[trigger] u[k]),
    ensures
        join(u).len() <= s.len(),
{
    lemma_weight_subset(u, words(s));
    lemma_words_weight(s);
    lemma_join_len(u);
}

/// The concatenation of two word lists.
pub fn concat_words(a: &Vec<Vec<char>>, b: &Vec<Vec<char>>) -> (res: Vec<Vec<char>>)
    ensures
        views(res@) == views(a@) + views(b@),
{
    let mut res: Vec<Vec<char>> = Vec::new();
    let mut i: usize = 0;
    while i < a.len()
        invariant
            i <= a@.len(),
            views(res@) == views(a@).take(i as int),
        decreases a@.len() - i,
    {
        let ghost old_res = views(res@);
        res.push(copy_chars(&a[i]));
        assert(views(res@) =~= old_res.push(a@[i as int]@));
        assert(views(a@).take(i + 1) =~= views(a@).take(i as int).push(a@[i as int]@));
        i = i + 1;
    }
    let mut j: usize = 0;
    while j < b.len()
        invariant
            i == a@.len(),
            j <= b@.len(),
            views(res@) == views(a@) + views(b@).take(j as int),
        decreases b@.len() - j,
    {
        let ghost old_res = views(res@);
        res.push(copy_chars(&b[j]));
        assert(views(res@) =~= old_res.push(b@[j as int]@));
        assert(views(b@).take(j + 1) =~= views(b@).take(j as int).push(b@[j as int]@));
        j = j + 1;
    }
    assert(views(a@).take(a@.len() as int) =~= views(a@));
    assert(views(b@).take(b@.len() as int) =~= views(b@));
    res
}

// ---------------------------------------------------------------------------
// The token set ratio.

/// The distinct lower-case words of `s`.
pub open spec fn word_set(s: Seq<char>) -> Set<Seq<char>> {
    words(lowercase(s)).to_set()
}

/// The three texts that the token set ratio compares: the shared words, the
/// shared words then those only in `a`, the shared words then those only in `b`;
/// each group in increasing order and joined by single spaces.
pub open spec fn tsr_texts(a: Seq<char>, b: Seq<char>) -> (Seq<char>, Seq<char>, Seq<char>) {
    let s1 = word_set(a);
    let s2 = word_set(b);
    let common = sorted_of(s1.intersect(s2));
    (
        join(common),
        join(common + sorted_of(s1.difference(s2))),
        join(common + sorted_of(s2.difference(s1))),
    )
}

/// The best of the three pairwise ratios of the texts of `tsr_texts`.
pub open spec fn tsr_spec(a: Seq<char>, b: Seq<char>) -> Score {
    let (t0, t1, t2) = tsr_texts(a, b);
    max_spec(
        score_of(ratio_spec(t0, t1)),
        max_spec(score_of(ratio_spec(t0, t2)), score_of(ratio_spec(t1, t2))),
    )
}

proof fn lemma_no_dups_concat(c: Seq<Seq<char>>, d: Seq<Seq<char>>, other: Set<Seq<char>>)
    requires
        no_dups(c),
        no_dups(d),
        forall|k: int| 0 <= k < c.len() ==> other.contains(#[trigger] c[k]),
        forall|k: int| 0 <= k < d.len() ==> !other.contains(#[trigger] d[k]),
    ensures
        no_dups(c + d),
{
    let cd = c + d;
    assert forall|i: int, j: int| 0 <= i < cd.len() && 0 <= j < cd.len() && i != j implies #[trigger] cd[i] != #[trigger] cd[j] by {
        if i < c.len() && j >= c.len() {
            assert(other.contains(c[i]));
            assert(!other.contains(d[j - c.len()]));
        } else if j < c.len() && i >= c.len() {
            assert(other.contains(c[j]));
            assert(!other.contains(d[i - c.len()]));
        } else if i < c.len() {
        } else {
            assert(cd[i] == d[i - c.len()] && cd[j] == d[j - c.len()]);
        }
    }
}

/// The token set ratio of two lower-cased word lists, given as character vectors.
pub fn token_set_ratio_chars(a: &Vec<char>, b: &Vec<char>) -> (res: Score)
    ensures
        res == tsr_spec(a@, b@),
        res.wf(),
        res.den <= 2 * max_chars(),
{
    let la = to_lowercase(a);
    let lb = to_lowercase(b);
    let wa = split_words(&la);
    let wb = split_words(&lb);
    let set1 = sorted_unique(&wa);
    let set2 = sorted_unique(&wb);
    let common = select_words(&set1, &set2, true);
    let diff1 = select_words(&set1, &set2, false);
    let diff2 = select_words(&set2, &set1, false);
    let ghost s1 = word_set(a@);
    let ghost s2 = word_set(b@);
    proof {
        assert forall|x: Seq<char>| views(set1@).contains(x) <==> s1.contains(x) by {
            assert(views(set1@).to_set().contains(x) == views(set1@).contains(x));
        }
        assert forall|x: Seq<char>| views(set2@).contains(x) <==> s2.contains(x) by {
            assert(views(set2@).to_set().contains(x) == views(set2@).contains(x));
        }
        assert(views(common@).to_set() =~= s1.intersect(s2));
        assert(views(diff1@).to_set() =~= s1.difference(s2));
        assert(views(diff2@).to_set() =~= s2.difference(s1));
        lemma_sorted_of(views(common@));
        lemma_sorted_of(views(diff1@));
        lemma_sorted_of(views(diff2@));
        lemma_sorted_no_dups(views(common@));
        lemma_sorted_no_dups(views(diff1@));
        lemma_sorted_no_dups(views(diff2@));
        assert forall|k: int| 0 <= k < views(common@).len() implies s2.contains(#[trigger] views(common@)[k]) && s1.contains(views(common@)[k]) by {
            assert(views(common@).to_set().contains(views(common@)[k]));
        }
        assert forall|k: int| 0 <= k < views(diff1@).len() implies !s2.contains(#[trigger] views(diff1@)[k]) && s1.contains(views(diff1@)[k]) by {
            assert(views(diff1@).to_set().contains(views(diff1@)[k]));
        }
        assert forall|k: int| 0 <= k < views(diff2@).len() implies !s1.contains(#[trigger] views(diff2@)[k]) && s2.contains(views(diff2@)[k]) by {
            assert(views(diff2@).to_set().contains(views(diff2@)[k]));
        }
        lemma_no_dups_concat(views(common@), views(diff1@), s2);
        lemma_no_dups_concat(views(common@), views(diff2@), s1);
        let c1 = views(common@) + views(diff1@);
        let c2 = views(common@) + views(diff2@);
        assert forall|k: int| 0 <= k < views(common@).len() implies words(la@).contains(#[trigger] views(common@)[k]) by {
            assert(s1.contains(views(common@)[k]));
        }
        assert forall|k: int| 0 <= k < c1.len() implies words(la@).contains(#[trigger] c1[k]) by {
            if k < views(common@).len() {
                assert(s1.contains(views(common@)[k]));
            } else {
                assert(c1[k] == views(diff1@)[k - views(common@).len()]);
                assert(s1.contains(c1[k]));
            }
        }
        assert forall|k: int| 0 <= k < c2.len() implies words(lb@).contains(#[trigger] c2[k]) by {
            if k < views(common@).len() {
                assert(s2.contains(views(common@)[k]));
            } else {
                assert(c2[k] == views(diff2@)[k - views(common@).len()]);
                assert(s2.contains(c2[k]));
            }
        }
        lemma_join_words_of(views(common@), la@);
        lemma_join_words_of(c1, la@);
        lemma_join_words_of(c2, lb@);
    }
    let t0 = join_words(&common);
    let t1 = join_words(&concat_words(&common, &diff1));
    let t2 = join_words(&concat_words(&common, &diff2));
    let r0 = ratio(&t0, &t1);
    let r1 = ratio(&t0, &t2);
    let r2 = ratio(&t1, &t2);
    score_max(r0, score_max(r1, r2))
}

/// The token set ratio of two texts: the best normalized Indel similarity among
/// the shared words and each text's full word set, ignoring case, order and repeats.
pub fn token_set_ratio(str1: &str, str2: &str) -> (res: Score)
    ensures
        res == tsr_spec(str1@, str2@),
        res.wf(),
{
    token_set_ratio_chars(&chars_of(str1), &chars_of(str2))
}


/// The shared words followed by the words only in one text, joined, are no longer
/// than that text.
pub proof fn lemma_concat_listing_len(c: Seq<Seq<char>>, d: Seq<Seq<char>>, other: Set<Seq<char>>, own: Set<Seq<char>>, s: Seq<char>)
    requires
        no_dups(c),
        no_dups(d),
        c.to_set() == own.intersect(other) || c.to_set() == other.intersect(own),
        d.to_set() == own.difference(other),
        own == words(s).to_set(),
    ensures
        join(c + d).len() <= s.len(),
        join(c).len() <= s.len(),
{
    assert forall|k: int| 0 <= k < c.len() implies other.contains(#[trigger] c[k]) && own.contains(c[k]) by {
        assert(c.to_set().contains(c[k]));
    }
    assert forall|k: int| 0 <= k < d.len() implies !other.contains(#[trigger] d[k]) && own.contains(d[k]) by {
        assert(d.to_set().contains(d[k]));
    }
    lemma_no_dups_concat(c, d, other);
    let cd = c + d;
    assert forall|k: int| 0 <= k < cd.len() implies words(s).contains(#[trigger] cd[k]) by {
        if k < c.len() {
            assert(own.contains(c[k]));
        } else {
            assert(cd[k] == d[k - c.len()]);
            assert(own.contains(cd[k]));
        }
    }
    assert forall|k: int| 0 <= k < c.len() implies words(s).contains(#[trigger] c[k]) by {
        assert(own.contains(c[k]));
    }
    lemma_join_words_of(cd, s);
    lemma_join_words_of(c, s);
}

} // verus!
