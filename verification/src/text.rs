use vstd::prelude::*;

verus! {

/// The largest number of `char`s that a `Vec<char>` can hold: a vector never
/// allocates more than `isize::MAX` bytes, and a `char` takes four.
pub open spec fn max_chars() -> int {
    isize::MAX as int / 4
}

/// Whether `c` has the Unicode `White_Space` property, which `char::is_whitespace`
/// tests: the 25 code points below.
pub open spec fn white_space(c: char) -> bool {
    let u = c as u32;
    ||| 0x09 <= u <= 0x0D
    ||| u == 0x20
    ||| u == 0x85
    ||| u == 0xA0
    ||| u == 0x1680
    ||| 0x2000 <= u <= 0x200A
    ||| u == 0x2028
    ||| u == 0x2029
    ||| u == 0x202F
    ||| u == 0x205F
    ||| u == 0x3000
}

/// The lower-case form of a text, as `str::to_lowercase` computes it.
pub uninterp spec fn lowercase(s: Seq<char>) -> Seq<char>;

/// Collects the characters of a string slice into a vector.
///
/// Trusted: calls `Iterator::collect` on `str::chars`. The contract claims that
/// the vector holds the characters of `s` in order, and that it is no longer
/// than a `Vec<char>` can be (std documents that a vector's allocation never
/// exceeds `isize::MAX` bytes).
#[verifier::external_body]
pub(crate) fn chars_of(s: &str) -> (res: Vec<char>)
    ensures
        res@ == s@,
        res@.len() <= max_chars(),
{
    s.chars().collect()
}

/// Builds a `String` from a vector of characters.
///
/// Trusted: calls `Iterator::collect` into a `String`; the contract claims the
/// string holds exactly these characters, in order.
#[verifier::external_body]
pub(crate) fn string_of(v: &Vec<char>) -> (res: String)
    ensures
        res@ == v@,
{
    v.iter().collect()
}

/// Whether `c` is white space.
pub fn is_whitespace(c: char) -> (res: bool)
    ensures
        res == white_space(c),
{
    let u = c as u32;
    (0x09 <= u && u <= 0x0D) || u == 0x20 || u == 0x85 || u == 0xA0 || u == 0x1680
        || (0x2000 <= u && u <= 0x200A) || u == 0x2028 || u == 0x2029 || u == 0x202F
        || u == 0x205F || u == 0x3000
}

/// Trusted: calls `str::to_lowercase` on the text that `s` holds and collects the
/// result into a vector. The contract names the result, and claims the bound that
/// every `Vec<char>` meets (see `max_chars`).
#[verifier::external_body]
pub(crate) fn to_lowercase(s: &Vec<char>) -> (res: Vec<char>)
    ensures
        res@ == lowercase(s@),
        res@.len() <= max_chars(),
{
    s.iter().collect::<String>().to_lowercase().chars().collect()
}

// ---------------------------------------------------------------------------
// Words, as `str::split_whitespace` yields them.

/// The words finished so far and the word under way, after reading `s` from the left.
pub open spec fn split_state(s: Seq<char>) -> (Seq<Seq<char>>, Seq<char>)
    decreases s.len(),
{
    if s.len() == 0 {
        (Seq::empty(), Seq::empty())
    } else {
        let (ws, cur) = split_state(s.drop_last());
        let c = s.last();
        if white_space(c) {
            if cur.len() > 0 {
                (ws.push(cur), Seq::empty())
            } else {
                (ws, Seq::empty())
            }
        } else {
            (ws, cur.push(c))
        }
    }
}

/// The maximal runs of non-whitespace characters of `s`, from left to right.
pub open spec fn words(s: Seq<char>) -> Seq<Seq<char>> {
    let (ws, cur) = split_state(s);
    if cur.len() > 0 {
        ws.push(cur)
    } else {
        ws
    }
}

/// The views of a sequence of character vectors.
pub open spec fn views(v: Seq<Vec<char>>) -> Seq<Seq<char>> {
    Seq::new(v.len(), |i: int| v[i]@)
}

/// Total length of a list of words, counting one separator after each word.
pub open spec fn weight(ws: Seq<Seq<char>>) -> int
    decreases ws.len(),
{
    if ws.len() == 0 {
        0
    } else {
        weight(ws.drop_last()) + ws.last().len() + 1
    }
}

/// The words joined by single spaces, as `[&str]::join(" ")` builds them.
pub open spec fn join(ws: Seq<Seq<char>>) -> Seq<char>
    decreases ws.len(),
{
    if ws.len() == 0 {
        Seq::empty()
    } else if ws.len() == 1 {
        ws[0]
    } else {
        join(ws.drop_last()).push(' ') + ws.last()
    }
}

pub proof fn lemma_split_state_weight(s: Seq<char>)
    ensures
        ({
            let (ws, cur) = split_state(s);
            weight(ws) + cur.len() <= s.len()
        }),
        forall|i: int| 0 <= i < split_state(s).0.len() ==> (#[trigger] split_state(s).0[i]).len() > 0,
    decreases s.len(),
{
    if s.len() > 0 {
        lemma_split_state_weight(s.drop_last());
        let (ws, cur) = split_state(s.drop_last());
        if white_space(s.last()) && cur.len() > 0 {
            assert(ws.push(cur).drop_last() =~= ws);
        }
    }
}

/// The words of `s` with one separator each take no more room than `s` plus one.
pub proof fn lemma_words_weight(s: Seq<char>)
    ensures
        weight(words(s)) <= s.len() + 1,
        forall|i: int| 0 <= i < words(s).len() ==> (#[trigger] words(s)[i]).len() > 0,
{
    lemma_split_state_weight(s);
    let (ws, cur) = split_state(s);
    if cur.len() > 0 {
        assert(ws.push(cur).drop_last() =~= ws);
    }
}

pub proof fn lemma_join_len(ws: Seq<Seq<char>>)
    ensures
        ws.len() == 0 ==> join(ws).len() == 0,
        ws.len() > 0 ==> join(ws).len() + 1 == weight(ws),
    decreases ws.len(),
{
    if ws.len() > 1 {
        lemma_join_len(ws.drop_last());
    } else if ws.len() == 1 {
        assert(ws.drop_last().len() == 0);
        assert(weight(ws.drop_last()) == 0);
        assert(ws.last() == ws[0]);
    }
}

/// Splits `s` into its words, as `str::split_whitespace` does.
pub fn split_words(s: &Vec<char>) -> (res: Vec<Vec<char>>)
    ensures
        views(res@) == words(s@),
{
    let mut ws: Vec<Vec<char>> = Vec::new();
    let mut cur: Vec<char> = Vec::new();
    let mut i: usize = 0;
    while i < s.len()
        invariant
            i <= s@.len(),
            (views(ws@), cur@) == split_state(s@.take(i as int)),
        decreases s@.len() - i,
    {
        let c = s[i];
        assert(s@.take(i + 1).drop_last() =~= s@.take(i as int));
        if is_whitespace(c) {
            if cur.len() > 0 {
                let ghost old_ws = ws@;
                ws.push(cur);
                assert(views(ws@) =~= views(old_ws).push(cur@));
            }
            cur = Vec::new();
        } else {
            cur.push(c);
        }
        i = i + 1;
    }
    assert(s@.take(s@.len() as int) =~= s@);
    if cur.len() > 0 {
        let ghost old_ws = ws@;
        ws.push(cur);
        assert(views(ws@) =~= views(old_ws).push(cur@));
    }
    ws
}

/// Joins words with single spaces.
pub fn join_words(ws: &Vec<Vec<char>>) -> (res: Vec<char>)
    ensures
        res@ == join(views(ws@)),
{
    let mut res: Vec<char> = Vec::new();
    let mut i: usize = 0;
    while i < ws.len()
        invariant
            i <= ws@.len(),
            res@ == join(views(ws@).take(i as int)),
        decreases ws@.len() - i,
    {
        assert(views(ws@).take(i + 1).drop_last() =~= views(ws@).take(i as int));
        if i > 0 {
            res.push(' ');
        }
        let w = &ws[i];
        let mut j: usize = 0;
        let ghost before = res@;
        while j < w.len()
            invariant
                j <= w@.len(),
                res@ == before + w@.take(j as int),
            decreases w@.len() - j,
        {
            res.push(w[j]);
            assert(w@.take(j + 1) =~= w@.take(j as int).push(w@[j as int]));
            j = j + 1;
        }
        assert(w@.take(w@.len() as int) =~= w@);
        if i == 0 {
            assert(res@ =~= join(views(ws@).take(1)));
        }
        i = i + 1;
    }
    assert(views(ws@).take(ws@.len() as int) =~= views(ws@));
    res
}

// ---------------------------------------------------------------------------
// Trimming, as `str::trim_start`, `str::trim_end` and `str::trim` do.

pub open spec fn trim_start(s: Seq<char>) -> Seq<char>
    decreases s.len(),
{
    if s.len() > 0 && white_space(s[0]) {
        trim_start(s.skip(1))
    } else {
        s
    }
}

pub open spec fn trim_end(s: Seq<char>) -> Seq<char>
    decreases s.len(),
{
    if s.len() > 0 && white_space(s.last()) {
        trim_end(s.drop_last())
    } else {
        s
    }
}

pub open spec fn trim(s: Seq<char>) -> Seq<char> {
    trim_end(trim_start(s))
}

/// `trim_start(s)` is a suffix of `s`.
pub proof fn lemma_trim_start_suffix(s: Seq<char>)
    ensures
        trim_start(s).len() <= s.len(),
        trim_start(s) =~= s.skip(s.len() - trim_start(s).len()),
    decreases s.len(),
{
    if s.len() > 0 && white_space(s[0]) {
        lemma_trim_start_suffix(s.skip(1));
    }
}

/// `trim_end(s)` is a prefix of `s`.
pub proof fn lemma_trim_end_prefix(s: Seq<char>)
    ensures
        trim_end(s).len() <= s.len(),
        trim_end(s) =~= s.take(trim_end(s).len() as int),
    decreases s.len(),
{
    if s.len() > 0 && white_space(s.last()) {
        lemma_trim_end_prefix(s.drop_last());
    }
}

/// Removes leading whitespace.
pub fn trimmed_start(s: &Vec<char>) -> (res: Vec<char>)
    ensures
        res@ == trim_start(s@),
{
    let mut k: usize = 0;
    assert(s@.skip(0) =~= s@);
    while k < s.len() && is_whitespace(s[k])
        invariant
            k <= s@.len(),
            trim_start(s@.skip(k as int)) == trim_start(s@),
        decreases s@.len() - k,
    {
        assert(s@.skip(k as int).skip(1) =~= s@.skip(k + 1));
        k = k + 1;
    }
    let mut res: Vec<char> = Vec::new();
    let mut j: usize = k;
    while j < s.len()
        invariant
            k <= j <= s@.len(),
            res@ == s@.subrange(k as int, j as int),
        decreases s@.len() - j,
    {
        res.push(s[j]);
        assert(s@.subrange(k as int, j + 1) =~= s@.subrange(k as int, j as int).push(s@[j as int]));
        j = j + 1;
    }
    assert(res@ =~= s@.skip(k as int));
    res
}

/// Removes leading and trailing whitespace.
pub fn trimmed(s: &Vec<char>) -> (res: Vec<char>)
    ensures
        res@ == trim(s@),
{
    let mut res = trimmed_start(s);
    while res.len() > 0 && is_whitespace(res[res.len() - 1])
        invariant
            trim_end(res@) == trim(s@),
        decreases res@.len(),
    {
        res.pop();
    }
    res
}

// ---------------------------------------------------------------------------
// Comparisons.

pub open spec fn starts_with(s: Seq<char>, prefix: Seq<char>) -> bool {
    prefix.len() <= s.len() && s.take(prefix.len() as int) == prefix
}

pub open spec fn contains_at(s: Seq<char>, needle: Seq<char>, i: int) -> bool {
    0 <= i && i + needle.len() <= s.len() && s.subrange(i, i + needle.len()) == needle
}

/// Whether `needle` occurs in `s`, as `str::contains` decides for a string pattern.
pub open spec fn contains(s: Seq<char>, needle: Seq<char>) -> bool {
    exists|i: int| contains_at(s, needle, i)
}

/// Whether the two vectors hold the same characters.
pub fn same_chars(a: &Vec<char>, b: &Vec<char>) -> (res: bool)
    ensures
        res == (a@ == b@),
{
    if a.len() != b.len() {
        return false;
    }
    let mut i: usize = 0;
    while i < a.len()
        invariant
            a@.len() == b@.len(),
            i <= a@.len(),
            a@.take(i as int) == b@.take(i as int),
        decreases a@.len() - i,
    {
        if a[i] != b[i] {
            assert(a@[i as int] != b@[i as int]);
            return false;
        }
        assert(a@.take(i + 1) =~= a@.take(i as int).push(a@[i as int]));
        assert(b@.take(i + 1) =~= b@.take(i as int).push(b@[i as int]));
        i = i + 1;
    }
    assert(a@.take(a@.len() as int) =~= a@);
    assert(b@.take(b@.len() as int) =~= b@);
    true
}

/// Whether `s` begins with `prefix`.
pub fn has_prefix(s: &Vec<char>, prefix: &Vec<char>) -> (res: bool)
    ensures
        res == starts_with(s@, prefix@),
{
    if prefix.len() > s.len() {
        return false;
    }
    let mut i: usize = 0;
    while i < prefix.len()
        invariant
            prefix@.len() <= s@.len(),
            i <= prefix@.len(),
            s@.take(i as int) == prefix@.take(i as int),
        decreases prefix@.len() - i,
    {
        if s[i] != prefix[i] {
            assert(s@.take(prefix@.len() as int)[i as int] != prefix@[i as int]);
            return false;
        }
        assert(s@.take(i + 1) =~= s@.take(i as int).push(s@[i as int]));
        assert(prefix@.take(i + 1) =~= prefix@.take(i as int).push(prefix@[i as int]));
        i = i + 1;
    }
    assert(prefix@.take(prefix@.len() as int) =~= prefix@);
    true
}

/// Whether `needle` occurs in `s`.
pub fn has_substring(s: &Vec<char>, needle: &Vec<char>) -> (res: bool)
    ensures
        res == contains(s@, needle@),
{
    if needle.len() > s.len() {
        assert forall|i: int| !contains_at(s@, needle@, i) by {}
        return false;
    }
    let last = s.len() - needle.len();
    let mut i: usize = 0;
    assert(s@.len() <= usize::MAX);
    loop
        invariant
            needle@.len() <= s@.len(),
            s@.len() <= usize::MAX,
            last == s@.len() - needle@.len(),
            i <= last,
            forall|k: int| 0 <= k < i ==> !contains_at(s@, needle@, k),
        decreases last - i,
    {
        let mut j: usize = 0;
        let mut same = true;
        assert(s@.subrange(i as int, i as int) =~= needle@.take(0));
        while j < needle.len()
            invariant
                needle@.len() <= s@.len(),
                s@.len() <= usize::MAX,
                i <= last,
                last == s@.len() - needle@.len(),
                j <= needle@.len(),
                same == (s@.subrange(i as int, i + j) == needle@.take(j as int)),
            decreases needle@.len() - j,
        {
            if s[i + j] != needle[j] {
                if same {
                    assert(s@.subrange(i as int, i + j + 1)[j as int] != needle@.take(j + 1)[j as int]);
                }
                same = false;
            } else if same {
                assert(s@.subrange(i as int, i + j + 1) =~= s@.subrange(i as int, i + j).push(s@[i + j]));
                assert(needle@.take(j + 1) =~= needle@.take(j as int).push(needle@[j as int]));
            }
            if !same {
                assert(s@.subrange(i as int, i + j + 1) != needle@.take(j + 1)) by {
                    if s@.subrange(i as int, i + j + 1) == needle@.take(j + 1) {
                        assert(s@.subrange(i as int, i + j) =~= s@.subrange(i as int, i + j + 1).drop_last());
                        assert(needle@.take(j as int) =~= needle@.take(j + 1).drop_last());
                    }
                }
            }
            j = j + 1;
        }
        assert(needle@.take(needle@.len() as int) =~= needle@);
        if same {
            assert(contains_at(s@, needle@, i as int));
            return true;
        }
        if i == last {
            assert forall|k: int| !contains_at(s@, needle@, k) by {
                if 0 <= k < i {
                } else if k == i {
                } else {
                }
            }
            return false;
        }
        i = i + 1;
    }
}


// ---------------------------------------------------------------------------
// Decimal numbers.

pub open spec fn digit_char(d: int) -> char {
    if d == 0 { '0' }
    else if d == 1 { '1' }
    else if d == 2 { '2' }
    else if d == 3 { '3' }
    else if d == 4 { '4' }
    else if d == 5 { '5' }
    else if d == 6 { '6' }
    else if d == 7 { '7' }
    else if d == 8 { '8' }
    else { '9' }
}

/// The decimal digits of `n`, as `{}` prints an unsigned integer.
pub open spec fn decimal(n: nat) -> Seq<char>
    decreases n,
{
    if n < 10 {
        seq![digit_char(n as int)]
    } else {
        decimal(n / 10).push(digit_char((n % 10) as int))
    }
}

/// `decimal(n)`, with zeros in front up to `width` characters.
pub open spec fn padded(n: nat, width: nat) -> Seq<char> {
    let d = decimal(n);
    if d.len() >= width {
        d
    } else {
        Seq::new((width - d.len()) as nat, |i: int| '0') + d
    }
}

pub fn digit(d: u64) -> (c: char)
    requires
        d < 10,
    ensures
        c == digit_char(d as int),
{
    if d == 0 { '0' }
    else if d == 1 { '1' }
    else if d == 2 { '2' }
    else if d == 3 { '3' }
    else if d == 4 { '4' }
    else if d == 5 { '5' }
    else if d == 6 { '6' }
    else if d == 7 { '7' }
    else if d == 8 { '8' }
    else { '9' }
}

pub proof fn lemma_decimal_len(n: nat)
    ensures
        1 <= decimal(n).len(),
        n < 10 ==> decimal(n).len() == 1,
        10 <= n < 100 ==> decimal(n).len() == 2,
        100 <= n < 1000 ==> decimal(n).len() == 3,
        1000 <= n < 10000 ==> decimal(n).len() == 4,
        n >= 10 ==> decimal(n).len() >= 2,
    decreases n,
{
    if n >= 10 {
        lemma_decimal_len(n / 10);
    }
}

/// The decimal digits of `n`.
pub fn decimal_chars(n: u64) -> (res: Vec<char>)
    ensures
        res@ == decimal(n as nat),
    decreases n,
{
    if n < 10 {
        let mut v: Vec<char> = Vec::new();
        v.push(digit(n));
        assert(v@ =~= seq![digit_char(n as int)]);
        v
    } else {
        let mut v = decimal_chars(n / 10);
        v.push(digit(n % 10));
        v
    }
}

/// The decimal digits of `n`, with zeros in front up to `width` characters.
pub fn padded_chars(n: u64, width: usize) -> (res: Vec<char>)
    ensures
        res@ == padded(n as nat, width as nat),
{
    let d = decimal_chars(n);
    if d.len() >= width {
        return d;
    }
    let mut res: Vec<char> = Vec::new();
    let fill = width - d.len();
    let mut i: usize = 0;
    while i < fill
        invariant
            i <= fill,
            res@ == Seq::new(i as nat, |k: int| '0'),
        decreases fill - i,
    {
        res.push('0');
        assert(res@ =~= Seq::new((i + 1) as nat, |k: int| '0'));
        i = i + 1;
    }
    let mut j: usize = 0;
    while j < d.len()
        invariant
            i == fill,
            j <= d@.len(),
            res@ == Seq::new(fill as nat, |k: int| '0') + d@.take(j as int),
        decreases d@.len() - j,
    {
        res.push(d[j]);
        assert(d@.take(j + 1) =~= d@.take(j as int).push(d@[j as int]));
        j = j + 1;
    }
    assert(d@.take(d@.len() as int) =~= d@);
    res
}

pub open spec fn is_digit(c: char) -> bool {
    '0' <= c && c <= '9'
}

pub open spec fn digits_value(s: Seq<char>) -> int
    decreases s.len(),
{
    if s.len() == 0 {
        0
    } else {
        digits_value(s.drop_last()) * 10 + (s.last() as int - '0' as int)
    }
}

/// What `str::parse::<u64>` gives: an optional `+`, then one or more ASCII
/// digits whose value fits in a `u64`.
pub open spec fn parse_u64(s: Seq<char>) -> Option<u64> {
    parse_digits(if s.len() > 0 && s[0] == '+' { s.skip(1) } else { s })
}

/// One or more ASCII digits whose value fits in a `u64`.
pub open spec fn parse_digits(d: Seq<char>) -> Option<u64> {
    if d.len() > 0 && (forall|i: int| 0 <= i < d.len() ==> is_digit(#[trigger] d[i]))
        && digits_value(d) <= u64::MAX {
        Some(digits_value(d) as u64)
    } else {
        None
    }
}

pub proof fn lemma_digits_value_nonneg(s: Seq<char>)
    requires
        forall|i: int| 0 <= i < s.len() ==> is_digit(#[trigger] s[i]),
    ensures
        digits_value(s) >= 0,
    decreases s.len(),
{
    if s.len() > 0 {
        lemma_digits_value_nonneg(s.drop_last());
    }
}

/// Parses a decimal `u64` as `str::parse::<u64>` does.
pub fn parse_decimal(s: &Vec<char>) -> (res: Option<u64>)
    ensures
        res == parse_u64(s@),
{
    let start: usize = if s.len() > 0 && s[0] == '+' { 1 } else { 0 };
    let ghost d = if s@.len() > 0 && s@[0] == '+' { s@.skip(1) } else { s@ };
    assert(d =~= s@.skip(start as int));
    if start == s.len() {
        return None;
    }
    let mut value: u64 = 0;
    let mut overflow = false;
    let mut i: usize = start;
    while i < s.len()
        invariant
            start <= i <= s@.len(),
            d =~= s@.skip(start as int),
            parse_u64(s@) == parse_digits(d),
            forall|k: int| 0 <= k < i - start ==> is_digit(#[trigger] d[k]),
            !overflow ==> value == digits_value(d.take(i - start)),
            overflow ==> digits_value(d.take(i - start)) > u64::MAX,
        decreases s@.len() - i,
    {
        let c = s[i];
        if !('0' <= c && c <= '9') {
            assert(d[i - start] == c);
            assert(!is_digit(d[i - start]));
            assert(!(forall|j: int| 0 <= j < d.len() ==> is_digit(#[trigger] d[j])));
            assert(parse_digits(d) is None);
            assert(parse_u64(s@) == parse_digits(d));
            return None;
        }
        let ghost k = i - start;
        assert(d.take(k + 1).drop_last() =~= d.take(k));
        assert(d.take(k + 1).last() == c);
        proof {
            lemma_digits_value_nonneg(d.take(k));
        }
        let dv: u64 = (c as u32 - '0' as u32) as u64;
        assert(dv == c as int - '0' as int);
        if !overflow {
            if value > (u64::MAX - dv) / 10 {
                overflow = true;
                assert(value * 10 + dv > u64::MAX) by (nonlinear_arith)
                    requires value > (u64::MAX - dv) / 10, dv < 10;
            } else {
                assert(value * 10 + dv <= u64::MAX) by (nonlinear_arith)
                    requires value <= (u64::MAX - dv) / 10, dv < 10;
                value = value * 10 + dv;
            }
        } else {
            assert(digits_value(d.take(k + 1)) >= digits_value(d.take(k)));
        }
        i = i + 1;
    }
    assert(d.take(s@.len() - start) =~= d);
    if overflow {
        None
    } else {
        Some(value)
    }
}

} // verus!
