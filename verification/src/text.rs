//! Text helpers: whitespace, the program name of a command line, trimming,
//! and the lexicographic order in which the whitelist keeps its entries.
use vstd::prelude::*;

verus! {

/// The characters of `s`, in order.
pub fn chars_of(s: &str) -> (v: Vec<char>)
    ensures
        v@ == s@,
{
    let mut v: Vec<char> = Vec::new();
    for c in it: s.chars()
        invariant
            v@ == it.seq().take(it.index() as int),
    {
        v.push(c);
    }
    v
}

/// The view of an optional string.
pub open spec fn opt_text(o: Option<String>) -> Option<Seq<char>> {
    match o {
        Some(s) => Some(s@),
        None => None,
    }
}

/// `a` followed by `b`, as one string.
pub fn joined(a: &str, b: &str) -> (s: String)
    ensures
        s@ == a@ + b@,
{
    let mut s = String::from_str(a);
    s.append(b);
    s
}

/// Whether `a` and `b` are the same text.
pub fn same_text(a: &str, b: &str) -> (r: bool)
    ensures
        r == (a@ == b@),
{
    let x = String::from_str(a);
    let y = String::from_str(b);
    x == y
}

/// Unicode `White_Space`: the characters for which `char::is_whitespace` holds.
pub open spec fn is_ws(c: char) -> bool {
    let u = c as u32;
    ||| 0x9 <= u <= 0xd
    ||| u == 0x20
    ||| u == 0x85
    ||| u == 0xa0
    ||| u == 0x1680
    ||| 0x2000 <= u <= 0x200a
    ||| u == 0x2028
    ||| u == 0x2029
    ||| u == 0x202f
    ||| u == 0x205f
    ||| u == 0x3000
}

/// Whether `c` is whitespace in the sense of `is_ws`.
pub fn is_whitespace(c: char) -> (r: bool)
    ensures
        r == is_ws(c),
{
    let u = c as u32;
    (0x9 <= u && u <= 0xd) || u == 0x20 || u == 0x85 || u == 0xa0 || u == 0x1680 || (0x2000 <= u
        && u <= 0x200a) || u == 0x2028 || u == 0x2029 || u == 0x202f || u == 0x205f || u == 0x3000
}

/// The first index at or after `i` whose character's whitespace-ness is not `ws`
/// (or `s.len()` if there is none).
pub open spec fn scan(s: Seq<char>, i: int, ws: bool) -> int
    decreases s.len() - i,
{
    if 0 <= i < s.len() && is_ws(s[i]) == ws {
        scan(s, i + 1, ws)
    } else {
        i
    }
}

/// Walking back from `k` towards `lo`, the index just after the last `'/'`
/// of `s[lo..k]` (or `lo` if it holds none).
pub open spec fn after_last_slash(s: Seq<char>, lo: int, k: int) -> int
    decreases k - lo,
{
    if lo < k && s[k - 1] != '/' {
        after_last_slash(s, lo, k - 1)
    } else {
        k
    }
}

/// Walking back from `k` towards `lo`, the index just after the last
/// non-whitespace character of `s[lo..k]` (or `lo` if it holds none).
pub open spec fn trim_back(s: Seq<char>, lo: int, k: int) -> int
    decreases k - lo,
{
    if lo < k && is_ws(s[k - 1]) {
        trim_back(s, lo, k - 1)
    } else {
        k
    }
}

/// Where the first whitespace-separated word of `s` begins.
pub open spec fn word_start(s: Seq<char>) -> int {
    scan(s, 0, true)
}

/// Where the first whitespace-separated word of `s` ends.
pub open spec fn word_end(s: Seq<char>) -> int {
    scan(s, word_start(s), false)
}

/// The program name of a command line: its first whitespace-separated word,
/// without any directory part (what follows the word's last `'/'`).
/// Empty when the command line holds no word.
pub open spec fn spec_program_name(s: Seq<char>) -> Seq<char> {
    s.subrange(after_last_slash(s, word_start(s), word_end(s)), word_end(s))
}

/// `s` without leading and trailing whitespace.
pub open spec fn spec_trim(s: Seq<char>) -> Seq<char> {
    s.subrange(word_start(s), trim_back(s, word_start(s), s.len() as int))
}

pub proof fn lemma_scan_bounds(s: Seq<char>, i: int, ws: bool)
    requires
        0 <= i <= s.len(),
    ensures
        i <= scan(s, i, ws) <= s.len(),
        forall|j: int| i <= j < scan(s, i, ws) ==> is_ws(#[trigger] s[j]) == ws,
        scan(s, i, ws) < s.len() ==> is_ws(s[scan(s, i, ws)]) != ws,
    decreases s.len() - i,
{
    if i < s.len() && is_ws(s[i]) == ws {
        lemma_scan_bounds(s, i + 1, ws);
    }
}

pub proof fn lemma_after_last_slash_bounds(s: Seq<char>, lo: int, k: int)
    requires
        0 <= lo <= k <= s.len(),
    ensures
        lo <= after_last_slash(s, lo, k) <= k,
        forall|j: int| after_last_slash(s, lo, k) <= j < k ==> #[trigger] s[j] != '/',
    decreases k - lo,
{
    if lo < k && s[k - 1] != '/' {
        lemma_after_last_slash_bounds(s, lo, k - 1);
    }
}

/// Index of the first character at or after `i` whose whitespace-ness is not `ws`.
fn scan_exec(cs: &Vec<char>, i: usize, ws: bool) -> (r: usize)
    requires
        i <= cs@.len(),
    ensures
        r == scan(cs@, i as int, ws),
{
    let mut k = i;
    while k < cs.len() && is_whitespace(cs[k]) == ws
        invariant
            i <= k <= cs@.len(),
            scan(cs@, k as int, ws) == scan(cs@, i as int, ws),
        decreases cs@.len() - k,
    {
        k += 1;
    }
    k
}

/// The program name of a command line (see `spec_program_name`).
///
/// `/opt/homebrew/bin/uv run main.py` gives `uv`.
pub fn program_name(command: &str) -> (name: &str)
    ensures
        name@ == spec_program_name(command@),
{
    let cs = chars_of(command);
    let b = scan_exec(&cs, 0, true);
    proof {
        lemma_scan_bounds(cs@, 0, true);
    }
    let e = scan_exec(&cs, b, false);
    proof {
        lemma_scan_bounds(cs@, b as int, false);
    }
    let mut k = e;
    while k > b && cs[k - 1] != '/'
        invariant
            b <= k <= e <= cs@.len(),
            after_last_slash(cs@, b as int, k as int) == after_last_slash(
                cs@,
                b as int,
                e as int,
            ),
        decreases k,
    {
        k -= 1;
    }
    command.substring_char(k, e)
}

/// `s` without leading and trailing whitespace (what `str::trim` gives).
pub fn trim(s: &str) -> (t: &str)
    ensures
        t@ == spec_trim(s@),
{
    let cs = chars_of(s);
    let b = scan_exec(&cs, 0, true);
    proof {
        lemma_scan_bounds(cs@, 0, true);
    }
    let mut k = cs.len();
    while k > b && is_whitespace(cs[k - 1])
        invariant
            b <= k <= cs@.len(),
            trim_back(cs@, b as int, k as int) == trim_back(cs@, b as int, cs@.len() as int),
        decreases k,
    {
        k -= 1;
    }
    s.substring_char(b, k)
}

proof fn lemma_scan_to_end(w: Seq<char>, i: int)
    requires
        0 <= i <= w.len(),
        forall|j: int| 0 <= j < w.len() ==> !is_ws(#[trigger] w[j]),
    ensures
        scan(w, i, false) == w.len(),
    decreases w.len() - i,
{
    if i < w.len() {
        lemma_scan_to_end(w, i + 1);
    }
}

proof fn lemma_no_slash(w: Seq<char>, lo: int, k: int)
    requires
        0 <= lo <= k <= w.len(),
        forall|j: int| lo <= j < k ==> #[trigger] w[j] != '/',
    ensures
        after_last_slash(w, lo, k) == lo,
    decreases k - lo,
{
    if lo < k {
        lemma_no_slash(w, lo, k - 1);
    }
}

/// A word without whitespace and without `'/'` is its own program name.
pub proof fn lemma_plain_word_is_own_name(w: Seq<char>)
    requires
        forall|j: int| 0 <= j < w.len() ==> !is_ws(#[trigger] w[j]) && w[j] != '/',
    ensures
        spec_program_name(w) == w,
{
    assert(word_start(w) == 0);
    lemma_scan_to_end(w, 0);
    lemma_no_slash(w, 0, w.len() as int);
    assert(w.subrange(0, w.len() as int) =~= w);
}

/// A program name holds no whitespace and no `'/'`.
pub proof fn lemma_program_name_is_plain(s: Seq<char>)
    ensures
        forall|j: int|
            0 <= j < spec_program_name(s).len() ==> !is_ws(#[trigger] spec_program_name(s)[j])
                && spec_program_name(s)[j] != '/',
{
    lemma_scan_bounds(s, 0, true);
    lemma_scan_bounds(s, word_start(s), false);
    lemma_after_last_slash_bounds(s, word_start(s), word_end(s));
    let a = after_last_slash(s, word_start(s), word_end(s));
    assert forall|j: int| 0 <= j < spec_program_name(s).len() implies !is_ws(
        #[trigger] spec_program_name(s)[j],
    ) && spec_program_name(s)[j] != '/' by {
        assert(spec_program_name(s)[j] == s[a + j]);
    }
}

/// Law: taking the program name twice gives the same name as taking it once,
/// so a stored program name matches itself.
pub proof fn law_program_name_idempotent(s: Seq<char>)
    ensures
        spec_program_name(spec_program_name(s)) == spec_program_name(s),
{
    lemma_program_name_is_plain(s);
    lemma_plain_word_is_own_name(spec_program_name(s));
}

proof fn lemma_scan_word_end(s: Seq<char>, i: int, m: int)
    requires
        0 <= i <= m <= s.len(),
        forall|j: int| i <= j < m ==> !is_ws(#[trigger] s[j]),
        m < s.len() ==> is_ws(s[m]),
    ensures
        scan(s, i, false) == m,
    decreases m - i,
{
    if i < m {
        lemma_scan_word_end(s, i + 1, m);
    }
}

proof fn lemma_after_last_slash_agree(s: Seq<char>, t: Seq<char>, lo: int, k: int)
    requires
        0 <= lo <= k <= s.len(),
        k <= t.len(),
        forall|j: int| lo <= j < k ==> #[trigger] s[j] == t[j],
    ensures
        after_last_slash(s, lo, k) == after_last_slash(t, lo, k),
    decreases k - lo,
{
    if lo < k {
        lemma_after_last_slash_agree(s, t, lo, k - 1);
    }
}

/// Law: only the first word counts: a word without whitespace, followed by
/// whitespace and any arguments, has the program name of the word alone (so a
/// path among the arguments never changes it).
pub proof fn law_program_name_ignores_arguments(w: Seq<char>, sep: char, rest: Seq<char>)
    requires
        w.len() > 0,
        forall|j: int| 0 <= j < w.len() ==> !is_ws(#[trigger] w[j]),
        is_ws(sep),
    ensures
        spec_program_name(w + seq![sep] + rest) == spec_program_name(w),
{
    let s = w + seq![sep] + rest;
    let n = w.len() as int;
    assert(s[0] == w[0]);
    assert(word_start(s) == 0);
    assert(word_start(w) == 0);
    assert(s[n] == sep);
    lemma_scan_word_end(s, 0, n);
    lemma_scan_word_end(w, 0, n);
    lemma_after_last_slash_agree(s, w, 0, n);
    let a = after_last_slash(s, 0, n);
    lemma_after_last_slash_bounds(s, 0, n);
    assert(s.subrange(a, n) =~= w.subrange(a, n));
}

proof fn lemma_scan_shift(c: char, s: Seq<char>, i: int, ws: bool)
    requires
        0 <= i <= s.len(),
    ensures
        scan(seq![c] + s, i + 1, ws) == scan(s, i, ws) + 1,
    decreases s.len() - i,
{
    let t = seq![c] + s;
    if i < s.len() {
        assert(t[i + 1] == s[i]);
        lemma_scan_shift(c, s, i + 1, ws);
    }
}

proof fn lemma_after_last_slash_shift(c: char, s: Seq<char>, lo: int, k: int)
    requires
        0 <= lo <= k <= s.len(),
    ensures
        after_last_slash(seq![c] + s, lo + 1, k + 1) == after_last_slash(s, lo, k) + 1,
    decreases k - lo,
{
    let t = seq![c] + s;
    if lo < k {
        assert(t[k] == s[k - 1]);
        lemma_after_last_slash_shift(c, s, lo, k - 1);
    }
}

/// Law: whitespace before the command does not change its program name.
pub proof fn law_program_name_skips_leading_whitespace(c: char, s: Seq<char>)
    requires
        is_ws(c),
    ensures
        spec_program_name(seq![c] + s) == spec_program_name(s),
{
    let t = seq![c] + s;
    assert(t[0] == c);
    lemma_scan_shift(c, s, 0, true);
    lemma_scan_bounds(s, 0, true);
    let b = word_start(s);
    assert(word_start(t) == b + 1);
    lemma_scan_shift(c, s, b, false);
    lemma_scan_bounds(s, b, false);
    let e = word_end(s);
    assert(word_end(t) == e + 1);
    lemma_after_last_slash_shift(c, s, b, e);
    lemma_after_last_slash_bounds(s, b, e);
    let a = after_last_slash(s, b, e);
    assert(t.subrange(a + 1, e + 1) =~= s.subrange(a, e));
}

/// Law: the program name of a word without whitespace is the end of that
/// word that follows its last `'/'`: a suffix of the word that holds no
/// `'/'` and is the whole word or follows a `'/'`.
pub proof fn law_program_name_of_word(w: Seq<char>)
    requires
        forall|j: int| 0 <= j < w.len() ==> !is_ws(#[trigger] w[j]),
    ensures
        spec_program_name(w).len() <= w.len(),
        spec_program_name(w) == w.skip(w.len() - spec_program_name(w).len()),
        forall|j: int|
            0 <= j < spec_program_name(w).len() ==> #[trigger] spec_program_name(w)[j] != '/',
        spec_program_name(w).len() == w.len() || w[w.len() - spec_program_name(w).len() - 1]
            == '/',
{
    let n = w.len() as int;
    if n > 0 {
        assert(word_start(w) == 0);
    } else {
        assert(word_start(w) == 0);
    }
    lemma_scan_word_end(w, 0, n);
    lemma_after_last_slash_bounds(w, 0, n);
    let a = after_last_slash(w, 0, n);
    assert(spec_program_name(w) =~= w.skip(a));
    lemma_slash_before(w, 0, n);
}

proof fn lemma_slash_before(w: Seq<char>, lo: int, k: int)
    requires
        0 <= lo <= k <= w.len(),
    ensures
        after_last_slash(w, lo, k) == lo || w[after_last_slash(w, lo, k) - 1] == '/',
    decreases k - lo,
{
    if lo < k && w[k - 1] != '/' {
        lemma_slash_before(w, lo, k - 1);
    }
}

proof fn lemma_trim_back_keeps(s: Seq<char>, lo: int, k: int, j: int)
    requires
        0 <= lo <= j < k <= s.len(),
        !is_ws(s[j]),
    ensures
        j < trim_back(s, lo, k) <= k,
    decreases k - lo,
{
    if lo < k && is_ws(s[k - 1]) {
        lemma_trim_back_keeps(s, lo, k - 1, j);
    }
}

proof fn lemma_after_last_slash_offset(s: Seq<char>, t: Seq<char>, b: int, lo: int, k: int)
    requires
        0 <= b,
        0 <= lo <= k,
        k <= t.len(),
        b + k <= s.len(),
        forall|j: int| 0 <= j < t.len() ==> #[trigger] t[j] == s[j + b],
    ensures
        after_last_slash(t, lo, k) + b == after_last_slash(s, lo + b, k + b),
    decreases k - lo,
{
    if lo < k {
        assert(t[k - 1] == s[k - 1 + b]);
        lemma_after_last_slash_offset(s, t, b, lo, k - 1);
    }
}

/// Law: trimming does not change a program name: the program name of the
/// trimmed text is the program name of the text.
pub proof fn law_trim_keeps_program_name(s: Seq<char>)
    ensures
        spec_program_name(spec_trim(s)) == spec_program_name(s),
{
    let n = s.len() as int;
    lemma_scan_bounds(s, 0, true);
    let b = word_start(s);
    lemma_scan_bounds(s, b, false);
    let e = word_end(s);
    lemma_after_last_slash_bounds(s, b, e);
    let a = after_last_slash(s, b, e);
    if b == n {
        assert(e == n);
        assert(spec_trim(s).len() == 0);
        assert(spec_program_name(s).len() == 0);
        assert(word_start(spec_trim(s)) == 0);
        assert(spec_program_name(spec_trim(s)) =~= spec_program_name(s));
    } else {
        assert(!is_ws(s[b]));
        assert(e > b);
        lemma_trim_back_keeps(s, b, n, e - 1);
        let k = trim_back(s, b, n);
        let t = spec_trim(s);
        assert(t =~= s.subrange(b, k));
        assert(t[0] == s[b]);
        assert(word_start(t) == 0);
        assert forall|j: int| 0 <= j < e - b implies !is_ws(#[trigger] t[j]) by {
            assert(t[j] == s[j + b]);
        }
        if e - b < t.len() {
            assert(t[e - b] == s[e]);
        }
        lemma_scan_word_end(t, 0, e - b);
        lemma_after_last_slash_offset(s, t, b, 0, e - b);
        assert(spec_program_name(t) =~= t.subrange(a - b, e - b));
        assert(t.subrange(a - b, e - b) =~= s.subrange(a, e));
    }
}

/// Lexicographic order on character sequences, comparing code points.
/// On UTF-8 strings this is the order in which `String`'s `Ord` ranks them,
/// since UTF-8 encoding preserves code-point order byte by byte.
pub open spec fn lex_le(a: Seq<char>, b: Seq<char>) -> bool
    decreases a.len(),
{
    if a.len() == 0 {
        true
    } else if b.len() == 0 {
        false
    } else if a[0] != b[0] {
        (a[0] as u32) < (b[0] as u32)
    } else {
        lex_le(a.drop_first(), b.drop_first())
    }
}

pub proof fn lemma_lex_total(a: Seq<char>, b: Seq<char>)
    ensures
        lex_le(a, b) || lex_le(b, a),
    decreases a.len(),
{
    if a.len() > 0 && b.len() > 0 {
        if a[0] == b[0] {
            lemma_lex_total(a.drop_first(), b.drop_first());
        } else {
            vstd::utf8::char_u32_cast(a[0], a[0] as u32);
            vstd::utf8::char_u32_cast(b[0], b[0] as u32);
        }
    }
}

pub proof fn lemma_lex_trans(a: Seq<char>, b: Seq<char>, c: Seq<char>)
    requires
        lex_le(a, b),
        lex_le(b, c),
    ensures
        lex_le(a, c),
    decreases a.len(),
{
    if a.len() > 0 && b.len() > 0 && c.len() > 0 && a[0] == b[0] && b[0] == c[0] {
        lemma_lex_trans(a.drop_first(), b.drop_first(), c.drop_first());
    }
}

pub proof fn lemma_lex_antisym(a: Seq<char>, b: Seq<char>)
    requires
        lex_le(a, b),
        lex_le(b, a),
    ensures
        a == b,
    decreases a.len(),
{
    if a.len() > 0 && b.len() > 0 {
        lemma_lex_antisym(a.drop_first(), b.drop_first());
        assert(a =~= seq![a[0]] + a.drop_first());
        assert(b =~= seq![b[0]] + b.drop_first());
    }
}

/// Law: a sorted order is unique: two sorted lists that hold the same
/// entries are equal. So the sorted list that `Whitelist::add` promises is
/// fully determined by the entries it holds.
pub proof fn law_sorted_permutation_is_unique(a: Seq<Seq<char>>, b: Seq<Seq<char>>)
    requires
        sorted_lex(a),
        sorted_lex(b),
        a.to_multiset() == b.to_multiset(),
    ensures
        a == b,
    decreases a.len(),
{
    broadcast use vstd::seq_lib::group_to_multiset_ensures;

    assert(a.to_multiset().len() == a.len());
    assert(b.to_multiset().len() == b.len());
    if a.len() == 0 {
        assert(b.len() == 0);
        assert(a =~= b);
    } else {
        assert(b.len() == a.len());
        assert(a.to_multiset().count(a[0]) > 0);
        assert(b.contains(a[0]));
        let j = choose|j: int| 0 <= j < b.len() && b[j] == a[0];
        lemma_lex_total(b[0], b[0]);
        assert(lex_le(b[0], a[0]));
        assert(a.to_multiset().count(b[0]) > 0);
        assert(a.contains(b[0]));
        let k = choose|k: int| 0 <= k < a.len() && a[k] == b[0];
        lemma_lex_total(a[0], a[0]);
        assert(lex_le(a[0], b[0]));
        lemma_lex_antisym(a[0], b[0]);
        assert(a.remove(0) =~= a.drop_first());
        assert(b.remove(0) =~= b.drop_first());
        let ra = a.drop_first();
        let rb = b.drop_first();
        assert(sorted_lex(ra)) by {
            assert forall|x: int, y: int| 0 <= x < y < ra.len() implies lex_le(
                #[trigger] ra[x],
                #[trigger] ra[y],
            ) by {
                assert(ra[x] == a[x + 1] && ra[y] == a[y + 1]);
            }
        }
        assert(sorted_lex(rb)) by {
            assert forall|x: int, y: int| 0 <= x < y < rb.len() implies lex_le(
                #[trigger] rb[x],
                #[trigger] rb[y],
            ) by {
                assert(rb[x] == b[x + 1] && rb[y] == b[y + 1]);
            }
        }
        law_sorted_permutation_is_unique(ra, rb);
        assert(a =~= b) by {
            assert forall|x: int| 0 <= x < a.len() implies a[x] == b[x] by {
                if x > 0 {
                    assert(a[x] == ra[x - 1] && b[x] == rb[x - 1]);
                }
            }
        }
    }
}

/// Whether `a` comes no later than `b` in `lex_le` order.
pub fn lex_le_exec(a: &Vec<char>, b: &Vec<char>) -> (r: bool)
    ensures
        r == lex_le(a@, b@),
{
    let mut i: usize = 0;
    assert(a@.skip(0) =~= a@);
    assert(b@.skip(0) =~= b@);
    while i < a.len() && i < b.len() && a[i] == b[i]
        invariant
            i <= a@.len(),
            i <= b@.len(),
            lex_le(a@, b@) == lex_le(a@.skip(i as int), b@.skip(i as int)),
        decreases a@.len() - i,
    {
        assert(a@.skip(i as int).drop_first() =~= a@.skip(i + 1));
        assert(b@.skip(i as int).drop_first() =~= b@.skip(i + 1));
        i += 1;
    }
    if i == a.len() {
        true
    } else if i == b.len() {
        false
    } else {
        (a[i] as u32) < (b[i] as u32)
    }
}

/// The character sequences of a sequence of strings.
pub open spec fn names(v: Seq<String>) -> Seq<Seq<char>> {
    v.map_values(|s: String| s@)
}

/// Whether `s` is in ascending `lex_le` order.
pub open spec fn sorted_lex(s: Seq<Seq<char>>) -> bool {
    forall|i: int, j: int| 0 <= i < j < s.len() ==> lex_le(#[trigger] s[i], #[trigger] s[j])
}

/// Inserting into a sequence adds one occurrence to its multiset.
pub proof fn lemma_insert_to_multiset<A>(s: Seq<A>, p: int, a: A)
    requires
        0 <= p <= s.len(),
    ensures
        s.insert(p, a).to_multiset() =~= s.to_multiset().insert(a),
{
    broadcast use vstd::seq_lib::group_to_multiset_ensures;

}

/// The strings of `v` in ascending `lex_le` order (a stable insertion sort).
pub fn sort_names(v: &Vec<String>) -> (r: Vec<String>)
    ensures
        sorted_lex(names(r@)),
        names(r@).to_multiset() =~= names(v@).to_multiset(),
        r@.len() == v@.len(),
{
    broadcast use vstd::seq_lib::group_to_multiset_ensures;

    let mut r: Vec<String> = Vec::new();
    for i in 0..v.len()
        invariant
            sorted_lex(names(r@)),
            names(r@).to_multiset() =~= names(v@.take(i as int)).to_multiset(),
            r@.len() == i,
    {
        let x = v[i].clone();
        let xc = chars_of(x.as_str());
        let mut p: usize = 0;
        while p < r.len() && lex_le_exec(&chars_of(r[p].as_str()), &xc)
            invariant
                p <= r@.len(),
                xc@ == x@,
                forall|q: int| 0 <= q < p ==> lex_le(#[trigger] names(r@)[q], x@),
            decreases r@.len() - p,
        {
            p += 1;
        }
        let ghost old_names = names(r@);
        proof {
            if p < r@.len() {
                lemma_lex_total(old_names[p as int], x@);
            }
            assert forall|q: int| p < q < old_names.len() implies lex_le(
                x@,
                #[trigger] old_names[q],
            ) by {
                lemma_lex_trans(x@, old_names[p as int], old_names[q]);
            }
        }
        r.insert(p, x);
        proof {
            assert(names(r@) =~= old_names.insert(p as int, x@));
            lemma_insert_to_multiset(old_names, p as int, x@);
            assert(names(v@.take(i + 1)) =~= names(v@.take(i as int)).push(v@[i as int]@));
            assert(names(r@).to_multiset() =~= names(v@.take(i as int)).to_multiset().insert(x@));
            assert(x@ == v@[i as int]@);
            vstd::seq_lib::to_multiset_build(names(v@.take(i as int)), x@);
            assert(names(v@.take(i as int)).push(x@).to_multiset() =~= names(
                v@.take(i as int),
            ).to_multiset().insert(x@));
            let ns = names(r@);
            assert forall|a: int, b: int| 0 <= a < b < ns.len() implies lex_le(
                #[trigger] ns[a],
                #[trigger] ns[b],
            ) by {
                if a < p && b > p {
                    lemma_lex_trans(ns[a], x@, ns[b]);
                }
            }
        }
    }
    assert(v@.take(v@.len() as int) =~= v@);
    r
}

} // verus!
