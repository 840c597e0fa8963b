//! Transcript merging: tokenisation, stable-prefix tracking across window
//! decodes, overlap removal and the small text decisions around segments.
use vstd::prelude::*;

use crate::strings::{
    char_is_whitespace, chars_eq, chars_have_whitespace, chars_starts_with, from_chars, has_ws,
    non_whitespace_chars, non_ws_chars, normalize, normalize_chars, push_char, push_chars, push_str,
    split_whitespace, lowercase, to_chars, to_lowercase, trim, trim_chars, trim_str, words,
};

verus! {

/// How a text is cut into tokens.
#[derive(Clone, Copy, Debug, PartialEq, Eq, Structural)]
pub enum TokenMode {
    Words,
    Chars,
}

/// A token: its text as shown, and its normalised form used for matching.
#[derive(Debug)]
pub struct NToken {
    display: String,
    norm: String,
}

/// A token's view: (display, normalised form).
pub type TokV = (Seq<char>, Seq<char>);

impl View for NToken {
    type V = TokV;

    closed spec fn view(&self) -> TokV {
        (self.display@, self.norm@)
    }
}

/// The views of a sequence of tokens.
pub open spec fn tv(ts: Seq<NToken>) -> Seq<TokV> {
    ts.map_values(|t: NToken| t@)
}

/// The normalised forms of a sequence of token views.
pub open spec fn norms(ts: Seq<TokV>) -> Seq<Seq<char>> {
    ts.map_values(|t: TokV| t.1)
}

/// The displays of a sequence of token views.
pub open spec fn displays(ts: Seq<TokV>) -> Seq<Seq<char>> {
    ts.map_values(|t: TokV| t.0)
}

/// The token made from a piece of text.
pub open spec fn token_of(w: Seq<char>) -> TokV {
    (w, normalize(w))
}

/// The tokens of a text: its words, or its non-whitespace characters.
pub open spec fn tokens(s: Seq<char>, mode: TokenMode) -> Seq<TokV> {
    match mode {
        TokenMode::Words => words(s).map_values(|w: Seq<char>| token_of(w)),
        TokenMode::Chars => non_ws_chars(s).map_values(|c: char| token_of(seq![c])),
    }
}

/// The separator placed between tokens when they are joined.
pub open spec fn sep(mode: TokenMode) -> Seq<char> {
    match mode {
        TokenMode::Words => seq![' '],
        TokenMode::Chars => seq![],
    }
}

/// Pieces of text joined with the separator of `mode` between them.
pub open spec fn join_pieces(ds: Seq<Seq<char>>, mode: TokenMode) -> Seq<char>
    decreases ds.len(),
{
    if ds.len() == 0 {
        seq![]
    } else if ds.len() == 1 {
        ds[0]
    } else {
        join_pieces(ds.drop_last(), mode) + sep(mode) + ds.last()
    }
}

/// The text of a sequence of tokens.
pub open spec fn join(ts: Seq<TokV>, mode: TokenMode) -> Seq<char> {
    join_pieces(displays(ts), mode)
}

/// The number of leading positions on which two sequences agree.
pub open spec fn common_prefix_len<A>(a: Seq<A>, b: Seq<A>) -> nat
    decreases a.len(),
{
    if a.len() == 0 || b.len() == 0 || a[0] != b[0] {
        0
    } else {
        1 + common_prefix_len(a.drop_first(), b.drop_first())
    }
}

/// The number of leading tokens whose normalised forms agree.
pub open spec fn lcp(a: Seq<TokV>, b: Seq<TokV>) -> nat {
    common_prefix_len(norms(a), norms(b))
}

/// `common_prefix_len` is the unique agreeing length that cannot be extended.
pub proof fn lemma_common_prefix_len<A>(a: Seq<A>, b: Seq<A>, n: int)
    requires
        0 <= n <= a.len(),
        n <= b.len(),
        forall|i: int| 0 <= i < n ==> a[i] == b[i],
        n == a.len() || n == b.len() || a[n] != b[n],
    ensures
        common_prefix_len(a, b) == n,
    decreases n,
{
    if n > 0 {
        assert(a[0] == b[0]);
        lemma_common_prefix_len(a.drop_first(), b.drop_first(), n - 1);
    }
}

/// What `common_prefix_len` guarantees.
pub proof fn lemma_common_prefix_len_props<A>(a: Seq<A>, b: Seq<A>)
    ensures
        common_prefix_len(a, b) <= a.len(),
        common_prefix_len(a, b) <= b.len(),
        forall|i: int| 0 <= i < common_prefix_len(a, b) ==> a[i] == b[i],
        common_prefix_len(a, b) < a.len() && common_prefix_len(a, b) < b.len() ==> a[common_prefix_len(a, b) as int]
            != b[common_prefix_len(a, b) as int],
    decreases a.len(),
{
    if a.len() == 0 || b.len() == 0 || a[0] != b[0] {
    } else {
        lemma_common_prefix_len_props(a.drop_first(), b.drop_first());
        let n = common_prefix_len(a, b);
        assert forall|i: int| 0 <= i < n implies a[i] == b[i] by {
            if i > 0 {
                assert(a.drop_first()[i - 1] == a[i]);
                assert(b.drop_first()[i - 1] == b[i]);
            }
        }
    }
}

/// The common leading length of a window of candidates, up to candidate `k`.
pub open spec fn lcp_all_upto(sets: Seq<Seq<TokV>>, k: int) -> nat
    decreases k,
{
    if k <= 1 {
        sets[0].len()
    } else {
        let prev = lcp_all_upto(sets, k - 1);
        let here = lcp(sets[0], sets[k - 1]);
        if here < prev {
            here
        } else {
            prev
        }
    }
}

/// The number of leading tokens on which every candidate of the window agrees
/// with the first one.
pub open spec fn lcp_all(sets: Seq<Seq<TokV>>) -> nat {
    if sets.len() == 0 {
        0
    } else {
        lcp_all_upto(sets, sets.len() as int)
    }
}

proof fn lemma_lcp_all_zero_stays(sets: Seq<Seq<TokV>>, k: int, m: int)
    requires
        1 <= k <= m,
        lcp_all_upto(sets, k) == 0,
    ensures
        lcp_all_upto(sets, m) == 0,
    decreases m - k,
{
    if m > k {
        lemma_lcp_all_zero_stays(sets, k, m - 1);
    }
}

/// `lcp_all_upto` is bounded by the first candidate and by its agreement with each later one.
pub proof fn lemma_lcp_all_upto_bounds(sets: Seq<Seq<TokV>>, k: int, j: int)
    requires
        1 <= j < k,
    ensures
        lcp_all_upto(sets, k) <= lcp(sets[0], sets[j]),
        lcp_all_upto(sets, k) <= sets[0].len(),
    decreases k,
{
    if k - 1 > j {
        lemma_lcp_all_upto_bounds(sets, k - 1, j);
    } else if k - 1 > 1 {
        lemma_lcp_all_upto_bounds(sets, k - 1, 1);
    }
}

/// The candidate window kept after `ticks` is applied (at least one candidate).
pub open spec fn window_size(ticks: usize) -> nat {
    if ticks == 0 {
        1
    } else {
        ticks as nat
    }
}

/// The last `n` elements of a sequence (all of it if it is shorter).
pub open spec fn keep_last<A>(r: Seq<A>, n: nat) -> Seq<A> {
    if r.len() > n {
        r.skip(r.len() - n)
    } else {
        r
    }
}

/// One merge step over the abstract state (stable tokens, recent candidates):
/// roll the stable prefix back when the candidate disagrees with it by more
/// than `rollback` tokens, push the candidate into the window, and grow the
/// stable prefix to the common prefix of a full window.
pub open spec fn merge_step(
    stable: Seq<TokV>,
    recent: Seq<Seq<TokV>>,
    cand: Seq<TokV>,
    ticks: usize,
    rollback: usize,
) -> (Seq<TokV>, Seq<Seq<TokV>>) {
    let l = lcp(stable, cand);
    let rolled = stable.len() > l + rollback;
    let s1 = if rolled {
        stable.take(l as int)
    } else {
        stable
    };
    let r1 = if rolled {
        Seq::<Seq<TokV>>::empty()
    } else {
        recent
    };
    let r2 = keep_last(r1.push(cand), window_size(ticks));
    let s2 = if r2.len() == window_size(ticks) && lcp_all(r2) > s1.len() {
        cand.take(lcp_all(r2) as int)
    } else {
        s1
    };
    (s2, r2)
}

/// The common leading length of a window never exceeds its newest candidate.
proof fn lemma_lcp_all_within_last(r: Seq<Seq<TokV>>)
    requires
        r.len() >= 1,
    ensures
        lcp_all(r) <= r.last().len(),
{
    if r.len() >= 2 {
        lemma_lcp_all_upto_bounds(r, r.len() as int, r.len() - 1);
        lemma_common_prefix_len_props(norms(r[0]), norms(r.last()));
    }
}

/// Without a rollback the stable prefix never shrinks: it stays as it was or
/// is replaced by a longer one.
pub proof fn law_stable_grows_without_rollback(
    stable: Seq<TokV>,
    recent: Seq<Seq<TokV>>,
    cand: Seq<TokV>,
    ticks: usize,
    rollback: usize,
)
    requires
        stable.len() <= lcp(stable, cand) + rollback,
    ensures
        ({
            let (s2, _) = merge_step(stable, recent, cand, ticks, rollback);
            s2 == stable || s2.len() > stable.len()
        }),
{
    let (_, r2) = merge_step(stable, recent, cand, ticks, rollback);
    assert(r2.last() == cand);
    lemma_lcp_all_within_last(r2);
}

/// The window keeps at most `window_size(ticks)` candidates, the newest one
/// last, provided it did before.
pub proof fn law_window_bounded(
    stable: Seq<TokV>,
    recent: Seq<Seq<TokV>>,
    cand: Seq<TokV>,
    ticks: usize,
    rollback: usize,
)
    requires
        recent.len() <= window_size(ticks),
    ensures
        ({
            let (_, r2) = merge_step(stable, recent, cand, ticks, rollback);
            &&& 1 <= r2.len() <= window_size(ticks)
            &&& r2.last() == cand
        }),
{
}

/// The length of the stable prefix after the rollback check.
pub open spec fn kept_stable_len(stable: Seq<TokV>, cand: Seq<TokV>, rollback: usize) -> nat {
    let l = lcp(stable, cand);
    if stable.len() > l + rollback {
        l
    } else {
        stable.len()
    }
}

/// Candidate `j` of the window agrees with the stable prefix at position
/// `i` (by normalised form), if the prefix reaches that far.
pub open spec fn agrees_at(stable: Seq<TokV>, window: Seq<Seq<TokV>>, j: int, i: int) -> bool {
    0 <= i < stable.len() ==> i < window[j].len() && window[j][i].1 == stable[i].1
}

/// Every candidate of the window agrees with the stable prefix, token by
/// token, by normalised form.
pub open spec fn window_agrees(stable: Seq<TokV>, window: Seq<Seq<TokV>>) -> bool {
    forall|j: int, i: int| 0 <= j < window.len() ==> #[trigger] agrees_at(stable, window, j, i)
}

/// When the stable prefix grows, it is taken from the newest candidate and
/// every candidate in the window agrees with it token by token (by
/// normalised form): only what a full window of decodes agrees on becomes
/// stable.
pub proof fn law_grown_stable_agreed_by_window(
    stable: Seq<TokV>,
    recent: Seq<Seq<TokV>>,
    cand: Seq<TokV>,
    ticks: usize,
    rollback: usize,
)
    ensures
        merge_step(stable, recent, cand, ticks, rollback).0.len() > kept_stable_len(
            stable,
            cand,
            rollback,
        ) ==> merge_step(stable, recent, cand, ticks, rollback).0 == cand.take(
            merge_step(stable, recent, cand, ticks, rollback).0.len() as int,
        ) && window_agrees(
            merge_step(stable, recent, cand, ticks, rollback).0,
            merge_step(stable, recent, cand, ticks, rollback).1,
        ),
{
    let (s2, r2) = merge_step(stable, recent, cand, ticks, rollback);
    let l = lcp(stable, cand);
    let rolled = stable.len() > l + rollback;
    let s1 = if rolled {
        stable.take(l as int)
    } else {
        stable
    };
    let w = window_size(ticks);
    lemma_common_prefix_len_props(norms(stable), norms(cand));
    assert(r2.last() == cand);
    lemma_lcp_all_within_last(r2);
    if r2.len() == w && lcp_all(r2) > s1.len() {
        lemma_window_agrees_all(r2);
    }
}

/// The newest candidate, cut to the window's common leading length, is
/// agreed on by the whole window.
proof fn lemma_window_agrees_all(r: Seq<Seq<TokV>>)
    requires
        r.len() >= 1,
    ensures
        window_agrees(r.last().take(lcp_all(r) as int), r),
{
    lemma_lcp_all_within_last(r);
    let s = r.last().take(lcp_all(r) as int);
    assert forall|j: int, i: int| 0 <= j < r.len() implies #[trigger] agrees_at(s, r, j, i) by {
        if 0 <= i < s.len() {
            lemma_window_agrees(r, j, i);
            assert(s[i] == r.last()[i]);
        }
    }
}

/// Below the window's common leading length, every candidate agrees with
/// the newest one.
proof fn lemma_window_agrees(r: Seq<Seq<TokV>>, j: int, i: int)
    requires
        r.len() >= 1,
        0 <= j < r.len(),
        0 <= i < lcp_all(r),
    ensures
        i < r[j].len(),
        i < r.last().len(),
        r[j][i].1 == r.last()[i].1,
{
    let last = r.len() - 1;
    if r.len() >= 2 {
        lemma_lcp_all_upto_bounds(r, r.len() as int, last);
        lemma_common_prefix_len_props(norms(r[0]), norms(r[last]));
        assert(norms(r[0])[i] == norms(r[last])[i]);
        if j >= 1 {
            lemma_lcp_all_upto_bounds(r, r.len() as int, j);
            lemma_common_prefix_len_props(norms(r[0]), norms(r[j]));
            assert(norms(r[0])[i] == norms(r[j])[i]);
        }
    }
}

/// The tokens shown after a merge: the stable prefix, then the candidate past it.
pub open spec fn merged_tokens(stable: Seq<TokV>, cand: Seq<TokV>) -> Seq<TokV> {
    let k = if stable.len() < cand.len() {
        stable.len()
    } else {
        cand.len()
    };
    stable + cand.skip(k as int)
}

/// Merges successive window decodes into a text whose leading part stays stable.
#[derive(Debug)]
pub struct MergeState {
    stable: Vec<NToken>,
    recent: std::collections::VecDeque<Vec<NToken>>,
}

impl MergeState {
    /// The stable tokens.
    pub closed spec fn stable_view(&self) -> Seq<TokV> {
        tv(self.stable@)
    }

    /// The recent candidates, oldest first.
    pub closed spec fn recent_view(&self) -> Seq<Seq<TokV>> {
        self.recent@.map_values(|v: Vec<NToken>| tv(v@))
    }

    /// An empty merge state.
    pub fn new() -> (r: Self)
        ensures
            r.stable_view() == Seq::<TokV>::empty(),
            r.recent_view() == Seq::<Seq<TokV>>::empty(),
    {
        let r = MergeState { stable: Vec::new(), recent: std::collections::VecDeque::new() };
        assert(r.stable_view() =~= Seq::<TokV>::empty());
        assert(r.recent_view() =~= Seq::<Seq<TokV>>::empty());
        r
    }

    /// Forgets the stable prefix and the recent candidates.
    pub fn reset(&mut self)
        ensures
            final(self).stable_view() == Seq::<TokV>::empty(),
            final(self).recent_view() == Seq::<Seq<TokV>>::empty(),
    {
        self.stable.clear();
        self.recent.clear();
        assert(self.stable_view() =~= Seq::<TokV>::empty());
        assert(self.recent_view() =~= Seq::<Seq<TokV>>::empty());
    }

    /// The number of stable tokens.
    pub fn stable_len(&self) -> (r: usize)
        ensures
            r == self.stable_view().len(),
    {
        self.stable.len()
    }

    /// Merges one candidate text and returns the text to show: the stable
    /// prefix followed by the rest of the candidate.
    pub fn apply_candidate(
        &mut self,
        candidate_text: &str,
        mode: TokenMode,
        stable_ticks: usize,
        rollback_threshold: usize,
    ) -> (r: String)
        ensures
            ({
                let cand = tokens(candidate_text@, mode);
                let (s2, r2) = merge_step(
                    old(self).stable_view(),
                    old(self).recent_view(),
                    cand,
                    stable_ticks,
                    rollback_threshold,
                );
                &&& final(self).stable_view() == s2
                &&& final(self).recent_view() == r2
                &&& r@ == join(merged_tokens(s2, cand), mode)
            }),
    {
        let ghost cand_v = tokens(candidate_text@, mode);
        let ghost old_stable = self.stable_view();
        let ghost old_recent = self.recent_view();
        let candidate_tokens = tokenize(candidate_text, mode);
        let stable_lcp = lcp_len(self.stable.as_slice(), candidate_tokens.as_slice());

        let limit = match stable_lcp.checked_add(rollback_threshold) {
            Some(v) => v,
            None => usize::MAX,
        };
        if self.stable.len() > limit {
            self.stable.truncate(stable_lcp);
            self.recent.clear();
            proof {
                lemma_common_prefix_len_props(norms(old_stable), norms(cand_v));
            }
            assert(self.stable_view() =~= old_stable.take(stable_lcp as int));
            assert(self.recent_view() =~= Seq::<Seq<TokV>>::empty());
        }
        let ghost s1 = self.stable_view();
        let ghost r1 = self.recent_view();

        let ghost pushed = r1.push(cand_v);
        let copy = clone_tokens(candidate_tokens.as_slice());
        self.recent.push_back(copy);
        assert(self.recent_view() =~= pushed);
        let window: usize = if stable_ticks == 0 {
            1
        } else {
            stable_ticks
        };
        while self.recent.len() > window
            invariant
                window == window_size(stable_ticks),
                pushed.len() >= self.recent_view().len(),
                self.recent@.len() == pushed.len() || self.recent@.len() >= window,
                self.recent_view() == pushed.skip(pushed.len() - self.recent_view().len()),
                self.recent_view().len() == self.recent@.len(),
                self.stable_view() == s1,
            decreases self.recent@.len(),
        {
            let ghost before = self.recent_view();
            let _ = self.recent.pop_front();
            assert(self.recent_view() =~= before.drop_first());
            assert(self.recent_view() =~= pushed.skip(pushed.len() - self.recent_view().len()));
        }
        let ghost r2 = self.recent_view();
        assert(r2 =~= keep_last(pushed, window_size(stable_ticks)));
        assert(r2.len() >= 1);
        assert(r2[r2.len() - 1] == cand_v);

        if self.recent.len() == window {
            let lcp_all_n = lcp_len_all(&self.recent);
            if lcp_all_n > self.stable.len() {
                proof {
                    if r2.len() >= 2 {
                        lemma_lcp_all_upto_bounds(r2, r2.len() as int, r2.len() - 1);
                        lemma_common_prefix_len_props(norms(r2[0]), norms(r2[r2.len() - 1]));
                    }
                }
                assert(lcp_all_n <= candidate_tokens@.len());
                self.stable = clone_prefix(candidate_tokens.as_slice(), lcp_all_n);
            }
        }
        join_stable_and_candidate(self.stable.as_slice(), candidate_tokens.as_slice(), mode)
    }
}

/// Copies one token.
fn clone_token(t: &NToken) -> (r: NToken)
    ensures
        r == *t,
{
    NToken { display: t.display.clone(), norm: t.norm.clone() }
}

/// Copies the first `n` tokens.
fn clone_prefix(v: &[NToken], n: usize) -> (r: Vec<NToken>)
    requires
        n <= v@.len(),
    ensures
        r@ == v@.take(n as int),
        tv(r@) == tv(v@).take(n as int),
{
    let mut out: Vec<NToken> = Vec::new();
    let mut i: usize = 0;
    while i < n
        invariant
            n <= v@.len(),
            i <= n,
            out@ == v@.take(i as int),
        decreases n - i,
    {
        out.push(clone_token(&v[i]));
        assert(v@.take(i + 1) =~= v@.take(i as int).push(v@[i as int]));
        i += 1;
    }
    assert(tv(out@) =~= tv(v@).take(n as int));
    out
}

/// Copies a token sequence.
fn clone_tokens(v: &[NToken]) -> (r: Vec<NToken>)
    ensures
        r@ == v@,
        tv(r@) == tv(v@),
{
    let r = clone_prefix(v, v.len());
    assert(v@.take(v@.len() as int) =~= v@);
    r
}

/// Whether `s` begins with `p`.
pub open spec fn starts_with(s: Seq<char>, p: Seq<char>) -> bool {
    p.len() <= s.len() && s.take(p.len() as int) == p
}

/// Which token mode suits a language code (and, for `auto`, the text itself).
pub open spec fn mode_for(lang: Seq<char>, text: Seq<char>) -> TokenMode {
    if starts_with(lang, seq!['z', 'h']) || starts_with(lang, seq!['j', 'a']) || starts_with(
        lang,
        seq!['k', 'o'],
    ) {
        TokenMode::Chars
    } else if lang == seq!['a', 'u', 't', 'o'] {
        if has_ws(text) {
            TokenMode::Words
        } else {
            TokenMode::Chars
        }
    } else {
        TokenMode::Words
    }
}

/// Chinese, Japanese and Korean language codes (starting `zh`, `ja` or
/// `ko`) use character tokens, whatever the text.
pub proof fn law_cjk_languages_use_chars(lang: Seq<char>, text: Seq<char>)
    requires
        lang.len() >= 2,
        lang.take(2) == seq!['z', 'h'] || lang.take(2) == seq!['j', 'a'] || lang.take(2) == seq![
            'k',
            'o',
        ],
    ensures
        mode_for(lang, text) == TokenMode::Chars,
{
}

/// Picks characters for Chinese, Japanese and Korean (language codes starting
/// `zh`, `ja`, `ko`), and for `auto` text without whitespace; words otherwise.
pub fn token_mode_for_language(language: &str, text: &str) -> (r: TokenMode)
    ensures
        r == mode_for(lowercase(trim(language@)), text@),
{
    let trimmed = trim_str(language);
    let lower = to_lowercase(trimmed.as_str());
    let lang = to_chars(lower.as_str());
    let l = lang.as_slice();
    let zh: [char; 2] = ['z', 'h'];
    let ja: [char; 2] = ['j', 'a'];
    let ko: [char; 2] = ['k', 'o'];
    let auto: [char; 4] = ['a', 'u', 't', 'o'];
    assert(zh@ =~= seq!['z', 'h']);
    assert(ja@ =~= seq!['j', 'a']);
    assert(ko@ =~= seq!['k', 'o']);
    assert(auto@ =~= seq!['a', 'u', 't', 'o']);
    if chars_starts_with(l, &zh) || chars_starts_with(l, &ja) || chars_starts_with(l, &ko) {
        return TokenMode::Chars;
    }
    if chars_eq(l, &auto) {
        let t = to_chars(text);
        return if chars_have_whitespace(t.as_slice()) {
            TokenMode::Words
        } else {
            TokenMode::Chars
        };
    }
    TokenMode::Words
}

/// The UTF-8 length of a text, in bytes.
pub open spec fn byte_len(s: Seq<char>) -> usize {
    vstd::utf8::encode_utf8(s).len() as usize
}

/// The UTF-8 length of a string, in bytes.
pub fn utf8_len(s: &String) -> (r: usize)
    ensures
        r == byte_len(s@),
{
    s.as_str().len()
}

/// The index of the first word after the first one whose normalised form
/// differs from that of the first word, searching from `j`.
pub open spec fn run_end_from(w: Seq<Seq<char>>, j: int) -> int
    decreases w.len() - j,
{
    if j >= w.len() || j < 0 || normalize(w[j]) != normalize(w[0]) {
        j
    } else {
        run_end_from(w, j + 1)
    }
}

/// What `collapse_leading_duplicate_word` returns.
pub open spec fn collapse_spec(text: Seq<char>) -> Seq<char> {
    let w = words(text);
    if w.len() == 0 {
        seq![]
    } else if w.len() == 1 {
        w[0]
    } else if byte_len(normalize(w[0])) < 4 {
        trim(text)
    } else {
        let e = run_end_from(w, 1);
        if e <= 1 {
            trim(text)
        } else {
            join_pieces(w.skip(e - 1), TokenMode::Words)
        }
    }
}

/// Past the first word, the run of words sharing its normalised form ends
/// at `m` when words `1..m` share it and word `m` (if any) does not.
proof fn lemma_run_end(w: Seq<Seq<char>>, j: int, m: int)
    requires
        1 <= j <= m <= w.len(),
        forall|i: int| 0 <= i < m ==> normalize(#[trigger] w[i]) == normalize(w[0]),
        m == w.len() || normalize(w[m]) != normalize(w[0]),
    ensures
        run_end_from(w, j) == m,
    decreases m - j,
{
    if j < m {
        lemma_run_end(w, j + 1, m);
    }
}

/// A leading run of `m >= 2` words with the same normalised form, of at
/// least four bytes, collapses to its last occurrence: the result is the
/// words from position `m - 1` on, joined by single spaces.
pub proof fn law_collapse_leading_run(text: Seq<char>, m: int)
    requires
        2 <= m <= words(text).len(),
        byte_len(normalize(words(text)[0])) >= 4,
        forall|i: int| 0 <= i < m ==> normalize(#[trigger] words(text)[i]) == normalize(words(text)[0]),
        m == words(text).len() || normalize(words(text)[m]) != normalize(words(text)[0]),
    ensures
        collapse_spec(text) == join_pieces(words(text).skip(m - 1), TokenMode::Words),
{
    lemma_run_end(words(text), 1, m);
}

proof fn lemma_join_pieces_step(w: Seq<Seq<char>>, a: int, i: int, mode: TokenMode)
    requires
        0 <= a < i < w.len(),
    ensures
        join_pieces(w.subrange(a, i + 1), mode) == join_pieces(w.subrange(a, i), mode) + sep(mode)
            + w[i],
{
    let s = w.subrange(a, i + 1);
    assert(s.drop_last() =~= w.subrange(a, i));
    assert(s.last() == w[i]);
}

/// Collapses a leading run of repeated words (of at least four normalised
/// bytes) into a single occurrence, e.g. "hello hello world" to "hello world".
pub fn collapse_leading_duplicate_word(text: &str) -> (r: String)
    ensures
        r@ == collapse_spec(text@),
{
    let chars = to_chars(text);
    let tokens = split_whitespace(chars.as_slice());
    let ghost w = words(text@);
    assert(tokens@.len() == w.len());
    assert(forall|i: int| 0 <= i < w.len() ==> tokens@[i]@ == #[trigger] w[i]);
    if tokens.len() == 0 {
        return String::new();
    }
    if tokens.len() < 2 {
        return from_chars(tokens[0].as_slice());
    }
    let first_norm_v = normalize_chars(tokens[0].as_slice());
    let first_norm = from_chars(first_norm_v.as_slice());
    if utf8_len(&first_norm) < 4 {
        return trim_str(text);
    }
    let mut end_of_run: usize = 1;
    let mut done = false;
    while end_of_run < tokens.len() && !done
        invariant
            done ==> run_end_from(w, 1) == end_of_run,
            1 <= end_of_run <= tokens@.len(),
            tokens@.len() == w.len(),
            forall|i: int| 0 <= i < w.len() ==> tokens@[i]@ == #[trigger] w[i],
            first_norm_v@ == normalize(w[0]),
            run_end_from(w, 1) == run_end_from(w, end_of_run as int),
        decreases (tokens@.len() - end_of_run) * 2 + (if done {
            0int
        } else {
            1int
        }),
    {
        let n = normalize_chars(tokens[end_of_run].as_slice());
        assert(n@ == normalize(w[end_of_run as int]));
        if !chars_eq(n.as_slice(), first_norm_v.as_slice()) {
            assert(run_end_from(w, end_of_run as int) == end_of_run);
            done = true;
        } else {
            end_of_run += 1;
        }
    }
    assert(run_end_from(w, 1) == end_of_run);
    if end_of_run <= 1 {
        return trim_str(text);
    }
    let start = end_of_run - 1;
    let mut out = String::new();
    push_chars(&mut out, tokens[start].as_slice());
    assert(w.subrange(start as int, start + 1) =~= seq![w[start as int]]);
    let mut i = end_of_run;
    while i < tokens.len()
        invariant
            1 <= start < i <= tokens@.len(),
            tokens@.len() == w.len(),
            forall|k: int| 0 <= k < w.len() ==> tokens@[k]@ == #[trigger] w[k],
            out@ == join_pieces(w.subrange(start as int, i as int), TokenMode::Words),
        decreases tokens@.len() - i,
    {
        proof {
            lemma_join_pieces_step(w, start as int, i as int, TokenMode::Words);
        }
        push_char(&mut out, ' ');
        push_chars(&mut out, tokens[i].as_slice());
        assert(out@ =~= join_pieces(w.subrange(start as int, i as int), TokenMode::Words) + seq![
            ' ',
        ] + w[i as int]);
        i += 1;
    }
    assert(w.subrange(start as int, w.len() as int) =~= w.skip(start as int));
    out
}

/// Whether the later tokens of `b` repeat `a` exactly and every extra leading
/// token of `b` has a normalised form of at least four bytes.
pub open spec fn adds_only_long_leading(a: Seq<TokV>, b: Seq<TokV>) -> bool {
    &&& b.len() >= a.len()
    &&& forall|i: int| 0 <= i < a.len() ==> a[i].1 == #[trigger] b[b.len() - a.len() + i].1
    &&& forall|i: int| 0 <= i < b.len() - a.len() ==> byte_len(#[trigger] b[i].1) >= 4
}

/// What `choose_segment_provisional_text` returns.
pub open spec fn provisional_spec(sherpa: Seq<char>, live: Seq<char>, live_has_window: bool) -> Seq<
    char,
> {
    let s = trim(sherpa);
    let l = trim(live);
    if s.len() == 0 && l.len() > 0 {
        l
    } else if !live_has_window || l.len() == 0 {
        s
    } else {
        let mode = if has_ws(s) || has_ws(l) {
            TokenMode::Words
        } else {
            TokenMode::Chars
        };
        let st = tokens(s, mode);
        let lt = tokens(l, mode);
        if lcp(st, lt) == 0 {
            if mode == TokenMode::Words && adds_only_long_leading(st, lt) {
                l
            } else {
                s
            }
        } else if starts_with(s, l) {
            s
        } else {
            l
        }
    }
}

/// An empty text has no words.
proof fn lemma_no_words_in_empty()
    ensures
        words(Seq::<char>::empty()).len() == 0,
{
}

/// When the window only adds long leading words: in word mode, if the live
/// text's words are leading words of at least four normalised bytes each,
/// followed by exactly the streaming text's words (by normalised form), and
/// the first words differ, the trimmed live text is committed.
pub proof fn law_provisional_keeps_added_leading_words(sherpa: Seq<char>, live: Seq<char>, p: int)
    requires
        trim(sherpa).len() > 0,
        has_ws(trim(sherpa)) || has_ws(trim(live)),
        tokens(trim(sherpa), TokenMode::Words).len() > 0,
        0 <= p,
        tokens(trim(live), TokenMode::Words).len() == p + tokens(trim(sherpa), TokenMode::Words).len(),
        forall|i: int|
            0 <= i < tokens(trim(sherpa), TokenMode::Words).len() ==> (#[trigger] tokens(
                trim(live),
                TokenMode::Words,
            )[p + i]).1 == tokens(trim(sherpa), TokenMode::Words)[i].1,
        forall|i: int|
            0 <= i < p ==> byte_len((#[trigger] tokens(trim(live), TokenMode::Words)[i]).1) >= 4,
        tokens(trim(live), TokenMode::Words)[0].1 != tokens(trim(sherpa), TokenMode::Words)[0].1,
    ensures
        provisional_spec(sherpa, live, true) == trim(live),
{
    let s = trim(sherpa);
    let l = trim(live);
    let st = tokens(s, TokenMode::Words);
    let lt = tokens(l, TokenMode::Words);
    if l.len() == 0 {
        assert(l =~= Seq::<char>::empty());
        lemma_no_words_in_empty();
        assert(false);
    }
    assert(norms(st)[0] != norms(lt)[0]);
    assert(lcp(st, lt) == 0);
    assert forall|i: int| 0 <= i < st.len() implies st[i].1 == #[trigger] lt[lt.len() - st.len() + i].1 by {
        assert(lt.len() - st.len() + i == p + i);
    }
    assert(adds_only_long_leading(st, lt));
}

/// Chooses the text committed for a finished segment between the streaming
/// recogniser's text and the live window text.
pub fn choose_segment_provisional_text(sherpa_text: &str, live_text: &str, live_has_window: bool) -> (r:
    String)
    ensures
        r@ == provisional_spec(sherpa_text@, live_text@, live_has_window),
{
    let sv = to_chars(sherpa_text);
    let lv = to_chars(live_text);
    let s = trim_chars(sv.as_slice());
    let l = trim_chars(lv.as_slice());
    if s.len() == 0 && l.len() != 0 {
        return from_chars(l.as_slice());
    }
    if !live_has_window || l.len() == 0 {
        return from_chars(s.as_slice());
    }
    let mode = if chars_have_whitespace(s.as_slice()) || chars_have_whitespace(l.as_slice()) {
        TokenMode::Words
    } else {
        TokenMode::Chars
    };
    let st = tokenize_chars(s.as_slice(), mode);
    let lt = tokenize_chars(l.as_slice(), mode);
    let n = lcp_len(st.as_slice(), lt.as_slice());
    if n == 0 {
        if mode == TokenMode::Words && window_adds_only_long_leading_words(
            st.as_slice(),
            lt.as_slice(),
        ) {
            return from_chars(l.as_slice());
        }
        return from_chars(s.as_slice());
    }
    if chars_starts_with(s.as_slice(), l.as_slice()) {
        return from_chars(s.as_slice());
    }
    from_chars(l.as_slice())
}

/// What `should_accept_second_pass_replacement` answers.
pub open spec fn accept_spec(current: Seq<char>, incoming: Seq<char>, mode: TokenMode) -> bool {
    let c = trim(current);
    let i = trim(incoming);
    if c.len() == 0 || i.len() == 0 || mode != TokenMode::Words {
        true
    } else {
        let cw = words(c);
        let iw = words(i);
        !(cw.len() >= 3 && iw.len() == 1 && normalize(iw[0]).len() > 0 && normalize(iw[0])
            == normalize(cw.last()))
    }
}

/// Refuses to replace a segment of three or more words by a single word that
/// only repeats the segment's last word; accepts every other replacement.
pub fn should_accept_second_pass_replacement(current: &str, incoming: &str, mode: TokenMode) -> (r:
    bool)
    ensures
        r == accept_spec(current@, incoming@, mode),
{
    let cv = to_chars(current);
    let iv = to_chars(incoming);
    let c = trim_chars(cv.as_slice());
    let i = trim_chars(iv.as_slice());
    if c.len() == 0 || i.len() == 0 {
        return true;
    }
    if mode != TokenMode::Words {
        return true;
    }
    let cw = split_whitespace(c.as_slice());
    let iw = split_whitespace(i.as_slice());
    let ghost cws = words(c@);
    let ghost iws = words(i@);
    assert(cw@.len() == cws.len());
    assert(iw@.len() == iws.len());
    if cw.len() >= 3 && iw.len() == 1 {
        assert(iw@[0]@ == iws[0]);
        assert(cw@[cw@.len() - 1]@ == cws.last());
        let incoming_norm = normalize_chars(iw[0].as_slice());
        let last_norm = normalize_chars(cw[cw.len() - 1].as_slice());
        if incoming_norm.len() != 0 && chars_eq(incoming_norm.as_slice(), last_norm.as_slice()) {
            return false;
        }
    }
    true
}

/// What `leading_words_compatible` answers.
pub open spec fn compatible_spec(a: Seq<char>, b: Seq<char>) -> bool {
    let x = normalize(a);
    let y = normalize(b);
    if x.len() == 0 || y.len() == 0 {
        false
    } else if x == y {
        true
    } else if byte_len(x) < 3 || byte_len(y) < 3 {
        false
    } else {
        common_prefix_len(x, y) >= 3
    }
}

/// Whether two words match once normalised, or share a prefix of at least
/// three characters (both being at least three bytes long).
pub fn leading_words_compatible(a: &str, b: &str) -> (r: bool)
    ensures
        r == compatible_spec(a@, b@),
{
    let av = to_chars(a);
    let bv = to_chars(b);
    let x = normalize_chars(av.as_slice());
    let y = normalize_chars(bv.as_slice());
    if x.len() == 0 || y.len() == 0 {
        return false;
    }
    if chars_eq(x.as_slice(), y.as_slice()) {
        return true;
    }
    let xs = from_chars(x.as_slice());
    let ys = from_chars(y.as_slice());
    let xl = utf8_len(&xs);
    let yl = utf8_len(&ys);
    let min_len = if xl < yl {
        xl
    } else {
        yl
    };
    if min_len < 3 {
        return false;
    }
    let common = char_prefix_len(x.as_slice(), y.as_slice());
    common >= 3
}

/// The number of leading positions on which two character slices agree.
fn char_prefix_len(a: &[char], b: &[char]) -> (r: usize)
    ensures
        r == common_prefix_len(a@, b@),
{
    let mut n: usize = 0;
    while n < a.len() && n < b.len() && a[n] == b[n]
        invariant
            n <= a@.len(),
            n <= b@.len(),
            forall|i: int| 0 <= i < n ==> a@[i] == b@[i],
        decreases a@.len() - n,
    {
        n += 1;
    }
    proof {
        lemma_common_prefix_len(a@, b@, n as int);
    }
    n
}

/// Whether the last `n` tokens of `cs` match the first `n` tokens of `tp`.
pub open spec fn overlap_ok(cs: Seq<TokV>, tp: Seq<TokV>, n: int) -> bool {
    forall|j: int| 0 <= j < n ==> cs[cs.len() - n + j].1 == #[trigger] tp[j].1
}

/// The longest overlap of at most `m` tokens (0 if there is none).
pub open spec fn best_overlap(cs: Seq<TokV>, tp: Seq<TokV>, m: int) -> int
    decreases m,
{
    if m <= 0 {
        0
    } else if overlap_ok(cs, tp, m) {
        m
    } else {
        best_overlap(cs, tp, m - 1)
    }
}

/// The smaller of two integers.
pub open spec fn min_int(a: int, b: int) -> int {
    if a < b {
        a
    } else {
        b
    }
}

/// What `dedup_tail` returns.
pub open spec fn dedup_spec(
    committed: Seq<char>,
    tail: Seq<char>,
    mode: TokenMode,
    k_words: usize,
    k_chars: usize,
) -> Seq<char> {
    let t = trim(tail);
    if t.len() == 0 {
        seq![]
    } else {
        let ct = tokens(committed, mode);
        let tt = tokens(t, mode);
        if ct.len() == 0 || tt.len() == 0 {
            join(tt, mode)
        } else {
            let k0 = match mode {
                TokenMode::Words => k_words,
                TokenMode::Chars => k_chars,
            };
            let k = if k0 == 0 {
                1
            } else {
                k0 as int
            };
            let cs = ct.skip(ct.len() - min_int(k, ct.len() as int));
            let tp = tt.take(min_int(k, tt.len() as int));
            let n = best_overlap(cs, tp, min_int(cs.len() as int, tp.len() as int));
            join(tt.skip(n), mode)
        }
    }
}

/// `best_overlap` finds an overlap, and none longer than it up to `m`.
proof fn lemma_best_overlap(cs: Seq<TokV>, tp: Seq<TokV>, m: int, n: int)
    requires
        0 <= n <= m,
        overlap_ok(cs, tp, n),
    ensures
        n <= best_overlap(cs, tp, m) <= m,
        overlap_ok(cs, tp, best_overlap(cs, tp, m)),
    decreases m,
{
    if m > 0 && !overlap_ok(cs, tp, m) {
        lemma_best_overlap(cs, tp, m - 1, n);
    }
}

/// De-duplication compares tokens by their normalised forms: when the last
/// `n` tokens of the committed text and the first `n` tokens of the tail
/// have the same normalised forms (`n` at most the overlap limit of the
/// mode), the result is the tail's tokens after its first `m >= n`, where
/// those `m` tokens too repeat the committed end by normalised form.
pub proof fn law_dedup_removes_normalised_overlap(
    committed: Seq<char>,
    tail: Seq<char>,
    mode: TokenMode,
    k_words: usize,
    k_chars: usize,
    n: int,
)
    requires
        1 <= n,
        n <= (match mode {
            TokenMode::Words => k_words as int,
            TokenMode::Chars => k_chars as int,
        }),
        n <= tokens(committed, mode).len(),
        n <= tokens(trim(tail), mode).len(),
        forall|j: int|
            0 <= j < n ==> tokens(committed, mode)[tokens(committed, mode).len() - n + j].1
                == (#[trigger] tokens(trim(tail), mode)[j]).1,
    ensures
        exists|m: int|
            n <= m <= tokens(trim(tail), mode).len() && (forall|j: int|
                0 <= j < m ==> tokens(committed, mode)[tokens(committed, mode).len() - m + j].1
                    == (#[trigger] tokens(trim(tail), mode)[j]).1) && dedup_spec(
                committed,
                tail,
                mode,
                k_words,
                k_chars,
            ) == join(tokens(trim(tail), mode).skip(m), mode),
{
    let t = trim(tail);
    let ct = tokens(committed, mode);
    let tt = tokens(t, mode);
    if t.len() == 0 {
        assert(t =~= Seq::<char>::empty());
        lemma_no_words_in_empty();
        assert(non_ws_chars(t) =~= Seq::<char>::empty());
        assert(false);
    }
    let k0 = match mode {
        TokenMode::Words => k_words,
        TokenMode::Chars => k_chars,
    };
    let k = k0 as int;
    let cs = ct.skip(ct.len() - min_int(k, ct.len() as int));
    let tp = tt.take(min_int(k, tt.len() as int));
    let top = min_int(cs.len() as int, tp.len() as int);
    assert forall|j: int| 0 <= j < n implies cs[cs.len() - n + j].1 == #[trigger] tp[j].1 by {
        assert(cs[cs.len() - n + j] == ct[ct.len() - n + j]);
        assert(tp[j] == tt[j]);
    }
    lemma_best_overlap(cs, tp, top, n);
    let m = best_overlap(cs, tp, top);
    assert forall|j: int| 0 <= j < m implies ct[ct.len() - m + j].1 == #[trigger] tt[j].1 by {
        assert(cs[cs.len() - m + j] == ct[ct.len() - m + j]);
        assert(tp[j] == tt[j]);
        assert(cs[cs.len() - m + j].1 == tp[j].1);
    }
    assert(dedup_spec(committed, tail, mode, k_words, k_chars) == join(tt.skip(m), mode));
}

/// Drops from the start of a new tail the longest run of tokens (at most `k`)
/// that repeats the end of the committed text.
pub fn dedup_tail(
    committed_text: &str,
    tail_text: &str,
    mode: TokenMode,
    overlap_k_words: usize,
    overlap_k_chars: usize,
) -> (r: String)
    ensures
        r@ == dedup_spec(committed_text@, tail_text@, mode, overlap_k_words, overlap_k_chars),
{
    let tv_chars = to_chars(tail_text);
    let t = trim_chars(tv_chars.as_slice());
    if t.len() == 0 {
        return String::new();
    }
    let committed_tokens = tokenize(committed_text, mode);
    let tail_tokens = tokenize_chars(t.as_slice(), mode);
    if committed_tokens.len() == 0 || tail_tokens.len() == 0 {
        return join_tokens(tail_tokens.as_slice(), mode);
    }
    let k0 = match mode {
        TokenMode::Words => overlap_k_words,
        TokenMode::Chars => overlap_k_chars,
    };
    let k = if k0 == 0 {
        1
    } else {
        k0
    };
    let cl = committed_tokens.len();
    let tl = tail_tokens.len();
    let cs_start = if k < cl {
        cl - k
    } else {
        0
    };
    let tp_end = if tl < k {
        tl
    } else {
        k
    };
    let cs_len = cl - cs_start;
    let max_overlap = if cs_len < tp_end {
        cs_len
    } else {
        tp_end
    };
    let ghost ct = tv(committed_tokens@);
    let ghost tt = tv(tail_tokens@);
    let ghost cs = ct.skip(cs_start as int);
    let ghost tp = tt.take(tp_end as int);
    let mut n = max_overlap;
    let mut found = false;
    while n > 0 && !found
        invariant
            found ==> n > 0 && overlap_ok(cs, tp, n as int),
            n <= max_overlap,
            max_overlap <= cs_len,
            max_overlap <= tp_end,
            cs_len == cl - cs_start,
            cs_start <= cl,
            cl == committed_tokens@.len(),
            tl == tail_tokens@.len(),
            tp_end <= tl,
            ct == tv(committed_tokens@),
            tt == tv(tail_tokens@),
            cs == ct.skip(cs_start as int),
            tp == tt.take(tp_end as int),
            best_overlap(cs, tp, max_overlap as int) == best_overlap(cs, tp, n as int),
        decreases (n as int) * 2 + (if found {
            0int
        } else {
            1int
        }),
    {
        let mut ok = true;
        let mut j: usize = 0;
        while j < n && ok
            invariant
                n <= cs_len,
                n <= tp_end,
                cs_len == cl - cs_start,
                cs_start <= cl,
                cl == committed_tokens@.len(),
                tp_end <= tl,
                tl == tail_tokens@.len(),
                ct == tv(committed_tokens@),
                tt == tv(tail_tokens@),
                cs == ct.skip(cs_start as int),
                tp == tt.take(tp_end as int),
                j <= n,
                ok ==> forall|q: int| 0 <= q < j ==> cs[cs.len() - n + q].1 == #[trigger] tp[q].1,
                !ok ==> !overlap_ok(cs, tp, n as int),
            decreases (n - j) * 2 + (if ok {
                1int
            } else {
                0int
            }),
        {
            let left = &committed_tokens[cl - n + j];
            let right = &tail_tokens[j];
            assert(cs[cs.len() - n + j] == ct[(cl - n + j) as int]);
            assert(tp[j as int] == tt[j as int]);
            if left.norm != right.norm {
                ok = false;
                assert(cs[cs.len() - n + j].1 != tp[j as int].1);
            } else {
                j += 1;
            }
        }
        if ok {
            assert(overlap_ok(cs, tp, n as int));
            found = true;
        } else {
            n -= 1;
        }
    }
    assert(cs.len() == cs_len);
    assert(tp.len() == tp_end);
    assert(n == best_overlap(cs, tp, max_overlap as int));
    let rest = skip_tokens(tail_tokens.as_slice(), n);
    join_tokens(rest.as_slice(), mode)
}

/// The tokens after the first `n`.
fn skip_tokens(v: &[NToken], n: usize) -> (r: Vec<NToken>)
    requires
        n <= v@.len(),
    ensures
        tv(r@) == tv(v@).skip(n as int),
{
    let mut out: Vec<NToken> = Vec::new();
    let mut i = n;
    while i < v.len()
        invariant
            n <= i <= v@.len(),
            out@ == v@.subrange(n as int, i as int),
        decreases v@.len() - i,
    {
        out.push(clone_token(&v[i]));
        assert(v@.subrange(n as int, i + 1) =~= v@.subrange(n as int, i as int).push(v@[i as int]));
        i += 1;
    }
    assert(tv(out@) =~= tv(v@).skip(n as int));
    out
}

/// What `extract_window_tail_text` returns.
pub open spec fn window_tail_spec(text: Seq<char>, window_len: usize) -> Seq<char> {
    let ts = tokens(text, TokenMode::Words);
    if ts.len() <= 1 {
        trim(text)
    } else {
        let prod = window_len * 16;
        let sat = if prod > usize::MAX {
            usize::MAX as int
        } else {
            prod
        };
        let est0 = sat / 1000;
        let est = if est0 < 1 {
            1
        } else {
            est0
        };
        let take = min_int(est, ts.len() as int);
        join(ts.skip(ts.len() - take), TokenMode::Words)
    }
}

/// Keeps the last words of a window transcript, about sixteen words per
/// second of window audio (at least one).
pub fn extract_window_tail_text(text: &str, window_len_16k_samples: usize) -> (r: String)
    ensures
        r@ == window_tail_spec(text@, window_len_16k_samples),
{
    let tokens = tokenize(text, TokenMode::Words);
    let words = tokens.len();
    if words <= 1 {
        return trim_str(text);
    }
    let prod = match window_len_16k_samples.checked_mul(16) {
        Some(v) => v,
        None => usize::MAX,
    };
    let est0 = prod / 1000;
    let estimated = if est0 < 1 {
        1
    } else {
        est0
    };
    let take = if estimated < words {
        estimated
    } else {
        words
    };
    let start = words - take;
    let tail = skip_tokens(tokens.as_slice(), start);
    join_tokens(tail.as_slice(), TokenMode::Words)
}

/// The number of samples at 16 kHz in `ms` milliseconds (saturating).
pub open spec fn ms_to_samples_16k_spec(ms: u64) -> u64 {
    let p = 16000 * ms;
    (if p > u64::MAX {
        u64::MAX as int
    } else {
        p
    } / 1000) as u64
}

/// Converts milliseconds to a sample count at 16 kHz, saturating on overflow.
pub fn ms_to_samples_16k(ms: u64) -> (r: u64)
    ensures
        r == ms_to_samples_16k_spec(ms),
{
    let p = match 16000u64.checked_mul(ms) {
        Some(v) => v,
        None => u64::MAX,
    };
    p / 1000
}

/// Joins the stable tokens with the part of the candidate past them.
fn join_stable_and_candidate(stable: &[NToken], candidate: &[NToken], mode: TokenMode) -> (r: String)
    ensures
        r@ == join(merged_tokens(tv(stable@), tv(candidate@)), mode),
{
    if stable.len() == 0 {
        assert(merged_tokens(tv(stable@), tv(candidate@)) =~= tv(candidate@));
        return join_tokens(candidate, mode);
    }
    let k = if stable.len() < candidate.len() {
        stable.len()
    } else {
        candidate.len()
    };
    let mut merged = clone_tokens(stable);
    let rest = skip_tokens(candidate, k);
    let mut i: usize = 0;
    while i < rest.len()
        invariant
            i <= rest@.len(),
            tv(merged@) == tv(stable@) + tv(rest@).take(i as int),
        decreases rest@.len() - i,
    {
        let ghost before = merged@;
        let t = clone_token(&rest[i]);
        merged.push(t);
        assert(merged@ =~= before.push(t));
        assert(tv(merged@) =~= tv(before).push(t@));
        assert(tv(rest@).take(i + 1) =~= tv(rest@).take(i as int).push(tv(rest@)[i as int]));
        assert(tv(merged@) =~= tv(stable@) + tv(rest@).take(i + 1));
        i += 1;
    }
    assert(tv(rest@).take(rest@.len() as int) =~= tv(rest@));
    assert(tv(merged@) =~= merged_tokens(tv(stable@), tv(candidate@)));
    join_tokens(merged.as_slice(), mode)
}

/// Joins token displays with the separator of `mode`.
fn join_tokens(tokens: &[NToken], mode: TokenMode) -> (r: String)
    ensures
        r@ == join(tv(tokens@), mode),
{
    let ghost ds = displays(tv(tokens@));
    let mut out = String::new();
    let mut idx: usize = 0;
    while idx < tokens.len()
        invariant
            idx <= tokens@.len(),
            ds == displays(tv(tokens@)),
            out@ == join_pieces(ds.take(idx as int), mode),
        decreases tokens@.len() - idx,
    {
        let ghost prev = out@;
        assert(ds.take(idx + 1).drop_last() =~= ds.take(idx as int));
        assert(ds.take(idx + 1).last() == tokens@[idx as int].display@);
        if idx > 0 && mode == TokenMode::Words {
            push_char(&mut out, ' ');
        }
        push_str(&mut out, tokens[idx].display.as_str());
        if idx == 0 {
            assert(ds.take(1) =~= seq![ds[0]]);
            assert(out@ =~= join_pieces(ds.take(1), mode));
        } else {
            assert(out@ =~= prev + sep(mode) + ds[idx as int]);
        }
        idx += 1;
    }
    assert(ds.take(tokens@.len() as int) =~= ds);
    out
}

/// Splits a text into tokens.
fn tokenize(text: &str, mode: TokenMode) -> (r: Vec<NToken>)
    ensures
        tv(r@) == tokens(text@, mode),
{
    let v = to_chars(text);
    tokenize_chars(v.as_slice(), mode)
}

/// Splits characters into tokens.
fn tokenize_chars(v: &[char], mode: TokenMode) -> (r: Vec<NToken>)
    ensures
        tv(r@) == tokens(v@, mode),
{
    let mut out: Vec<NToken> = Vec::new();
    match mode {
        TokenMode::Words => {
            let ws = split_whitespace(v);
            let ghost w = words(v@);
            assert(ws@.len() == w.len());
            let mut i: usize = 0;
            while i < ws.len()
                invariant
                    i <= ws@.len(),
                    ws@.len() == w.len(),
                    forall|k: int| 0 <= k < w.len() ==> ws@[k]@ == #[trigger] w[k],
                    tv(out@) == w.take(i as int).map_values(|x: Seq<char>| token_of(x)),
                decreases ws@.len() - i,
            {
                assert(ws@[i as int]@ == w[i as int]);
                let t = NToken {
                    display: from_chars(ws[i].as_slice()),
                    norm: normalize_word(ws[i].as_slice()),
                };
                assert(t@ == token_of(w[i as int]));
                let ghost before = out@;
                out.push(t);
                assert(out@ =~= before.push(t));
                assert(tv(out@) =~= tv(before).push(t@));
                assert(w.take(i + 1) =~= w.take(i as int).push(w[i as int]));
                assert(tv(out@) =~= w.take(i + 1).map_values(|x: Seq<char>| token_of(x)));
                i += 1;
            }
            assert(w.take(w.len() as int) =~= w);
        },
        TokenMode::Chars => {
            let cs = non_whitespace_chars(v);
            let mut i: usize = 0;
            while i < cs.len()
                invariant
                    i <= cs@.len(),
                    cs@ == non_ws_chars(v@),
                    tv(out@) == cs@.take(i as int).map_values(|c: char| token_of(seq![c])),
                decreases cs@.len() - i,
            {
                let one = [cs[i]];
                assert(one@ =~= seq![cs@[i as int]]);
                let t = NToken { display: from_chars(&one), norm: normalize_word(&one) };
                assert(t@ == token_of(seq![cs@[i as int]]));
                let ghost before = out@;
                out.push(t);
                assert(out@ =~= before.push(t));
                assert(tv(out@) =~= tv(before).push(t@));
                assert(cs@.take(i + 1) =~= cs@.take(i as int).push(cs@[i as int]));
                assert(tv(out@) =~= cs@.take(i + 1).map_values(|c: char| token_of(seq![c])));
                i += 1;
            }
            assert(cs@.take(cs@.len() as int) =~= cs@);
        },
    }
    out
}

/// The normalised form of a token, as a string.
fn normalize_word(token: &[char]) -> (r: String)
    ensures
        r@ == normalize(token@),
{
    let n = normalize_chars(token);
    from_chars(n.as_slice())
}

/// The number of leading tokens whose normalised forms agree.
fn lcp_len(a: &[NToken], b: &[NToken]) -> (r: usize)
    ensures
        r == lcp(tv(a@), tv(b@)),
{
    let mut n: usize = 0;
    while n < a.len() && n < b.len() && a[n].norm == b[n].norm
        invariant
            n <= a@.len(),
            n <= b@.len(),
            forall|i: int| 0 <= i < n ==> norms(tv(a@))[i] == norms(tv(b@))[i],
        decreases a@.len() - n,
    {
        n += 1;
    }
    proof {
        lemma_common_prefix_len(norms(tv(a@)), norms(tv(b@)), n as int);
    }
    n
}

/// The common leading length of all candidates of the window.
fn lcp_len_all(candidate_sets: &std::collections::VecDeque<Vec<NToken>>) -> (r: usize)
    ensures
        r == lcp_all(candidate_sets@.map_values(|v: Vec<NToken>| tv(v@))),
{
    let ghost sets = candidate_sets@.map_values(|v: Vec<NToken>| tv(v@));
    if candidate_sets.len() == 0 {
        return 0;
    }
    let first = &candidate_sets[0];
    let mut count = first.len();
    let mut i: usize = 1;
    while i < candidate_sets.len()
        invariant
            1 <= i <= candidate_sets@.len(),
            sets == candidate_sets@.map_values(|v: Vec<NToken>| tv(v@)),
            tv(first@) == sets[0],
            count == lcp_all_upto(sets, i as int),
        decreases candidate_sets@.len() - i,
    {
        let here = lcp_len(first.as_slice(), candidate_sets[i].as_slice());
        assert(tv(candidate_sets@[i as int]@) == sets[i as int]);
        if here < count {
            count = here;
        }
        i += 1;
        if count == 0 {
            proof {
                lemma_lcp_all_zero_stays(sets, i as int, sets.len() as int);
            }
            return 0;
        }
    }
    count
}

/// Whether `b` is `a` with extra leading tokens of at least four normalised bytes.
fn window_adds_only_long_leading_words(a: &[NToken], b: &[NToken]) -> (r: bool)
    ensures
        r == adds_only_long_leading(tv(a@), tv(b@)),
{
    if b.len() < a.len() {
        return false;
    }
    let suffix_start = b.len() - a.len();
    let mut i: usize = 0;
    while i < a.len()
        invariant
            i <= a@.len(),
            suffix_start == b@.len() - a@.len(),
            suffix_start + a@.len() == b@.len(),
            forall|j: int| 0 <= j < i ==> tv(a@)[j].1 == #[trigger] tv(b@)[b@.len() - a@.len() + j].1,
        decreases a@.len() - i,
    {
        assert(suffix_start + i < b.len());
        if a[i].norm != b[suffix_start + i].norm {
            assert(tv(a@)[i as int].1 != tv(b@)[b@.len() - a@.len() + i].1);
            return false;
        }
        i += 1;
    }
    let mut j: usize = 0;
    while j < suffix_start
        invariant
            j <= suffix_start,
            suffix_start == b@.len() - a@.len(),
            forall|q: int| 0 <= q < j ==> byte_len(#[trigger] tv(b@)[q].1) >= 4,
        decreases suffix_start - j,
    {
        if utf8_len(&b[j].norm) < 4 {
            assert(byte_len(tv(b@)[j as int].1) < 4);
            return false;
        }
        j += 1;
    }
    true
}

} // verus!
