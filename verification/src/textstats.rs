//! Text statistics: line, word, character and byte counts, distinct
//! words, and the most common word under case folding.

use vstd::prelude::*;

use crate::text::{is_space, is_space_exec, lemma_lex_lt_total, lemma_lex_lt_trans, lex_lt,
    str_lex_lt};
use vstd::string::StrSliceExecFns;
use vstd::string::StringExecFns;
use vstd::string::StringSliceAdditionalSpecFns;

verus! {

/// The name of what `str::to_lowercase` returns: a function of the
/// characters alone.
pub uninterp spec fn lower_of(s: Seq<char>) -> Seq<char>;

/// Relies on str::to_lowercase: the lowercased text depends on the
/// input characters alone.
#[verifier::external_body]
fn lowercase(s: &str) -> (r: String)
    ensures
        r@ == lower_of(s@),
{
    s.to_lowercase()
}

/// How many line-feed characters the text holds.
pub open spec fn count_newlines(s: Seq<char>) -> int
    decreases s.len(),
{
    if s.len() == 0 {
        0
    } else {
        count_newlines(s.drop_last()) + if s.last() == '\n' {
            1int
        } else {
            0
        }
    }
}

/// How many lines the text holds: line-feed separated, with no empty
/// final line after a trailing line feed, and none at all for empty
/// text.
pub open spec fn lines_count(s: Seq<char>) -> int {
    if s.len() == 0 {
        0
    } else {
        count_newlines(s) + if s.last() == '\n' {
            0int
        } else {
            1
        }
    }
}

/// The position where the whitespace-free run starting at `i` ends.
pub open spec fn word_end(s: Seq<char>, i: int) -> int
    decreases s.len() - i,
{
    if 0 <= i < s.len() && !is_space(s[i]) {
        word_end(s, i + 1)
    } else {
        i
    }
}

pub proof fn lemma_word_end_bounds(s: Seq<char>, i: int)
    requires
        0 <= i <= s.len(),
    ensures
        i <= word_end(s, i) <= s.len(),
        0 <= i < s.len() && !is_space(s[i]) ==> word_end(s, i) > i,
    decreases s.len() - i,
{
    if 0 <= i < s.len() && !is_space(s[i]) {
        lemma_word_end_bounds(s, i + 1);
    }
}

/// The whitespace-separated words of the text from position `i` on.
pub open spec fn words_from(s: Seq<char>, i: int) -> Seq<Seq<char>>
    decreases s.len() - i,
    via words_from_decreases
{
    if !(0 <= i < s.len()) {
        Seq::empty()
    } else if is_space(s[i]) {
        words_from(s, i + 1)
    } else {
        seq![s.subrange(i, word_end(s, i))] + words_from(s, word_end(s, i))
    }
}

#[via_fn]
proof fn words_from_decreases(s: Seq<char>, i: int) {
    if 0 <= i < s.len() {
        lemma_word_end_bounds(s, i);
    }
}

/// The words of the text.
pub open spec fn words_of(s: Seq<char>) -> Seq<Seq<char>> {
    words_from(s, 0)
}

/// The words of the text from `i` on, case-folded.
pub open spec fn lowered_from(s: Seq<char>, i: int) -> Seq<Seq<char>> {
    words_from(s, i).map_values(|w: Seq<char>| lower_of(w))
}

/// The case-folded words of the text.
pub open spec fn lowered_words(s: Seq<char>) -> Seq<Seq<char>> {
    lowered_from(s, 0)
}

/// How many times `w` occurs among `ws`.
pub open spec fn occurrences(ws: Seq<Seq<char>>, w: Seq<char>) -> int
    decreases ws.len(),
{
    if ws.len() == 0 {
        0
    } else {
        occurrences(ws.drop_last(), w) + if ws.last() == w {
            1int
        } else {
            0
        }
    }
}

/// How many distinct values `ws` holds.
pub open spec fn distinct_count(ws: Seq<Seq<char>>) -> int
    decreases ws.len(),
{
    if ws.len() == 0 {
        0
    } else {
        distinct_count(ws.drop_last()) + if ws.drop_last().contains(ws.last()) {
            0int
        } else {
            1
        }
    }
}

pub proof fn lemma_occurrences_le_len(ws: Seq<Seq<char>>, w: Seq<char>)
    ensures
        0 <= occurrences(ws, w) <= ws.len(),
    decreases ws.len(),
{
    if ws.len() > 0 {
        lemma_occurrences_le_len(ws.drop_last(), w);
    }
}

/// Appending one word raises only that word's count.
pub proof fn lemma_occurrences_push(ws: Seq<Seq<char>>, v: Seq<char>, w: Seq<char>)
    ensures
        occurrences(ws.push(v), w) == occurrences(ws, w) + if v == w {
            1int
        } else {
            0
        },
{
    assert(ws.push(v).drop_last() =~= ws);
    assert(ws.push(v).last() == v);
}

pub proof fn lemma_occurrences_contains(ws: Seq<Seq<char>>, w: Seq<char>)
    ensures
        occurrences(ws, w) >= 1 <==> ws.contains(w),
    decreases ws.len(),
{
    lemma_occurrences_le_len(ws, w);
    lemma_occurrences_le_len(ws.drop_last(), w);
    if ws.len() > 0 {
        lemma_occurrences_contains(ws.drop_last(), w);
        if ws.last() == w {
            assert(ws[ws.len() - 1] == w);
            assert(ws.contains(w));
        } else {
            if ws.contains(w) {
                let k = choose|k: int| 0 <= k < ws.len() && ws[k] == w;
                assert(k < ws.len() - 1);
                assert(ws.drop_last()[k] == w);
                assert(ws.drop_last().contains(w));
            }
            if ws.drop_last().contains(w) {
                let k = choose|k: int|
                    0 <= k < ws.drop_last().len() && ws.drop_last()[k] == w;
                assert(ws[k] == w);
                assert(ws.contains(w));
            }
        }
    }
}

/// The word-frequency table: distinct keys that are exactly the values
/// seen so far, each with its occurrence count.
pub open spec fn freq_ok(freq: Seq<(String, usize)>, done: Seq<Seq<char>>) -> bool {
    &&& forall|i: int, j: int|
        0 <= i < j < freq.len() ==> ((#[trigger] freq[i]).0)@ != ((#[trigger] freq[j]).0)@
    &&& forall|i: int|
        0 <= i < freq.len() ==> occurrences(done, ((#[trigger] freq[i]).0)@) == freq[i].1
    &&& forall|i: int| 0 <= i < freq.len() ==> done.contains(((#[trigger] freq[i]).0)@)
    &&& forall|w: Seq<char>|
        #[trigger] done.contains(w) ==> exists|i: int| 0 <= i < freq.len() && ((#[trigger] freq[i]).0)@ == w
    &&& freq.len() == distinct_count(done)
}

/// Record one more word in the frequency table.
fn bump(freq: &mut Vec<(String, usize)>, low: String, Ghost(done): Ghost<Seq<Seq<char>>>)
    requires
        freq_ok(old(freq)@, done),
        done.len() < usize::MAX,
    ensures
        freq_ok(final(freq)@, done.push(low@)),
{
    let mut q: usize = 0;
    while q < freq.len()
        invariant
            0 <= q <= freq.len(),
            forall|i: int| 0 <= i < q ==> ((#[trigger] freq[i]).0)@ != low@,
            freq_ok(freq@, done),
            done.len() < usize::MAX,
            freq == old(freq),
        decreases freq.len() - q,
    {
        if freq[q].0 == low {
            proof {
                assert(done.push(low@).drop_last() =~= done);
                assert(done.push(low@).last() == low@);
                lemma_occurrences_le_len(done, low@);
                lemma_occurrences_contains(done, low@);
                assert(done.contains(low@));
            }
            let c = freq[q].1;
            let ghost old_freq = freq@;
            freq[q].1 = c + 1;
            proof {
                let pushed = done.push(low@);
                assert(forall|i: int|
                    0 <= i < freq@.len() && i != q ==> #[trigger] freq@[i] == old_freq[i]);
                assert(freq@[q as int].0 == old_freq[q as int].0);
                assert forall|w: Seq<char>| w != low@ implies occurrences(pushed, w)
                    == occurrences(done, w) by {
                    lemma_occurrences_push(done, low@, w);
                }
                lemma_occurrences_push(done, low@, low@);
                assert forall|w: Seq<char>| #[trigger] pushed.contains(w) implies (done.contains(w)
                    || w == low@) by {
                    if pushed.contains(w) && w != low@ {
                        let k = choose|k: int| 0 <= k < pushed.len() && pushed[k] == w;
                        assert(k < done.len());
                        assert(done[k] == w);
                    }
                }
                assert forall|w: Seq<char>| #[trigger] done.contains(w) implies pushed.contains(
                    w,
                ) by {
                    let k = choose|k: int| 0 <= k < done.len() && done[k] == w;
                    assert(pushed[k] == w);
                }
                assert(pushed[done.len() as int] == low@);
                assert(pushed.contains(low@));
                assert forall|i: int| 0 <= i < freq@.len() && i != q implies ((
                #[trigger] freq@[i]).0)@ != low@ by {
                    if i < q {
                        assert(((old_freq[i]).0)@ != ((old_freq[q as int]).0)@);
                    } else {
                        assert(((old_freq[q as int]).0)@ != ((old_freq[i]).0)@);
                    }
                }
                assert forall|i: int| 0 <= i < freq@.len() implies occurrences(
                    pushed,
                    ((#[trigger] freq@[i]).0)@,
                ) == freq@[i].1 by {
                    if i != q {
                        lemma_occurrences_push(done, low@, freq@[i].0@);
                    }
                }
                assert forall|w: Seq<char>| #[trigger] pushed.contains(w) implies exists|i: int|
                    0 <= i < freq@.len() && ((#[trigger] freq@[i]).0)@ == w by {
                    if w == low@ {
                        assert(((freq@[q as int]).0)@ == w);
                    } else {
                        assert(done.contains(w));
                        let i = choose|i: int|
                            0 <= i < old_freq.len() && ((#[trigger] old_freq[i]).0)@ == w;
                        assert(((freq@[i]).0)@ == w);
                    }
                }
                assert(freq_ok(freq@, pushed));
            }
            return ;
        }
        q = q + 1;
    }
    proof {
        assert(done.push(low@).drop_last() =~= done);
        assert(done.push(low@).last() == low@);
        assert(!done.contains(low@)) by {
            if done.contains(low@) {
                let i = choose|i: int|
                    0 <= i < freq@.len() && ((#[trigger] freq@[i]).0)@ == low@;
            }
        }
        lemma_occurrences_contains(done, low@);
        lemma_occurrences_le_len(done, low@);
        assert(occurrences(done, low@) == 0);
    }
    let ghost old_freq = freq@;
    freq.push((low, 1));
    proof {
        let pushed = done.push(low@);
        assert(pushed.drop_last() =~= done);
        assert(forall|i: int| 0 <= i < old_freq.len() ==> #[trigger] freq@[i] == old_freq[i]);
        assert forall|w: Seq<char>| w != low@ implies occurrences(pushed, w) == occurrences(
            done,
            w,
        ) by {
            lemma_occurrences_push(done, low@, w);
        }
        lemma_occurrences_push(done, low@, low@);
        assert forall|w: Seq<char>| #[trigger] pushed.contains(w) implies (done.contains(w) || w
            == low@) by {
            if pushed.contains(w) && w != low@ {
                let k = choose|k: int| 0 <= k < pushed.len() && pushed[k] == w;
                assert(k < done.len());
                assert(done[k] == w);
            }
        }
        assert forall|w: Seq<char>| #[trigger] done.contains(w) implies pushed.contains(w) by {
            let k = choose|k: int| 0 <= k < done.len() && done[k] == w;
            assert(pushed[k] == w);
        }
        assert(pushed[done.len() as int] == low@);
        assert(pushed.contains(low@));
        assert(freq@[freq@.len() - 1].0@ == low@);
        assert forall|i: int| 0 <= i < old_freq.len() implies ((#[trigger] freq@[i]).0)@
            != low@ by {
            assert(done.contains(old_freq[i].0@));
        }
        assert forall|i: int| 0 <= i < freq@.len() implies occurrences(
            pushed,
            ((#[trigger] freq@[i]).0)@,
        ) == freq@[i].1 by {
            if i < old_freq.len() {
                lemma_occurrences_push(done, low@, freq@[i].0@);
            }
        }
        assert forall|w: Seq<char>| #[trigger] pushed.contains(w) implies exists|i: int|
            0 <= i < freq@.len() && ((#[trigger] freq@[i]).0)@ == w by {
            if w == low@ {
                assert(((freq@[freq@.len() - 1]).0)@ == w);
            } else {
                assert(done.contains(w));
                let i = choose|i: int|
                    0 <= i < old_freq.len() && ((#[trigger] old_freq[i]).0)@ == w;
                assert(((freq@[i]).0)@ == w);
            }
        }
        assert(freq_ok(freq@, pushed));
    }
}

/// Select the most common word: highest count, ties broken toward the
/// word that sorts first.
fn select_most_common(freq: &Vec<(String, usize)>, Ghost(lw): Ghost<Seq<Seq<char>>>) -> (r: Option<
    String,
>)
    requires
        freq_ok(freq@, lw),
    ensures
        r is Some <==> freq.len() > 0,
        r is Some ==> occurrences(lw, r->0@) >= 1 && (forall|w: Seq<char>|
            #[trigger] occurrences(lw, w) <= occurrences(lw, r->0@)) && (forall|w: Seq<char>|
            #[trigger] occurrences(lw, w) == occurrences(lw, r->0@) && w != r->0@ ==> lex_lt(
                r->0@,
                w,
            )),
{
    if freq.len() == 0 {
        return None;
    }
    let mut best: usize = 0;
    let mut q: usize = 1;
    while q < freq.len()
        invariant
            0 <= best < freq.len(),
            1 <= q <= freq.len(),
            freq_ok(freq@, lw),
            forall|i: int|
                0 <= i < q && i != best ==> ((#[trigger] freq[i]).1 < freq[best as int].1 || (
                freq[i].1 == freq[best as int].1 && lex_lt(freq[best as int].0@, freq[i].0@))),
        decreases freq.len() - q,
    {
        let cq = freq[q].1;
        let cb = freq[best].1;
        let replace = cq > cb || (cq == cb && str_lex_lt(freq[q].0.as_str(), freq[best].0.as_str()));
        proof {
            lemma_lex_lt_total(freq@[q as int].0@, freq@[best as int].0@);
            if replace {
                assert forall|i: int| 0 <= i < q + 1 && i != q implies ((#[trigger] freq[i]).1
                    < freq[q as int].1 || (freq[i].1 == freq[q as int].1 && lex_lt(
                    freq[q as int].0@,
                    freq[i].0@,
                ))) by {
                    if i != best {
                        if freq[i].1 == freq[q as int].1 {
                            assert(freq[i].1 == freq[best as int].1);
                            lemma_lex_lt_trans(freq[q as int].0@, freq[best as int].0@, freq[i].0@);
                        }
                    }
                }
            }
        }
        if replace {
            best = q;
        }
        q = q + 1;
    }
    let chosen = freq[best].0.clone();
    proof {
        lemma_occurrences_contains(lw, chosen@);
        assert forall|w: Seq<char>| #[trigger] occurrences(lw, w) <= occurrences(lw, chosen@) by {
            lemma_occurrences_le_len(lw, w);
            if occurrences(lw, w) >= 1 {
                lemma_occurrences_contains(lw, w);
                assert(lw.contains(w));
                let i = choose|i: int| 0 <= i < freq@.len() && ((#[trigger] freq@[i]).0)@ == w;
                assert(occurrences(lw, w) == freq@[i].1);
            }
        }
        assert forall|w: Seq<char>|
            #[trigger] occurrences(lw, w) == occurrences(lw, chosen@) && w != chosen@ implies lex_lt(
            chosen@,
            w,
        ) by {
            lemma_occurrences_contains(lw, w);
            assert(lw.contains(w));
            let i = choose|i: int| 0 <= i < freq@.len() && ((#[trigger] freq@[i]).0)@ == w;
            assert(occurrences(lw, w) == freq@[i].1);
            assert(i != best);
        }
    }
    Some(chosen)
}

pub proof fn lemma_count_newlines_le(s: Seq<char>)
    ensures
        0 <= count_newlines(s) <= s.len(),
    decreases s.len(),
{
    if s.len() > 0 {
        lemma_count_newlines_le(s.drop_last());
    }
}

pub proof fn lemma_distinct_zero(ws: Seq<Seq<char>>)
    ensures
        distinct_count(ws) == 0 <==> ws.len() == 0,
        distinct_count(ws) >= 0,
    decreases ws.len(),
{
    if ws.len() > 0 {
        lemma_distinct_zero(ws.drop_last());
    }
}

/// The computed statistics of one text.
#[derive(Debug, PartialEq)]
pub struct TextStats {
    /// Number of lines.
    pub lines: usize,
    /// Number of whitespace-separated words.
    pub words: usize,
    /// Number of characters.
    pub chars: usize,
    /// Number of bytes of the UTF-8 encoding.
    pub bytes: usize,
    /// The case-folded word occurring most often, ties broken toward
    /// the word that sorts first; nothing for empty text.
    pub most_common_word: Option<String>,
    /// Number of distinct case-folded words.
    pub unique_words: usize,
}

/// Analyze a text: count lines, words, characters and bytes, and find
/// the distinct and most common case-folded words.
pub fn analyze(input: &str) -> (r: TextStats)
    ensures
        r.lines == lines_count(input@),
        r.words == words_of(input@).len(),
        r.chars == input@.len(),
        r.bytes == input.spec_bytes().len() as usize,
        r.unique_words == distinct_count(lowered_words(input@)),
        r.most_common_word is Some <==> lowered_words(input@).len() > 0,
        r.most_common_word is Some ==> occurrences(
            lowered_words(input@),
            r.most_common_word->0@,
        ) >= 1,
        r.most_common_word is Some ==> (forall|w: Seq<char>|
            #[trigger] occurrences(lowered_words(input@), w) <= occurrences(
                lowered_words(input@),
                r.most_common_word->0@,
            )),
        r.most_common_word is Some ==> (forall|w: Seq<char>|
            #[trigger] occurrences(lowered_words(input@), w) == occurrences(
                lowered_words(input@),
                r.most_common_word->0@,
            ) && w != r.most_common_word->0@ ==> lex_lt(r.most_common_word->0@, w)),
{
    let ghost s = input@;
    let n = input.unicode_len();
    let bytes = input.len();
    // Lines.
    let mut newlines: usize = 0;
    let mut i: usize = 0;
    while i < n
        invariant
            0 <= i <= n,
            n == s.len(),
            s == input@,
            newlines == count_newlines(s.take(i as int)),
            newlines <= i,
        decreases n - i,
    {
        proof {
            assert(s.take(i + 1).drop_last() =~= s.take(i as int));
            assert(s.take(i + 1).last() == s[i as int]);
        }
        if input.get_char(i) == '\n' {
            newlines = newlines + 1;
        }
        i = i + 1;
    }
    proof {
        assert(s.take(n as int) =~= s);
    }
    let lines: usize = if n == 0 {
        0
    } else {
        if input.get_char(n - 1) == '\n' {
            newlines
        } else {
            proof {
                assert(s.drop_last() =~= s.take(n - 1));
                lemma_count_newlines_le(s.drop_last());
                assert(count_newlines(s) == count_newlines(s.drop_last()));
                assert(newlines <= n - 1);
            }
            newlines + 1
        }
    };
    // Words.
    let mut total: usize = 0;
    let mut freq: Vec<(String, usize)> = Vec::new();
    let ghost mut done: Seq<Seq<char>> = Seq::empty();
    let mut w: usize = 0;
    proof {
        assert(lowered_words(s) =~= done + lowered_from(s, 0));
    }
    while w < n
        invariant
            0 <= w <= n,
            n == s.len(),
            s == input@,
            lowered_words(s) == done + lowered_from(s, w as int),
            total == done.len(),
            total <= w,
            freq_ok(freq@, done),
        decreases n - w,
    {
        let c = input.get_char(w);
        if is_space_exec(c) {
            proof {
                assert(words_from(s, w as int) == words_from(s, w + 1));
            }
            w = w + 1;
        } else {
            let mut j = w + 1;
            proof {
                lemma_word_end_bounds(s, w as int);
            }
            while j < n && !is_space_exec(input.get_char(j))
                invariant
                    w < j <= n,
                    n == s.len(),
                    s == input@,
                    word_end(s, w as int) == word_end(s, j as int),
                decreases n - j,
            {
                j = j + 1;
            }
            proof {
                assert(word_end(s, j as int) == j);
                assert(word_end(s, w as int) == j);
            }
            let word = input.substring_char(w, j);
            let low = lowercase(word);
            let ghost lw_word = lower_of(s.subrange(w as int, j as int));
            proof {
                assert(low@ == lw_word);
                assert(words_from(s, w as int) == seq![s.subrange(w as int, j as int)]
                    + words_from(s, j as int));
                assert(lowered_from(s, w as int) =~= seq![lw_word] + lowered_from(s, j as int));
                assert(done + lowered_from(s, w as int) =~= done.push(lw_word) + lowered_from(
                    s,
                    j as int,
                ));
            }
            bump(&mut freq, low, Ghost(done));
            proof {
                done = done.push(lw_word);
            }
            total = total + 1;
            w = j;
        }
    }
    proof {
        assert(lowered_from(s, n as int) =~= Seq::empty());
        assert(lowered_words(s) =~= done);
        assert(lowered_words(s).len() == words_of(s).len());
        lemma_distinct_zero(done);
    }
    let most_common_word = select_most_common(&freq, Ghost(done));
    let unique_words = freq.len();
    TextStats { lines, words: total, chars: n, bytes, most_common_word, unique_words }
}

} // verus!
