//! Fitting text into a cell: clipping it to a width, and wrapping it into
//! lines. How wide a piece of text is comes from the caller, as a test that
//! says whether it is too wide; the renderer measures with the PDF font's
//! glyph widths.

use vstd::prelude::*;
use vstd::string::{StrSliceExecFns, StringExecFns};
use crate::chars::{spec_is_whitespace, char_is_whitespace, push_char};

verus! {

/// Some call of `too_wide` on text `text` answered `r`.
pub open spec fn judged<F: Fn(&str) -> bool>(too_wide: F, text: Seq<char>, r: bool) -> bool {
    exists|t: &str| t@ == text && #[trigger] call_ensures(too_wide, (t,), r)
}

/// `s` cut to its longest prefix that is not too wide: `s` itself where it
/// is not too wide, otherwise characters are dropped from its end until the
/// rest is not too wide or nothing is left (no ellipsis is added).
pub fn fit<F: Fn(&str) -> bool>(s: &str, too_wide: F) -> (out: String)
    requires
        forall|t: &str| call_requires(too_wide, (t,)),
    ensures
        out@.len() <= s@.len(),
        out@ == s@.take(out@.len() as int),
        out@.len() == 0 || judged(too_wide, out@, false),
        forall|j: int| out@.len() < j <= s@.len() ==> judged(too_wide, #[trigger] s@.take(j), true),
{
    if !too_wide(s) {
        proof {
            assert(s@.take(s@.len() as int) =~= s@);
            assert(judged(too_wide, s@, false));
        }
        return s.to_owned();
    }
    let n = s.unicode_len();
    let mut k: usize = n;
    proof {
        assert(s@.take(n as int) =~= s@);
    }
    while k > 0
        invariant
            k <= n,
            n == s@.len(),
            forall|t: &str| call_requires(too_wide, (t,)),
            forall|j: int| k < j <= n ==> judged(too_wide, #[trigger] s@.take(j), true),
        decreases k,
    {
        let part = s.substring_char(0, k);
        if !too_wide(part) {
            proof {
                assert(part@ =~= s@.take(k as int));
                assert(judged(too_wide, part@, false));
            }
            return part.to_owned();
        }
        proof {
            assert(part@ =~= s@.take(k as int));
            assert(judged(too_wide, s@.take(k as int), true));
        }
        k = k - 1;
    }
    proof {
        assert(s@.take(0) =~= Seq::<char>::empty());
    }
    String::new()
}

/// The words of `s`: its maximal runs of non-whitespace characters, in order
/// (what `str::split_whitespace` yields).
pub open spec fn words_of(s: Seq<char>) -> Seq<Seq<char>>
    decreases s.len(),
{
    if s.len() == 0 {
        Seq::empty()
    } else {
        let w = words_of(s.drop_last());
        let c = s.last();
        if spec_is_whitespace(c) {
            w
        } else if s.len() >= 2 && !spec_is_whitespace(s[s.len() - 2]) {
            w.update(w.len() - 1, w.last().push(c))
        } else {
            w.push(seq![c])
        }
    }
}

/// Every word is non-empty; where `s` ends in a non-whitespace character it
/// has a word.
proof fn lemma_words_of(s: Seq<char>)
    ensures
        forall|i: int| 0 <= i < words_of(s).len() ==> #[trigger] words_of(s)[i].len() > 0,
        s.len() > 0 && !spec_is_whitespace(s.last()) ==> words_of(s).len() > 0,
    decreases s.len(),
{
    if s.len() > 0 {
        let d = s.drop_last();
        lemma_words_of(d);
        if s.len() >= 2 {
            assert(d.last() == s[s.len() - 2]);
        }
        let w = words_of(d);
        if !spec_is_whitespace(s.last()) && s.len() >= 2 && !spec_is_whitespace(s[s.len() - 2]) {
            assert(w.len() > 0);
            assert forall|i: int| 0 <= i < words_of(s).len() implies #[trigger] words_of(s)[i].len() > 0 by {
                if i < w.len() - 1 {
                    assert(words_of(s)[i] == w[i]);
                }
            }
        }
    }
}

/// The characters of `s` that are not whitespace, in order.
pub open spec fn non_space(s: Seq<char>) -> Seq<char>
    decreases s.len(),
{
    if s.len() == 0 {
        Seq::empty()
    } else if spec_is_whitespace(s.last()) {
        non_space(s.drop_last())
    } else {
        non_space(s.drop_last()).push(s.last())
    }
}

/// Words run together, with nothing between them.
pub open spec fn concat_words(ws: Seq<Seq<char>>) -> Seq<char>
    decreases ws.len(),
{
    if ws.len() == 0 {
        Seq::empty()
    } else {
        concat_words(ws.drop_last()) + ws.last()
    }
}

/// Splitting into words drops the whitespace and nothing else: the words run
/// together are the characters of `s` that are not whitespace, in order;
/// every word is non-empty and holds no whitespace.
pub proof fn lemma_words_keep_text(s: Seq<char>)
    ensures
        concat_words(words_of(s)) == non_space(s),
        forall|i: int| 0 <= i < words_of(s).len() ==> #[trigger] words_of(s)[i].len() > 0,
        forall|i: int, j: int| 0 <= i < words_of(s).len() && 0 <= j < words_of(s)[i].len()
            ==> !spec_is_whitespace(#[trigger] words_of(s)[i][j]),
    decreases s.len(),
{
    lemma_words_of(s);
    if s.len() > 0 {
        let d = s.drop_last();
        let c = s.last();
        let w = words_of(d);
        lemma_words_keep_text(d);
        lemma_words_of(d);
        if s.len() >= 2 {
            assert(d.last() == s[s.len() - 2]);
        }
        let ws = words_of(s);
        if spec_is_whitespace(c) {
        } else if s.len() >= 2 && !spec_is_whitespace(s[s.len() - 2]) {
            assert(w.len() > 0);
            assert(ws.drop_last() =~= w.drop_last());
            assert(concat_words(w) == concat_words(w.drop_last()) + w.last());
            assert(concat_words(ws) =~= concat_words(w).push(c));
            assert forall|i: int, j: int| 0 <= i < ws.len() && 0 <= j < ws[i].len()
                implies !spec_is_whitespace(#[trigger] ws[i][j]) by {
                if i < w.len() - 1 {
                    assert(ws[i] == w[i]);
                } else if j < w.last().len() {
                    assert(ws[i][j] == w[w.len() - 1][j]);
                }
            }
        } else {
            assert(ws.drop_last() =~= w);
            assert(concat_words(ws) =~= concat_words(w).push(c));
            assert forall|i: int, j: int| 0 <= i < ws.len() && 0 <= j < ws[i].len()
                implies !spec_is_whitespace(#[trigger] ws[i][j]) by {
                if i < w.len() {
                    assert(ws[i] == w[i]);
                }
            }
        }
    }
}

/// The text of some strings.
pub open spec fn texts(v: Seq<String>) -> Seq<Seq<char>> {
    v.map_values(|s: String| s@)
}

/// The words of `s`, as `str::split_whitespace` splits it.
pub fn split_words(s: &str) -> (words: Vec<String>)
    ensures
        texts(words@) == words_of(s@),
{
    let n = s.unicode_len();
    let mut words: Vec<String> = Vec::new();
    let mut cur = String::new();
    let mut i: usize = 0;
    while i < n
        invariant
            n == s@.len(),
            i <= n,
            texts(words@) + (if cur@.len() > 0 { seq![cur@] } else { Seq::empty() }) == words_of(s@.take(i as int)),
            cur@.len() > 0 <==> (i > 0 && !spec_is_whitespace(s@[i - 1])),
        decreases n - i,
    {
        let c = s.get_char(i);
        let ghost before = s@.take(i as int);
        proof {
            assert(s@.take(i + 1).drop_last() =~= before);
            lemma_words_of(before);
        }
        if char_is_whitespace(c) {
            if cur.unicode_len() > 0 {
                let ghost prev = words@;
                let w = cur;
                words.push(w);
                cur = String::new();
                proof {
                    assert(texts(words@) =~= texts(prev).push(w@));
                }
            }
            proof {
                assert(texts(words@) + (if cur@.len() > 0 { seq![cur@] } else { Seq::empty() }) =~= words_of(s@.take(i + 1)));
            }
        } else {
            let ghost had = cur@;
            push_char(&mut cur, c);
            proof {
                let t = s@.take(i + 1);
                assert(t.last() == c);
                if had.len() > 0 {
                    assert(t[t.len() - 2] == s@[i - 1]);
                    let w = words_of(before);
                    assert(w =~= texts(words@).push(had));
                    assert(words_of(t) == w.update(w.len() - 1, had.push(c)));
                    assert(texts(words@) + seq![cur@] =~= words_of(s@.take(i + 1)));
                } else {
                    if i > 0 {
                        assert(t[t.len() - 2] == s@[i - 1]);
                    }
                    let w = words_of(before);
                    assert(w =~= texts(words@));
                    assert(words_of(t) == w.push(seq![c]));
                    assert(cur@ =~= seq![c]);
                    assert(texts(words@) + seq![cur@] =~= words_of(s@.take(i + 1)));
                }
            }
        }
        i = i + 1;
    }
    if cur.unicode_len() > 0 {
        let ghost prev = words@;
        let w = cur;
        words.push(w);
        proof {
            assert(texts(words@) =~= texts(prev).push(w@));
        }
    }
    proof {
        assert(s@.take(n as int) =~= s@);
        assert(texts(words@) =~= words_of(s@));
    }
    words
}

/// Words joined by single spaces.
pub open spec fn join_words(ws: Seq<Seq<char>>) -> Seq<char>
    decreases ws.len(),
{
    if ws.len() == 0 {
        Seq::empty()
    } else if ws.len() == 1 {
        ws[0]
    } else {
        join_words(ws.drop_last()) + seq![' '] + ws.last()
    }
}

/// `lines` are `words` wrapped greedily at the word positions `br`: line `i`
/// holds words `br[i]` up to `br[i + 1]`, joined by spaces; every longer
/// prefix of a line that was tried was judged not too wide; and the next
/// word would have made each line but the last too wide.
pub open spec fn greedy_lines<F: Fn(&str) -> bool>(
    too_wide: F,
    words: Seq<Seq<char>>,
    lines: Seq<Seq<char>>,
    br: Seq<int>,
) -> bool {
    &&& br.len() == lines.len() + 1
    &&& br[0] == 0
    &&& br.last() == words.len()
    &&& forall|i: int, j: int| 0 <= i < j < br.len() ==> br[i] < br[j]
    &&& forall|i: int| 0 <= i < lines.len() ==> #[trigger] lines[i] == join_words(words.subrange(br[i], br[i + 1]))
    &&& forall|i: int, b: int| 0 <= i < lines.len() && br[i] + 2 <= b <= br[i + 1]
        ==> judged(too_wide, #[trigger] join_words(words.subrange(br[i], b)), false)
    &&& forall|i: int| 0 <= i < lines.len() - 1
        ==> judged(too_wide, #[trigger] join_words(words.subrange(br[i], br[i + 1] + 1)), true)
}

/// Words `a` up to `b + 1` joined are words `a` up to `b` joined, a space and word `b`.
proof fn lemma_join_extend(words: Seq<Seq<char>>, a: int, b: int)
    requires
        0 <= a < b < words.len(),
    ensures
        join_words(words.subrange(a, b + 1)) == join_words(words.subrange(a, b)) + seq![' '] + words[b],
{
    assert(words.subrange(a, b + 1).drop_last() =~= words.subrange(a, b));
}

/// Wraps words into lines greedily: each line takes words while, joined by
/// spaces, they are not too wide; a word that alone is too wide gets a line
/// of its own.
pub fn wrap_words<F: Fn(&str) -> bool>(words: &Vec<String>, too_wide: F) -> (lines: Vec<String>)
    requires
        forall|t: &str| call_requires(too_wide, (t,)),
        forall|i: int| 0 <= i < words@.len() ==> #[trigger] words@[i]@.len() > 0,
    ensures
        exists|br: Seq<int>| greedy_lines(too_wide, texts(words@), texts(lines@), br),
{
    let ghost ws = texts(words@);
    let n = words.len();
    let mut lines: Vec<String> = Vec::new();
    let mut cur = String::new();
    let ghost mut br: Seq<int> = seq![0];
    let ghost mut a: int = 0;
    let mut i: usize = 0;
    while i < n
        invariant
            n == words@.len(),
            ws == texts(words@),
            forall|t: &str| call_requires(too_wide, (t,)),
            forall|k: int| 0 <= k < words@.len() ==> #[trigger] words@[k]@.len() > 0,
            i <= n,
            br.len() == lines@.len() + 1,
            br[0] == 0,
            br.last() == a,
            0 <= a <= i,
            i == 0 ==> cur@.len() == 0 && a == 0,
            i > 0 ==> a < i && cur@ == join_words(ws.subrange(a, i as int)) && cur@.len() > 0,
            forall|k: int, j: int| 0 <= k < j < br.len() ==> br[k] < br[j],
            forall|k: int| 0 <= k < lines@.len() ==> #[trigger] texts(lines@)[k] == join_words(ws.subrange(br[k], br[k + 1])),
            forall|k: int, b: int| 0 <= k < lines@.len() && br[k] + 2 <= b <= br[k + 1]
                ==> judged(too_wide, #[trigger] join_words(ws.subrange(br[k], b)), false),
            forall|k: int| 0 <= k < lines@.len() ==> judged(too_wide, #[trigger] join_words(ws.subrange(br[k], br[k + 1] + 1)), true),
            forall|b: int| a + 2 <= b <= i ==> judged(too_wide, #[trigger] join_words(ws.subrange(a, b)), false),
        decreases n - i,
    {
        let w = &words[i];
        let empty = cur.unicode_len() == 0;
        let mut test = if empty { w.clone() } else { cur.clone() };
        if !empty {
            test.append(" ");
            test.append(w.as_str());
        }
        proof {
            reveal_strlit(" ");
            if !empty {
                lemma_join_extend(ws, a, i as int);
                assert(test@ == join_words(ws.subrange(a, i + 1)));
            } else {
                assert(ws.subrange(0, 1).len() == 1);
                assert(test@ == join_words(ws.subrange(0, i + 1)));
            }
        }
        let r = too_wide(test.as_str());
        if r && !empty {
            let ghost prev = lines@;
            let line = cur;
            lines.push(line);
            cur = w.clone();
            proof {
                assert(texts(lines@) =~= texts(prev).push(line@));
                assert(judged(too_wide, join_words(ws.subrange(a, i + 1)), true));
                let old_br = br;
                br = br.push(i as int);
                assert(forall|k: int| 0 <= k < old_br.len() ==> br[k] == old_br[k]);
                assert(br[lines@.len() - 1] == a && br[lines@.len() as int] == i);
                assert(texts(lines@)[lines@.len() - 1] == join_words(ws.subrange(br[lines@.len() - 1], br[lines@.len() as int])));
                assert forall|k: int| 0 <= k < lines@.len() implies #[trigger] texts(lines@)[k] == join_words(ws.subrange(br[k], br[k + 1])) by {
                    if k < lines@.len() - 1 {
                        assert(texts(lines@)[k] == texts(prev)[k]);
                        assert(br[k] == old_br[k] && br[k + 1] == old_br[k + 1]);
                    }
                }
                assert forall|k: int, b: int| 0 <= k < lines@.len() && br[k] + 2 <= b <= br[k + 1]
                    implies judged(too_wide, #[trigger] join_words(ws.subrange(br[k], b)), false) by {
                    if k < lines@.len() - 1 {
                        assert(br[k] == old_br[k] && br[k + 1] == old_br[k + 1]);
                    }
                }
                assert forall|k: int| 0 <= k < lines@.len() implies judged(too_wide, #[trigger] join_words(ws.subrange(br[k], br[k + 1] + 1)), true) by {
                    if k < lines@.len() - 1 {
                        assert(br[k] == old_br[k] && br[k + 1] == old_br[k + 1]);
                    }
                }
                a = i as int;
                assert(ws.subrange(a, i + 1).len() == 1);
                assert(cur@ == join_words(ws.subrange(a, i + 1)));
            }
        } else {
            cur = test;
            proof {
                if !empty {
                    assert(judged(too_wide, join_words(ws.subrange(a, i + 1)), false));
                }
            }
        }
        i = i + 1;
    }
    if cur.unicode_len() > 0 {
        let ghost prev = lines@;
        let line = cur;
        lines.push(line);
        proof {
            assert(texts(lines@) =~= texts(prev).push(line@));
            let old_br = br;
            br = br.push(n as int);
            assert(forall|k: int| 0 <= k < old_br.len() ==> br[k] == old_br[k]);
            assert(br[lines@.len() - 1] == a && br[lines@.len() as int] == n);
            assert(texts(lines@)[lines@.len() - 1] == join_words(ws.subrange(br[lines@.len() - 1], br[lines@.len() as int])));
            assert forall|k: int| 0 <= k < lines@.len() implies #[trigger] texts(lines@)[k] == join_words(ws.subrange(br[k], br[k + 1])) by {
                if k < lines@.len() - 1 {
                    assert(texts(lines@)[k] == texts(prev)[k]);
                    assert(br[k] == old_br[k] && br[k + 1] == old_br[k + 1]);
                }
            }
            assert forall|k: int, b: int| 0 <= k < lines@.len() && br[k] + 2 <= b <= br[k + 1]
                implies judged(too_wide, #[trigger] join_words(ws.subrange(br[k], b)), false) by {
                if k < lines@.len() - 1 {
                    assert(br[k] == old_br[k] && br[k + 1] == old_br[k + 1]);
                }
            }
            assert forall|k: int| 0 <= k < lines@.len() - 1
                implies judged(too_wide, #[trigger] join_words(ws.subrange(br[k], br[k + 1] + 1)), true) by {
                assert(br[k] == old_br[k] && br[k + 1] == old_br[k + 1]);
            }
        }
    }
    proof {
        assert(greedy_lines(too_wide, ws, texts(lines@), br));
    }
    lines
}

/// Wraps text into lines for a cell: its words (line breaks count as
/// spaces) are wrapped greedily by [`wrap_words`]; blank text gives no lines.
pub fn wrap<F: Fn(&str) -> bool>(s: &str, too_wide: F) -> (lines: Vec<String>)
    requires
        forall|t: &str| call_requires(too_wide, (t,)),
    ensures
        exists|br: Seq<int>| greedy_lines(too_wide, words_of(s@), texts(lines@), br),
{
    let words = split_words(s);
    proof {
        lemma_words_of(s@);
        assert forall|i: int| 0 <= i < words@.len() implies #[trigger] words@[i]@.len() > 0 by {
            assert(texts(words@)[i] == words@[i]@);
        }
    }
    wrap_words(&words, too_wide)
}

/// Joining two non-empty runs of words is joining each, with a space between.
pub proof fn lemma_join_concat(x: Seq<Seq<char>>, y: Seq<Seq<char>>)
    requires
        x.len() > 0,
        y.len() > 0,
    ensures
        join_words(x + y) == join_words(x) + seq![' '] + join_words(y),
    decreases y.len(),
{
    if y.len() == 1 {
        assert((x + y).drop_last() =~= x);
    } else {
        lemma_join_concat(x, y.drop_last());
        assert((x + y).drop_last() =~= x + y.drop_last());
        assert(join_words(x + y) =~= join_words(x) + seq![' '] + join_words(y));
    }
}

/// Wrapping keeps every word, in order: the lines joined by spaces are the
/// words joined by spaces.
pub proof fn lemma_wrap_keeps_words<F: Fn(&str) -> bool>(
    too_wide: F,
    words: Seq<Seq<char>>,
    lines: Seq<Seq<char>>,
    br: Seq<int>,
)
    requires
        greedy_lines(too_wide, words, lines, br),
    ensures
        join_words(lines) == join_words(words),
{
    let m = lines.len() as int;
    if m == 0 {
        assert(words.len() == 0);
    } else {
        assert forall|k: int| 1 <= k <= m implies join_words(#[trigger] lines.take(k)) == join_words(words.subrange(0, br[k])) by {
            lemma_prefix_lines(too_wide, words, lines, br, k);
        }
        assert(lines.take(m) =~= lines);
        assert(words.subrange(0, br[m]) =~= words);
    }
}

proof fn lemma_prefix_lines<F: Fn(&str) -> bool>(
    too_wide: F,
    words: Seq<Seq<char>>,
    lines: Seq<Seq<char>>,
    br: Seq<int>,
    k: int,
)
    requires
        greedy_lines(too_wide, words, lines, br),
        1 <= k <= lines.len(),
    ensures
        join_words(lines.take(k)) == join_words(words.subrange(0, br[k])),
    decreases k,
{
    assert(br[0] < br[k]);
    if k == 1 {
        assert(lines.take(1).len() == 1);
        assert(lines[0] == join_words(words.subrange(br[0], br[1])));
    } else {
        lemma_prefix_lines(too_wide, words, lines, br, k - 1);
        assert(br[0] < br[k - 1] && br[k - 1] < br[k]);
        assert(lines.take(k).drop_last() =~= lines.take(k - 1));
        assert(lines[k - 1] == join_words(words.subrange(br[k - 1], br[k])));
        lemma_join_concat(words.subrange(0, br[k - 1]), words.subrange(br[k - 1], br[k]));
        assert(words.subrange(0, br[k - 1]) + words.subrange(br[k - 1], br[k]) =~= words.subrange(0, br[k]));
    }
}

} // verus!
