//! Laws of the library that relate several functions: the tokenizer returns
//! plain whitespace-separated words unchanged, and resolution treats the
//! action word case-insensitively.

use vstd::prelude::*;

use crate::parse::{scan_bare_at, skip_ws_at, tokenize_at, tokens_of};
use crate::resolve::{find_variant, find_variant_at, join_spaces, resolve_tokens};
use crate::schema::VariantSpecV;
use crate::text::{ieq, is_quote, is_ws, lo};

verus! {

/// A character that no tokenizer rule treats specially.
pub open spec fn plain_char(c: char) -> bool {
    !is_ws(c) && !is_quote(c) && c != '\\'
}

/// A nonempty word of plain characters.
pub open spec fn plain_word(w: Seq<char>) -> bool {
    w.len() > 0 && forall|i: int| 0 <= i < w.len() ==> plain_char(#[trigger] w[i])
}

/// The separators of a line whose words are joined by single spaces: nothing
/// before the first word and after the last, one space between words.
pub open spec fn single_space_seps(n: int) -> Seq<Seq<char>> {
    Seq::new((n + 1) as nat, |k: int| if 1 <= k < n { seq![' '] } else { Seq::<char>::empty() })
}

proof fn lemma_join_is_interleave(seps: Seq<Seq<char>>, words: Seq<Seq<char>>)
    requires
        seps.len() == words.len() + 1,
        forall|k: int| 1 <= k < words.len() ==> #[trigger] seps[k] == seq![' '],
        seps[words.len() as int].len() == 0,
    ensures
        ws_interleave(seps, words) == seps[0] + join_spaces(words),
    decreases words.len(),
{
    if words.len() == 0 {
        assert(ws_interleave(seps, words) == seps[0]);
        assert(seps[0] + join_spaces(words) =~= seps[0]);
    } else if words.len() == 1 {
        assert(ws_interleave(seps.drop_first(), words.drop_first()) == seps[1]);
        assert(seps[0] + words[0] + seps[1] =~= seps[0] + join_spaces(words));
    } else {
        lemma_join_is_interleave(seps.drop_first(), words.drop_first());
        assert(seps.drop_first()[0] == seps[1]);
        assert(seps[1] == seq![' ']);
        assert(ws_interleave(seps, words) == seps[0] + words[0] + (seq![' '] + join_spaces(
            words.drop_first(),
        )));
        assert(join_spaces(words) == words[0] + seq![' '] + join_spaces(words.drop_first()));
        assert(seps[0] + words[0] + (seq![' '] + join_spaces(words.drop_first())) =~= seps[0]
            + join_spaces(words));
    }
}

/// Tokenizing is the identity on unquoted input: a line of nonempty words of
/// plain characters (no whitespace, quotes or backslashes), joined with
/// single spaces, tokenizes to exactly those words in order.
pub proof fn lemma_tokenize_plain_words(words: Seq<Seq<char>>)
    requires
        forall|k: int| 0 <= k < words.len() ==> plain_word(#[trigger] words[k]),
    ensures
        tokens_of(join_spaces(words)) == Some(words),
{
    let seps = single_space_seps(words.len() as int);
    lemma_tokenize_ws_separated(seps, words);
    lemma_join_is_interleave(seps, words);
    assert(seps[0] + join_spaces(words) =~= join_spaces(words));
}

/// A run of whitespace characters, possibly empty.
pub open spec fn ws_run(sep: Seq<char>) -> bool {
    forall|i: int| 0 <= i < sep.len() ==> is_ws(#[trigger] sep[i])
}

/// The words interleaved with the separators: one separator before each word
/// and one after the last.
pub open spec fn ws_interleave(seps: Seq<Seq<char>>, words: Seq<Seq<char>>) -> Seq<char>
    decreases words.len(),
{
    if words.len() == 0 {
        if seps.len() > 0 {
            seps[0]
        } else {
            Seq::empty()
        }
    } else {
        seps[0] + words[0] + ws_interleave(seps.drop_first(), words.drop_first())
    }
}

proof fn lemma_skip_ws_run(s: Seq<char>, i: int, j: int)
    requires
        0 <= i <= j <= s.len(),
        forall|k: int| i <= k < j ==> is_ws(#[trigger] s[k]),
        j == s.len() || !is_ws(s[j]),
    ensures
        skip_ws_at(s, i) == j,
    decreases j - i,
{
    if i < j {
        lemma_skip_ws_run(s, i + 1, j);
    }
}

proof fn lemma_tokenize_ws_at(s: Seq<char>, i: int, seps: Seq<Seq<char>>, words: Seq<Seq<char>>)
    requires
        0 <= i <= s.len(),
        seps.len() == words.len() + 1,
        forall|k: int| 0 <= k < seps.len() ==> ws_run(#[trigger] seps[k]),
        forall|k: int| 1 <= k < words.len() ==> #[trigger] seps[k].len() > 0,
        forall|k: int| 0 <= k < words.len() ==> plain_word(#[trigger] words[k]),
        s.subrange(i, s.len() as int) == ws_interleave(seps, words),
    ensures
        tokenize_at(s, i) == Some(words),
    decreases words.len(),
{
    let len = s.len() as int;
    assert(len - i == ws_interleave(seps, words).len());
    if words.len() == 0 {
        let sep0 = seps[0];
        assert forall|k: int| i <= k < len implies is_ws(s[k]) by {
            assert(s.subrange(i, len)[k - i] == s[k]);
            assert(sep0[k - i] == s[k]);
        }
        lemma_skip_ws_run(s, i, len);
        assert(words =~= Seq::<Seq<char>>::empty());
    } else {
        let sep0 = seps[0];
        let w = words[0];
        let tail = ws_interleave(seps.drop_first(), words.drop_first());
        let sl = sep0.len() as int;
        let wl = w.len() as int;
        let p = i + sl;
        let q = p + wl;
        assert(plain_word(w));
        assert(q - i + tail.len() == len - i);
        assert forall|k: int| 0 <= k < len - i implies s[i + k] == (sep0 + w + tail)[k] by {
            assert(s.subrange(i, len)[k] == s[i + k]);
        }
        // the leading separator is skipped, up to the word's first character
        assert forall|k: int| i <= k < p implies is_ws(s[k]) by {
            assert(s[i + (k - i)] == (sep0 + w + tail)[k - i]);
            assert((sep0 + w + tail)[k - i] == sep0[k - i]);
        }
        assert forall|k: int| p <= k < q implies s[k] == w[k - p] && plain_char(s[k]) by {
            assert(s[i + (k - i)] == (sep0 + w + tail)[k - i]);
            assert((sep0 + w + tail)[k - i] == w[k - p]);
            assert(plain_char(w[k - p]));
        }
        assert(s[p] == w[0]);
        lemma_skip_ws_run(s, i, p);
        assert(!is_quote(s[p]));
        // the bare scan takes exactly the word: after it stands either the
        // end of the line or a whitespace character of the next separator
        crate::parse::lemma_scan_bare_at(s, p);
        let (t, j) = scan_bare_at(s, p);
        if q < len {
            assert(s[i + (q - i)] == (sep0 + w + tail)[q - i]);
            assert((sep0 + w + tail)[q - i] == tail[0]);
            if words.len() > 1 {
                assert(tail == seps[1] + words[1] + ws_interleave(
                    seps.drop_first().drop_first(),
                    words.drop_first().drop_first(),
                ));
                assert(seps[1].len() > 0);
                assert(tail[0] == seps[1][0]);
                assert(ws_run(seps[1]));
                assert(is_ws(tail[0]));
            } else {
                assert(tail == seps[1]);
                assert(ws_run(seps[1]));
                assert(is_ws(tail[0]));
            }
            assert(is_ws(s[q]));
        }
        if j < q {
            assert(is_ws(s[j]));
            assert(false);
        }
        if q < j {
            assert(!is_ws(s[q]));
            assert(false);
        }
        assert(j == q);
        assert(t =~= w);
        assert forall|m: int| 0 <= m < len - q implies s.subrange(q, len)[m] == tail[m] by {
            assert(s[i + (q - i + m)] == (sep0 + w + tail)[q - i + m]);
        }
        assert(s.subrange(q, len) =~= tail);
        lemma_tokenize_ws_at(s, q, seps.drop_first(), words.drop_first());
        assert(tokenize_at(s, i) == Some(seq![w] + words.drop_first()));
        assert(seq![w] + words.drop_first() =~= words);
    }
}

/// Tokenizing is the identity on unquoted input, whatever whitespace stands
/// between the words: a line of nonempty words of plain characters (no
/// whitespace, quotes or backslashes), separated by nonempty whitespace runs
/// and optionally padded with whitespace at either end, tokenizes to exactly
/// those words in order.
pub proof fn lemma_tokenize_ws_separated(seps: Seq<Seq<char>>, words: Seq<Seq<char>>)
    requires
        seps.len() == words.len() + 1,
        forall|k: int| 0 <= k < seps.len() ==> ws_run(#[trigger] seps[k]),
        forall|k: int| 1 <= k < words.len() ==> #[trigger] seps[k].len() > 0,
        forall|k: int| 0 <= k < words.len() ==> plain_word(#[trigger] words[k]),
    ensures
        tokens_of(ws_interleave(seps, words)) == Some(words),
{
    let s = ws_interleave(seps, words);
    assert(s.subrange(0, s.len() as int) =~= s);
    lemma_tokenize_ws_at(s, 0, seps, words);
}

proof fn lemma_find_variant_ieq(vs: Seq<VariantSpecV>, w1: Seq<char>, w2: Seq<char>, i: int)
    requires
        0 <= i <= vs.len(),
        ieq(w1, w2),
    ensures
        find_variant_at(vs, w1, i) == find_variant_at(vs, w2, i),
    decreases vs.len() - i,
{
    if i < vs.len() {
        assert(ieq(vs[i].name, w1) == ieq(vs[i].name, w2)) by {
            if ieq(vs[i].name, w1) {
                assert(forall|k: int|
                    0 <= k < w2.len() ==> lo(vs[i].name[k]) == lo(w2[k]));
            }
            if ieq(vs[i].name, w2) {
                assert(forall|k: int|
                    0 <= k < w1.len() ==> lo(vs[i].name[k]) == lo(w1[k]));
            }
        }
        lemma_find_variant_ieq(vs, w1, w2, i + 1);
    }
}

/// Matching the action word is case-insensitive: two token sequences whose
/// leading words agree up to ASCII case, and whose argument words are the
/// same, select the same variant; and when a variant matches, they resolve to
/// the very same outcome.
pub proof fn lemma_resolve_case_insensitive(
    vs: Seq<VariantSpecV>,
    t1: Seq<Seq<char>>,
    t2: Seq<Seq<char>>,
)
    requires
        t1.len() > 0,
        t2.len() == t1.len(),
        ieq(t1[0], t2[0]),
        t1.drop_first() == t2.drop_first(),
    ensures
        find_variant(vs, t1[0]) == find_variant(vs, t2[0]),
        find_variant(vs, t1[0]) is Some ==> resolve_tokens(vs, t1) == resolve_tokens(vs, t2),
{
    lemma_find_variant_ieq(vs, t1[0], t2[0], 0);
}

} // verus!
