//! The tokenizer: splits a raw command line into shell-like words.
//!
//! A token is either bare (a maximal run of non-whitespace characters) or
//! quoted: it starts with `"` or `'` and runs to the matching quote, which is
//! stripped. Inside quotes, a backslash followed by the enclosing quote
//! character or by a backslash stands for that literal character; any other
//! backslash sequence is passed through literally. A quote that is never
//! closed is a tokenize error.

use vstd::prelude::*;

use crate::error::Error;
use crate::text::{is_quote, is_ws, ws_char};

verus! {

/// The first index at or after `i` holding a non-whitespace character, or the
/// length of `s` if none does.
pub open spec fn skip_ws_at(s: Seq<char>, i: int) -> int
    decreases s.len() - i,
    when 0 <= i <= s.len()
{
    if i < s.len() && is_ws(s[i]) {
        skip_ws_at(s, i + 1)
    } else {
        i
    }
}

/// The bare token starting at `i` (the run of non-whitespace characters) and
/// the index just past it.
pub open spec fn scan_bare_at(s: Seq<char>, i: int) -> (Seq<char>, int)
    decreases s.len() - i,
    when 0 <= i <= s.len()
{
    if i < s.len() && !is_ws(s[i]) {
        let (t, j) = scan_bare_at(s, i + 1);
        (seq![s[i]] + t, j)
    } else {
        (Seq::empty(), i)
    }
}

/// The contents of a quoted token whose opening quote `q` stands just before
/// index `i`, and the index just past the closing quote; `None` if the quote
/// is never closed.
pub open spec fn scan_quoted_at(s: Seq<char>, q: char, i: int) -> Option<(Seq<char>, int)>
    decreases s.len() - i,
    when 0 <= i <= s.len()
{
    if i >= s.len() {
        None
    } else if s[i] == q {
        Some((Seq::empty(), i + 1))
    } else if s[i] == '\\' {
        if i + 1 < s.len() {
            match scan_quoted_at(s, q, i + 2) {
                None => None,
                Some((t, j)) => if s[i + 1] == q || s[i + 1] == '\\' {
                    Some((seq![s[i + 1]] + t, j))
                } else {
                    Some((seq![s[i], s[i + 1]] + t, j))
                },
            }
        } else {
            None
        }
    } else {
        match scan_quoted_at(s, q, i + 1) {
            None => None,
            Some((t, j)) => Some((seq![s[i]] + t, j)),
        }
    }
}

pub proof fn lemma_skip_ws_at(s: Seq<char>, i: int)
    requires
        0 <= i <= s.len(),
    ensures
        i <= skip_ws_at(s, i) <= s.len(),
        skip_ws_at(s, i) < s.len() ==> !is_ws(s[skip_ws_at(s, i)]),
        forall|k: int| i <= k < skip_ws_at(s, i) ==> is_ws(s[k]),
    decreases s.len() - i,
{
    if i < s.len() && is_ws(s[i]) {
        lemma_skip_ws_at(s, i + 1);
    }
}

pub proof fn lemma_scan_bare_at(s: Seq<char>, i: int)
    requires
        0 <= i <= s.len(),
    ensures
        i <= scan_bare_at(s, i).1 <= s.len(),
        scan_bare_at(s, i).0 == s.subrange(i, scan_bare_at(s, i).1),
        scan_bare_at(s, i).1 < s.len() ==> is_ws(s[scan_bare_at(s, i).1]),
        forall|k: int| i <= k < scan_bare_at(s, i).1 ==> !is_ws(s[k]),
        i < s.len() && !is_ws(s[i]) ==> scan_bare_at(s, i).1 > i,
    decreases s.len() - i,
{
    if i < s.len() && !is_ws(s[i]) {
        lemma_scan_bare_at(s, i + 1);
        let (t, j) = scan_bare_at(s, i + 1);
        assert(seq![s[i]] + t =~= s.subrange(i, j));
    } else {
        assert(Seq::<char>::empty() =~= s.subrange(i, i));
    }
}

pub proof fn lemma_scan_quoted_at(s: Seq<char>, q: char, i: int)
    requires
        0 <= i <= s.len(),
    ensures
        match scan_quoted_at(s, q, i) {
            Some((t, j)) => i < j <= s.len(),
            None => true,
        },
    decreases s.len() - i,
{
    if i >= s.len() {
    } else if s[i] == q {
    } else if s[i] == '\\' {
        if i + 1 < s.len() {
            lemma_scan_quoted_at(s, q, i + 2);
        }
    } else {
        lemma_scan_quoted_at(s, q, i + 1);
    }
}

/// The sequence of tokens of `s` from index `i` on, or `None` on an
/// unterminated quote.
pub open spec fn tokenize_at(s: Seq<char>, i: int) -> Option<Seq<Seq<char>>>
    decreases s.len() - i,
    when 0 <= i <= s.len()
    via tokenize_at_dec
{
    let j = skip_ws_at(s, i);
    if j >= s.len() {
        Some(Seq::empty())
    } else if is_quote(s[j]) {
        match scan_quoted_at(s, s[j], j + 1) {
            None => None,
            Some((t, k)) => match tokenize_at(s, k) {
                None => None,
                Some(ts) => Some(seq![t] + ts),
            },
        }
    } else {
        let (t, k) = scan_bare_at(s, j);
        match tokenize_at(s, k) {
            None => None,
            Some(ts) => Some(seq![t] + ts),
        }
    }
}

#[via_fn]
proof fn tokenize_at_dec(s: Seq<char>, i: int) {
    lemma_skip_ws_at(s, i);
    let j = skip_ws_at(s, i);
    if j < s.len() {
        if is_quote(s[j]) {
            lemma_scan_quoted_at(s, s[j], j + 1);
        } else {
            lemma_scan_bare_at(s, j);
        }
    }
}

/// The tokens of a whole line, or `None` on an unterminated quote.
pub open spec fn tokens_of(s: Seq<char>) -> Option<Seq<Seq<char>>> {
    tokenize_at(s, 0)
}

/// Prepends already-scanned tokens to the outcome of scanning the rest.
pub open spec fn cons_tokens(pre: Seq<Seq<char>>, o: Option<Seq<Seq<char>>>) -> Option<
    Seq<Seq<char>>,
> {
    match o {
        None => None,
        Some(ts) => Some(pre + ts),
    }
}

fn skip_ws(s: &str, start: usize) -> (r: usize)
    requires
        start <= s@.len(),
    ensures
        r as int == skip_ws_at(s@, start as int),
        start <= r <= s@.len(),
{
    let len = s.unicode_len();
    let mut i = start;
    while i < len && ws_char(s.get_char(i))
        invariant
            start <= i <= len,
            len == s@.len(),
            skip_ws_at(s@, start as int) == skip_ws_at(s@, i as int),
        decreases len - i,
    {
        i += 1;
    }
    i
}

fn scan_bare(s: &str, start: usize) -> (r: (String, usize))
    requires
        start <= s@.len(),
    ensures
        scan_bare_at(s@, start as int) == (r.0@, r.1 as int),
        start <= r.1 <= s@.len(),
{
    let len = s.unicode_len();
    let mut tok = String::new();
    let mut i = start;
    while i < len && !ws_char(s.get_char(i))
        invariant
            start <= i <= len,
            len == s@.len(),
            tok@ == s@.subrange(start as int, i as int),
            forall|k: int| start <= k < i ==> !is_ws(s@[k]),
        decreases len - i,
    {
        crate::text::push_char(&mut tok, s.get_char(i));
        proof {
            assert(tok@ =~= s@.subrange(start as int, i + 1));
        }
        i += 1;
    }
    proof {
        lemma_scan_bare_at(s@, start as int);
        let (t, j) = scan_bare_at(s@, start as int);
        // j and i are both the first whitespace position at or after start
        if j < i {
            assert(!is_ws(s@[j]));
        }
        if i < j {
            assert(!is_ws(s@[i as int]));
        }
        assert(t == tok@);
    }
    (tok, i)
}

fn scan_quoted(s: &str, q: char, start: usize) -> (r: Option<(String, usize)>)
    requires
        start <= s@.len(),
    ensures
        match r {
            Some((t, j)) => scan_quoted_at(s@, q, start as int) == Some((t@, j as int)) && start
                < j <= s@.len(),
            None => scan_quoted_at(s@, q, start as int) is None,
        },
{
    let len = s.unicode_len();
    let mut acc = String::new();
    let mut i = start;
    loop
        invariant
            start <= i <= len,
            len == s@.len(),
            forall|t: Seq<char>, j: int|
                scan_quoted_at(s@, q, i as int) == Some::<(Seq<char>, int)>((t, j)) ==> (
                scan_quoted_at(s@, q, start as int) == Some::<(Seq<char>, int)>((acc@ + t, j))),
            scan_quoted_at(s@, q, i as int) is None ==> scan_quoted_at(
                s@,
                q,
                start as int,
            ) is None,
        decreases len - i,
    {
        if i >= len {
            return None;
        }
        let c = s.get_char(i);
        if c == q {
            proof {
                assert(scan_quoted_at(s@, q, i as int) == Some::<(Seq<char>, int)>((
                    Seq::<char>::empty(),
                    i + 1,
                )));
                assert(acc@ + Seq::<char>::empty() =~= acc@);
            }
            return Some((acc, i + 1));
        }
        if c == '\\' {
            if i + 1 >= len {
                return None;
            }
            let c2 = s.get_char(i + 1);
            proof {
                lemma_scan_quoted_at(s@, q, i + 2);
                if let Some((t, j)) = scan_quoted_at(s@, q, i + 2) {
                    if c2 == q || c2 == '\\' {
                        assert(acc@ + (seq![c2] + t) =~= acc@.push(c2) + t);
                    } else {
                        assert(acc@ + (seq![c, c2] + t) =~= acc@.push(c).push(c2) + t);
                    }
                }
            }
            if c2 == q || c2 == '\\' {
                crate::text::push_char(&mut acc, c2);
            } else {
                crate::text::push_char(&mut acc, c);
                crate::text::push_char(&mut acc, c2);
            }
            i += 2;
        } else {
            proof {
                lemma_scan_quoted_at(s@, q, i + 1);
                if let Some((t, j)) = scan_quoted_at(s@, q, i + 1) {
                    assert(acc@ + (seq![c] + t) =~= acc@.push(c) + t);
                }
            }
            crate::text::push_char(&mut acc, c);
            i += 1;
        }
    }
}

/// Splits a raw command line into tokens; reports an error on an
/// unterminated quote.
pub fn tokenize(line: &str) -> (r: Result<Vec<String>, Error>)
    ensures
        match r {
            Ok(v) => tokens_of(line@) == Some(v.deep_view()),
            Err(e) => tokens_of(line@) is None && e == Error::TokenizeError,
        },
{
    let len = line.unicode_len();
    let mut toks: Vec<String> = Vec::new();
    let mut i: usize = 0;
    loop
        invariant
            i <= len,
            len == line@.len(),
            tokens_of(line@) == cons_tokens(toks.deep_view(), tokenize_at(line@, i as int)),
        decreases len - i,
    {
        let j = skip_ws(line, i);
        proof {
            lemma_skip_ws_at(line@, i as int);
        }
        if j >= len {
            proof {
                assert(tokenize_at(line@, j as int) == tokenize_at(line@, i as int));
                assert(toks.deep_view() + Seq::<Seq<char>>::empty() =~= toks.deep_view());
            }
            return Ok(toks);
        }
        let c = line.get_char(j);
        let ghost old_toks = toks.deep_view();
        let (t, k) = if c == '"' || c == '\'' {
            match scan_quoted(line, c, j + 1) {
                None => {
                    return Err(Error::TokenizeError);
                },
                Some(p) => p,
            }
        } else {
            scan_bare(line, j)
        };
        proof {
            if !is_quote(line@[j as int]) {
                lemma_scan_bare_at(line@, j as int);
            }
        }
        toks.push(t);
        i = k;
        proof {
            assert(toks.deep_view() =~= old_toks.push(t@));
            if let Some(ts) = tokenize_at(line@, i as int) {
                assert(old_toks + (seq![t@] + ts) =~= old_toks.push(t@) + ts);
            }
        }
    }
}

/// A token may consist only of letters and digits when it names an action.
pub open spec fn is_alnum(c: char) -> bool {
    (48 <= c as u32 && c as u32 <= 57) || (65 <= c as u32 && c as u32 <= 90) || (97 <= c as u32
        && c as u32 <= 122)
}

/// The maximal run of alphanumeric characters starting at `i` and the index
/// just past it.
pub open spec fn scan_alnum_at(s: Seq<char>, i: int) -> (Seq<char>, int)
    decreases s.len() - i,
    when 0 <= i <= s.len()
{
    if i < s.len() && is_alnum(s[i]) {
        let (t, j) = scan_alnum_at(s, i + 1);
        (seq![s[i]] + t, j)
    } else {
        (Seq::empty(), i)
    }
}

pub proof fn lemma_scan_alnum_at(s: Seq<char>, i: int)
    requires
        0 <= i <= s.len(),
    ensures
        i <= scan_alnum_at(s, i).1 <= s.len(),
        scan_alnum_at(s, i).0 == s.subrange(i, scan_alnum_at(s, i).1),
        scan_alnum_at(s, i).1 < s.len() ==> !is_alnum(s[scan_alnum_at(s, i).1]),
        forall|k: int| i <= k < scan_alnum_at(s, i).1 ==> is_alnum(s[k]),
    decreases s.len() - i,
{
    if i < s.len() && is_alnum(s[i]) {
        lemma_scan_alnum_at(s, i + 1);
        let (t, j) = scan_alnum_at(s, i + 1);
        assert(seq![s[i]] + t =~= s.subrange(i, j));
    } else {
        assert(Seq::<char>::empty() =~= s.subrange(i, i));
    }
}

/// The leading action word of `s` (a nonempty run of letters and digits) and
/// the index of the argument text after it, past any separating whitespace.
pub open spec fn action_word_at(s: Seq<char>) -> Option<(Seq<char>, int)> {
    if s.len() == 0 || !is_alnum(s[0]) {
        None
    } else {
        let (t, j) = scan_alnum_at(s, 0);
        Some((t, skip_ws_at(s, j)))
    }
}

/// The leading token of `s` — quoted or bare — and the index of the text
/// after it, past any separating whitespace.
pub open spec fn token_at(s: Seq<char>) -> Option<(Seq<char>, int)> {
    if s.len() == 0 || is_ws(s[0]) {
        None
    } else if is_quote(s[0]) {
        match scan_quoted_at(s, s[0], 1) {
            None => None,
            Some((t, j)) => Some((t, skip_ws_at(s, j))),
        }
    } else {
        let (t, j) = scan_bare_at(s, 0);
        Some((t, skip_ws_at(s, j)))
    }
}

/// Parses the leading action word from the input string, returning the word
/// and the remaining text past the next whitespace.
pub fn parse_action(s: &str) -> (r: Result<(String, String), Error>)
    ensures
        match r {
            Ok((t, rest)) => action_word_at(s@) matches Some(p) && p.0 == t@ && rest@
                == s@.subrange(p.1, s@.len() as int),
            Err(e) => action_word_at(s@) is None && e == Error::TokenizeError,
        },
{
    let len = s.unicode_len();
    if len == 0 {
        return Err(Error::TokenizeError);
    }
    let c0 = s.get_char(0);
    if !crate::text::alnum_char(c0) {
        return Err(Error::TokenizeError);
    }
    let mut tok = String::new();
    let mut i: usize = 0;
    while i < len && crate::text::alnum_char(s.get_char(i))
        invariant
            i <= len,
            len == s@.len(),
            tok@ == s@.subrange(0, i as int),
            forall|k: int| 0 <= k < i ==> is_alnum(s@[k]),
        decreases len - i,
    {
        crate::text::push_char(&mut tok, s.get_char(i));
        proof {
            assert(tok@ =~= s@.subrange(0, i + 1));
        }
        i += 1;
    }
    proof {
        lemma_scan_alnum_at(s@, 0);
        let (t, j) = scan_alnum_at(s@, 0);
        if j < i {
            assert(is_alnum(s@[j]));
        }
        if i < j {
            assert(is_alnum(s@[i as int]));
        }
        assert(t == tok@);
    }
    let j = skip_ws(s, i);
    let rest = s.substring_char(j, len).to_owned();
    Ok((tok, rest))
}

/// Parses the leading token — quoted or bare — from the input string,
/// returning the dequoted token and the remaining text past the next
/// whitespace.
pub fn parse_string(s: &str) -> (r: Result<(String, String), Error>)
    ensures
        match r {
            Ok((t, rest)) => token_at(s@) matches Some(p) && p.0 == t@ && rest@ == s@.subrange(
                p.1,
                s@.len() as int,
            ),
            Err(e) => token_at(s@) is None && e == Error::TokenizeError,
        },
{
    let len = s.unicode_len();
    if len == 0 {
        return Err(Error::TokenizeError);
    }
    let c0 = s.get_char(0);
    if ws_char(c0) {
        return Err(Error::TokenizeError);
    }
    if c0 == '"' || c0 == '\'' {
        match scan_quoted(s, c0, 1) {
            None => Err(Error::TokenizeError),
            Some((t, k)) => {
                let j = skip_ws(s, k);
                let rest = s.substring_char(j, len).to_owned();
                Ok((t, rest))
            },
        }
    } else {
        let (t, k) = scan_bare(s, 0);
        let j = skip_ws(s, k);
        let rest = s.substring_char(j, len).to_owned();
        Ok((t, rest))
    }
}

} // verus!
