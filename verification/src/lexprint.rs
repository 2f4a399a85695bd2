use vstd::prelude::*;

use crate::lexer::{
    digit_val, is_digit, is_op_char, is_space, lex_from, next_token, redir_token, spec_lex,
    word_end_from, LexError, TokenV,
};
use crate::render::{digit_char, render_rest, render_token, render_toks};

verus! {

/// A word as the lexer produces it: nonempty, and scanning it with a
/// separator after it consumes exactly the word — so its quotes are
/// balanced, it holds no unquoted operator or space, and it does not end
/// in an escaping backslash.
pub open spec fn wf_word(w: Seq<char>) -> bool {
    w.len() > 0 && word_end_from(w.push(' '), 0, None) == Ok::<int, LexError>(w.len() as int)
}

/// A token that renders back to the text it came from: words are
/// well formed and descriptor indices fit in one digit.
pub open spec fn wf_token(t: TokenV) -> bool {
    match t {
        TokenV::Word(w) => wf_word(w),
        TokenV::Less(fd) => fd <= 9,
        TokenV::Great(fd) => fd <= 9,
        TokenV::DGreat(fd) => fd <= 9,
        _ => true,
    }
}

/// Scanning a word is local: a scan that stops before the end of the
/// text stops at the same place in any extension of the text.
proof fn lemma_word_end_extend(u: Seq<char>, v: Seq<char>, j: int, q: Option<char>, k: int)
    requires
        0 <= j <= u.len(),
        word_end_from(u, j, q) == Ok::<int, LexError>(k),
        k < u.len(),
    ensures
        word_end_from(u + v, j, q) == Ok::<int, LexError>(k),
    decreases u.len() - j,
{
    crate::lexer::lemma_word_end_bounds(u, j, q);
    assert((u + v)[j] == u[j]);
    if j < u.len() {
        match q {
            Some(qc) => {
                if u[j] == qc {
                    lemma_word_end_extend(u, v, j + 1, None, k);
                } else if qc == '"' && u[j] == '\\' && j + 1 < u.len() {
                    lemma_word_end_extend(u, v, j + 2, Some(qc), k);
                } else if qc == '"' && u[j] == '\\' {
                    // the scan would run to the end inside the quote
                    assert(word_end_from(u, j + 1, Some(qc)) == word_end_from(u, j, q));
                    crate::lexer::lemma_word_end_bounds(u, j + 1, Some(qc));
                    lemma_word_end_extend(u, v, j + 1, Some(qc), k);
                } else {
                    lemma_word_end_extend(u, v, j + 1, Some(qc), k);
                }
            },
            None => {
                if u[j] == '\'' || u[j] == '"' {
                    lemma_word_end_extend(u, v, j + 1, Some(u[j]), k);
                } else if u[j] == '\\' {
                    if j + 1 < u.len() {
                        lemma_word_end_extend(u, v, j + 2, None, k);
                    } else {
                        // a trailing backslash scans to the end, not before it
                        assert(k == u.len() as int);
                        assert(false);
                    }
                } else if is_space(u[j]) || is_op_char(u[j]) {
                } else {
                    lemma_word_end_extend(u, v, j + 1, None, k);
                }
            },
        }
    }
}

/// A word that scans cleanly with a separator after it also scans
/// cleanly alone: the separator is only ever looked at, never consumed,
/// because an escaping backslash right before it would have made the
/// padded scan run past the word.
proof fn lemma_word_end_unpad(u: Seq<char>, j: int, q: Option<char>, k: int)
    requires
        0 <= j <= u.len(),
        word_end_from(u.push(' '), j, q) == Ok::<int, LexError>(k),
        k <= u.len(),
    ensures
        word_end_from(u, j, q) == Ok::<int, LexError>(k),
    decreases u.len() - j,
{
    let p = u.push(' ');
    crate::lexer::lemma_word_end_bounds(p, j, q);
    if j < u.len() {
        assert(p[j] == u[j]);
        match q {
            Some(qc) => {
                if u[j] == qc {
                    lemma_word_end_unpad(u, j + 1, None, k);
                } else if qc == '"' && u[j] == '\\' && j + 1 < p.len() {
                    if j + 1 < u.len() {
                        lemma_word_end_unpad(u, j + 2, Some(qc), k);
                    } else {
                        // the backslash would swallow the separator
                        crate::lexer::lemma_word_end_bounds(p, j + 2, Some(qc));
                        assert(false);
                    }
                } else {
                    lemma_word_end_unpad(u, j + 1, Some(qc), k);
                }
            },
            None => {
                if u[j] == '\'' || u[j] == '"' {
                    lemma_word_end_unpad(u, j + 1, Some(u[j]), k);
                } else if u[j] == '\\' {
                    if j + 1 < u.len() {
                        lemma_word_end_unpad(u, j + 2, None, k);
                    } else {
                        // the backslash would swallow the separator and the
                        // padded scan would run past the word
                        crate::lexer::lemma_word_end_bounds(p, j + 2, None);
                        assert(false);
                    }
                } else if is_space(u[j]) || is_op_char(u[j]) {
                } else {
                    lemma_word_end_unpad(u, j + 1, None, k);
                }
            },
        }
    } else {
        // at the separator itself the padded scan can only stop cleanly
        match q {
            Some(_) => {
                crate::lexer::lemma_word_end_bounds(p, j + 1, q);
                assert(false);
            },
            None => {
                assert(is_space(p[j]));
            },
        }
    }
}

/// Scanning is independent of what stands before the scan's window.
proof fn lemma_word_end_offset(s: Seq<char>, i: int, d: int, q: Option<char>, k: int)
    requires
        0 <= i,
        0 <= d,
        i + d <= s.len(),
        word_end_from(s.subrange(i, s.len() as int), d, q) == Ok::<int, LexError>(k),
    ensures
        word_end_from(s, i + d, q) == Ok::<int, LexError>(i + k),
    decreases s.len() - i - d,
{
    let sub = s.subrange(i, s.len() as int);
    crate::lexer::lemma_word_end_bounds(sub, d, q);
    if d < sub.len() {
        assert(sub[d] == s[i + d]);
        match q {
            Some(qc) => {
                if sub[d] == qc {
                    lemma_word_end_offset(s, i, d + 1, None, k);
                } else if qc == '"' && sub[d] == '\\' && d + 1 < sub.len() {
                    lemma_word_end_offset(s, i, d + 2, Some(qc), k);
                } else {
                    lemma_word_end_offset(s, i, d + 1, Some(qc), k);
                }
            },
            None => {
                if sub[d] == '\'' || sub[d] == '"' {
                    lemma_word_end_offset(s, i, d + 1, Some(sub[d]), k);
                } else if sub[d] == '\\' {
                    if d + 1 < sub.len() {
                        lemma_word_end_offset(s, i, d + 2, None, k);
                    }
                } else if is_space(sub[d]) || is_op_char(sub[d]) {
                } else {
                    lemma_word_end_offset(s, i, d + 1, None, k);
                }
            },
        }
    }
}

/// The first character of a well-formed word is no space, no operator,
/// no separator-swallowing backslash; and a digit there is never
/// followed by a redirection operator character.
proof fn lemma_wf_word_start(w: Seq<char>)
    requires
        wf_word(w),
    ensures
        !is_space(w[0]),
        !is_op_char(w[0]),
        w.len() >= 2 ==> !(w[1] == '<' || w[1] == '>') || w[0] == '\'' || w[0] == '"' || w[0]
            == '\\',
{
    let p = w.push(' ');
    assert(p[0] == w[0]);
    if is_space(w[0]) || is_op_char(w[0]) {
        assert(word_end_from(p, 0, None) == Ok::<int, LexError>(0));
    }
    if w.len() >= 2 && (w[1] == '<' || w[1] == '>') && !(w[0] == '\'' || w[0] == '"' || w[0]
        == '\\') {
        assert(p[1] == w[1]);
        assert(word_end_from(p, 0, None) == word_end_from(p, 1, None));
        assert(word_end_from(p, 1, None) == Ok::<int, LexError>(1));
    }
}

/// Reading one well-formed word back out of a larger text: the scan
/// takes exactly the word, stopping at the separator or the end.
proof fn lemma_next_token_word(s: Seq<char>, i: int, w: Seq<char>)
    requires
        wf_word(w),
        0 <= i,
        i + w.len() <= s.len(),
        s.subrange(i, i + w.len()) == w,
        i + w.len() == s.len() || s[i + w.len()] == ' ',
    ensures
        next_token(s, i) == Ok::<Option<(TokenV, int)>, LexError>(
            Some((TokenV::Word(w), i + w.len())),
        ),
{
    let wl = w.len() as int;
    assert forall|j: int| 0 <= j < wl implies s[i + j] == w[j] by {
        assert(s.subrange(i, i + wl)[j] == s[i + j]);
    }
    lemma_wf_word_start(w);
    assert(s[i] == w[0]);
    // the scan of the suffix takes exactly the word
    let sub = s.subrange(i, s.len() as int);
    if i + wl < s.len() {
        let tail = s.subrange(i + wl + 1, s.len() as int);
        assert(sub =~= w.push(' ') + tail) by {
            assert forall|j: int| 0 <= j < sub.len() implies sub[j] == (w.push(' ') + tail)[j] by {
                assert(sub[j] == s[i + j]);
                if j < wl {
                } else if j == wl {
                    assert(s[i + wl] == ' ');
                } else {
                    assert(tail[j - wl - 1] == s[i + wl + 1 + (j - wl - 1)]);
                }
            }
        }
        lemma_word_end_extend(w.push(' '), tail, 0, None, wl);
        assert(word_end_from(sub, 0, None) == Ok::<int, LexError>(wl));
    } else {
        assert(sub =~= w);
        lemma_word_end_unpad(w, 0, None, wl);
        assert(word_end_from(sub, 0, None) == Ok::<int, LexError>(wl));
    }
    lemma_word_end_offset(s, i, 0, None, wl);
    assert(word_end_from(s, i, None) == Ok::<int, LexError>(i + wl));
    // the word branch is the one taken
    if w.len() >= 2 {
        if w[1] == '<' || w[1] == '>' {
            assert(w[0] == '\'' || w[0] == '"' || w[0] == '\\');
            assert(!is_digit(w[0]));
        }
    }
    if is_digit(w[0]) && i + 1 < s.len() && (s[i + 1] == '<' || s[i + 1] == '>') {
        if w.len() >= 2 {
            assert(s[i + 1] == w[1]);
            assert(false);
        } else {
            assert(s[i + 1] == ' ');
            assert(false);
        }
    }
    assert(s.subrange(i, i + wl) == w);
}

/// The digit written for a descriptor index reads back as that index.
proof fn lemma_digit_char(fd: u32)
    requires
        fd <= 9,
    ensures
        is_digit(digit_char(fd)),
        digit_val(digit_char(fd)) == fd,
        !is_space(digit_char(fd)),
        !is_op_char(digit_char(fd)),
{
}


/// Reading the rendered tokens back, one per step: the text from `i` is
/// the rendering of the tokens from `k`, joined by single spaces.
proof fn lemma_lex_render_from(s: Seq<char>, ts: Seq<TokenV>, k: int, i: int)
    requires
        0 <= k <= ts.len(),
        forall|j: int| 0 <= j < ts.len() ==> wf_token(#[trigger] ts[j]),
        0 <= i <= s.len(),
        k < ts.len() ==> i + (render_token(ts[k]) + render_rest(ts, k + 1)).len() == s.len()
            && s.subrange(i, s.len() as int) == render_token(ts[k]) + render_rest(ts, k + 1),
        k == ts.len() ==> i == s.len(),
    ensures
        lex_from(s, i) == Ok::<Seq<TokenV>, LexError>(ts.subrange(k, ts.len() as int)),
    decreases ts.len() - k,
{
    if k == ts.len() {
        assert(next_token(s, i) == Ok::<Option<(TokenV, int)>, LexError>(None));
        assert(ts.subrange(k, ts.len() as int) =~= Seq::<TokenV>::empty());
    } else {
        let t = ts[k];
        let rt = render_token(t);
        let rest = render_rest(ts, k + 1);
        let win = rt + rest;
        let i2 = i + rt.len();
        assert forall|j: int| 0 <= j < rt.len() implies s[i + j] == rt[j] by {
            assert(s.subrange(i, s.len() as int)[j] == s[i + j]);
            assert(win[j] == rt[j]);
        }
        // the character after this token's text, if any, is the joining space
        if k + 1 < ts.len() {
            assert(rest == seq![' '] + render_token(ts[k + 1]) + render_rest(ts, k + 2));
            assert(s.subrange(i, s.len() as int)[rt.len() as int] == s[i2]);
            assert(win[rt.len() as int] == rest[0]);
            assert(s[i2] == ' ');
        } else {
            assert(rest =~= Seq::<char>::empty());
            assert(i2 == s.len());
        }
        // this token reads back as itself
        assert(next_token(s, i) == Ok::<Option<(TokenV, int)>, LexError>(Some((t, i2)))) by {
            match t {
                TokenV::Word(w) => {
                    assert(s.subrange(i, i + w.len() as int) =~= w);
                    lemma_next_token_word(s, i, w);
                },
                TokenV::Pipe => {
                    assert(s[i + 0] == rt[0]);
                    assert(s[i] == '|');
                    if i + 1 < s.len() {
                        assert(s[i + 1] == ' ');
                    }
                },
                TokenV::OrIf => {
                    assert(s[i + 0] == rt[0] && s[i + 1] == rt[1]);
                    assert(s[i] == '|' && s[i + 1] == '|');
                },
                TokenV::AndIf => {
                    assert(s[i + 0] == rt[0] && s[i + 1] == rt[1]);
                    assert(s[i] == '&' && s[i + 1] == '&');
                },
                TokenV::Semi => {
                    assert(s[i + 0] == rt[0]);
                    assert(s[i] == ';');
                },
                TokenV::Less(fd) => {
                    lemma_digit_char(fd);
                    if fd == 0 {
                        assert(s[i + 0] == rt[0]);
                        assert(s[i] == '<');
                        assert(redir_token(s, i, 0) == (TokenV::Less(0u32), i + 1));
                    } else {
                        assert(s[i + 0] == rt[0] && s[i + 1] == rt[1]);
                        assert(s[i] == digit_char(fd) && s[i + 1] == '<');
                        assert(redir_token(s, i + 1, fd) == (TokenV::Less(fd), i + 2));
                    }
                },
                TokenV::Great(fd) => {
                    lemma_digit_char(fd);
                    if fd == 1 {
                        assert(s[i + 0] == rt[0]);
                        assert(s[i] == '>');
                        if i + 1 < s.len() {
                            assert(s[i + 1] == ' ');
                        }
                        assert(redir_token(s, i, 1) == (TokenV::Great(1u32), i + 1));
                    } else {
                        assert(s[i + 0] == rt[0] && s[i + 1] == rt[1]);
                        assert(s[i] == digit_char(fd) && s[i + 1] == '>');
                        if i + 2 < s.len() {
                            assert(s[i + 2] == ' ');
                        }
                        assert(redir_token(s, i + 1, fd) == (TokenV::Great(fd), i + 2));
                    }
                },
                TokenV::DGreat(fd) => {
                    lemma_digit_char(fd);
                    if fd == 1 {
                        assert(s[i + 0] == rt[0] && s[i + 1] == rt[1]);
                        assert(s[i] == '>' && s[i + 1] == '>');
                        assert(redir_token(s, i, 1) == (TokenV::DGreat(1u32), i + 2));
                    } else {
                        assert(s[i + 0] == rt[0] && s[i + 1] == rt[1] && s[i + 2] == rt[2]);
                        assert(s[i] == digit_char(fd) && s[i + 1] == '>' && s[i + 2] == '>');
                        assert(redir_token(s, i + 1, fd) == (TokenV::DGreat(fd), i + 3));
                    }
                },
            }
        }
        // past the space, the remaining tokens read back by induction
        if k + 1 < ts.len() {
            let win2 = render_token(ts[k + 1]) + render_rest(ts, k + 2);
            assert forall|j: int| 0 <= j < win2.len() implies #[trigger] s.subrange(
                i2 + 1,
                s.len() as int,
            )[j] == win2[j] by {
                assert(s.subrange(i2 + 1, s.len() as int)[j] == s[i2 + 1 + j]);
                assert(s.subrange(i, s.len() as int)[rt.len() + 1 + j] == s[i + (rt.len() + 1
                    + j)]);
                assert(win[rt.len() + 1 + j] == rest[1 + j]);
                assert(rest[1 + j] == win2[j]);
            }
            assert(s.subrange(i2 + 1, s.len() as int) =~= win2);
            lemma_lex_render_from(s, ts, k + 1, i2 + 1);
            assert(next_token(s, i2) == next_token(s, i2 + 1));
            assert(lex_from(s, i2) == lex_from(s, i2 + 1));
        } else {
            lemma_lex_render_from(s, ts, k + 1, i2);
        }
        assert(lex_from(s, i) == Ok::<Seq<TokenV>, LexError>(
            seq![t] + ts.subrange(k + 1, ts.len() as int),
        ));
        assert(seq![t] + ts.subrange(k + 1, ts.len() as int) =~= ts.subrange(k, ts.len() as int));
    }
}

/// Rendering well-formed tokens and tokenizing the text again yields the
/// same tokens: the textual half of the serialization round trip.
pub proof fn theorem_lex_of_rendered(ts: Seq<TokenV>)
    requires
        forall|j: int| 0 <= j < ts.len() ==> wf_token(#[trigger] ts[j]),
    ensures
        spec_lex(render_toks(ts)) == Ok::<Seq<TokenV>, LexError>(ts),
{
    let s = render_toks(ts);
    if ts.len() == 0 {
        assert(s.len() == 0);
        assert(lex_from(s, 0) == Ok::<Seq<TokenV>, LexError>(Seq::empty()));
        assert(Seq::<TokenV>::empty() =~= ts);
    } else {
        assert(s == render_token(ts[0]) + render_rest(ts, 1));
        assert(s.subrange(0, s.len() as int) =~= s);
        lemma_lex_render_from(s, ts, 0, 0);
        assert(ts.subrange(0, ts.len() as int) =~= ts);
    }
}


/// The converse locality: a scan inside a larger text that stops cleanly
/// at `j` scans the window it covered, padded with a separator, to the
/// window's end.
proof fn lemma_word_end_window(s: Seq<char>, i: int, x: int, q: Option<char>, j: int)
    requires
        0 <= i <= x <= j <= s.len(),
        word_end_from(s, x, q) == Ok::<int, LexError>(j),
        j == s.len() || is_space(s[j]) || is_op_char(s[j]),
    ensures
        word_end_from(s.subrange(i, j).push(' '), x - i, q) == Ok::<int, LexError>(j - i),
    decreases s.len() - x,
{
    let p = s.subrange(i, j).push(' ');
    assert(p.len() == j - i + 1);
    if x == j {
        assert(p[j - i] == ' ');
        match q {
            Some(_) => {
                if x < s.len() {
                    // a clean stop at a space or operator happens only
                    // outside quotes
                    if s[x] == q->0 {
                        crate::lexer::lemma_word_end_bounds(s, x + 1, None);
                    } else if q->0 == '"' && s[x] == '\\' && x + 1 < s.len() {
                        crate::lexer::lemma_word_end_bounds(s, x + 2, Some(q->0));
                    } else {
                        crate::lexer::lemma_word_end_bounds(s, x + 1, q);
                    }
                }
                assert(false);
            },
            None => {
                assert(word_end_from(p, x - i, q) == Ok::<int, LexError>(j - i));
            },
        }
    } else {
        assert(p[x - i] == s[x]);
        match q {
            Some(qc) => {
                if s[x] == qc {
                    lemma_word_end_window(s, i, x + 1, None, j);
                } else if qc == '"' && s[x] == '\\' && x + 1 < s.len() {
                    if x + 1 < j {
                        lemma_word_end_window(s, i, x + 2, Some(qc), j);
                        assert(x - i + 1 < p.len() - 1);
                    } else {
                        // the escape would consume the stop position
                        crate::lexer::lemma_word_end_bounds(s, x + 2, Some(qc));
                        assert(false);
                    }
                } else {
                    lemma_word_end_window(s, i, x + 1, Some(qc), j);
                    if qc == '"' && s[x] == '\\' {
                        // only possible when the escape has nothing to eat,
                        // which contradicts x < j <= s.len() - ... the scan
                        // above already covers it: here x + 1 >= s.len(),
                        // so x + 1 == s.len() and the scan went to the end
                        // inside a quote
                        crate::lexer::lemma_word_end_bounds(s, x + 1, Some(qc));
                        assert(false);
                    }
                }
            },
            None => {
                if s[x] == '\'' || s[x] == '"' {
                    lemma_word_end_window(s, i, x + 1, Some(s[x]), j);
                } else if s[x] == '\\' {
                    if x + 1 < s.len() {
                        if x + 1 < j {
                            lemma_word_end_window(s, i, x + 2, None, j);
                            assert(x - i + 1 < p.len() - 1);
                        } else {
                            crate::lexer::lemma_word_end_bounds(s, x + 2, None);
                            assert(false);
                        }
                    }
                } else if is_space(s[x]) || is_op_char(s[x]) {
                    assert(false);
                } else {
                    lemma_word_end_window(s, i, x + 1, None, j);
                }
            },
        }
    }
}

/// Every token the lexer hands out is well formed: its words scan back to
/// themselves and its descriptor indices are single digits.
proof fn lemma_next_token_wf(s: Seq<char>, i: int)
    requires
        0 <= i <= s.len(),
    ensures
        next_token(s, i) matches Ok(Some((t, j))) ==> wf_token(t),
    decreases s.len() - i,
{
    if i < s.len() {
        if is_space(s[i]) {
            lemma_next_token_wf(s, i + 1);
        } else if s[i] == '|' || s[i] == '&' || s[i] == ';' || s[i] == '<' || s[i] == '>' {
        } else if is_digit(s[i]) && i + 1 < s.len() && (s[i + 1] == '<' || s[i + 1] == '>') {
            assert(digit_val(s[i]) <= 9);
        } else {
            if let Ok(j) = word_end_from(s, i, None) {
                crate::lexer::lemma_word_end_bounds(s, i, None);
                assert(word_end_from(s, i, None) != Ok::<int, LexError>(i)) by {
                    if s[i] == '\'' || s[i] == '"' {
                        crate::lexer::lemma_word_end_bounds(s, i + 1, Some(s[i]));
                    } else if s[i] == '\\' {
                        if i + 1 < s.len() {
                            crate::lexer::lemma_word_end_bounds(s, i + 2, None);
                        }
                    } else {
                        crate::lexer::lemma_word_end_bounds(s, i + 1, None);
                    }
                }
                lemma_stop_clean(s, i, None, j);
                lemma_word_end_window(s, i, i, None, j);
                assert(s.subrange(i, j).push(' ') == s.subrange(i, j).push(' '));
                assert(wf_word(s.subrange(i, j)));
            }
        }
    }
}

/// A clean scan stops at the end of the text or at a separator: those are
/// the only places `Ok` is returned.
proof fn lemma_stop_clean(s: Seq<char>, x: int, q: Option<char>, j: int)
    requires
        0 <= x <= s.len(),
        word_end_from(s, x, q) == Ok::<int, LexError>(j),
    ensures
        j == s.len() || is_space(s[j]) || is_op_char(s[j]),
    decreases s.len() - x,
{
    if x < s.len() {
        match q {
            Some(qc) => {
                if s[x] == qc {
                    lemma_stop_clean(s, x + 1, None, j);
                } else if qc == '"' && s[x] == '\\' && x + 1 < s.len() {
                    lemma_stop_clean(s, x + 2, Some(qc), j);
                } else {
                    lemma_stop_clean(s, x + 1, Some(qc), j);
                }
            },
            None => {
                if s[x] == '\'' || s[x] == '"' {
                    lemma_stop_clean(s, x + 1, Some(s[x]), j);
                } else if s[x] == '\\' {
                    if x + 1 < s.len() {
                        lemma_stop_clean(s, x + 2, None, j);
                    }
                } else if is_space(s[x]) || is_op_char(s[x]) {
                } else {
                    lemma_stop_clean(s, x + 1, None, j);
                }
            },
        }
    }
}

proof fn lemma_lex_from_wf(s: Seq<char>, i: int)
    requires
        0 <= i <= s.len(),
    ensures
        lex_from(s, i) matches Ok(ts) ==> forall|k: int|
            0 <= k < ts.len() ==> wf_token(#[trigger] ts[k]),
    decreases s.len() - i,
{
    crate::lexer::lemma_next_token_bounds(s, i);
    lemma_next_token_wf(s, i);
    if let Ok(Some((t, j))) = next_token(s, i) {
        lemma_lex_from_wf(s, j);
        if let Ok(rest) = lex_from(s, j) {
            assert(forall|k: int|
                0 <= k < (seq![t] + rest).len() ==> wf_token(#[trigger] (seq![t] + rest)[k]));
        }
    }
}

/// Everything the lexer produces serializes faithfully: every token of a
/// successfully tokenized line is well formed in the round-trip sense.
pub proof fn theorem_lex_output_wf(s: Seq<char>, ts: Seq<TokenV>)
    requires
        spec_lex(s) == Ok::<Seq<TokenV>, LexError>(ts),
    ensures
        forall|k: int| 0 <= k < ts.len() ==> wf_token(#[trigger] ts[k]),
{
    assert(lex_from(s, 0) == Ok::<Seq<TokenV>, LexError>(ts));
    lemma_lex_from_wf(s, 0);
    assert forall|k: int| 0 <= k < ts.len() implies wf_token(#[trigger] ts[k]) by {
        if let Ok(ts2) = lex_from(s, 0) {
            assert(ts2 == ts);
            assert(wf_token(ts2[k]));
        }
    }
}

} // verus!
