use vstd::prelude::*;

use crate::lexer::{toks_view, Token, TokenV};
use crate::syntax::{
    is_empty_simple, items_to_cmd, Cmd, CmdV, Connector, Redirect, RedirectV, RedirKind, SeqItem,
    SeqItemV, SimpleCmd, SimpleCmdV,
};

verus! {

/// A grammar error: an operator (or the end of input) where a command was
/// expected, or a redirection operator not followed by a target word.
/// `pos` is the index of the offending token (the token count when the
/// input ended too early).
#[derive(Debug, Clone, Copy, PartialEq, Eq, Structural)]
pub enum ParseError {
    UnexpectedToken { pos: usize },
    MissingRedirectTarget { pos: usize },
}

/// A character that may appear in a variable name: ASCII letters, digits
/// and underscore.
pub open spec fn is_name_char(c: char) -> bool {
    ('a' <= c && c <= 'z') || ('A' <= c && c <= 'Z') || ('0' <= c && c <= '9') || c == '_'
}

/// The position just past the run of name characters that starts at `j`.
pub open spec fn name_end_from(w: Seq<char>, j: int) -> int
    decreases w.len() - j,
    when 0 <= j <= w.len()
{
    if j >= w.len() || !is_name_char(w[j]) {
        j
    } else {
        name_end_from(w, j + 1)
    }
}

pub proof fn lemma_name_end_bounds(w: Seq<char>, j: int)
    requires
        0 <= j <= w.len(),
    ensures
        j <= name_end_from(w, j) <= w.len(),
    decreases w.len() - j,
{
    if !(j >= w.len() || !is_name_char(w[j])) {
        lemma_name_end_bounds(w, j + 1);
    }
}

/// A word of the shape `name=value`: a nonempty run of name characters
/// followed by `=`, with anything (possibly nothing) after it.
pub open spec fn is_assignment_word(w: Seq<char>) -> bool {
    let n = name_end_from(w, 0);
    0 < n < w.len() && w[n] == '='
}

pub open spec fn assignment_name(w: Seq<char>) -> Seq<char> {
    w.subrange(0, name_end_from(w, 0))
}

pub open spec fn assignment_value(w: Seq<char>) -> Seq<char> {
    w.subrange(name_end_from(w, 0) + 1, w.len() as int)
}

/// Accumulates one simple command from position `i` on: leading assignment
/// words while no argument word has been seen, then argument words, with
/// redirections allowed throughout, each taking the following word as its
/// target.  Stops, without consuming it, at `|`, `;`, `&&`, `||` or the
/// end of the tokens.
pub open spec fn parse_simple(
    ts: Seq<TokenV>,
    i: int,
    acc: SimpleCmdV,
    seen_word: bool,
) -> Result<(SimpleCmdV, int), ParseError>
    decreases ts.len() - i,
    when 0 <= i <= ts.len()
{
    if i >= ts.len() {
        Ok((acc, i))
    } else {
        match ts[i] {
            TokenV::Word(w) => if !seen_word && is_assignment_word(w) {
                parse_simple(
                    ts,
                    i + 1,
                    SimpleCmdV {
                        assignments: acc.assignments.push((assignment_name(w), assignment_value(w))),
                        ..acc
                    },
                    false,
                )
            } else {
                parse_simple(ts, i + 1, SimpleCmdV { words: acc.words.push(w), ..acc }, true)
            },
            TokenV::Less(fd) => parse_redirect(ts, i, acc, seen_word, fd, RedirKind::In),
            TokenV::Great(fd) => parse_redirect(ts, i, acc, seen_word, fd, RedirKind::OutTrunc),
            TokenV::DGreat(fd) => parse_redirect(ts, i, acc, seen_word, fd, RedirKind::OutAppend),
            _ => Ok((acc, i)),
        }
    }
}

/// The redirection operator at `i`: its target must be the next token, and
/// must be a word.
pub open spec fn parse_redirect(
    ts: Seq<TokenV>,
    i: int,
    acc: SimpleCmdV,
    seen_word: bool,
    fd: u32,
    kind: RedirKind,
) -> Result<(SimpleCmdV, int), ParseError>
    decreases ts.len() - i, 0int,
    when 0 <= i < ts.len()
{
    if i + 1 < ts.len() && (ts[i + 1] matches TokenV::Word(_)) {
        match ts[i + 1] {
            TokenV::Word(t) => parse_simple(
                ts,
                i + 2,
                SimpleCmdV {
                    redirects: acc.redirects.push(RedirectV { fd, kind, target: t }),
                    ..acc
                },
                seen_word,
            ),
            _ => Err(ParseError::MissingRedirectTarget { pos: i as usize }),
        }
    } else {
        Err(ParseError::MissingRedirectTarget { pos: i as usize })
    }
}

pub proof fn lemma_parse_simple_bounds(ts: Seq<TokenV>, i: int, acc: SimpleCmdV, seen_word: bool)
    requires
        0 <= i <= ts.len(),
    ensures
        parse_simple(ts, i, acc, seen_word) matches Ok((sc, j)) ==> i <= j <= ts.len(),
    decreases ts.len() - i,
{
    if i < ts.len() {
        match ts[i] {
            TokenV::Word(w) => if !seen_word && is_assignment_word(w) {
                lemma_parse_simple_bounds(
                    ts,
                    i + 1,
                    SimpleCmdV {
                        assignments: acc.assignments.push((assignment_name(w), assignment_value(w))),
                        ..acc
                    },
                    false,
                );
            } else {
                lemma_parse_simple_bounds(
                    ts,
                    i + 1,
                    SimpleCmdV { words: acc.words.push(w), ..acc },
                    true,
                );
            },
            TokenV::Less(fd) => lemma_parse_redirect_bounds(ts, i, acc, seen_word, fd, RedirKind::In),
            TokenV::Great(fd) => lemma_parse_redirect_bounds(
                ts,
                i,
                acc,
                seen_word,
                fd,
                RedirKind::OutTrunc,
            ),
            TokenV::DGreat(fd) => lemma_parse_redirect_bounds(
                ts,
                i,
                acc,
                seen_word,
                fd,
                RedirKind::OutAppend,
            ),
            _ => {},
        }
    }
}

pub proof fn lemma_parse_redirect_bounds(
    ts: Seq<TokenV>,
    i: int,
    acc: SimpleCmdV,
    seen_word: bool,
    fd: u32,
    kind: RedirKind,
)
    requires
        0 <= i < ts.len(),
    ensures
        parse_redirect(ts, i, acc, seen_word, fd, kind) matches Ok((sc, j)) ==> i <= j <= ts.len(),
    decreases ts.len() - i, 1int,
{
    if i + 1 < ts.len() && (ts[i + 1] matches TokenV::Word(_)) {
        let t = ts[i + 1]->Word_0;
        lemma_parse_simple_bounds(
            ts,
            i + 2,
            SimpleCmdV { redirects: acc.redirects.push(RedirectV { fd, kind, target: t }), ..acc },
            seen_word,
        );
    }
}

pub open spec fn empty_simple() -> SimpleCmdV {
    SimpleCmdV { assignments: Seq::empty(), words: Seq::empty(), redirects: Seq::empty() }
}

/// One pipeline: simple commands separated by `|`, each nonempty.
pub open spec fn parse_pipeline(ts: Seq<TokenV>, i: int) -> Result<
    (Seq<SimpleCmdV>, int),
    ParseError,
>
    decreases ts.len() - i,
    when 0 <= i <= ts.len()
    via parse_pipeline_decreases
{
    match parse_simple(ts, i, empty_simple(), false) {
        Ok((sc, j)) => if is_empty_simple(sc) {
            Err(ParseError::UnexpectedToken { pos: i as usize })
        } else if j < ts.len() && ts[j] == TokenV::Pipe {
            match parse_pipeline(ts, j + 1) {
                Ok((stages, k)) => Ok((seq![sc] + stages, k)),
                Err(e) => Err(e),
            }
        } else {
            Ok((seq![sc], j))
        },
        Err(e) => Err(e),
    }
}

#[via_fn]
proof fn parse_pipeline_decreases(ts: Seq<TokenV>, i: int) {
    lemma_parse_simple_bounds(ts, i, empty_simple(), false);
}

pub proof fn lemma_parse_pipeline_bounds(ts: Seq<TokenV>, i: int)
    requires
        0 <= i <= ts.len(),
    ensures
        parse_pipeline(ts, i) matches Ok((stages, k)) ==> i <= k <= ts.len() && stages.len() > 0,
    decreases ts.len() - i,
{
    lemma_parse_simple_bounds(ts, i, empty_simple(), false);
    if let Ok((sc, j)) = parse_simple(ts, i, empty_simple(), false) {
        if !is_empty_simple(sc) && j < ts.len() && ts[j] == TokenV::Pipe {
            lemma_parse_pipeline_bounds(ts, j + 1);
        }
    }
}

/// Pipelines joined by `&&` and `||`, each becoming one sequence item;
/// `conn` is the connector that joins the first of them to what came
/// before.  Stops at `;` or the end of the tokens.
pub open spec fn parse_chain(ts: Seq<TokenV>, i: int, conn: Connector) -> Result<
    (Seq<SeqItemV>, int),
    ParseError,
>
    decreases ts.len() - i,
    when 0 <= i <= ts.len()
    via parse_chain_decreases
{
    match parse_pipeline(ts, i) {
        Ok((stages, j)) => {
            let item = SeqItemV { connector: conn, stages };
            if j < ts.len() && (ts[j] == TokenV::AndIf || ts[j] == TokenV::OrIf) {
                let c2 = if ts[j] == TokenV::AndIf {
                    Connector::AndIf
                } else {
                    Connector::OrIf
                };
                match parse_chain(ts, j + 1, c2) {
                    Ok((items, k)) => Ok((seq![item] + items, k)),
                    Err(e) => Err(e),
                }
            } else {
                Ok((seq![item], j))
            }
        },
        Err(e) => Err(e),
    }
}

#[via_fn]
proof fn parse_chain_decreases(ts: Seq<TokenV>, i: int, conn: Connector) {
    lemma_parse_pipeline_bounds(ts, i);
}

pub proof fn lemma_parse_chain_bounds(ts: Seq<TokenV>, i: int, conn: Connector)
    requires
        0 <= i <= ts.len(),
    ensures
        parse_chain(ts, i, conn) matches Ok((items, k)) ==> i <= k <= ts.len() && (k == ts.len()
            || ts[k] == TokenV::Semi),
    decreases ts.len() - i,
{
    lemma_parse_pipeline_bounds(ts, i);
    if let Ok((stages, j)) = parse_pipeline(ts, i) {
        if j < ts.len() && (ts[j] == TokenV::AndIf || ts[j] == TokenV::OrIf) {
            let c2 = if ts[j] == TokenV::AndIf {
                Connector::AndIf
            } else {
                Connector::OrIf
            };
            lemma_parse_chain_bounds(ts, j + 1, c2);
        } else {
            lemma_parse_pipeline_stop(ts, i);
        }
    }
}

/// A pipeline stops at `;`, `&&`, `||` or the end of the tokens.
pub proof fn lemma_parse_pipeline_stop(ts: Seq<TokenV>, i: int)
    requires
        0 <= i <= ts.len(),
    ensures
        parse_pipeline(ts, i) matches Ok((stages, k)) ==> (k == ts.len() || ts[k as int]
            == TokenV::Semi || ts[k as int] == TokenV::AndIf || ts[k as int] == TokenV::OrIf),
    decreases ts.len() - i,
{
    lemma_parse_simple_bounds(ts, i, empty_simple(), false);
    lemma_parse_simple_stop(ts, i, empty_simple(), false);
    if let Ok((sc, j)) = parse_simple(ts, i, empty_simple(), false) {
        if !is_empty_simple(sc) && j < ts.len() && ts[j] == TokenV::Pipe {
            lemma_parse_pipeline_stop(ts, j + 1);
        }
    }
}

/// Where `parse_simple` stops there stands `|`, `;`, `&&`, `||` or the end
/// of the tokens; `parse_pipeline` therefore stops at `;`, `&&`, `||` or
/// the end.
pub proof fn lemma_parse_simple_stop(ts: Seq<TokenV>, i: int, acc: SimpleCmdV, seen_word: bool)
    requires
        0 <= i <= ts.len(),
    ensures
        parse_simple(ts, i, acc, seen_word) matches Ok((sc, j)) ==> (j == ts.len() || ts[j as int]
            == TokenV::Pipe || ts[j as int] == TokenV::Semi || ts[j as int] == TokenV::AndIf || ts[
            j as int
        ] == TokenV::OrIf),
    decreases ts.len() - i,
{
    if i < ts.len() {
        match ts[i] {
            TokenV::Word(w) => if !seen_word && is_assignment_word(w) {
                lemma_parse_simple_stop(
                    ts,
                    i + 1,
                    SimpleCmdV {
                        assignments: acc.assignments.push((assignment_name(w), assignment_value(w))),
                        ..acc
                    },
                    false,
                );
            } else {
                lemma_parse_simple_stop(
                    ts,
                    i + 1,
                    SimpleCmdV { words: acc.words.push(w), ..acc },
                    true,
                );
            },
            TokenV::Less(fd) => lemma_parse_redirect_stop(ts, i, acc, seen_word, fd, RedirKind::In),
            TokenV::Great(fd) => lemma_parse_redirect_stop(
                ts,
                i,
                acc,
                seen_word,
                fd,
                RedirKind::OutTrunc,
            ),
            TokenV::DGreat(fd) => lemma_parse_redirect_stop(
                ts,
                i,
                acc,
                seen_word,
                fd,
                RedirKind::OutAppend,
            ),
            _ => {},
        }
    }
}

pub proof fn lemma_parse_redirect_stop(
    ts: Seq<TokenV>,
    i: int,
    acc: SimpleCmdV,
    seen_word: bool,
    fd: u32,
    kind: RedirKind,
)
    requires
        0 <= i < ts.len(),
    ensures
        parse_redirect(ts, i, acc, seen_word, fd, kind) matches Ok((sc, j)) ==> (j == ts.len()
            || ts[j as int] == TokenV::Pipe || ts[j as int] == TokenV::Semi || ts[j as int]
            == TokenV::AndIf || ts[j as int] == TokenV::OrIf),
    decreases ts.len() - i, 1int,
{
    if i + 1 < ts.len() && (ts[i + 1] matches TokenV::Word(_)) {
        let t = ts[i + 1]->Word_0;
        lemma_parse_simple_stop(
            ts,
            i + 2,
            SimpleCmdV { redirects: acc.redirects.push(RedirectV { fd, kind, target: t }), ..acc },
            seen_word,
        );
    }
}

/// The items of a whole line: chains separated by `;`.  A trailing `;` is
/// allowed; an empty line has no items.
pub open spec fn parse_items(ts: Seq<TokenV>, i: int) -> Result<Seq<SeqItemV>, ParseError>
    decreases ts.len() - i,
    when 0 <= i <= ts.len()
    via parse_items_decreases
{
    if i >= ts.len() {
        Ok(Seq::empty())
    } else {
        match parse_chain(ts, i, Connector::Semi) {
            Ok((items, j)) => if j >= ts.len() {
                Ok(items)
            } else {
                match parse_items(ts, j + 1) {
                    Ok(rest) => Ok(items + rest),
                    Err(e) => Err(e),
                }
            },
            Err(e) => Err(e),
        }
    }
}

#[via_fn]
proof fn parse_items_decreases(ts: Seq<TokenV>, i: int) {
    lemma_parse_chain_bounds(ts, i, Connector::Semi);
}

/// What a whole token list parses to.
pub open spec fn spec_parse(ts: Seq<TokenV>) -> Result<CmdV, ParseError> {
    match parse_items(ts, 0) {
        Ok(items) => Ok(items_to_cmd(items)),
        Err(e) => Err(e),
    }
}


fn is_name_char_x(c: char) -> (r: bool)
    ensures
        r == is_name_char(c),
{
    ('a' <= c && c <= 'z') || ('A' <= c && c <= 'Z') || ('0' <= c && c <= '9') || c == '_'
}

/// Splits a `name=value` word, or says that the word is not one.
pub fn split_assignment(w: &String) -> (r: Option<(String, String)>)
    ensures
        match r {
            Some(p) => is_assignment_word(w@) && p.0@ == assignment_name(w@) && p.1@
                == assignment_value(w@),
            None => !is_assignment_word(w@),
        },
{
    let chars = crate::lexer::str_to_chars(w.as_str());
    let n_total = chars.len();
    let mut j: usize = 0;
    while j < n_total && is_name_char_x(chars[j])
        invariant
            j <= n_total,
            n_total == chars@.len(),
            chars@ == w@,
            name_end_from(w@, 0) == name_end_from(w@, j as int),
        decreases n_total - j,
    {
        j = j + 1;
    }
    proof {
        assert(name_end_from(w@, 0) == j);
    }
    if j > 0 && j < n_total && chars[j] == '=' {
        let name = crate::lexer::chars_to_string(&chars, 0, j);
        let value = crate::lexer::chars_to_string(&chars, j + 1, n_total);
        Some((name, value))
    } else {
        None
    }
}

fn parse_simple_x(ts: &Vec<Token>, i: usize, acc: SimpleCmd, seen_word: bool) -> (r: Result<
    (SimpleCmd, usize),
    ParseError,
>)
    requires
        i <= ts@.len(),
    ensures
        match r {
            Ok((sc, j)) => parse_simple(toks_view(ts@), i as int, acc@, seen_word) == Ok::<
                _,
                ParseError,
            >((sc@, j as int)) && i <= j <= ts@.len(),
            Err(e) => parse_simple(toks_view(ts@), i as int, acc@, seen_word) == Err::<
                (SimpleCmdV, int),
                ParseError,
            >(e),
        },
    decreases ts@.len() - i,
{
    proof {
        assert(toks_view(ts@).len() == ts@.len());
    }
    if i >= ts.len() {
        return Ok((acc, i));
    }
    proof {
        assert(toks_view(ts@)[i as int] == ts@[i as int]@);
    }
    let tok = &ts[i];
    match tok {
        Token::Word(w) => {
            if !seen_word {
                match split_assignment(w) {
                    Some((name, value)) => {
                        let mut acc2 = acc;
                        acc2.assignments.push((name, value));
                        proof {
                            assert(acc2@ =~= SimpleCmdV {
                                assignments: acc@.assignments.push(
                                    (assignment_name(w@), assignment_value(w@)),
                                ),
                                ..acc@
                            });
                        }
                        parse_simple_x(ts, i + 1, acc2, false)
                    },
                    None => {
                        let mut acc2 = acc;
                        acc2.words.push(w.clone());
                        proof {
                            assert(acc2@ =~= SimpleCmdV { words: acc@.words.push(w@), ..acc@ });
                        }
                        parse_simple_x(ts, i + 1, acc2, true)
                    },
                }
            } else {
                let mut acc2 = acc;
                acc2.words.push(w.clone());
                proof {
                    assert(acc2@ =~= SimpleCmdV { words: acc@.words.push(w@), ..acc@ });
                }
                parse_simple_x(ts, i + 1, acc2, true)
            }
        },
        Token::Less(fd) => parse_redirect_x(ts, i, acc, seen_word, *fd, RedirKind::In),
        Token::Great(fd) => parse_redirect_x(ts, i, acc, seen_word, *fd, RedirKind::OutTrunc),
        Token::DGreat(fd) => parse_redirect_x(ts, i, acc, seen_word, *fd, RedirKind::OutAppend),
        _ => Ok((acc, i)),
    }
}

fn parse_redirect_x(
    ts: &Vec<Token>,
    i: usize,
    acc: SimpleCmd,
    seen_word: bool,
    fd: u32,
    kind: RedirKind,
) -> (r: Result<(SimpleCmd, usize), ParseError>)
    requires
        i < ts@.len(),
    ensures
        match r {
            Ok((sc, j)) => parse_redirect(toks_view(ts@), i as int, acc@, seen_word, fd, kind)
                == Ok::<_, ParseError>((sc@, j as int)) && i <= j <= ts@.len(),
            Err(e) => parse_redirect(toks_view(ts@), i as int, acc@, seen_word, fd, kind) == Err::<
                (SimpleCmdV, int),
                ParseError,
            >(e),
        },
    decreases ts@.len() - i, 0int,
{
    proof {
        assert(toks_view(ts@).len() == ts@.len());
        if i + 1 < ts@.len() {
            assert(toks_view(ts@)[i + 1] == ts@[i + 1]@);
        }
    }
    let n = ts.len();
    if i + 1 < n {
        let nxt = &ts[i + 1];
        match nxt {
            Token::Word(t) => {
                let mut acc2 = acc;
                acc2.redirects.push(Redirect { fd, kind, target: t.clone() });
                proof {
                    assert(acc2@ =~= SimpleCmdV {
                        redirects: acc@.redirects.push(RedirectV { fd, kind, target: t@ }),
                        ..acc@
                    });
                }
                parse_simple_x(ts, i + 2, acc2, seen_word)
            },
            _ => Err(ParseError::MissingRedirectTarget { pos: i }),
        }
    } else {
        Err(ParseError::MissingRedirectTarget { pos: i })
    }
}

fn empty_simple_x() -> (r: SimpleCmd)
    ensures
        r@ == empty_simple(),
{
    let r = SimpleCmd { assignments: Vec::new(), words: Vec::new(), redirects: Vec::new() };
    proof {
        assert(r@ =~= empty_simple());
    }
    r
}

fn is_empty_simple_x(s: &SimpleCmd) -> (r: bool)
    ensures
        r == is_empty_simple(s@),
{
    s.assignments.len() == 0 && s.words.len() == 0 && s.redirects.len() == 0
}

fn parse_pipeline_x(ts: &Vec<Token>, i: usize) -> (r: Result<(Vec<SimpleCmd>, usize), ParseError>)
    requires
        i <= ts@.len(),
    ensures
        match r {
            Ok((stages, k)) => parse_pipeline(toks_view(ts@), i as int) == Ok::<_, ParseError>(
                (stages@.map_values(|s: SimpleCmd| s@), k as int),
            ) && i <= k <= ts@.len(),
            Err(e) => parse_pipeline(toks_view(ts@), i as int) == Err::<
                (Seq<SimpleCmdV>, int),
                ParseError,
            >(e),
        },
    decreases ts@.len() - i,
{
    proof {
        assert(toks_view(ts@).len() == ts@.len());
    }
    let (sc, j) = match parse_simple_x(ts, i, empty_simple_x(), false) {
        Ok(p) => p,
        Err(e) => {
            return Err(e);
        },
    };
    if is_empty_simple_x(&sc) {
        return Err(ParseError::UnexpectedToken { pos: i });
    }
    let is_pipe = j < ts.len() && matches!(&ts[j], Token::Pipe);
    proof {
        if j < ts@.len() {
            assert(toks_view(ts@)[j as int] == ts@[j as int]@);
        }
    }
    if is_pipe {
        match parse_pipeline_x(ts, j + 1) {
            Ok((mut stages, k)) => {
                let ghost stages0 = stages@;
                let ghost scv = sc@;
                stages.insert(0, sc);
                proof {
                    assert(stages@.map_values(|s: SimpleCmd| s@) =~= seq![scv] + stages0.map_values(
                        |s: SimpleCmd| s@,
                    ));
                }
                Ok((stages, k))
            },
            Err(e) => Err(e),
        }
    } else {
        let ghost scv = sc@;
        let mut stages: Vec<SimpleCmd> = Vec::new();
        stages.push(sc);
        proof {
            assert(stages@.map_values(|s: SimpleCmd| s@) =~= seq![scv]);
        }
        Ok((stages, j))
    }
}


fn parse_chain_x(ts: &Vec<Token>, i: usize, conn: Connector) -> (r: Result<
    (Vec<SeqItem>, usize),
    ParseError,
>)
    requires
        i <= ts@.len(),
    ensures
        match r {
            Ok((items, k)) => parse_chain(toks_view(ts@), i as int, conn) == Ok::<_, ParseError>(
                (items@.map_values(|s: SeqItem| s@), k as int),
            ) && i <= k <= ts@.len(),
            Err(e) => parse_chain(toks_view(ts@), i as int, conn) == Err::<
                (Seq<SeqItemV>, int),
                ParseError,
            >(e),
        },
    decreases ts@.len() - i,
{
    proof {
        assert(toks_view(ts@).len() == ts@.len());
    }
    let (stages, j) = match parse_pipeline_x(ts, i) {
        Ok(p) => p,
        Err(e) => {
            return Err(e);
        },
    };
    let item = SeqItem { connector: conn, stages };
    proof {
        if j < ts@.len() {
            assert(toks_view(ts@)[j as int] == ts@[j as int]@);
        }
    }
    let is_and = j < ts.len() && matches!(&ts[j], Token::AndIf);
    let is_or = j < ts.len() && matches!(&ts[j], Token::OrIf);
    if is_and || is_or {
        let c2 = if is_and {
            Connector::AndIf
        } else {
            Connector::OrIf
        };
        match parse_chain_x(ts, j + 1, c2) {
            Ok((mut items, k)) => {
                let ghost items0 = items@;
                let ghost itemv = item@;
                items.insert(0, item);
                proof {
                    assert(items@.map_values(|s: SeqItem| s@) =~= seq![itemv] + items0.map_values(
                        |s: SeqItem| s@,
                    ));
                }
                Ok((items, k))
            },
            Err(e) => Err(e),
        }
    } else {
        let ghost itemv = item@;
        let mut items: Vec<SeqItem> = Vec::new();
        items.push(item);
        proof {
            assert(items@.map_values(|s: SeqItem| s@) =~= seq![itemv]);
        }
        Ok((items, j))
    }
}

fn parse_items_x(ts: &Vec<Token>, i: usize) -> (r: Result<Vec<SeqItem>, ParseError>)
    requires
        i <= ts@.len(),
    ensures
        match r {
            Ok(items) => parse_items(toks_view(ts@), i as int) == Ok::<_, ParseError>(
                items@.map_values(|s: SeqItem| s@),
            ),
            Err(e) => parse_items(toks_view(ts@), i as int) == Err::<Seq<SeqItemV>, ParseError>(e),
        },
    decreases ts@.len() - i,
{
    proof {
        assert(toks_view(ts@).len() == ts@.len());
    }
    if i >= ts.len() {
        let items: Vec<SeqItem> = Vec::new();
        proof {
            assert(items@.map_values(|s: SeqItem| s@) =~= Seq::<SeqItemV>::empty());
        }
        return Ok(items);
    }
    match parse_chain_x(ts, i, Connector::Semi) {
        Ok((mut items, j)) => {
            if j >= ts.len() {
                Ok(items)
            } else {
                match parse_items_x(ts, j + 1) {
                    Ok(mut rest) => {
                        let ghost items0 = items@;
                        let ghost rest0 = rest@;
                        items.append(&mut rest);
                        proof {
                            assert(items@.map_values(|s: SeqItem| s@) =~= items0.map_values(
                                |s: SeqItem| s@,
                            ) + rest0.map_values(|s: SeqItem| s@));
                        }
                        Ok(items)
                    },
                    Err(e) => Err(e),
                }
            }
        },
        Err(e) => Err(e),
    }
}

/// Parses a whole token list into one command tree.  The tree is the
/// canonical one: a lone stage parses to `Simple`, a single `&&`/`||`-free
/// pipeline to `Pipeline`, everything else (an empty line included) to
/// `Sequence`.
pub fn parse(ts: &Vec<Token>) -> (r: Result<Cmd, ParseError>)
    ensures
        match r {
            Ok(c) => spec_parse(toks_view(ts@)) == Ok::<CmdV, ParseError>(c@),
            Err(e) => spec_parse(toks_view(ts@)) == Err::<CmdV, ParseError>(e),
        },
{
    let mut items = match parse_items_x(ts, 0) {
        Ok(items) => items,
        Err(e) => {
            return Err(e);
        },
    };
    let ghost allv = items@.map_values(|s: SeqItem| s@);
    if items.len() == 1 && matches!(items[0].connector, Connector::Semi) {
        let mut item = match items.pop() {
            Some(it) => it,
            None => {
                proof {
                    assert(false);
                }
                return Err(ParseError::UnexpectedToken { pos: 0 });
            },
        };
        let ghost itemv = item@;
        proof {
            assert(allv[0] == itemv);
        }
        if item.stages.len() == 1 {
            let sc = match item.stages.pop() {
                Some(sc) => sc,
                None => {
                    proof {
                        assert(false);
                    }
                    return Err(ParseError::UnexpectedToken { pos: 0 });
                },
            };
            proof {
                assert(itemv.stages[0] == sc@);
            }
            Ok(Cmd::Simple(sc))
        } else {
            Ok(Cmd::Pipeline(item.stages))
        }
    } else {
        Ok(Cmd::Sequence(items))
    }
}

} // verus!
