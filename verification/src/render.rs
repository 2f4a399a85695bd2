use vstd::prelude::*;

use crate::lexer::{toks_view, Token, TokenV};
use crate::syntax::{
    cmd_items, Cmd, CmdV, Connector, Redirect, RedirectV, RedirKind, SeqItem, SeqItemV, SimpleCmd,
    SimpleCmdV,
};

verus! {

/// The digit character for a descriptor index below ten.
pub open spec fn digit_char(fd: u32) -> char {
    if fd == 0 {
        '0'
    } else if fd == 1 {
        '1'
    } else if fd == 2 {
        '2'
    } else if fd == 3 {
        '3'
    } else if fd == 4 {
        '4'
    } else if fd == 5 {
        '5'
    } else if fd == 6 {
        '6'
    } else if fd == 7 {
        '7'
    } else if fd == 8 {
        '8'
    } else {
        '9'
    }
}

/// The text of one token: a word is written as it stands; a redirection
/// writes its descriptor digit only where it is not the default (0 for
/// `<`, 1 for `>` and `>>`).
pub open spec fn render_token(t: TokenV) -> Seq<char> {
    match t {
        TokenV::Word(w) => w,
        TokenV::Pipe => seq!['|'],
        TokenV::Semi => seq![';'],
        TokenV::AndIf => seq!['&', '&'],
        TokenV::OrIf => seq!['|', '|'],
        TokenV::Less(fd) => if fd == 0 {
            seq!['<']
        } else {
            seq![digit_char(fd), '<']
        },
        TokenV::Great(fd) => if fd == 1 {
            seq!['>']
        } else {
            seq![digit_char(fd), '>']
        },
        TokenV::DGreat(fd) => if fd == 1 {
            seq!['>', '>']
        } else {
            seq![digit_char(fd), '>', '>']
        },
    }
}

/// The text of the tokens from `k` on, each preceded by one space.
pub open spec fn render_rest(ts: Seq<TokenV>, k: int) -> Seq<char>
    decreases ts.len() - k,
    when 0 <= k <= ts.len()
{
    if k >= ts.len() {
        Seq::empty()
    } else {
        seq![' '] + render_token(ts[k]) + render_rest(ts, k + 1)
    }
}

/// The text of a token list: the tokens' texts, joined by single spaces.
pub open spec fn render_toks(ts: Seq<TokenV>) -> Seq<char> {
    if ts.len() == 0 {
        Seq::empty()
    } else {
        render_token(ts[0]) + render_rest(ts, 1)
    }
}

/// The two tokens of one redirection.
pub open spec fn toks_of_redirect(r: RedirectV) -> Seq<TokenV> {
    seq![
        match r.kind {
            RedirKind::In => TokenV::Less(r.fd),
            RedirKind::OutTrunc => TokenV::Great(r.fd),
            RedirKind::OutAppend => TokenV::DGreat(r.fd),
        },
        TokenV::Word(r.target),
    ]
}

pub open spec fn toks_of_asgs(asgs: Seq<(Seq<char>, Seq<char>)>, k: int) -> Seq<TokenV>
    decreases asgs.len() - k,
    when 0 <= k <= asgs.len()
{
    if k >= asgs.len() {
        Seq::empty()
    } else {
        seq![TokenV::Word(asgs[k].0 + seq!['='] + asgs[k].1)] + toks_of_asgs(asgs, k + 1)
    }
}

pub open spec fn toks_of_words(ws: Seq<Seq<char>>, k: int) -> Seq<TokenV>
    decreases ws.len() - k,
    when 0 <= k <= ws.len()
{
    if k >= ws.len() {
        Seq::empty()
    } else {
        seq![TokenV::Word(ws[k])] + toks_of_words(ws, k + 1)
    }
}

pub open spec fn toks_of_redirs(rs: Seq<RedirectV>, k: int) -> Seq<TokenV>
    decreases rs.len() - k,
    when 0 <= k <= rs.len()
{
    if k >= rs.len() {
        Seq::empty()
    } else {
        toks_of_redirect(rs[k]) + toks_of_redirs(rs, k + 1)
    }
}

/// The tokens of one simple command, in canonical order: assignments,
/// then argument words, then redirections.
pub open spec fn toks_of_simple(sc: SimpleCmdV) -> Seq<TokenV> {
    toks_of_asgs(sc.assignments, 0) + (toks_of_words(sc.words, 0) + toks_of_redirs(sc.redirects, 0))
}

/// The tokens of a pipeline's stages from `k` on, `|` before each but the
/// first.
pub open spec fn toks_of_stages(stages: Seq<SimpleCmdV>, k: int) -> Seq<TokenV>
    decreases stages.len() - k,
    when 0 <= k <= stages.len()
{
    if k >= stages.len() {
        Seq::empty()
    } else {
        (if k > 0 {
            seq![TokenV::Pipe]
        } else {
            Seq::empty()
        }) + (toks_of_simple(stages[k]) + toks_of_stages(stages, k + 1))
    }
}

pub open spec fn conn_token(c: Connector) -> TokenV {
    match c {
        Connector::Semi => TokenV::Semi,
        Connector::AndIf => TokenV::AndIf,
        Connector::OrIf => TokenV::OrIf,
    }
}

/// The tokens of sequence items from `k` on, each item's connector before
/// it but for the first item's.
pub open spec fn toks_of_items(items: Seq<SeqItemV>, k: int) -> Seq<TokenV>
    decreases items.len() - k,
    when 0 <= k <= items.len()
{
    if k >= items.len() {
        Seq::empty()
    } else {
        (if k > 0 {
            seq![conn_token(items[k].connector)]
        } else {
            Seq::empty()
        }) + (toks_of_stages(items[k].stages, 0) + toks_of_items(items, k + 1))
    }
}

/// The token list a command serializes to.
pub open spec fn toks_of_cmd(c: CmdV) -> Seq<TokenV> {
    toks_of_items(cmd_items(c), 0)
}

fn push_asg_token(out: &mut Vec<Token>, name: &String, value: &String)
    ensures
        toks_view(final(out)@) == toks_view(old(out)@) + seq![
            TokenV::Word(name@ + seq!['='] + value@),
        ],
{
    let mut w = name.clone();
    crate::string_push(&mut w, '=');
    crate::expand::string_append(&mut w, value);
    let ghost out0 = out@;
    proof {
        assert(w@ =~= name@ + seq!['='] + value@);
    }
    out.push(Token::Word(w));
    proof {
        assert(toks_view(out@) =~= toks_view(out0) + seq![TokenV::Word(name@ + seq!['='] + value@)]);
    }
}

fn push_redirect_tokens(out: &mut Vec<Token>, r: &Redirect)
    ensures
        toks_view(final(out)@) == toks_view(old(out)@) + toks_of_redirect(r@),
{
    let ghost out0 = out@;
    let op = match r.kind {
        RedirKind::In => Token::Less(r.fd),
        RedirKind::OutTrunc => Token::Great(r.fd),
        RedirKind::OutAppend => Token::DGreat(r.fd),
    };
    out.push(op);
    out.push(Token::Word(r.target.clone()));
    proof {
        assert(toks_view(out@) =~= toks_view(out0) + toks_of_redirect(r@));
    }
}

fn push_simple_tokens(out: &mut Vec<Token>, sc: &SimpleCmd)
    ensures
        toks_view(final(out)@) == toks_view(old(out)@) + toks_of_simple(sc@),
{
    let ghost out0 = toks_view(out@);
    let ghost scv = sc@;
    let na = sc.assignments.len();
    let mut k: usize = 0;
    while k < na
        invariant
            k <= na,
            na == sc.assignments@.len(),
            scv == sc@,
            toks_view(out@) + toks_of_asgs(scv.assignments, k as int) == out0 + toks_of_asgs(
                scv.assignments,
                0,
            ),
        decreases na - k,
    {
        let ghost tv0 = toks_view(out@);
        push_asg_token(out, &sc.assignments[k].0, &sc.assignments[k].1);
        proof {
            assert(scv.assignments[k as int] == (sc.assignments@[k as int].0@, sc.assignments@[k as int].1@));
            assert(toks_view(out@) + toks_of_asgs(scv.assignments, k + 1) =~= tv0 + toks_of_asgs(
                scv.assignments,
                k as int,
            ));
        }
        k = k + 1;
    }
    proof {
        assert(toks_view(out@) + toks_of_asgs(scv.assignments, na as int) =~= toks_view(out@));
    }
    let ghost out1 = toks_view(out@);
    let nw = sc.words.len();
    let mut k2: usize = 0;
    while k2 < nw
        invariant
            k2 <= nw,
            nw == sc.words@.len(),
            scv == sc@,
            toks_view(out@) + toks_of_words(scv.words, k2 as int) == out1 + toks_of_words(
                scv.words,
                0,
            ),
        decreases nw - k2,
    {
        let ghost tv0 = toks_view(out@);
        let w = sc.words[k2].clone();
        out.push(Token::Word(w));
        proof {
            assert(toks_view(out@) =~= tv0 + seq![TokenV::Word(scv.words[k2 as int])]);
            assert(toks_view(out@) + toks_of_words(scv.words, k2 + 1) =~= tv0 + toks_of_words(
                scv.words,
                k2 as int,
            ));
        }
        k2 = k2 + 1;
    }
    proof {
        assert(toks_view(out@) + toks_of_words(scv.words, nw as int) =~= toks_view(out@));
    }
    let ghost out2 = toks_view(out@);
    let nr = sc.redirects.len();
    let mut k3: usize = 0;
    while k3 < nr
        invariant
            k3 <= nr,
            nr == sc.redirects@.len(),
            scv == sc@,
            toks_view(out@) + toks_of_redirs(scv.redirects, k3 as int) == out2 + toks_of_redirs(
                scv.redirects,
                0,
            ),
        decreases nr - k3,
    {
        let ghost tv0 = toks_view(out@);
        push_redirect_tokens(out, &sc.redirects[k3]);
        proof {
            assert(scv.redirects[k3 as int] == sc.redirects@[k3 as int]@);
            assert(toks_view(out@) + toks_of_redirs(scv.redirects, k3 + 1) =~= tv0 + toks_of_redirs(
                scv.redirects,
                k3 as int,
            ));
        }
        k3 = k3 + 1;
    }
    proof {
        assert(toks_view(out@) + toks_of_redirs(scv.redirects, nr as int) =~= toks_view(out@));
        assert(out1 =~= out0 + toks_of_asgs(scv.assignments, 0));
        assert(out2 =~= out1 + toks_of_words(scv.words, 0));
        assert(toks_view(out@) =~= out2 + toks_of_redirs(scv.redirects, 0));
        assert(toks_view(out@) =~= out0 + toks_of_simple(scv));
    }
}

fn push_stages_tokens(out: &mut Vec<Token>, stages: &Vec<SimpleCmd>)
    ensures
        toks_view(final(out)@) == toks_view(old(out)@) + toks_of_stages(
            stages@.map_values(|s: SimpleCmd| s@),
            0,
        ),
{
    let ghost sv = stages@.map_values(|s: SimpleCmd| s@);
    let ghost out0 = toks_view(out@);
    let n = stages.len();
    let mut k: usize = 0;
    while k < n
        invariant
            k <= n,
            n == stages@.len(),
            sv == stages@.map_values(|s: SimpleCmd| s@),
            toks_view(out@) + toks_of_stages(sv, k as int) == out0 + toks_of_stages(sv, 0),
        decreases n - k,
    {
        let ghost tv0 = toks_view(out@);
        if k > 0 {
            out.push(Token::Pipe);
            proof {
                assert(toks_view(out@) =~= tv0 + seq![TokenV::Pipe]);
            }
        }
        let ghost tv1 = toks_view(out@);
        push_simple_tokens(out, &stages[k]);
        proof {
            assert(sv[k as int] == stages@[k as int]@);
            assert(toks_view(out@) =~= tv1 + toks_of_simple(sv[k as int]));
            assert(toks_view(out@) + toks_of_stages(sv, k + 1) =~= tv0 + toks_of_stages(
                sv,
                k as int,
            ));
        }
        k = k + 1;
    }
    proof {
        assert(toks_view(out@) + toks_of_stages(sv, n as int) =~= toks_view(out@));
    }
}

fn push_items_tokens(out: &mut Vec<Token>, items: &Vec<SeqItem>)
    ensures
        toks_view(final(out)@) == toks_view(old(out)@) + toks_of_items(
            items@.map_values(|s: SeqItem| s@),
            0,
        ),
{
    let ghost iv = items@.map_values(|s: SeqItem| s@);
    let ghost out0 = toks_view(out@);
    let n = items.len();
    let mut k: usize = 0;
    while k < n
        invariant
            k <= n,
            n == items@.len(),
            iv == items@.map_values(|s: SeqItem| s@),
            toks_view(out@) + toks_of_items(iv, k as int) == out0 + toks_of_items(iv, 0),
        decreases n - k,
    {
        let ghost tv0 = toks_view(out@);
        if k > 0 {
            let ct = match items[k].connector {
                Connector::Semi => Token::Semi,
                Connector::AndIf => Token::AndIf,
                Connector::OrIf => Token::OrIf,
            };
            out.push(ct);
            proof {
                assert(toks_view(out@) =~= tv0 + seq![conn_token(iv[k as int].connector)]);
            }
        }
        let ghost tv1 = toks_view(out@);
        push_stages_tokens(out, &items[k].stages);
        proof {
            assert(iv[k as int] == items@[k as int]@);
            assert(iv[k as int].stages == items@[k as int].stages@.map_values(
                |s: SimpleCmd| s@,
            ));
            assert(toks_view(out@) =~= tv1 + toks_of_stages(iv[k as int].stages, 0));
            assert(toks_view(out@) + toks_of_items(iv, k + 1) =~= tv0 + toks_of_items(
                iv,
                k as int,
            ));
        }
        k = k + 1;
    }
    proof {
        assert(toks_view(out@) + toks_of_items(iv, n as int) =~= toks_view(out@));
    }
}

/// The token list a command serializes to.
pub fn command_tokens(c: &Cmd) -> (r: Vec<Token>)
    ensures
        toks_view(r@) == toks_of_cmd(c@),
{
    let mut out: Vec<Token> = Vec::new();
    proof {
        assert(toks_view(out@) =~= Seq::<TokenV>::empty());
    }
    match c {
        Cmd::Simple(sc) => {
            push_simple_tokens(&mut out, sc);
            proof {
                let items = cmd_items(c@);
                assert(items.len() == 1);
                assert(items[0].stages =~= seq![sc@]);
                assert(toks_of_items(items, 1) =~= Seq::<TokenV>::empty());
                assert(toks_of_stages(items[0].stages, 1) =~= Seq::<TokenV>::empty());
                assert(toks_of_cmd(c@) =~= toks_of_simple(sc@));
                assert(toks_view(out@) =~= toks_of_simple(sc@));
            }
        },
        Cmd::Pipeline(stages) => {
            push_stages_tokens(&mut out, stages);
            proof {
                let items = cmd_items(c@);
                assert(items.len() == 1);
                assert(items[0].stages == stages@.map_values(|s: SimpleCmd| s@));
                assert(toks_of_items(items, 1) =~= Seq::<TokenV>::empty());
                assert(toks_of_cmd(c@) =~= toks_of_stages(items[0].stages, 0));
                assert(toks_view(out@) =~= toks_of_cmd(c@));
            }
        },
        Cmd::Sequence(items) => {
            push_items_tokens(&mut out, items);
            proof {
                assert(cmd_items(c@) == items@.map_values(|s: SeqItem| s@));
                assert(toks_view(out@) =~= toks_of_cmd(c@));
            }
        },
    }
    out
}

fn digit_char_x(fd: u32) -> (c: char)
    ensures
        c == digit_char(fd),
{
    if fd == 0 {
        '0'
    } else if fd == 1 {
        '1'
    } else if fd == 2 {
        '2'
    } else if fd == 3 {
        '3'
    } else if fd == 4 {
        '4'
    } else if fd == 5 {
        '5'
    } else if fd == 6 {
        '6'
    } else if fd == 7 {
        '7'
    } else if fd == 8 {
        '8'
    } else {
        '9'
    }
}

fn token_text(t: &Token) -> (r: String)
    ensures
        r@ == render_token(t@),
{
    match t {
        Token::Word(w) => w.clone(),
        Token::Pipe => {
            let s = "|".to_owned();
            proof {
                reveal_strlit("|");
                assert(s@ =~= seq!['|']);
            }
            s
        },
        Token::Semi => {
            let s = ";".to_owned();
            proof {
                reveal_strlit(";");
                assert(s@ =~= seq![';']);
            }
            s
        },
        Token::AndIf => {
            let s = "&&".to_owned();
            proof {
                reveal_strlit("&&");
                assert(s@ =~= seq!['&', '&']);
            }
            s
        },
        Token::OrIf => {
            let s = "||".to_owned();
            proof {
                reveal_strlit("||");
                assert(s@ =~= seq!['|', '|']);
            }
            s
        },
        Token::Less(fd) => {
            let mut s = String::new();
            if *fd != 0 {
                crate::string_push(&mut s, digit_char_x(*fd));
            }
            crate::string_push(&mut s, '<');
            proof {
                assert(s@ =~= render_token(t@));
            }
            s
        },
        Token::Great(fd) => {
            let mut s = String::new();
            if *fd != 1 {
                crate::string_push(&mut s, digit_char_x(*fd));
            }
            crate::string_push(&mut s, '>');
            proof {
                assert(s@ =~= render_token(t@));
            }
            s
        },
        Token::DGreat(fd) => {
            let mut s = String::new();
            if *fd != 1 {
                crate::string_push(&mut s, digit_char_x(*fd));
            }
            crate::string_push(&mut s, '>');
            crate::string_push(&mut s, '>');
            proof {
                assert(s@ =~= render_token(t@));
            }
            s
        },
    }
}

/// Renders a token list back to text: token texts joined by single
/// spaces.
pub fn render(ts: &Vec<Token>) -> (r: String)
    ensures
        r@ == render_toks(toks_view(ts@)),
{
    let ghost tv = toks_view(ts@);
    let n = ts.len();
    if n == 0 {
        let s = String::new();
        return s;
    }
    let mut out = token_text(&ts[0]);
    proof {
        assert(tv[0] == ts@[0]@);
    }
    let mut k: usize = 1;
    while k < n
        invariant
            1 <= k <= n,
            n == ts@.len(),
            tv == toks_view(ts@),
            render_toks(tv) == out@ + render_rest(tv, k as int),
        decreases n - k,
    {
        let ghost o0 = out@;
        crate::string_push(&mut out, ' ');
        let tt = token_text(&ts[k]);
        crate::expand::string_append(&mut out, &tt);
        proof {
            assert(tv[k as int] == ts@[k as int]@);
            assert(out@ =~= o0 + (seq![' '] + render_token(tv[k as int])));
            assert(out@ + render_rest(tv, k + 1) =~= o0 + render_rest(tv, k as int));
        }
        k = k + 1;
    }
    proof {
        assert(render_rest(tv, n as int) == Seq::<char>::empty());
        assert(out@ + Seq::<char>::empty() =~= out@);
    }
    out
}

impl Cmd {
    /// Serializes this command back to an equivalent textual command
    /// line (canonical spacing and word order, original raw words).
    pub fn to_commandline(&self) -> (r: String)
        ensures
            r@ == render_toks(toks_of_cmd(self@)),
    {
        let ts = command_tokens(self);
        render(&ts)
    }
}

} // verus!
