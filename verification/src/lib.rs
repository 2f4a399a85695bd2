pub mod aliasx;
pub mod builtins;
pub mod executor;
pub mod expand;
pub mod fd;
pub mod lexer;
pub mod lexprint;
pub mod parser;
pub mod render;
pub mod roundtrip;
pub mod state;
pub mod syntax;

use vstd::prelude::*;

verus! {

/// Replaces every single-quote character with a backslash followed by a
/// single quote, as the alias listing format requires.
pub fn escape_singlequotes(s: &str) -> (r: String)
    ensures
        r@ == spec_escape_singlequotes(s@),
{
    let n: usize = s.unicode_len();
    let mut out = String::new();
    let mut i: usize = 0;
    while i < n
        invariant
            n == s@.len(),
            i <= n,
            out@ == spec_escape_singlequotes(s@.subrange(0, i as int)),
        decreases n - i,
    {
        let c = s.get_char(i);
        proof {
            assert(s@.subrange(0, i + 1) == s@.subrange(0, i as int).push(c));
            lemma_escape_push(s@.subrange(0, i as int), c);
        }
        if c == '\'' {
            out.append("\\'");
            proof {
                reveal_strlit("\\'");
            }
        } else {
            string_push(&mut out, c);
        }
        i = i + 1;
    }
    proof {
        assert(s@.subrange(0, n as int) == s@);
    }
    out
}

/// What escaping does to a sequence of characters: each `'` becomes `\'`.
pub open spec fn spec_escape_singlequotes(s: Seq<char>) -> Seq<char>
    decreases s.len(),
{
    if s.len() == 0 {
        Seq::empty()
    } else {
        spec_escape_singlequotes(s.drop_last()) + (if s.last() == '\'' {
            seq!['\\', '\'']
        } else {
            seq![s.last()]
        })
    }
}

proof fn lemma_escape_push(s: Seq<char>, c: char)
    ensures
        spec_escape_singlequotes(s.push(c)) == spec_escape_singlequotes(s) + (if c == '\'' {
            seq!['\\', '\'']
        } else {
            seq![c]
        }),
{
    assert(s.push(c).drop_last() == s);
    assert(s.push(c).last() == c);
}

/// Relies on std's String::push: appends exactly the given character.
#[verifier::external_body]
pub(crate) fn string_push(s: &mut String, c: char)
    ensures
        final(s)@ == old(s)@.push(c),
{
    s.push(c)
}


/// What stops a line from being interpreted: the lexical error or the
/// grammar error, each carried as the stage that found it reported it.
#[derive(Debug, Clone, Copy, PartialEq, Eq, Structural)]
pub enum ShellError {
    Lex(lexer::LexError),
    Parse(parser::ParseError),
}

/// Turns one line of input into a command tree: tokenizes it, then
/// parses the tokens.  A line that fails either stage yields the error
/// and no tree, so nothing of it is ever executed.
pub fn interpret_line(text: &str) -> (r: Result<syntax::Cmd, ShellError>)
    ensures
        match r {
            Ok(c) => lexer::spec_lex(text@) matches Ok(ts) && parser::spec_parse(ts) == Ok::<
                syntax::CmdV,
                parser::ParseError,
            >(c@),
            Err(ShellError::Lex(e)) => lexer::spec_lex(text@) == Err::<
                Seq<lexer::TokenV>,
                lexer::LexError,
            >(e),
            Err(ShellError::Parse(e)) => lexer::spec_lex(text@) matches Ok(ts)
                && parser::spec_parse(ts) == Err::<syntax::CmdV, parser::ParseError>(e),
        },
{
    match lexer::lex(text) {
        Ok(ts) => match parser::parse(&ts) {
            Ok(c) => Ok(c),
            Err(e) => Err(ShellError::Parse(e)),
        },
        Err(e) => Err(ShellError::Lex(e)),
    }
}

} // verus!
