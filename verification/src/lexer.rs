use vstd::prelude::*;

verus! {

/// A classified lexical unit.  `Word` keeps the raw text as typed, quote and
/// escape characters included; they are resolved at argument-construction
/// time.  Redirection tokens carry the descriptor index they apply to
/// (`0` for a bare `<`, `1` for a bare `>` or `>>`, or the single digit
/// written immediately before the operator).
#[derive(Debug, Clone, PartialEq)]
pub enum Token {
    Word(String),
    Pipe,
    Semi,
    AndIf,
    OrIf,
    Less(u32),
    Great(u32),
    DGreat(u32),
}

/// The mathematical shape of a token: a `Word` is a sequence of characters.
pub enum TokenV {
    Word(Seq<char>),
    Pipe,
    Semi,
    AndIf,
    OrIf,
    Less(u32),
    Great(u32),
    DGreat(u32),
}

impl View for Token {
    type V = TokenV;

    open spec fn view(&self) -> TokenV {
        match self {
            Token::Word(s) => TokenV::Word(s@),
            Token::Pipe => TokenV::Pipe,
            Token::Semi => TokenV::Semi,
            Token::AndIf => TokenV::AndIf,
            Token::OrIf => TokenV::OrIf,
            Token::Less(n) => TokenV::Less(*n),
            Token::Great(n) => TokenV::Great(*n),
            Token::DGreat(n) => TokenV::DGreat(*n),
        }
    }
}

/// The view of a token list.
pub open spec fn toks_view(v: Seq<Token>) -> Seq<TokenV> {
    v.map_values(|t: Token| t@)
}

/// A lexical error: an unterminated quote, a backslash with nothing left
/// to escape, or a lone `&` (background execution is not part of the
/// grammar).  `pos` is the character index at which the problem was
/// noticed.
#[derive(Debug, Clone, Copy, PartialEq, Eq, Structural)]
pub enum LexError {
    UnterminatedQuote { pos: usize },
    TrailingBackslash { pos: usize },
    LoneAmpersand { pos: usize },
}

pub open spec fn is_space(c: char) -> bool {
    c == ' ' || c == '\t' || c == '\n' || c == '\r'
}

pub open spec fn is_op_char(c: char) -> bool {
    c == '|' || c == ';' || c == '&' || c == '<' || c == '>'
}

pub open spec fn is_digit(c: char) -> bool {
    '0' <= c && c <= '9'
}

pub open spec fn digit_val(c: char) -> u32 {
    (c as u32 - '0' as u32) as u32
}

/// A character that may begin or continue a word outside quotes.
pub open spec fn is_plain_word_char(c: char) -> bool {
    !is_space(c) && !is_op_char(c)
}

/// Where the word that starts at `j` ends.  `quote` is `Some(q)` while the
/// scan is inside a `q`-quoted region.  Inside double quotes a backslash
/// hides the next character; inside single quotes every character but the
/// closing quote is literal.  A word ends at unquoted whitespace, an
/// unquoted operator character, or the end of input; input that ends inside
/// a quoted region is an error.
pub open spec fn word_end_from(s: Seq<char>, j: int, quote: Option<char>) -> Result<int, LexError>
    decreases s.len() - j,
    when 0 <= j <= s.len()
{
    if j >= s.len() {
        match quote {
            Some(_) => Err(LexError::UnterminatedQuote { pos: s.len() as usize }),
            None => Ok(j),
        }
    } else {
        match quote {
            Some(q) => {
                if s[j] == q {
                    word_end_from(s, j + 1, None)
                } else if q == '"' && s[j] == '\\' && j + 1 < s.len() {
                    word_end_from(s, j + 2, Some(q))
                } else {
                    word_end_from(s, j + 1, Some(q))
                }
            },
            None => {
                if s[j] == '\'' || s[j] == '"' {
                    word_end_from(s, j + 1, Some(s[j]))
                } else if s[j] == '\\' {
                    if j + 1 < s.len() {
                        word_end_from(s, j + 2, None)
                    } else {
                        Err(LexError::TrailingBackslash { pos: j as usize })
                    }
                } else if is_space(s[j]) || is_op_char(s[j]) {
                    Ok(j)
                } else {
                    word_end_from(s, j + 1, None)
                }
            },
        }
    }
}

pub proof fn lemma_word_end_bounds(s: Seq<char>, j: int, quote: Option<char>)
    requires
        0 <= j <= s.len(),
    ensures
        word_end_from(s, j, quote) matches Ok(k) ==> j <= k <= s.len(),
    decreases s.len() - j,
{
    if j < s.len() {
        match quote {
            Some(q) => {
                if s[j] == q {
                    lemma_word_end_bounds(s, j + 1, None);
                } else if q == '"' && s[j] == '\\' && j + 1 < s.len() {
                    lemma_word_end_bounds(s, j + 2, Some(q));
                } else {
                    lemma_word_end_bounds(s, j + 1, Some(q));
                }
            },
            None => {
                if s[j] == '\'' || s[j] == '"' {
                    lemma_word_end_bounds(s, j + 1, Some(s[j]));
                } else if s[j] == '\\' {
                    if j + 1 < s.len() {
                        lemma_word_end_bounds(s, j + 2, None);
                    }
                } else if is_space(s[j]) || is_op_char(s[j]) {
                } else {
                    lemma_word_end_bounds(s, j + 1, None);
                }
            },
        }
    }
}

/// The redirection token that starts at the operator character at `k`
/// (which is `<` or `>`), applying to descriptor `fd`.
pub open spec fn redir_token(s: Seq<char>, k: int, fd: u32) -> (TokenV, int)
    recommends
        0 <= k < s.len(),
{
    if s[k] == '<' {
        (TokenV::Less(fd), k + 1)
    } else if k + 1 < s.len() && s[k + 1] == '>' {
        (TokenV::DGreat(fd), k + 2)
    } else {
        (TokenV::Great(fd), k + 1)
    }
}

/// The next token at or after position `i`, with the position just past it;
/// `None` at end of input.  Whitespace separates tokens; operators are read
/// greedily (`>>` before `>`, `&&` before `&`); a single digit directly
/// before `<` or `>` names the descriptor being redirected; everything else
/// begins a word.
pub open spec fn next_token(s: Seq<char>, i: int) -> Result<Option<(TokenV, int)>, LexError>
    decreases s.len() - i,
    when 0 <= i <= s.len()
{
    if i >= s.len() {
        Ok(None)
    } else if is_space(s[i]) {
        next_token(s, i + 1)
    } else if s[i] == '|' {
        if i + 1 < s.len() && s[i + 1] == '|' {
            Ok(Some((TokenV::OrIf, i + 2)))
        } else {
            Ok(Some((TokenV::Pipe, i + 1)))
        }
    } else if s[i] == '&' {
        if i + 1 < s.len() && s[i + 1] == '&' {
            Ok(Some((TokenV::AndIf, i + 2)))
        } else {
            Err(LexError::LoneAmpersand { pos: i as usize })
        }
    } else if s[i] == ';' {
        Ok(Some((TokenV::Semi, i + 1)))
    } else if s[i] == '<' || s[i] == '>' {
        Ok(Some(redir_token(s, i, if s[i] == '<' { 0u32 } else { 1u32 })))
    } else if is_digit(s[i]) && i + 1 < s.len() && (s[i + 1] == '<' || s[i + 1] == '>') {
        Ok(Some(redir_token(s, i + 1, digit_val(s[i]))))
    } else {
        match word_end_from(s, i, None) {
            Ok(j) => Ok(Some((TokenV::Word(s.subrange(i, j)), j))),
            Err(e) => Err(e),
        }
    }
}

pub proof fn lemma_next_token_bounds(s: Seq<char>, i: int)
    requires
        0 <= i <= s.len(),
    ensures
        next_token(s, i) matches Ok(Some((t, j))) ==> i < j <= s.len(),
    decreases s.len() - i,
{
    if i < s.len() {
        if is_space(s[i]) {
            lemma_next_token_bounds(s, i + 1);
        } else if s[i] == '|' || s[i] == '&' || s[i] == ';' || s[i] == '<' || s[i] == '>' {
        } else if is_digit(s[i]) && i + 1 < s.len() && (s[i + 1] == '<' || s[i + 1] == '>') {
        } else {
            lemma_word_end_bounds(s, i, None);
            if word_end_from(s, i, None) matches Ok(j) {
                assert(!(is_space(s[i]) || is_op_char(s[i])));
                assert(word_end_from(s, i, None) != Ok::<int, LexError>(i)) by {
                    if s[i] == '\'' || s[i] == '"' {
                        lemma_word_end_bounds(s, i + 1, Some(s[i]));
                    } else if s[i] == '\\' {
                        if i + 1 < s.len() {
                            lemma_word_end_bounds(s, i + 2, None);
                        }
                    } else {
                        lemma_word_end_bounds(s, i + 1, None);
                    }
                }
            }
        }
    }
}

/// The tokens of the whole input from position `i` on.
pub open spec fn lex_from(s: Seq<char>, i: int) -> Result<Seq<TokenV>, LexError>
    decreases s.len() - i,
    when 0 <= i <= s.len()
    via lex_from_decreases
{
    match next_token(s, i) {
        Ok(None) => Ok(Seq::empty()),
        Ok(Some((t, j))) => match lex_from(s, j) {
            Ok(rest) => Ok(seq![t] + rest),
            Err(e) => Err(e),
        },
        Err(e) => Err(e),
    }
}

#[via_fn]
proof fn lex_from_decreases(s: Seq<char>, i: int) {
    lemma_next_token_bounds(s, i);
}

/// The token sequence of a whole line of input.
pub open spec fn spec_lex(s: Seq<char>) -> Result<Seq<TokenV>, LexError> {
    lex_from(s, 0)
}

/// Turns a borrowed piece of text into its characters.
pub fn str_to_chars(s: &str) -> (r: Vec<char>)
    ensures
        r@ == s@,
{
    let n: usize = s.unicode_len();
    let mut out: Vec<char> = Vec::new();
    let mut i: usize = 0;
    while i < n
        invariant
            n == s@.len(),
            i <= n,
            out@ == s@.subrange(0, i as int),
        decreases n - i,
    {
        let c = s.get_char(i);
        out.push(c);
        proof {
            assert(out@ =~= s@.subrange(0, i + 1));
        }
        i = i + 1;
    }
    proof {
        assert(out@ =~= s@);
    }
    out
}

fn is_space_x(c: char) -> (r: bool)
    ensures
        r == is_space(c),
{
    c == ' ' || c == '\t' || c == '\n' || c == '\r'
}

fn is_op_char_x(c: char) -> (r: bool)
    ensures
        r == is_op_char(c),
{
    c == '|' || c == ';' || c == '&' || c == '<' || c == '>'
}

fn is_digit_x(c: char) -> (r: bool)
    ensures
        r == is_digit(c),
{
    '0' <= c && c <= '9'
}

/// Scans the word that starts at `i` (a position holding a word
/// character), returning the position just past its end.
fn word_end_x(s: &Vec<char>, i: usize) -> (r: Result<usize, LexError>)
    requires
        i <= s@.len(),
    ensures
        match r {
            Ok(j) => word_end_from(s@, i as int, None) == Ok::<int, LexError>(j as int) && i <= j
                <= s@.len(),
            Err(e) => word_end_from(s@, i as int, None) == Err::<int, LexError>(e),
        },
{
    let mut j: usize = i;
    let mut quote: Option<char> = None;
    loop
        invariant
            i <= j <= s@.len(),
            word_end_from(s@, i as int, None) == word_end_from(s@, j as int, quote),
        decreases s@.len() - j,
    {
        if j >= s.len() {
            match quote {
                Some(_) => {
                    return Err(LexError::UnterminatedQuote { pos: s.len() });
                },
                None => {
                    return Ok(j);
                },
            }
        }
        let c = s[j];
        match quote {
            Some(q) => {
                if c == q {
                    quote = None;
                    j = j + 1;
                } else if q == '"' && c == '\\' && j + 1 < s.len() {
                    j = j + 2;
                } else {
                    j = j + 1;
                }
            },
            None => {
                if c == '\'' || c == '"' {
                    quote = Some(c);
                    j = j + 1;
                } else if c == '\\' {
                    if j + 1 < s.len() {
                        j = j + 2;
                    } else {
                        return Err(LexError::TrailingBackslash { pos: j });
                    }
                } else if is_space_x(c) || is_op_char_x(c) {
                    return Ok(j);
                } else {
                    j = j + 1;
                }
            },
        }
    }
}

/// Copies `s[i..j]` into a fresh `String`.
pub(crate) fn chars_to_string(s: &Vec<char>, i: usize, j: usize) -> (r: String)
    requires
        i <= j <= s@.len(),
    ensures
        r@ == s@.subrange(i as int, j as int),
{
    let mut out = String::new();
    let mut k: usize = i;
    while k < j
        invariant
            i <= k <= j <= s@.len(),
            out@ == s@.subrange(i as int, k as int),
        decreases j - k,
    {
        crate::string_push(&mut out, s[k]);
        proof {
            assert(out@ =~= s@.subrange(i as int, k + 1));
        }
        k = k + 1;
    }
    out
}

/// The lexer: a forward-only cursor over one line of input, handing out one
/// token per request.
pub struct Lexer {
    chars: Vec<char>,
    pos: usize,
}

impl Lexer {
    pub closed spec fn input(&self) -> Seq<char> {
        self.chars@
    }

    pub closed spec fn position(&self) -> int {
        self.pos as int
    }

    pub open spec fn wf(&self) -> bool {
        0 <= self.position() <= self.input().len()
    }

    pub fn new(text: &str) -> (r: Lexer)
        ensures
            r.input() == text@,
            r.position() == 0,
            r.wf(),
    {
        Lexer { chars: str_to_chars(text), pos: 0 }
    }

    /// Produces the next token, or `None` at end of input, advancing the
    /// cursor past it.
    pub fn next_token(&mut self) -> (r: Result<Option<Token>, LexError>)
        requires
            old(self).wf(),
        ensures
            final(self).wf(),
            final(self).input() == old(self).input(),
            match r {
                Ok(Some(t)) => next_token(old(self).input(), old(self).position()) == Ok::<
                    _,
                    LexError,
                >(Some((t@, final (self).position()))),
                Ok(None) => next_token(old(self).input(), old(self).position()) == Ok::<
                    Option<(TokenV, int)>,
                    LexError,
                >(None),
                Err(e) => next_token(old(self).input(), old(self).position()) == Err::<
                    Option<(TokenV, int)>,
                    LexError,
                >(e) && final (self).position() == old(self).position(),
            },
    {
        let s_len = self.chars.len();
        let mut i: usize = self.pos;
        while i < s_len && is_space_x(self.chars[i])
            invariant
                self == old(self),
                s_len == self.chars@.len(),
                old(self).position() <= i <= s_len,
                next_token(self.chars@, old(self).position()) == next_token(self.chars@, i as int),
            decreases s_len - i,
        {
            i = i + 1;
        }
        if i >= s_len {
            self.pos = i;
            return Ok(None);
        }
        let c = self.chars[i];
        if c == '|' {
            if i + 1 < s_len && self.chars[i + 1] == '|' {
                self.pos = i + 2;
                Ok(Some(Token::OrIf))
            } else {
                self.pos = i + 1;
                Ok(Some(Token::Pipe))
            }
        } else if c == '&' {
            if i + 1 < s_len && self.chars[i + 1] == '&' {
                self.pos = i + 2;
                Ok(Some(Token::AndIf))
            } else {
                Err(LexError::LoneAmpersand { pos: i })
            }
        } else if c == ';' {
            self.pos = i + 1;
            Ok(Some(Token::Semi))
        } else if c == '<' || c == '>' {
            let fd: u32 = if c == '<' {
                0
            } else {
                1
            };
            self.redir_at(i, fd)
        } else if is_digit_x(c) && i + 1 < s_len && (self.chars[i + 1] == '<' || self.chars[i + 1]
            == '>') {
            let fd: u32 = c as u32 - '0' as u32;
            self.redir_at(i + 1, fd)
        } else {
            match word_end_x(&self.chars, i) {
                Ok(j) => {
                    let w = chars_to_string(&self.chars, i, j);
                    self.pos = j;
                    Ok(Some(Token::Word(w)))
                },
                Err(e) => Err(e),
            }
        }
    }

    /// Reads the redirection operator at `k` on behalf of descriptor `fd`.
    fn redir_at(&mut self, k: usize, fd: u32) -> (r: Result<Option<Token>, LexError>)
        requires
            old(self).wf(),
            k < old(self).input().len(),
            old(self).input()[k as int] == '<' || old(self).input()[k as int] == '>',
        ensures
            final(self).wf(),
            final(self).input() == old(self).input(),
            r matches Ok(Some(t)) && (t@, final (self).position()) == redir_token(
                old(self).input(),
                k as int,
                fd,
            ),
    {
        let n = self.chars.len();
        assert(k < n);
        let c = self.chars[k];
        if c == '<' {
            self.pos = k + 1;
            Ok(Some(Token::Less(fd)))
        } else if k + 1 < self.chars.len() && self.chars[k + 1] == '>' {
            self.pos = k + 2;
            Ok(Some(Token::DGreat(fd)))
        } else {
            self.pos = k + 1;
            Ok(Some(Token::Great(fd)))
        }
    }
}

/// Tokenizes a whole line: draining the lexer's cursor left to right, once.
pub fn lex(text: &str) -> (r: Result<Vec<Token>, LexError>)
    ensures
        match r {
            Ok(v) => spec_lex(text@) == Ok::<_, LexError>(toks_view(v@)),
            Err(e) => spec_lex(text@) == Err::<Seq<TokenV>, LexError>(e),
        },
{
    let mut lx = Lexer::new(text);
    let mut out: Vec<Token> = Vec::new();
    loop
        invariant
            lx.wf(),
            lx.input() == text@,
            lex_from(text@, 0) == (match lex_from(text@, lx.position()) {
                Ok(rest) => Ok::<Seq<TokenV>, LexError>(toks_view(out@) + rest),
                Err(e) => Err::<Seq<TokenV>, LexError>(e),
            }),
        decreases text@.len() - lx.position(),
    {
        let ghost p = lx.position();
        proof {
            lemma_next_token_bounds(text@, p);
        }
        match lx.next_token() {
            Ok(Some(t)) => {
                let ghost out0 = out@;
                out.push(t);
                proof {
                    let s = text@;
                    let jj = lx.position();
                    assert(next_token(s, p) == Ok::<_, LexError>(Some((t@, jj))));
                    assert(lex_from(s, p) == (match lex_from(s, jj) {
                        Ok(rest) => Ok::<Seq<TokenV>, LexError>(seq![t@] + rest),
                        Err(e) => Err::<Seq<TokenV>, LexError>(e),
                    }));
                    let tv_old = toks_view(out0);
                    assert(out@ == out0.push(t));
                    assert(toks_view(out@) =~= tv_old + seq![t@]);
                    if let Ok(rest2) = lex_from(s, jj) {
                        assert(tv_old + (seq![t@] + rest2) =~= (tv_old + seq![t@]) + rest2);
                        assert(toks_view(out@) + rest2 == (tv_old + seq![t@]) + rest2);
                        assert(lex_from(s, 0) == Ok::<Seq<TokenV>, LexError>(
                            toks_view(out@) + rest2,
                        ));
                    }
                }
            },
            Ok(None) => {
                proof {
                    assert(lex_from(text@, p) == Ok::<Seq<TokenV>, LexError>(Seq::empty()));
                    assert(toks_view(out@) + Seq::<TokenV>::empty() =~= toks_view(out@));
                }
                return Ok(out);
            },
            Err(e) => {
                return Err(e);
            },
        }
    }
}

} // verus!
