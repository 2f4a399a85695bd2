use vstd::prelude::*;

use crate::executor::Shell;
use crate::lexer::{digit_val, is_digit, str_to_chars};
use crate::parser::{is_name_char, lemma_name_end_bounds, name_end_from};

verus! {

/// Whether the scan stands outside quotes, inside single quotes (where
/// everything is literal), or inside double quotes (where variable
/// markers still count).
#[derive(Debug, Clone, Copy, PartialEq, Eq, Structural)]
pub enum QuoteMode {
    Plain,
    Single,
    Double,
}

/// What a positional reference `$1` .. `$9` stands for; `$0` and indices
/// past the parameter list expand to nothing.
pub open spec fn lookup_pos(pos: Seq<String>, d: u32) -> Seq<char> {
    if 1 <= d <= pos.len() {
        pos[d - 1]@
    } else {
        Seq::empty()
    }
}

/// What a variable reference stands for: its value, or nothing when it is
/// unset — never an error.
pub open spec fn lookup_var(vars: Map<Seq<char>, String>, name: Seq<char>) -> Seq<char> {
    if vars.dom().contains(name) {
        vars[name]@
    } else {
        Seq::empty()
    }
}

/// The argument text that the raw word `s`, from position `i` on in mode
/// `mode`, stands for once quotes are dropped, escapes resolved and
/// variable and positional markers replaced.  Quotes are balanced in
/// words the lexer produced; a word that nonetheless ends mid-quote just
/// ends.
pub open spec fn spec_expand(
    s: Seq<char>,
    i: int,
    mode: QuoteMode,
    vars: Map<Seq<char>, String>,
    pos: Seq<String>,
) -> Seq<char>
    decreases s.len() - i,
    when 0 <= i <= s.len()
    via spec_expand_decreases
{
    if i >= s.len() {
        Seq::empty()
    } else {
        let c = s[i];
        match mode {
            QuoteMode::Single => {
                if c == '\'' {
                    spec_expand(s, i + 1, QuoteMode::Plain, vars, pos)
                } else {
                    seq![c] + spec_expand(s, i + 1, QuoteMode::Single, vars, pos)
                }
            },
            QuoteMode::Double => {
                if c == '"' {
                    spec_expand(s, i + 1, QuoteMode::Plain, vars, pos)
                } else if c == '\\' && i + 1 < s.len() && (s[i + 1] == '"' || s[i + 1] == '\\' || s[
                    i + 1
                ] == '$') {
                    seq![s[i + 1]] + spec_expand(s, i + 2, QuoteMode::Double, vars, pos)
                } else if c == '$' {
                    spec_expand_var(s, i, QuoteMode::Double, vars, pos)
                } else {
                    seq![c] + spec_expand(s, i + 1, QuoteMode::Double, vars, pos)
                }
            },
            QuoteMode::Plain => {
                if c == '\'' {
                    spec_expand(s, i + 1, QuoteMode::Single, vars, pos)
                } else if c == '"' {
                    spec_expand(s, i + 1, QuoteMode::Double, vars, pos)
                } else if c == '\\' {
                    if i + 1 < s.len() {
                        seq![s[i + 1]] + spec_expand(s, i + 2, QuoteMode::Plain, vars, pos)
                    } else {
                        seq!['\\']
                    }
                } else if c == '$' {
                    spec_expand_var(s, i, QuoteMode::Plain, vars, pos)
                } else {
                    seq![c] + spec_expand(s, i + 1, QuoteMode::Plain, vars, pos)
                }
            },
        }
    }
}

/// A `$` at `i`: a single digit names a positional parameter, a run of
/// name characters a variable; a lone `$` is literal.
pub open spec fn spec_expand_var(
    s: Seq<char>,
    i: int,
    mode: QuoteMode,
    vars: Map<Seq<char>, String>,
    pos: Seq<String>,
) -> Seq<char>
    decreases s.len() - i, 0int,
    when 0 <= i < s.len()
    via spec_expand_var_decreases
{
    if i + 1 < s.len() && is_digit(s[i + 1]) {
        lookup_pos(pos, digit_val(s[i + 1])) + spec_expand(s, i + 2, mode, vars, pos)
    } else {
        let e = name_end_from(s, i + 1);
        if e == i + 1 {
            seq!['$'] + spec_expand(s, i + 1, mode, vars, pos)
        } else {
            lookup_var(vars, s.subrange(i + 1, e)) + spec_expand(s, e, mode, vars, pos)
        }
    }
}

#[via_fn]
proof fn spec_expand_decreases(
    s: Seq<char>,
    i: int,
    mode: QuoteMode,
    vars: Map<Seq<char>, String>,
    pos: Seq<String>,
) {
}

#[via_fn]
proof fn spec_expand_var_decreases(
    s: Seq<char>,
    i: int,
    mode: QuoteMode,
    vars: Map<Seq<char>, String>,
    pos: Seq<String>,
) {
    if !(i + 1 < s.len() && is_digit(s[i + 1])) {
        lemma_name_end_bounds(s, i + 1);
    }
}

/// Handles one `$` marker at `i`, appending what it stands for and
/// returning the position to continue from; what was appended and where
/// the scan continues do not depend on the quote mode.
fn expand_var_step(chars: &Vec<char>, i: usize, out: &mut String, shell: &Shell) -> (r: usize)
    requires
        i < chars@.len(),
    ensures
        i < r <= chars@.len(),
        ({
            let s = chars@;
            if i + 1 < s.len() && is_digit(s[i + 1]) {
                r == i + 2 && final (out)@ == old(out)@ + lookup_pos(
                    shell.positional@,
                    digit_val(s[i + 1]),
                )
            } else if name_end_from(s, i + 1) == i + 1 {
                r == i + 1 && final (out)@ == old(out)@ + seq!['$']
            } else {
                r == name_end_from(s, i + 1) && final (out)@ == old(out)@ + lookup_var(
                    shell.vars@,
                    s.subrange(i + 1, name_end_from(s, i + 1)),
                )
            }
        }),
{
    let ghost out0 = out@;
    let n = chars.len();
    if i + 1 < n && is_digit_x(chars[i + 1]) {
        let d: u32 = chars[i + 1] as u32 - '0' as u32;
        proof {
            assert(d == digit_val(chars@[i + 1]));
        }
        if d >= 1 && (d as usize) <= shell.positional.len() {
            let v = shell.positional[(d as usize) - 1].clone();
            string_append(out, &v);
        } else {
            proof {
                assert(out@ =~= out0 + lookup_pos(shell.positional@, d));
            }
        }
        i + 2
    } else {
        let mut e: usize = i + 1;
        while e < n && is_name_char_x2(chars[e])
            invariant
                i + 1 <= e <= n,
                n == chars@.len(),
                name_end_from(chars@, i + 1) == name_end_from(chars@, e as int),
            decreases n - e,
        {
            e = e + 1;
        }
        proof {
            assert(name_end_from(chars@, i + 1) == e);
        }
        if e == i + 1 {
            crate::string_push(out, '$');
            proof {
                assert(out@ =~= out0 + seq!['$']);
            }
            i + 1
        } else {
            let name = crate::lexer::chars_to_string(chars, i + 1, e);
            match shell.vars.get(&name) {
                Some(v) => {
                    let vv = v.clone();
                    string_append(out, &vv);
                },
                None => {
                    proof {
                        assert(out@ =~= out0 + lookup_var(shell.vars@, name@));
                    }
                },
            }
            e
        }
    }
}

/// Resolves one raw word into the argument text it stands for, reading
/// variables and positional parameters from the shared shell state.
pub fn expand_word(w: &String, shell: &Shell) -> (r: String)
    ensures
        r@ == spec_expand(w@, 0, QuoteMode::Plain, shell.vars@, shell.positional@),
{
    let ghost vm = shell.vars@;
    let ghost pv = shell.positional@;
    let chars = str_to_chars(w.as_str());
    let n = chars.len();
    let mut out = String::new();
    let mut i: usize = 0;
    let mut mode: QuoteMode = QuoteMode::Plain;
    while i < n
        invariant
            i <= n,
            n == chars@.len(),
            chars@ == w@,
            vm == shell.vars@,
            pv == shell.positional@,
            spec_expand(w@, 0, QuoteMode::Plain, vm, pv) == out@ + spec_expand(
                w@,
                i as int,
                mode,
                vm,
                pv,
            ),
        decreases n - i,
    {
        let ghost out0 = out@;
        let ghost i0 = i as int;
        let ghost mode0 = mode;
        let c = chars[i];
        let is_escape_double = mode == QuoteMode::Double && c == '\\' && i + 1 < n && (chars[i + 1]
            == '"' || chars[i + 1] == '\\' || chars[i + 1] == '$');
        if mode == QuoteMode::Single {
            if c == '\'' {
                mode = QuoteMode::Plain;
                i = i + 1;
            } else {
                crate::string_push(&mut out, c);
                i = i + 1;
            }
        } else if (mode == QuoteMode::Plain || mode == QuoteMode::Double) && c == '$' {
            i = expand_var_step(&chars, i, &mut out, shell);
            proof {
                assert(spec_expand(w@, i0, mode0, vm, pv) == spec_expand_var(
                    w@,
                    i0,
                    mode0,
                    vm,
                    pv,
                ));
                assert(spec_expand_var(w@, i0, mode0, vm, pv) == (out@.subrange(
                    out0.len() as int,
                    out@.len() as int,
                )) + spec_expand(w@, i as int, mode, vm, pv));
            }
        } else if mode == QuoteMode::Double {
            if c == '"' {
                mode = QuoteMode::Plain;
                i = i + 1;
            } else if is_escape_double {
                crate::string_push(&mut out, chars[i + 1]);
                i = i + 2;
            } else {
                crate::string_push(&mut out, c);
                i = i + 1;
            }
        } else {
            if c == '\'' {
                mode = QuoteMode::Single;
                i = i + 1;
            } else if c == '"' {
                mode = QuoteMode::Double;
                i = i + 1;
            } else if c == '\\' {
                if i + 1 < n {
                    crate::string_push(&mut out, chars[i + 1]);
                    i = i + 2;
                } else {
                    crate::string_push(&mut out, '\\');
                    i = i + 1;
                }
            } else {
                crate::string_push(&mut out, c);
                i = i + 1;
            }
        }
        proof {
            let delta = out@.subrange(out0.len() as int, out@.len() as int);
            assert(out@ =~= out0 + delta);
            assert(spec_expand(w@, i0, mode0, vm, pv) == delta + spec_expand(
                w@,
                i as int,
                mode,
                vm,
                pv,
            ));
            assert((out0 + delta) + spec_expand(w@, i as int, mode, vm, pv) =~= out0 + (delta
                + spec_expand(w@, i as int, mode, vm, pv)));
        }
    }
    proof {
        assert(spec_expand(w@, n as int, mode, vm, pv) == Seq::<char>::empty());
        assert(out@ + Seq::<char>::empty() =~= out@);
    }
    out
}

fn is_digit_x(c: char) -> (r: bool)
    ensures
        r == is_digit(c),
{
    '0' <= c && c <= '9'
}

fn is_name_char_x2(c: char) -> (r: bool)
    ensures
        r == is_name_char(c),
{
    ('a' <= c && c <= 'z') || ('A' <= c && c <= 'Z') || ('0' <= c && c <= '9') || c == '_'
}

/// Relies on std's String::push_str: appends exactly the given text.
#[verifier::external_body]
pub(crate) fn string_append(s: &mut String, t: &String)
    ensures
        final(s)@ == old(s)@ + t@,
{
    s.push_str(t)
}


/// One simple command with every word resolved: arguments, assignment
/// values and redirection targets carry the text the command will
/// actually see; assignment names stay as written.
pub fn expand_stage(sc: &crate::syntax::SimpleCmd, shell: &Shell) -> (r: crate::syntax::SimpleCmd)
    ensures
        r@.words.len() == sc@.words.len(),
        forall|i: int|
            0 <= i < sc@.words.len() ==> #[trigger] r@.words[i] == spec_expand(
                sc@.words[i],
                0,
                QuoteMode::Plain,
                shell.vars@,
                shell.positional@,
            ),
        r@.assignments.len() == sc@.assignments.len(),
        forall|i: int|
            0 <= i < sc@.assignments.len() ==> #[trigger] r@.assignments[i] == (
                sc@.assignments[i].0,
                spec_expand(
                    sc@.assignments[i].1,
                    0,
                    QuoteMode::Plain,
                    shell.vars@,
                    shell.positional@,
                ),
            ),
        r@.redirects.len() == sc@.redirects.len(),
        forall|i: int|
            0 <= i < sc@.redirects.len() ==> #[trigger] r@.redirects[i] == (
            crate::syntax::RedirectV {
                target: spec_expand(
                    sc@.redirects[i].target,
                    0,
                    QuoteMode::Plain,
                    shell.vars@,
                    shell.positional@,
                ),
                ..sc@.redirects[i]
            }),
{
    let ghost scv = sc@;
    let mut words: Vec<String> = Vec::new();
    let nw = sc.words.len();
    let mut i: usize = 0;
    while i < nw
        invariant
            i <= nw,
            nw == sc.words@.len(),
            scv == sc@,
            words@.len() == i,
            forall|k: int|
                0 <= k < i ==> (#[trigger] words@[k])@ == spec_expand(
                    scv.words[k],
                    0,
                    QuoteMode::Plain,
                    shell.vars@,
                    shell.positional@,
                ),
        decreases nw - i,
    {
        words.push(expand_word(&sc.words[i], shell));
        i = i + 1;
    }
    let mut assignments: Vec<(String, String)> = Vec::new();
    let na = sc.assignments.len();
    let mut j: usize = 0;
    while j < na
        invariant
            j <= na,
            na == sc.assignments@.len(),
            scv == sc@,
            assignments@.len() == j,
            forall|k: int|
                0 <= k < j ==> ((#[trigger] assignments@[k]).0@, assignments@[k].1@) == (
                    scv.assignments[k].0,
                    spec_expand(
                        scv.assignments[k].1,
                        0,
                        QuoteMode::Plain,
                        shell.vars@,
                        shell.positional@,
                    ),
                ),
        decreases na - j,
    {
        let name = sc.assignments[j].0.clone();
        let value = expand_word(&sc.assignments[j].1, shell);
        assignments.push((name, value));
        j = j + 1;
    }
    let mut redirects: Vec<crate::syntax::Redirect> = Vec::new();
    let nr = sc.redirects.len();
    let mut k2: usize = 0;
    while k2 < nr
        invariant
            k2 <= nr,
            nr == sc.redirects@.len(),
            scv == sc@,
            redirects@.len() == k2,
            forall|k: int|
                0 <= k < k2 ==> (#[trigger] redirects@[k])@ == (crate::syntax::RedirectV {
                    target: spec_expand(
                        scv.redirects[k].target,
                        0,
                        QuoteMode::Plain,
                        shell.vars@,
                        shell.positional@,
                    ),
                    ..scv.redirects[k]
                }),
        decreases nr - k2,
    {
        let rd = &sc.redirects[k2];
        let target = expand_word(&rd.target, shell);
        redirects.push(crate::syntax::Redirect { fd: rd.fd, kind: rd.kind, target });
        k2 = k2 + 1;
    }
    let r = crate::syntax::SimpleCmd { assignments, words, redirects };
    proof {
        assert(r@.words.len() == scv.words.len());
        assert(forall|i2: int|
            0 <= i2 < scv.words.len() ==> #[trigger] r@.words[i2] == words@[i2]@);
        assert(forall|i2: int|
            0 <= i2 < scv.assignments.len() ==> #[trigger] r@.assignments[i2] == (
                assignments@[i2].0@,
                assignments@[i2].1@,
            ));
        assert(forall|i2: int|
            0 <= i2 < scv.redirects.len() ==> #[trigger] r@.redirects[i2] == redirects@[i2]@);
    }
    r
}

} // verus!
