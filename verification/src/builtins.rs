use vstd::prelude::*;

use crate::executor::Shell;
use crate::lexer::{is_digit, str_to_chars};
use crate::parser::parse;
use crate::render::{render_toks, toks_of_cmd};
use crate::state::StrMap;
use crate::syntax::{Cmd, CmdV};

verus! {

/// What a builtin that only computes and prints hands back: its lines for
/// the output and error streams, and whether it succeeded.
#[derive(Debug)]
pub struct BuiltinOutput {
    pub out: Vec<String>,
    pub err: Vec<String>,
    pub success: bool,
}

/// A character that the regex word class `\w` matches.  The class covers
/// Unicode word characters; nothing more is assumed of it here.
pub uninterp spec fn regex_word_char(c: char) -> bool;

/// The position just past the run of `\w` characters that starts at `j`.
pub open spec fn rx_word_end(s: Seq<char>, j: int) -> int
    decreases s.len() - j,
    when 0 <= j <= s.len()
{
    if j >= s.len() || !regex_word_char(s[j]) {
        j
    } else {
        rx_word_end(s, j + 1)
    }
}

/// The position of the first newline at or after `j`, or the end: in the
/// pattern below, `.` does not cross a newline.
pub open spec fn rx_line_end(s: Seq<char>, j: int) -> int
    decreases s.len() - j,
    when 0 <= j <= s.len()
{
    if j >= s.len() || s[j] == '\n' {
        j
    } else {
        rx_line_end(s, j + 1)
    }
}

/// What the anchored pattern `^(\w+)=(.*)` yields on `s`: a nonempty run
/// of word characters, an `=` right after it, and everything up to the
/// end of the line as the value.  Since `=` is no word character, the
/// pattern matches exactly when the maximal leading word run is nonempty
/// and followed by `=`.
pub open spec fn assignment_match(s: Seq<char>) -> Option<(Seq<char>, Seq<char>)> {
    let m = rx_word_end(s, 0);
    if 1 <= m < s.len() && s[m] == '=' {
        Some((s.subrange(0, m), s.subrange(m + 1, rx_line_end(s, m + 1))))
    } else {
        None
    }
}

/// Relies on regex's `Regex::new` and `Regex::captures` with the fixed
/// anchored pattern `^(\w+)=(.*)`: the first capture is the greedy
/// nonempty `\w` run, the second everything after the `=` up to the end
/// of the line.
#[verifier::external_body]
fn regex_assignment_split(s: &str) -> (r: Option<(String, String)>)
    ensures
        match r {
            Some(p) => assignment_match(s@) matches Some(q) && p.0@ == q.0 && p.1@ == q.1,
            None => assignment_match(s@) is None,
        },
        r matches Some(p) ==> p.0@.len() >= 1 && forall|i: int|
            0 <= i < p.0@.len() ==> regex_word_char(#[trigger] p.0@[i]),
{
    let re = regex::Regex::new(r"^(\w+)=(.*)").unwrap();
    re.captures(s).map(|c| (c[1].to_string(), c[2].to_string()))
}

/// What replacement text parses to when an alias is being defined: the
/// whole lex-and-parse pipeline, or nothing if either step fails.
pub open spec fn parse_of_text(s: Seq<char>) -> Option<CmdV> {
    match crate::lexer::spec_lex(s) {
        Ok(ts) => match crate::parser::spec_parse(ts) {
            Ok(c) => Some(c),
            Err(_) => None,
        },
        Err(_) => None,
    }
}

/// The meaning of a stored binding: the tree's view, or the
/// bound-but-empty marker.
pub open spec fn opt_cmd_view(v: Option<Cmd>) -> Option<CmdV> {
    match v {
        Some(c) => Some(c@),
        None => None,
    }
}

/// The meaning of the whole alias table: each bound name mapped to the
/// view of what it stands for.
pub open spec fn aliases_model(m: Map<Seq<char>, Option<Cmd>>) -> Map<Seq<char>, Option<CmdV>> {
    Map::new(|k: Seq<char>| m.dom().contains(k), |k: Seq<char>| opt_cmd_view(m[k]))
}

/// The alias listing format: `alias name='replacement'`, with embedded
/// single quotes in the replacement escaped, and an empty string for an
/// alias bound without a replacement.
pub open spec fn alias_line_v(name: Seq<char>, v: Option<CmdV>) -> Seq<char> {
    "alias "@ + name + "='"@ + (match v {
        Some(cv) => crate::spec_escape_singlequotes(render_toks(toks_of_cmd(cv))),
        None => Seq::<char>::empty(),
    }) + "'"@
}

pub open spec fn alias_line(name: Seq<char>, v: Option<Cmd>) -> Seq<char> {
    alias_line_v(name, opt_cmd_view(v))
}

/// What one `alias` argument does to the table's meaning, and the lines
/// it prints: an assignment binds the name to what its right-hand side
/// parses to (bound-but-empty when it does not parse); a bare bound name
/// prints its listing line; a bare unbound name prints its error line.
pub open spec fn alias_step(mv: Map<Seq<char>, Option<CmdV>>, arg: Seq<char>) -> (
    Map<Seq<char>, Option<CmdV>>,
    Seq<Seq<char>>,
    Seq<Seq<char>>,
) {
    match assignment_match(arg) {
        Some(p) => (mv.insert(p.0, parse_of_text(p.1)), Seq::empty(), Seq::empty()),
        None => if mv.dom().contains(arg) {
            (mv, seq![alias_line_v(arg, mv[arg])], Seq::<Seq<char>>::empty())
        } else {
            (mv, Seq::<Seq<char>>::empty(), seq!["rush: alias: "@ + arg + ": not found"@])
        },
    }
}

/// The left-to-right fold of `alias_step` over the arguments from `k`
/// on: the table's final meaning, the listing lines and the error lines.
pub open spec fn alias_fold(
    mv: Map<Seq<char>, Option<CmdV>>,
    args: Seq<Seq<char>>,
    k: int,
) -> (Map<Seq<char>, Option<CmdV>>, Seq<Seq<char>>, Seq<Seq<char>>)
    decreases args.len() - k,
    when 0 <= k <= args.len()
{
    if k >= args.len() {
        (mv, Seq::<Seq<char>>::empty(), Seq::<Seq<char>>::empty())
    } else {
        let s1 = alias_step(mv, args[k]);
        let s2 = alias_fold(s1.0, args, k + 1);
        (s2.0, s1.1 + s2.1, s1.2 + s2.2)
    }
}

/// Inserting into the table inserts the value's view into its meaning.
proof fn lemma_model_insert(m: Map<Seq<char>, Option<Cmd>>, k: Seq<char>, v: Option<Cmd>)
    ensures
        aliases_model(m.insert(k, v)) =~= aliases_model(m).insert(k, opt_cmd_view(v)),
{
}

fn build_alias_line(name: &String, v: &Option<Cmd>) -> (r: String)
    ensures
        r@ == alias_line(name@, *v),
{
    let mut s = "alias ".to_owned();
    crate::expand::string_append(&mut s, name);
    let q = "='".to_owned();
    crate::expand::string_append(&mut s, &q);
    match v {
        Some(c) => {
            let text = c.to_commandline();
            let esc = crate::escape_singlequotes(text.as_str());
            crate::expand::string_append(&mut s, &esc);
        },
        None => {},
    }
    let q2 = "'".to_owned();
    crate::expand::string_append(&mut s, &q2);
    proof {
        assert(s@ =~= alias_line(name@, *v));
    }
    s
}

/// What handling one `alias` argument did: defined (or redefined) an
/// alias, showed an existing one, or failed on an unknown name.
#[derive(Debug)]
pub enum AliasOneResult {
    Defined,
    Shown(String),
    Missing(String),
}

/// Handles one argument of the `alias` builtin: an assignment defines an
/// alias (storing the parsed replacement, or a bound-but-empty alias when
/// the replacement does not parse); a bare known name is shown; a bare
/// unknown name is an error.
pub fn alias_one(shell: &mut Shell, arg: &String) -> (r: AliasOneResult)
    requires
        old(shell).wf(),
    ensures
        final(shell).wf(),
        final(shell).vars == old(shell).vars,
        final(shell).positional == old(shell).positional,
        final(shell).spec_interactive() == old(shell).spec_interactive(),
        match r {
            AliasOneResult::Defined => assignment_match(arg@) matches Some(p) && (match parse_of_text(
                p.1,
            ) {
                Some(cv) => exists|c: Cmd|
                    c@ == cv && final (shell).aliases@ =~= old(shell).aliases@.insert(
                        p.0,
                        Some(c),
                    ),
                None => final (shell).aliases@ =~= old(shell).aliases@.insert(
                    p.0,
                    None::<Cmd>,
                ),
            }),
            AliasOneResult::Shown(line) => assignment_match(arg@) is None && final (shell).aliases
                == old(shell).aliases && old(shell).aliases@.dom().contains(arg@) && line@
                == alias_line(arg@, old(shell).aliases@[arg@]),
            AliasOneResult::Missing(line) => assignment_match(arg@) is None && final(
                shell
            ).aliases == old(shell).aliases && !old(shell).aliases@.dom().contains(arg@) && line@
                == "rush: alias: "@ + arg@ + ": not found"@,
        },
{
    match regex_assignment_split(arg.as_str()) {
        Some((lhs, rhs)) => {
            match crate::lexer::lex(rhs.as_str()) {
                Ok(ts) => {
                    match parse(&ts) {
                        Ok(c) => {
                            let ghost cv = c@;
                            shell.aliases.insert(lhs, Some(c));
                        },
                        Err(_) => {
                            shell.aliases.insert(lhs, None);
                        },
                    }
                },
                Err(_) => {
                    shell.aliases.insert(lhs, None);
                },
            }
            AliasOneResult::Defined
        },
        None => {
            match shell.aliases.get(arg) {
                Some(v) => {
                    let line = build_alias_line(arg, v);
                    AliasOneResult::Shown(line)
                },
                None => {
                    let mut line = "rush: alias: ".to_owned();
                    crate::expand::string_append(&mut line, arg);
                    let t = ": not found".to_owned();
                    crate::expand::string_append(&mut line, &t);
                    proof {
                        assert(line@ =~= "rush: alias: "@ + arg@ + ": not found"@);
                    }
                    AliasOneResult::Missing(line)
                },
            }
        },
    }
}

/// The `alias` builtin: with no arguments it lists every alias in the
/// stored order; with arguments it defines, shows or reports each in
/// turn, exactly as the fold of `alias_step` says.  It fails exactly
/// when some name was neither an assignment nor bound.
pub fn alias(shell: &mut Shell, args: Vec<String>) -> (r: BuiltinOutput)
    requires
        old(shell).wf(),
    ensures
        final(shell).wf(),
        final(shell).vars == old(shell).vars,
        final(shell).positional == old(shell).positional,
        final(shell).spec_interactive() == old(shell).spec_interactive(),
        r.success == (r.err@.len() == 0),
        args@.len() == 0 ==> {
            &&& final (shell).aliases == old(shell).aliases
            &&& r.err@.len() == 0
            &&& r.out@.len() == old(shell).aliases.entries_seq().len()
            &&& forall|i: int|
                0 <= i < r.out@.len() ==> (#[trigger] r.out@[i])@ == alias_line(
                    old(shell).aliases.entries_seq()[i].0@,
                    old(shell).aliases.entries_seq()[i].1,
                )
        },
        args@.len() > 0 ==> {
            let fold = alias_fold(
                aliases_model(old(shell).aliases@),
                args@.map_values(|a: String| a@),
                0,
            );
            &&& aliases_model(final (shell).aliases@) == fold.0
            &&& r.out@.map_values(|s: String| s@) == fold.1
            &&& r.err@.map_values(|s: String| s@) == fold.2
        },
{
    let mut out: Vec<String> = Vec::new();
    let mut err: Vec<String> = Vec::new();
    if args.len() == 0 {
        let entries = shell.aliases.list();
        let n = entries.len();
        let mut i: usize = 0;
        while i < n
            invariant
                i <= n,
                n == entries@.len(),
                entries@ == shell.aliases.entries_seq(),
                err@.len() == 0,
                out@.len() == i,
                forall|k: int|
                    0 <= k < i ==> (#[trigger] out@[k])@ == alias_line(
                        entries@[k].0@,
                        entries@[k].1,
                    ),
            decreases n - i,
        {
            let line = build_alias_line(&entries[i].0, &entries[i].1);
            out.push(line);
            i = i + 1;
        }
        return BuiltinOutput { out, err, success: true };
    }
    let ghost model0 = aliases_model(old(shell).aliases@);
    let ghost argsv = args@.map_values(|a: String| a@);
    let n = args.len();
    let mut i: usize = 0;
    proof {
        assert(out@.map_values(|s: String| s@) =~= Seq::<Seq<char>>::empty());
        assert(err@.map_values(|s: String| s@) =~= Seq::<Seq<char>>::empty());
    }
    while i < n
        invariant
            i <= n,
            n == args@.len(),
            argsv == args@.map_values(|a: String| a@),
            shell.wf(),
            shell.vars == old(shell).vars,
            shell.positional == old(shell).positional,
            shell.spec_interactive() == old(shell).spec_interactive(),
            alias_fold(model0, argsv, 0) == ({
                let rest = alias_fold(aliases_model(shell.aliases@), argsv, i as int);
                (
                    rest.0,
                    out@.map_values(|s: String| s@) + rest.1,
                    err@.map_values(|s: String| s@) + rest.2,
                )
            }),
        decreases n - i,
    {
        let ghost mcur = aliases_model(shell.aliases@);
        let ghost outv0 = out@.map_values(|s: String| s@);
        let ghost errv0 = err@.map_values(|s: String| s@);
        proof {
            assert(argsv[i as int] == args@[i as int]@);
        }
        match alias_one(shell, &args[i]) {
            AliasOneResult::Defined => {
                proof {
                    let p = assignment_match(argsv[i as int])->Some_0;
                    match parse_of_text(p.1) {
                        Some(cv) => {
                            let c = choose|c: Cmd|
                                c@ == cv && shell.aliases@ =~= old(shell).aliases@.insert(
                                    p.0,
                                    Some(c),
                                );
                            lemma_model_insert(old(shell).aliases@, p.0, Some(c));
                        },
                        None => {
                            lemma_model_insert(old(shell).aliases@, p.0, None::<Cmd>);
                        },
                    }
                }
            },
            AliasOneResult::Shown(line) => {
                let ghost linev = line@;
                out.push(line);
                proof {
                    assert(out@.map_values(|s: String| s@) =~= outv0 + seq![linev]);
                    assert(mcur[argsv[i as int]] == opt_cmd_view(
                        shell.aliases@[argsv[i as int]],
                    ));
                }
            },
            AliasOneResult::Missing(line) => {
                let ghost linev = line@;
                err.push(line);
                proof {
                    assert(err@.map_values(|s: String| s@) =~= errv0 + seq![linev]);
                }
            },
        }
        proof {
            let step = alias_step(mcur, argsv[i as int]);
            assert(aliases_model(shell.aliases@) == step.0);
            assert(out@.map_values(|s: String| s@) =~= outv0 + step.1);
            assert(err@.map_values(|s: String| s@) =~= errv0 + step.2);
            let rest2 = alias_fold(aliases_model(shell.aliases@), argsv, i + 1);
            assert((outv0 + step.1) + rest2.1 =~= outv0 + (step.1 + rest2.1));
            assert((errv0 + step.2) + rest2.2 =~= errv0 + (step.2 + rest2.2));
        }
        i = i + 1;
    }
    proof {
        let restn = alias_fold(aliases_model(shell.aliases@), argsv, n as int);
        assert(out@.map_values(|s: String| s@) + restn.1 =~= out@.map_values(|s: String| s@));
        assert(err@.map_values(|s: String| s@) + restn.2 =~= err@.map_values(|s: String| s@));
    }
    let success = err.len() == 0;
    proof {
        if err@.len() == 0 {
            assert(err@.map_values(|s: String| s@).len() == 0);
        }
    }
    BuiltinOutput { out, err, success }
}

/// The table after removing each named alias in turn; removing an
/// unbound name changes nothing.
pub open spec fn remove_fold(
    m: Map<Seq<char>, Option<Cmd>>,
    names: Seq<Seq<char>>,
    k: int,
) -> Map<Seq<char>, Option<Cmd>>
    decreases names.len() - k,
    when 0 <= k <= names.len()
{
    if k >= names.len() {
        m
    } else {
        remove_fold(m.remove(names[k]), names, k + 1)
    }
}

/// Whether every named alias was bound at the moment it was removed.
pub open spec fn all_found(m: Map<Seq<char>, Option<Cmd>>, names: Seq<Seq<char>>, k: int) -> bool
    decreases names.len() - k,
    when 0 <= k <= names.len()
{
    if k >= names.len() {
        true
    } else {
        m.dom().contains(names[k]) && all_found(m.remove(names[k]), names, k + 1)
    }
}

/// Removal only unbinds: after `unalias` runs over a list of names, none
/// of them is bound any longer, so looking any of them up fails; and
/// `unalias -a` leaves the table empty, so every lookup fails.
pub proof fn lemma_unalias_unbinds(
    m: Map<Seq<char>, Option<Cmd>>,
    names: Seq<Seq<char>>,
    k: int,
    name: Seq<char>,
)
    requires
        0 <= k <= names.len(),
        exists|j: int| k <= j < names.len() && names[j] == name,
    ensures
        !remove_fold(m, names, k).dom().contains(name),
    decreases names.len() - k,
{
    let j = choose|j: int| k <= j < names.len() && names[j] == name;
    if j == k {
        lemma_remove_fold_no_bind(m.remove(name), names, k + 1, name);
    } else {
        lemma_unalias_unbinds(m.remove(names[k]), names, k + 1, name);
    }
}

/// Folded removal never introduces a binding.
pub proof fn lemma_remove_fold_no_bind(
    m: Map<Seq<char>, Option<Cmd>>,
    names: Seq<Seq<char>>,
    k: int,
    name: Seq<char>,
)
    requires
        0 <= k <= names.len(),
        !m.dom().contains(name),
    ensures
        !remove_fold(m, names, k).dom().contains(name),
    decreases names.len() - k,
{
    if k < names.len() {
        lemma_remove_fold_no_bind(m.remove(names[k]), names, k + 1, name);
    }
}

/// The error lines the removals print: one `not found` line, in order,
/// for each name that was unbound at the moment it was removed.
pub open spec fn unalias_errs(
    m: Map<Seq<char>, Option<Cmd>>,
    names: Seq<Seq<char>>,
    k: int,
) -> Seq<Seq<char>>
    decreases names.len() - k,
    when 0 <= k <= names.len()
{
    if k >= names.len() {
        Seq::<Seq<char>>::empty()
    } else {
        (if m.dom().contains(names[k]) {
            Seq::<Seq<char>>::empty()
        } else {
            seq!["rush: unalias: "@ + names[k] + ": not found"@]
        }) + unalias_errs(m.remove(names[k]), names, k + 1)
    }
}

/// The `unalias` builtin: `unalias -a` clears the whole table; otherwise
/// each named alias is removed, and an unbound name is reported and makes
/// the builtin fail.  No arguments is a usage error.
pub fn unalias(aliases: &mut StrMap<Option<Cmd>>, args: Vec<String>) -> (r: BuiltinOutput)
    requires
        old(aliases).wf(),
    ensures
        final(aliases).wf(),
        r.success == (r.err@.len() == 0),
        r.out@.len() == 0,
        args@.len() == 0 ==> final (aliases)@ == old(aliases)@ && !r.success && r.err@.len() == 1
            && r.err@[0]@ == "unalias: usage: unalias [-a] name [name ...]"@,
        args@.len() > 0 && args@[0]@ == "-a"@ ==> final (aliases)@ =~= Map::<
            Seq<char>,
            Option<Cmd>,
        >::empty() && r.success,
        args@.len() > 0 && args@[0]@ != "-a"@ ==> {
            &&& final (aliases)@ =~= remove_fold(
                old(aliases)@,
                args@.map_values(|a: String| a@),
                0,
            )
            &&& r.success == all_found(old(aliases)@, args@.map_values(|a: String| a@), 0)
            &&& r.err@.map_values(|s: String| s@) == unalias_errs(
                old(aliases)@,
                args@.map_values(|a: String| a@),
                0,
            )
        },
{
    let mut err: Vec<String> = Vec::new();
    if args.len() == 0 {
        let u = "unalias: usage: unalias [-a] name [name ...]".to_owned();
        err.push(u);
        proof {
            assert(err@[0]@ == "unalias: usage: unalias [-a] name [name ...]"@);
        }
        return BuiltinOutput { out: Vec::new(), err, success: false };
    }
    let dash_a = "-a".to_owned();
    if args[0] == dash_a {
        aliases.clear();
        return BuiltinOutput { out: Vec::new(), err, success: true };
    }
    let ghost namesv = args@.map_values(|a: String| a@);
    let n = args.len();
    let mut i: usize = 0;
    let mut success = true;
    proof {
        assert(err@.map_values(|s: String| s@) =~= Seq::<Seq<char>>::empty());
    }
    while i < n
        invariant
            i <= n,
            n == args@.len(),
            namesv == args@.map_values(|a: String| a@),
            aliases.wf(),
            remove_fold(old(aliases)@, namesv, 0) =~= remove_fold(aliases@, namesv, i as int),
            all_found(old(aliases)@, namesv, 0) == (success && all_found(
                aliases@,
                namesv,
                i as int,
            )),
            unalias_errs(old(aliases)@, namesv, 0) == err@.map_values(|s: String| s@)
                + unalias_errs(aliases@, namesv, i as int),
            success == (err@.len() == 0),
        decreases n - i,
    {
        let ghost mcur = aliases@;
        let ghost errv0 = err@.map_values(|s: String| s@);
        proof {
            assert(namesv[i as int] == args@[i as int]@);
        }
        let found = aliases.remove(&args[i]);
        if !found {
            let mut line = "rush: unalias: ".to_owned();
            crate::expand::string_append(&mut line, &args[i]);
            let t = ": not found".to_owned();
            crate::expand::string_append(&mut line, &t);
            proof {
                assert(line@ =~= "rush: unalias: "@ + namesv[i as int] + ": not found"@);
            }
            err.push(line);
            success = false;
        }
        proof {
            let delta = (if mcur.dom().contains(namesv[i as int]) {
                Seq::<Seq<char>>::empty()
            } else {
                seq!["rush: unalias: "@ + namesv[i as int] + ": not found"@]
            });
            assert(err@.map_values(|s: String| s@) =~= errv0 + delta);
            let rest2 = unalias_errs(aliases@, namesv, i + 1);
            assert((errv0 + delta) + rest2 =~= errv0 + (delta + rest2));
        }
        i = i + 1;
    }
    proof {
        assert(unalias_errs(aliases@, namesv, n as int) =~= Seq::<Seq<char>>::empty());
        assert(err@.map_values(|s: String| s@) + Seq::<Seq<char>>::empty() =~= err@.map_values(
            |s: String| s@,
        ));
    }
    BuiltinOutput { out: Vec::new(), err, success }
}


/// The ways parsing an exit status can fail, mirroring how std's integer
/// parsing reports them, scanning left to right: an empty string, a
/// character that is no digit, or a value outside the 32-bit range.
#[derive(Debug, Clone, Copy, PartialEq, Eq, Structural)]
pub enum IntParseError {
    Empty,
    InvalidDigit,
    PosOverflow,
    NegOverflow,
}

pub open spec fn int_error_text(e: IntParseError) -> Seq<char> {
    match e {
        IntParseError::Empty => "cannot parse integer from empty string"@,
        IntParseError::InvalidDigit => "invalid digit found in string"@,
        IntParseError::PosOverflow => "number too large to fit in target type"@,
        IntParseError::NegOverflow => "number too small to fit in target type"@,
    }
}

/// Accumulates decimal digits from `j` on into `acc` (negatively for a
/// leading minus sign), failing at the first non-digit or the first step
/// that leaves the 32-bit range.
pub open spec fn spec_parse_digits(s: Seq<char>, j: int, acc: int, neg: bool) -> Result<
    i32,
    IntParseError,
>
    decreases s.len() - j,
    when 0 <= j <= s.len() && i32::MIN <= acc <= i32::MAX
{
    if j >= s.len() {
        Ok(acc as i32)
    } else if !is_digit(s[j]) {
        Err(IntParseError::InvalidDigit)
    } else {
        let d = crate::lexer::digit_val(s[j]) as int;
        let a2 = if neg {
            acc * 10 - d
        } else {
            acc * 10 + d
        };
        if !neg && a2 > i32::MAX {
            Err(IntParseError::PosOverflow)
        } else if neg && a2 < i32::MIN {
            Err(IntParseError::NegOverflow)
        } else {
            spec_parse_digits(s, j + 1, a2, neg)
        }
    }
}

/// What a whole argument parses to as a 32-bit exit status: an optional
/// sign, then at least one digit.
pub open spec fn spec_parse_i32(s: Seq<char>) -> Result<i32, IntParseError> {
    if s.len() == 0 {
        Err(IntParseError::Empty)
    } else {
        let neg = s[0] == '-';
        let start: int = if s[0] == '-' || s[0] == '+' {
            1
        } else {
            0
        };
        if s.len() == start {
            Err(IntParseError::InvalidDigit)
        } else {
            spec_parse_digits(s, start, 0, neg)
        }
    }
}

/// Parses a decimal 32-bit integer exactly as the exit builtin needs it.
pub fn parse_i32(s: &String) -> (r: Result<i32, IntParseError>)
    ensures
        r == spec_parse_i32(s@),
{
    let chars = str_to_chars(s.as_str());
    let n = chars.len();
    if n == 0 {
        return Err(IntParseError::Empty);
    }
    let c0 = chars[0];
    let neg = c0 == '-';
    let start: usize = if c0 == '-' || c0 == '+' {
        1
    } else {
        0
    };
    if n == start {
        return Err(IntParseError::InvalidDigit);
    }
    let mut acc: i64 = 0;
    let mut j: usize = start;
    while j < n
        invariant
            start <= j <= n,
            n == chars@.len(),
            chars@ == s@,
            -2147483648 <= acc <= 2147483647,
            neg ==> acc <= 0,
            !neg ==> acc >= 0,
            spec_parse_i32(s@) == spec_parse_digits(chars@, j as int, acc as int, neg),
        decreases n - j,
    {
        let c = chars[j];
        if !('0' <= c && c <= '9') {
            return Err(IntParseError::InvalidDigit);
        }
        let d: i64 = (c as u32 - '0' as u32) as i64;
        proof {
            assert(d == crate::lexer::digit_val(chars@[j as int]) as int);
        }
        let a2: i64 = if neg {
            acc * 10 - d
        } else {
            acc * 10 + d
        };
        if !neg && a2 > 2147483647 {
            return Err(IntParseError::PosOverflow);
        }
        if neg && a2 < -2147483648 {
            return Err(IntParseError::NegOverflow);
        }
        proof {
            assert(spec_parse_digits(chars@, j as int, acc as int, neg) == spec_parse_digits(
                chars@,
                j + 1,
                a2 as int,
                neg,
            ));
        }
        acc = a2;
        j = j + 1;
    }
    Ok(acc as i32)
}

/// What the `exit` builtin asks of the host: terminate the whole process
/// with the given status, or report a usage error and carry on.
#[derive(Debug)]
pub enum ExitRequest {
    Terminate(i32),
    Fail(String),
}

/// The `exit` builtin: no argument exits with 0; a numeric first argument
/// exits with that status; anything else is reported and the builtin
/// fails without exiting.
pub fn exit(args: &Vec<String>) -> (r: ExitRequest)
    ensures
        args@.len() == 0 ==> (r matches ExitRequest::Terminate(st) && st == 0),
        args@.len() > 0 ==> match spec_parse_i32(args@[0]@) {
            Ok(n) => (r matches ExitRequest::Terminate(st) && st == n),
            Err(e) => (r matches ExitRequest::Fail(line) && line@ == "rush: "@ + int_error_text(
                e,
            )),
        },
{
    if args.len() == 0 {
        return ExitRequest::Terminate(0);
    }
    match parse_i32(&args[0]) {
        Ok(n) => ExitRequest::Terminate(n),
        Err(e) => {
            let mut line = "rush: ".to_owned();
            let t = match e {
                IntParseError::Empty => "cannot parse integer from empty string".to_owned(),
                IntParseError::InvalidDigit => "invalid digit found in string".to_owned(),
                IntParseError::PosOverflow => "number too large to fit in target type".to_owned(),
                IntParseError::NegOverflow => "number too small to fit in target type".to_owned(),
            };
            crate::expand::string_append(&mut line, &t);
            proof {
                assert(line@ =~= "rush: "@ + int_error_text(e));
            }
            ExitRequest::Fail(line)
        },
    }
}

/// The `cd` builtin's decision: the directory to change to, or none,
/// which tells the host to use the home directory.  The host performs the
/// change and reports any failure.
pub fn cd(args: &Vec<String>) -> (r: Option<String>)
    ensures
        args@.len() > 0 ==> (r matches Some(d) && d@ == args@[0]@),
        args@.len() == 0 ==> r is None,
{
    if args.len() > 0 {
        Some(args[0].clone())
    } else {
        None
    }
}

// Set very versatile normally, this is just positional parameters for now
pub fn set(args: Vec<String>, shell: &mut Shell) -> (r: bool)
    ensures
        final(shell).positional == args,
        final(shell).vars == old(shell).vars,
        final(shell).aliases == old(shell).aliases,
        final(shell).spec_interactive() == old(shell).spec_interactive(),
        r == true,
{
    shell.set_pos(args);
    true
}

/// What dispatching a builtin asks of the caller: plain output to print,
/// a process exit, or a working-directory change only the host can make.
#[derive(Debug)]
pub enum BuiltinResult {
    Done(BuiltinOutput),
    Terminate(i32),
    Chdir(Option<String>),
}

/// The built-in dispatch boundary: runs the named builtin in the shell's
/// own process, mutating the shared state as it asks, and hands back what
/// is left for the host to do.
pub fn run_builtin(name: &String, args: Vec<String>, shell: &mut Shell) -> (r: BuiltinResult)
    requires
        old(shell).wf(),
        crate::executor::spec_is_builtin(name@),
    ensures
        final(shell).wf(),
        name@ == "set"@ ==> (r matches BuiltinResult::Done(o) && o.success && final(
            shell
        ).positional == args),
        name@ == "cd"@ && args@.len() > 0 ==> (r matches BuiltinResult::Chdir(d) && d matches Some(
            t,
        ) && t@ == args@[0]@ && *final(shell) == *old(shell)),
        name@ == "cd"@ && args@.len() == 0 ==> (r matches BuiltinResult::Chdir(d) && d is None
            && *final(shell) == *old(shell)),
        name@ == "exit"@ && args@.len() == 0 ==> (r matches BuiltinResult::Terminate(st) && st
            == 0),
        name@ == "exit"@ && args@.len() > 0 ==> match spec_parse_i32(args@[0]@) {
            Ok(n) => (r matches BuiltinResult::Terminate(st) && st == n),
            Err(e) => (r matches BuiltinResult::Done(o) && !o.success && o.out@.len() == 0
                && o.err@.len() == 1 && o.err@[0]@ == "rush: "@ + int_error_text(e) && *final(
                shell
            ) == *old(shell)),
        },
        name@ == "alias"@ ==> (r matches BuiltinResult::Done(o) && o.success == (o.err@.len()
            == 0) && final(shell).vars == old(shell).vars && final(shell).positional == old(
            shell,
        ).positional),
        name@ == "alias"@ && args@.len() == 0 ==> (r matches BuiltinResult::Done(o) && final(
            shell
        ).aliases == old(shell).aliases && o.err@.len() == 0 && o.out@.len() == old(
            shell,
        ).aliases.entries_seq().len() && (forall|i: int|
            0 <= i < o.out@.len() ==> (#[trigger] o.out@[i])@ == alias_line(
                old(shell).aliases.entries_seq()[i].0@,
                old(shell).aliases.entries_seq()[i].1,
            ))),
        name@ == "alias"@ && args@.len() > 0 ==> (r matches BuiltinResult::Done(o) && ({
            let fold = alias_fold(
                aliases_model(old(shell).aliases@),
                args@.map_values(|a: String| a@),
                0,
            );
            &&& aliases_model(final (shell).aliases@) == fold.0
            &&& o.out@.map_values(|s: String| s@) == fold.1
            &&& o.err@.map_values(|s: String| s@) == fold.2
        })),
        name@ == "unalias"@ ==> (r matches BuiltinResult::Done(o) && o.success == (o.err@.len()
            == 0) && o.out@.len() == 0),
        name@ == "unalias"@ && args@.len() == 0 ==> (r matches BuiltinResult::Done(o) && final(
            shell
        ).aliases@ == old(shell).aliases@ && !o.success && o.err@.len() == 1 && o.err@[0]@
            == "unalias: usage: unalias [-a] name [name ...]"@),
        name@ == "unalias"@ && args@.len() > 0 && args@[0]@ == "-a"@ ==> (r matches
            BuiltinResult::Done(o) && o.success && final(shell).aliases@ =~= Map::<
            Seq<char>,
            Option<Cmd>,
        >::empty()),
        name@ == "unalias"@ && args@.len() > 0 && args@[0]@ != "-a"@ ==> (r matches
            BuiltinResult::Done(o) && ({
            let names = args@.map_values(|a: String| a@);
            &&& final (shell).aliases@ =~= remove_fold(old(shell).aliases@, names, 0)
            &&& o.success == all_found(old(shell).aliases@, names, 0)
            &&& o.err@.map_values(|s: String| s@) == unalias_errs(old(shell).aliases@, names, 0)
        })),
{
    proof {
        broadcast use vstd::string::group_string_axioms;

        reveal_strlit("exit");
        reveal_strlit("cd");
        reveal_strlit("set");
        reveal_strlit("alias");
        reveal_strlit("unalias");
        assert("exit"@.len() == 4);
        assert("cd"@.len() == 2);
        assert("set"@.len() == 3);
        assert("alias"@.len() == 5);
        assert("unalias"@.len() == 7);
    }
    let n_exit = "exit".to_owned();
    let n_cd = "cd".to_owned();
    let n_set = "set".to_owned();
    let n_alias = "alias".to_owned();
    if *name == n_exit {
        match exit(&args) {
            ExitRequest::Terminate(st) => BuiltinResult::Terminate(st),
            ExitRequest::Fail(line) => {
                let mut err: Vec<String> = Vec::new();
                err.push(line);
                BuiltinResult::Done(BuiltinOutput { out: Vec::new(), err, success: false })
            },
        }
    } else if *name == n_cd {
        BuiltinResult::Chdir(cd(&args))
    } else if *name == n_set {
        let ok = set(args, shell);
        BuiltinResult::Done(BuiltinOutput { out: Vec::new(), err: Vec::new(), success: ok })
    } else if *name == n_alias {
        BuiltinResult::Done(alias(shell, args))
    } else {
        BuiltinResult::Done(unalias(&mut shell.aliases, args))
    }
}

} // verus!
