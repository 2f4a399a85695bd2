use vstd::prelude::*;

use crate::fd::{Fd, FdV};
use crate::state::StrMap;
use crate::syntax::{Cmd, Connector, Redirect, RedirectV, RedirKind, SimpleCmd};

verus! {

/// The nonzero status a stage reports when its program could not be
/// spawned at all (command not found or not runnable).
pub const SPAWN_FAILURE_STATUS: i32 = 127;

/// My own, less nasty version of a buffered reader's line iterator: the
/// host hands the wrapped source back one line at a time, keeping the
/// newline.  The wrapping itself holds no state beyond the source.
#[derive(Debug)]
pub struct Lines<B> {
    buf: B,
}

impl<B> Lines<B> {
    /// The wrapped source.
    pub closed spec fn buffer(self) -> B {
        self.buf
    }

    pub fn new(buf: B) -> (r: Lines<B>)
        ensures
            r.buffer() == buf,
    {
        Lines { buf }
    }

    /// Hands the source back out, for the host to read from.
    pub fn into_inner(self) -> (r: B)
        ensures
            r == self.buffer(),
    {
        self.buf
    }
}

/// The shared shell state: variables, aliases, positional parameters and
/// the interactivity flag.  It lives for the whole session and is only
/// ever touched from the single execution thread.
pub struct Shell {
    pub vars: StrMap<String>,
    pub aliases: StrMap<Option<Cmd>>,
    pub positional: Vec<String>,
    pub interactive: bool,
}

impl Shell {
    pub open spec fn spec_interactive(&self) -> bool {
        self.interactive
    }

    pub open spec fn wf(&self) -> bool {
        self.vars.wf() && self.aliases.wf()
    }

    pub fn new(interactive: bool) -> (r: Shell)
        ensures
            r.wf(),
            r.vars@ =~= Map::<Seq<char>, String>::empty(),
            r.aliases@ =~= Map::<Seq<char>, Option<Cmd>>::empty(),
            r.positional@ == Seq::<String>::empty(),
            r.spec_interactive() == interactive,
    {
        Shell {
            vars: StrMap::new(),
            aliases: StrMap::new(),
            positional: Vec::new(),
            interactive,
        }
    }

    pub fn is_interactive(&self) -> (r: bool)
        ensures
            r == self.spec_interactive(),
    {
        self.interactive
    }

    /// Replaces the positional parameters.
    pub fn set_pos(&mut self, args: Vec<String>)
        ensures
            final(self).positional == args,
            final(self).vars == old(self).vars,
            final(self).aliases == old(self).aliases,
            final(self).spec_interactive() == old(self).spec_interactive(),
    {
        self.positional = args;
    }
}

/// The last redirection for descriptor `fd` in a redirection list: later
/// redirections of the same descriptor override earlier ones.
pub open spec fn last_redirect(rs: Seq<RedirectV>, fd: u32) -> Option<RedirectV>
    decreases rs.len(),
{
    if rs.len() == 0 {
        None
    } else if rs.last().fd == fd {
        Some(rs.last())
    } else {
        last_redirect(rs.drop_last(), fd)
    }
}

/// The descriptor value a redirection stands for: a named file, opened
/// lazily for reading or creation when it is first resolved, or for
/// appending.
pub open spec fn redirect_fd(r: RedirectV) -> FdV {
    match r.kind {
        RedirKind::OutAppend => FdV::FileNameAppend(r.target),
        _ => FdV::FileName(r.target),
    }
}

/// Where stage `i` of a pipeline reads from: its own last explicit
/// redirection of descriptor 0 if it has one; otherwise the read end of
/// the pipe before it, or the inherited stream for the first stage.
pub open spec fn spec_stage_stdin(rs: Seq<RedirectV>, i: int) -> FdV {
    match last_redirect(rs, 0) {
        Some(r) => redirect_fd(r),
        None => if i > 0 {
            FdV::PipeIn((i - 1) as u64)
        } else {
            FdV::Inherit
        },
    }
}

/// Where stage `i` of `n` writes to: its own last explicit redirection of
/// descriptor 1 if it has one; otherwise the write end of the pipe after
/// it, or the inherited stream for the last stage.
pub open spec fn spec_stage_stdout(rs: Seq<RedirectV>, i: int, n: int) -> FdV {
    match last_redirect(rs, 1) {
        Some(r) => redirect_fd(r),
        None => if i < n - 1 {
            FdV::PipeOut(i as u64)
        } else {
            FdV::Inherit
        },
    }
}

/// Where a stage's error stream goes: its last explicit redirection of
/// descriptor 2, or the inherited stream.
pub open spec fn spec_stage_stderr(rs: Seq<RedirectV>) -> FdV {
    match last_redirect(rs, 2) {
        Some(r) => redirect_fd(r),
        None => FdV::Inherit,
    }
}

/// The three resolved stream connections of one pipeline stage.
#[derive(Debug, Clone)]
pub struct StageIo {
    pub stdin: Fd,
    pub stdout: Fd,
    pub stderr: Fd,
}

/// Finds the last redirection for descriptor `fd`, if any.
fn find_last_redirect(rs: &Vec<Redirect>, fd: u32) -> (r: Option<Redirect>)
    ensures
        match r {
            Some(rd) => last_redirect(rs@.map_values(|x: Redirect| x@), fd) == Some(rd@),
            None => last_redirect(rs@.map_values(|x: Redirect| x@), fd) == None::<RedirectV>,
        },
{
    let ghost rv = rs@.map_values(|x: Redirect| x@);
    let n = rs.len();
    let mut k: usize = n;
    proof {
        assert(rv.take(n as int) =~= rv);
    }
    loop
        invariant
            k <= n,
            n == rs@.len(),
            rv == rs@.map_values(|x: Redirect| x@),
            last_redirect(rv, fd) == last_redirect(rv.take(k as int), fd),
        decreases k,
    {
        if k == 0 {
            proof {
                assert(rv.take(0) =~= Seq::<RedirectV>::empty());
            }
            return None;
        }
        proof {
            assert(rv.take(k as int).drop_last() =~= rv.take(k - 1));
            assert(rv.take(k as int).last() == rv[k - 1]);
        }
        if rs[k - 1].fd == fd {
            return Some(dup_redirect(&rs[k - 1]));
        }
        k = k - 1;
    }
}

/// A field-for-field copy, with its meaning known.
fn dup_redirect(r: &Redirect) -> (r2: Redirect)
    ensures
        r2@ == r@,
{
    Redirect { fd: r.fd, kind: r.kind, target: r.target.clone() }
}

fn fd_of_redirect(r: &Redirect) -> (f: Fd)
    ensures
        f@ == redirect_fd(r@),
{
    match r.kind {
        RedirKind::OutAppend => Fd::FileNameAppend(r.target.clone()),
        _ => Fd::FileName(r.target.clone()),
    }
}

/// Establishes the pipe topology for a pipeline of `n` stages: `n - 1`
/// anonymous pipes, numbered left to right, with every stage's explicit
/// redirections taking precedence over the implicit pipe wiring.  The
/// caller creates the numbered pipes, resolves each stage's three
/// descriptors, spawns all stages, and only then waits on them, left to
/// right.
pub fn wire_pipeline(stages: &Vec<SimpleCmd>) -> (r: Vec<StageIo>)
    ensures
        r@.len() == stages@.len(),
        forall|i: int|
            0 <= i < r@.len() ==> {
                &&& (#[trigger] r@[i]).stdin@ == spec_stage_stdin(stages@[i]@.redirects, i)
                &&& r@[i].stdout@ == spec_stage_stdout(
                    stages@[i]@.redirects,
                    i,
                    stages@.len() as int,
                )
                &&& r@[i].stderr@ == spec_stage_stderr(stages@[i]@.redirects)
            },
{
    let n = stages.len();
    let mut out: Vec<StageIo> = Vec::new();
    let mut i: usize = 0;
    while i < n
        invariant
            i <= n,
            n == stages@.len(),
            out@.len() == i,
            forall|k: int|
                0 <= k < i ==> {
                    &&& (#[trigger] out@[k]).stdin@ == spec_stage_stdin(stages@[k]@.redirects, k)
                    &&& out@[k].stdout@ == spec_stage_stdout(stages@[k]@.redirects, k, n as int)
                    &&& out@[k].stderr@ == spec_stage_stderr(stages@[k]@.redirects)
                },
        decreases n - i,
    {
        let stage = &stages[i];
        proof {
            assert(stage@.redirects == stage.redirects@.map_values(|x: Redirect| x@));
        }
        let stdin = match find_last_redirect(&stage.redirects, 0) {
            Some(rd) => fd_of_redirect(&rd),
            None => if i > 0 {
                Fd::PipeIn((i - 1) as u64)
            } else {
                Fd::Inherit
            },
        };
        let stdout = match find_last_redirect(&stage.redirects, 1) {
            Some(rd) => fd_of_redirect(&rd),
            None => if i + 1 < n {
                Fd::PipeOut(i as u64)
            } else {
                Fd::Inherit
            },
        };
        let stderr = match find_last_redirect(&stage.redirects, 2) {
            Some(rd) => fd_of_redirect(&rd),
            None => Fd::Inherit,
        };
        out.push(StageIo { stdin, stdout, stderr });
        i = i + 1;
    }
    out
}

/// An explicit redirection on a pipeline stage always wins over the
/// implicit pipe wiring, and only an unredirected interior stage is wired
/// to a pipe: piping `a | b` where `b` redirects its input from a file
/// reads from the file, not from `a`.
pub proof fn lemma_redirect_beats_pipe(rs: Seq<RedirectV>, i: int, n: int)
    ensures
        last_redirect(rs, 0) matches Some(r) ==> spec_stage_stdin(rs, i) == redirect_fd(r),
        last_redirect(rs, 0) == None::<RedirectV> && i > 0 ==> spec_stage_stdin(rs, i)
            == FdV::PipeIn((i - 1) as u64),
        last_redirect(rs, 1) matches Some(r) ==> spec_stage_stdout(rs, i, n) == redirect_fd(r),
        last_redirect(rs, 1) == None::<RedirectV> && i < n - 1 ==> spec_stage_stdout(rs, i, n)
            == FdV::PipeOut(i as u64),
{
}

pub open spec fn spec_should_run(conn: Connector, prev_status: i32) -> bool {
    match conn {
        Connector::Semi => true,
        Connector::AndIf => prev_status == 0,
        Connector::OrIf => prev_status != 0,
    }
}

/// Whether the next element of a sequence runs, given how it is joined
/// and the status of what ran before: `;` always runs it, `&&` skips it
/// after failure, `||` skips it after success.
pub fn should_run(conn: Connector, prev_status: i32) -> (r: bool)
    ensures
        r == spec_should_run(conn, prev_status),
{
    match conn {
        Connector::Semi => true,
        Connector::AndIf => prev_status == 0,
        Connector::OrIf => prev_status != 0,
    }
}

/// A pipeline's status is the status of its last stage, whatever became
/// of the earlier ones.
pub fn pipeline_status(statuses: &Vec<i32>) -> (r: i32)
    requires
        statuses@.len() > 0,
    ensures
        r == statuses@.last(),
{
    statuses[statuses.len() - 1]
}

/// The status one stage contributes: its exit status if it ran, or the
/// spawn-failure status if its program could not be started.
pub fn stage_status(spawn_result: Option<i32>) -> (r: i32)
    ensures
        r == (match spawn_result {
            Some(st) => st,
            None => SPAWN_FAILURE_STATUS,
        }),
{
    match spawn_result {
        Some(st) => st,
        None => SPAWN_FAILURE_STATUS,
    }
}

pub open spec fn spec_is_builtin(name: Seq<char>) -> bool {
    ||| name == "cd"@
    ||| name == "exit"@
    ||| name == "set"@
    ||| name == "alias"@
    ||| name == "unalias"@
}

/// Whether a command name belongs to the fixed built-in set, which runs
/// in the shell's own process.
pub fn is_builtin(name: &String) -> (r: bool)
    ensures
        r == spec_is_builtin(name@),
{
    *name == "cd".to_owned() || *name == "exit".to_owned() || *name == "set".to_owned() || *name
        == "alias".to_owned() || *name == "unalias".to_owned()
}


/// The variables after a run of assignments, each binding its name to its
/// (already resolved) value, later assignments overriding earlier ones.
pub open spec fn vars_fold(
    m: Map<Seq<char>, String>,
    ps: Seq<(String, String)>,
    k: int,
) -> Map<Seq<char>, String>
    decreases ps.len() - k,
    when 0 <= k <= ps.len()
{
    if k >= ps.len() {
        m
    } else {
        vars_fold(m.insert(ps[k].0@, ps[k].1), ps, k + 1)
    }
}

/// An assignment-only command: its bindings become shell variables, in
/// order, and it succeeds with status zero.  The values are handed in
/// already expanded, as the command would see them.
pub fn apply_assignments(assignments: &Vec<(String, String)>, shell: &mut Shell) -> (r: i32)
    requires
        old(shell).wf(),
    ensures
        final(shell).wf(),
        final(shell).vars@ == vars_fold(old(shell).vars@, assignments@, 0),
        final(shell).aliases == old(shell).aliases,
        final(shell).positional == old(shell).positional,
        final(shell).spec_interactive() == old(shell).spec_interactive(),
        r == 0,
{
    let n = assignments.len();
    let mut i: usize = 0;
    while i < n
        invariant
            i <= n,
            n == assignments@.len(),
            shell.wf(),
            shell.aliases == old(shell).aliases,
            shell.positional == old(shell).positional,
            shell.spec_interactive() == old(shell).spec_interactive(),
            vars_fold(old(shell).vars@, assignments@, 0) == vars_fold(
                shell.vars@,
                assignments@,
                i as int,
            ),
        decreases n - i,
    {
        let name = assignments[i].0.clone();
        let value = assignments[i].1.clone();
        proof {
            assert(name@ == assignments@[i as int].0@);
            assert(value == assignments@[i as int].1);
        }
        shell.vars.insert(name, value);
        i = i + 1;
    }
    0
}

} // verus!
