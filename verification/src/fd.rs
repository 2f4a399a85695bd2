use vstd::prelude::*;

verus! {

/// File descriptor - somewhat a misnomer: the ports one standard stream of
/// a command could be connected to.  `PipeOut`, `PipeIn` and `RawFile`
/// carry the number under which the session keeps the already-opened OS
/// handle; `FileName` and `FileNameAppend` name a file that has not been
/// opened yet.
#[derive(Debug, Clone)]
pub enum Fd {
    Stdin,
    Stdout,
    Stderr,
    Inherit,
    PipeOut(u64),
    PipeIn(u64),
    FileName(String),
    FileNameAppend(String),
    RawFile(u64),
}

#[verifier::ext_equal]
pub enum FdV {
    Stdin,
    Stdout,
    Stderr,
    Inherit,
    PipeOut(u64),
    PipeIn(u64),
    FileName(Seq<char>),
    FileNameAppend(Seq<char>),
    RawFile(u64),
}

impl View for Fd {
    type V = FdV;

    open spec fn view(&self) -> FdV {
        match self {
            Fd::Stdin => FdV::Stdin,
            Fd::Stdout => FdV::Stdout,
            Fd::Stderr => FdV::Stderr,
            Fd::Inherit => FdV::Inherit,
            Fd::PipeOut(h) => FdV::PipeOut(*h),
            Fd::PipeIn(h) => FdV::PipeIn(*h),
            Fd::FileName(n) => FdV::FileName(n@),
            Fd::FileNameAppend(n) => FdV::FileNameAppend(n@),
            Fd::RawFile(h) => FdV::RawFile(*h),
        }
    }
}

/// What the host must do to turn a descriptor into a spawn-ready stream:
/// open a named file one way or another, duplicate one of the session's
/// standard streams, duplicate a kept pipe end or opened handle, or let
/// the child inherit the parent's stream.
#[derive(Debug, Clone, PartialEq)]
pub enum FdAction {
    OpenRead(String),
    OpenCreate(String),
    OpenAppend(String),
    DupStdin,
    DupStdout,
    DupStderr,
    UseInherit,
    DupPipeOut(u64),
    DupPipeIn(u64),
    DupRaw(u64),
}

#[verifier::ext_equal]
pub enum FdActionV {
    OpenRead(Seq<char>),
    OpenCreate(Seq<char>),
    OpenAppend(Seq<char>),
    DupStdin,
    DupStdout,
    DupStderr,
    UseInherit,
    DupPipeOut(u64),
    DupPipeIn(u64),
    DupRaw(u64),
}

impl View for FdAction {
    type V = FdActionV;

    open spec fn view(&self) -> FdActionV {
        match self {
            FdAction::OpenRead(n) => FdActionV::OpenRead(n@),
            FdAction::OpenCreate(n) => FdActionV::OpenCreate(n@),
            FdAction::OpenAppend(n) => FdActionV::OpenAppend(n@),
            FdAction::DupStdin => FdActionV::DupStdin,
            FdAction::DupStdout => FdActionV::DupStdout,
            FdAction::DupStderr => FdActionV::DupStderr,
            FdAction::UseInherit => FdActionV::UseInherit,
            FdAction::DupPipeOut(h) => FdActionV::DupPipeOut(*h),
            FdAction::DupPipeIn(h) => FdActionV::DupPipeIn(*h),
            FdAction::DupRaw(h) => FdActionV::DupRaw(*h),
        }
    }
}

/// How a descriptor resolves when a command needs it for output (and for
/// error, which behaves the same): a named file is created or opened for
/// appending; everything already open is duplicated.
pub open spec fn spec_stdout_action(f: FdV) -> FdActionV {
    match f {
        FdV::Stdin => FdActionV::DupStdin,
        FdV::Stdout => FdActionV::DupStdout,
        FdV::Stderr => FdActionV::DupStderr,
        FdV::Inherit => FdActionV::UseInherit,
        FdV::PipeOut(h) => FdActionV::DupPipeOut(h),
        FdV::PipeIn(h) => FdActionV::DupPipeIn(h),
        FdV::FileName(n) => FdActionV::OpenCreate(n),
        FdV::FileNameAppend(n) => FdActionV::OpenAppend(n),
        FdV::RawFile(h) => FdActionV::DupRaw(h),
    }
}

/// How a descriptor resolves for input: the same as for output, except
/// that a named file is opened for reading, not created.
pub open spec fn spec_stdin_action(f: FdV) -> FdActionV {
    match f {
        FdV::FileName(n) => FdActionV::OpenRead(n),
        _ => spec_stdout_action(f),
    }
}

impl Fd {
    /// The tag of the variant, as the display name of what the stream is
    /// connected to.
    pub fn variant(&self) -> (r: &'static str)
        ensures
            r@ == spec_variant_name(self@),
    {
        match self {
            Fd::Stdin => "Stdin",
            Fd::Stdout => "Stdout",
            Fd::Stderr => "Stderr",
            Fd::Inherit => "Inherit",
            Fd::PipeOut(_) => "PipeOut",
            Fd::PipeIn(_) => "PipeIn",
            Fd::FileName(_) => "FileName",
            Fd::FileNameAppend(_) => "FileNameAppend",
            Fd::RawFile(_) => "RawFile",
        }
    }

    /// Gets an stdin - all the same as stdout, except that a named file is
    /// opened for reading, not created.
    pub fn get_stdin(&self) -> (r: FdAction)
        ensures
            r@ == spec_stdin_action(self@),
    {
        match self {
            Fd::FileName(n) => FdAction::OpenRead(n.clone()),
            _ => self.get_stdout(),
        }
    }

    /// All the ways this descriptor could be turned into a spawn-ready
    /// output stream.
    pub fn get_stdout(&self) -> (r: FdAction)
        ensures
            r@ == spec_stdout_action(self@),
    {
        match self {
            Fd::Stdin => FdAction::DupStdin,
            Fd::Stdout => FdAction::DupStdout,
            Fd::Stderr => FdAction::DupStderr,
            Fd::Inherit => FdAction::UseInherit,
            Fd::PipeOut(h) => FdAction::DupPipeOut(*h),
            Fd::PipeIn(h) => FdAction::DupPipeIn(*h),
            Fd::FileName(n) => FdAction::OpenCreate(n.clone()),
            Fd::FileNameAppend(n) => FdAction::OpenAppend(n.clone()),
            Fd::RawFile(h) => FdAction::DupRaw(*h),
        }
    }

    pub fn get_stderr(&self) -> (r: FdAction)
        ensures
            r@ == spec_stdout_action(self@),
    {
        self.get_stdout()
    }

    /// Records that the named file was opened and is now kept under
    /// `handle`: the first successful resolution of a file-name variant
    /// turns it, in place, into the already-opened variant.
    pub fn commit_open(&mut self, handle: u64)
        requires
            old(self)@ matches FdV::FileName(_) || old(self)@ matches FdV::FileNameAppend(_),
        ensures
            final(self)@ == FdV::RawFile(handle),
    {
        *self = Fd::RawFile(handle);
    }
}

/// Whether two descriptor values are of the same variant, whatever they
/// carry: the sense in which descriptors compare equal.
pub open spec fn same_variant(a: FdV, b: FdV) -> bool {
    match (a, b) {
        (FdV::Stdin, FdV::Stdin) => true,
        (FdV::Stdout, FdV::Stdout) => true,
        (FdV::Stderr, FdV::Stderr) => true,
        (FdV::Inherit, FdV::Inherit) => true,
        (FdV::PipeOut(_), FdV::PipeOut(_)) => true,
        (FdV::PipeIn(_), FdV::PipeIn(_)) => true,
        (FdV::FileName(_), FdV::FileName(_)) => true,
        (FdV::FileNameAppend(_), FdV::FileNameAppend(_)) => true,
        (FdV::RawFile(_), FdV::RawFile(_)) => true,
        _ => false,
    }
}

impl PartialEq for Fd {
    /// Descriptors compare by variant alone, as the display names do.
    fn eq(&self, other: &Self) -> (r: bool) {
        match (self, other) {
            (Fd::Stdin, Fd::Stdin) => true,
            (Fd::Stdout, Fd::Stdout) => true,
            (Fd::Stderr, Fd::Stderr) => true,
            (Fd::Inherit, Fd::Inherit) => true,
            (Fd::PipeOut(_), Fd::PipeOut(_)) => true,
            (Fd::PipeIn(_), Fd::PipeIn(_)) => true,
            (Fd::FileName(_), Fd::FileName(_)) => true,
            (Fd::FileNameAppend(_), Fd::FileNameAppend(_)) => true,
            (Fd::RawFile(_), Fd::RawFile(_)) => true,
            _ => false,
        }
    }
}

impl vstd::std_specs::cmp::PartialEqSpecImpl for Fd {
    open spec fn obeys_eq_spec() -> bool {
        true
    }

    open spec fn eq_spec(&self, other: &Fd) -> bool {
        same_variant(self@, other@)
    }
}

pub open spec fn spec_variant_name(f: FdV) -> Seq<char> {
    match f {
        FdV::Stdin => "Stdin"@,
        FdV::Stdout => "Stdout"@,
        FdV::Stderr => "Stderr"@,
        FdV::Inherit => "Inherit"@,
        FdV::PipeOut(_) => "PipeOut"@,
        FdV::PipeIn(_) => "PipeIn"@,
        FdV::FileName(_) => "FileName"@,
        FdV::FileNameAppend(_) => "FileNameAppend"@,
        FdV::RawFile(_) => "RawFile"@,
    }
}

/// Once a descriptor has been resolved once (and so committed to
/// `RawFile(h)`), every later resolution — for input, output or error —
/// asks only that the same handle `h` be duplicated: the file is not
/// opened again, and a write-truncate file is not truncated again.
pub proof fn lemma_second_resolve_reuses_handle(f: FdV, h: u64)
    requires
        f == FdV::RawFile(h),
    ensures
        spec_stdin_action(f) == FdActionV::DupRaw(h),
        spec_stdout_action(f) == FdActionV::DupRaw(h),
{
}

} // verus!
