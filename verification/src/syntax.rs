use vstd::prelude::*;

verus! {

/// What a redirection does with its target file: read, truncate-then-write,
/// or append.  Which descriptor it applies to is stored beside it.
#[derive(Debug, Clone, Copy, PartialEq, Eq, Structural)]
pub enum RedirKind {
    In,
    OutTrunc,
    OutAppend,
}

/// One explicit redirection of a simple command: descriptor `fd` is sent to
/// the file named by `target` (a raw word, expanded later).
#[derive(Debug, Clone, PartialEq)]
pub struct Redirect {
    pub fd: u32,
    pub kind: RedirKind,
    pub target: String,
}

#[verifier::ext_equal]
pub struct RedirectV {
    pub fd: u32,
    pub kind: RedirKind,
    pub target: Seq<char>,
}

impl View for Redirect {
    type V = RedirectV;

    open spec fn view(&self) -> RedirectV {
        RedirectV { fd: self.fd, kind: self.kind, target: self.target@ }
    }
}

/// One program or builtin invocation: leading `name=value` assignment
/// words, then argument words (the first is the program name), and the
/// explicit redirections in the order they were written.  All words are
/// raw text; quotes, escapes and variable markers are resolved when the
/// command is about to run.
#[derive(Debug, Clone, PartialEq)]
pub struct SimpleCmd {
    pub assignments: Vec<(String, String)>,
    pub words: Vec<String>,
    pub redirects: Vec<Redirect>,
}

#[verifier::ext_equal]
pub struct SimpleCmdV {
    pub assignments: Seq<(Seq<char>, Seq<char>)>,
    pub words: Seq<Seq<char>>,
    pub redirects: Seq<RedirectV>,
}

impl View for SimpleCmd {
    type V = SimpleCmdV;

    open spec fn view(&self) -> SimpleCmdV {
        SimpleCmdV {
            assignments: self.assignments@.map_values(|p: (String, String)| (p.0@, p.1@)),
            words: self.words@.map_values(|w: String| w@),
            redirects: self.redirects@.map_values(|r: Redirect| r@),
        }
    }
}

/// How a sequence element is joined to what ran before it: `;` always
/// runs, `&&` runs only after success, `||` only after failure.
#[derive(Debug, Clone, Copy, PartialEq, Eq, Structural)]
pub enum Connector {
    Semi,
    AndIf,
    OrIf,
}

/// One element of a sequence: a pipeline (one or more stages) and the
/// connector that joins it to the element before it.  The first element of
/// a sequence carries `Semi`.
#[derive(Debug, Clone, PartialEq)]
pub struct SeqItem {
    pub connector: Connector,
    pub stages: Vec<SimpleCmd>,
}

#[verifier::ext_equal]
pub struct SeqItemV {
    pub connector: Connector,
    pub stages: Seq<SimpleCmdV>,
}

impl View for SeqItem {
    type V = SeqItemV;

    open spec fn view(&self) -> SeqItemV {
        SeqItemV {
            connector: self.connector,
            stages: self.stages@.map_values(|s: SimpleCmd| s@),
        }
    }
}

/// One complete parsed command: a lone simple command, a pipeline of two or
/// more stages, or a sequence of pipelines joined by separators.
#[derive(Debug, Clone, PartialEq)]
pub enum Cmd {
    Simple(SimpleCmd),
    Pipeline(Vec<SimpleCmd>),
    Sequence(Vec<SeqItem>),
}

#[verifier::ext_equal]
pub enum CmdV {
    Simple(SimpleCmdV),
    Pipeline(Seq<SimpleCmdV>),
    Sequence(Seq<SeqItemV>),
}

impl View for Cmd {
    type V = CmdV;

    open spec fn view(&self) -> CmdV {
        match self {
            Cmd::Simple(s) => CmdV::Simple(s@),
            Cmd::Pipeline(v) => CmdV::Pipeline(v@.map_values(|s: SimpleCmd| s@)),
            Cmd::Sequence(v) => CmdV::Sequence(v@.map_values(|s: SeqItem| s@)),
        }
    }
}

/// Every command, whatever its variant, is a sequence of pipeline items;
/// this is the semantic reading that execution follows, and the sense in
/// which two trees are equivalent.
pub open spec fn cmd_items(c: CmdV) -> Seq<SeqItemV> {
    match c {
        CmdV::Simple(s) => seq![SeqItemV { connector: Connector::Semi, stages: seq![s] }],
        CmdV::Pipeline(stages) => seq![SeqItemV { connector: Connector::Semi, stages: stages }],
        CmdV::Sequence(items) => items,
    }
}

/// The canonical tree for a list of items: one lone stage is a `Simple`,
/// one item with several stages a `Pipeline`, anything else a `Sequence`.
pub open spec fn items_to_cmd(items: Seq<SeqItemV>) -> CmdV {
    if items.len() == 1 && items[0].connector == Connector::Semi {
        if items[0].stages.len() == 1 {
            CmdV::Simple(items[0].stages[0])
        } else {
            CmdV::Pipeline(items[0].stages)
        }
    } else {
        CmdV::Sequence(items)
    }
}

/// A simple command with no word, no assignment and no redirection: the
/// parser never returns one.
pub open spec fn is_empty_simple(s: SimpleCmdV) -> bool {
    s.assignments.len() == 0 && s.words.len() == 0 && s.redirects.len() == 0
}

} // verus!
