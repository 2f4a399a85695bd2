use vstd::prelude::*;

use crate::state::StrMap;
use crate::syntax::{
    cmd_items, items_to_cmd, Cmd, CmdV, Connector, Redirect, SeqItem, SeqItemV, SimpleCmd,
    SimpleCmdV,
};

verus! {

pub open spec fn single_item(sc: SimpleCmdV) -> SeqItemV {
    SeqItemV { connector: Connector::Semi, stages: seq![sc] }
}

/// Splices a simple replacement into the command whose leading word was
/// the alias: the replacement's words come first, then the original's
/// remaining arguments; the original's assignments stay in front, and its
/// redirections come last, so they override the replacement's.
pub open spec fn splice_simple(repl: SimpleCmdV, sc: SimpleCmdV) -> SimpleCmdV
    recommends
        sc.words.len() >= 1,
{
    SimpleCmdV {
        assignments: sc.assignments + repl.assignments,
        words: repl.words + sc.words.subrange(1, sc.words.len() as int),
        redirects: repl.redirects + sc.redirects,
    }
}

/// Whether an alias binding takes part in expansion at all: the word is
/// bound, to a stored replacement (not a bound-but-empty alias).
pub open spec fn bound_replacement(
    amap: Map<Seq<char>, Option<Cmd>>,
    w: Seq<char>,
) -> Option<CmdV> {
    if amap.dom().contains(w) {
        match amap[w] {
            Some(c) => Some(c@),
            None => None,
        }
    } else {
        None
    }
}

/// Splices a multi-part replacement (a pipeline or sequence): the
/// original's assignments go to the first stage of the first element, and
/// its remaining arguments and redirections to the last stage of the last
/// element.
pub open spec fn splice_items(items: Seq<SeqItemV>, sc: SimpleCmdV) -> Seq<SeqItemV>
    recommends
        items.len() > 0,
        items[0].stages.len() > 0,
        items.last().stages.len() > 0,
{
    let first = items[0];
    let step1 = items.update(
        0,
        SeqItemV {
            stages: first.stages.update(
                0,
                SimpleCmdV {
                    assignments: sc.assignments + first.stages[0].assignments,
                    ..first.stages[0]
                },
            ),
            ..first
        },
    );
    let li = step1.len() - 1;
    let last = step1[li];
    let ls = last.stages.len() - 1;
    step1.update(
        li,
        SeqItemV {
            stages: last.stages.update(
                ls,
                SimpleCmdV {
                    words: last.stages[ls].words + sc.words.subrange(1, sc.words.len() as int),
                    redirects: last.stages[ls].redirects + sc.redirects,
                    ..last.stages[ls]
                },
            ),
            ..last
        },
    )
}

/// Expands the leading word of one simple command.  A chain of simple
/// replacements is followed, guarded by the set of names already being
/// expanded (so a self-referential alias stops) and by the fuel; a
/// pipeline or sequence replacement is spliced once and ends the chain.
pub open spec fn spec_expand_alias(
    sc: SimpleCmdV,
    amap: Map<Seq<char>, Option<Cmd>>,
    guard: Seq<Seq<char>>,
    fuel: nat,
) -> Seq<SeqItemV>
    decreases fuel,
{
    if sc.words.len() == 0 || fuel == 0 || guard.contains(sc.words[0]) {
        seq![single_item(sc)]
    } else {
        match bound_replacement(amap, sc.words[0]) {
            None => seq![single_item(sc)],
            Some(cv) => {
                let items = cmd_items(cv);
                if items.len() == 1 && items[0].stages.len() == 1 {
                    spec_expand_alias(
                        splice_simple(items[0].stages[0], sc),
                        amap,
                        guard.push(sc.words[0]),
                        (fuel - 1) as nat,
                    )
                } else if items.len() > 0 && items[0].stages.len() > 0
                    && items.last().stages.len() > 0 {
                    splice_items(items, sc)
                } else {
                    seq![single_item(sc)]
                }
            },
        }
    }
}

pub proof fn lemma_expand_alias_nonempty(
    sc: SimpleCmdV,
    amap: Map<Seq<char>, Option<Cmd>>,
    guard: Seq<Seq<char>>,
    fuel: nat,
)
    ensures
        spec_expand_alias(sc, amap, guard, fuel).len() > 0,
    decreases fuel,
{
    if !(sc.words.len() == 0 || fuel == 0 || guard.contains(sc.words[0])) {
        match bound_replacement(amap, sc.words[0]) {
            None => {},
            Some(cv) => {
                let items = cmd_items(cv);
                if items.len() == 1 && items[0].stages.len() == 1 {
                    lemma_expand_alias_nonempty(
                        splice_simple(items[0].stages[0], sc),
                        amap,
                        guard.push(sc.words[0]),
                        (fuel - 1) as nat,
                    );
                }
            },
        }
    }
}

fn dup_string_vec(v: &Vec<String>) -> (r: Vec<String>)
    ensures
        r@.map_values(|s: String| s@) == v@.map_values(|s: String| s@),
        r@.len() == v@.len(),
{
    let mut out: Vec<String> = Vec::new();
    let n = v.len();
    let mut i: usize = 0;
    while i < n
        invariant
            i <= n,
            n == v@.len(),
            out@.len() == i,
            forall|k: int| 0 <= k < i ==> (#[trigger] out@[k])@ == v@[k]@,
        decreases n - i,
    {
        out.push(v[i].clone());
        i = i + 1;
    }
    proof {
        assert(out@.map_values(|s: String| s@) =~= v@.map_values(|s: String| s@));
    }
    out
}

fn dup_pair_vec(v: &Vec<(String, String)>) -> (r: Vec<(String, String)>)
    ensures
        r@.map_values(|p: (String, String)| (p.0@, p.1@)) == v@.map_values(
            |p: (String, String)| (p.0@, p.1@),
        ),
{
    let mut out: Vec<(String, String)> = Vec::new();
    let n = v.len();
    let mut i: usize = 0;
    while i < n
        invariant
            i <= n,
            n == v@.len(),
            out@.len() == i,
            forall|k: int|
                0 <= k < i ==> ((#[trigger] out@[k]).0@, out@[k].1@) == (v@[k].0@, v@[k].1@),
        decreases n - i,
    {
        out.push((v[i].0.clone(), v[i].1.clone()));
        i = i + 1;
    }
    proof {
        assert(out@.map_values(|p: (String, String)| (p.0@, p.1@)) =~= v@.map_values(
            |p: (String, String)| (p.0@, p.1@),
        ));
    }
    out
}

fn dup_redirect_vec(v: &Vec<Redirect>) -> (r: Vec<Redirect>)
    ensures
        r@.map_values(|x: Redirect| x@) == v@.map_values(|x: Redirect| x@),
{
    let mut out: Vec<Redirect> = Vec::new();
    let n = v.len();
    let mut i: usize = 0;
    while i < n
        invariant
            i <= n,
            n == v@.len(),
            out@.len() == i,
            forall|k: int| 0 <= k < i ==> (#[trigger] out@[k])@ == v@[k]@,
        decreases n - i,
    {
        let rd = &v[i];
        out.push(Redirect { fd: rd.fd, kind: rd.kind, target: rd.target.clone() });
        i = i + 1;
    }
    proof {
        assert(out@.map_values(|x: Redirect| x@) =~= v@.map_values(|x: Redirect| x@));
    }
    out
}

/// A structural copy of a simple command whose meaning is known to be the
/// same (a derived clone says nothing).
pub fn dup_simple(sc: &SimpleCmd) -> (r: SimpleCmd)
    ensures
        r@ == sc@,
{
    let r = SimpleCmd {
        assignments: dup_pair_vec(&sc.assignments),
        words: dup_string_vec(&sc.words),
        redirects: dup_redirect_vec(&sc.redirects),
    };
    proof {
        assert(r@ =~= sc@);
    }
    r
}

fn dup_simple_vec(v: &Vec<SimpleCmd>) -> (r: Vec<SimpleCmd>)
    ensures
        r@.map_values(|s: SimpleCmd| s@) == v@.map_values(|s: SimpleCmd| s@),
{
    let mut out: Vec<SimpleCmd> = Vec::new();
    let n = v.len();
    let mut i: usize = 0;
    while i < n
        invariant
            i <= n,
            n == v@.len(),
            out@.len() == i,
            forall|k: int| 0 <= k < i ==> (#[trigger] out@[k])@ == v@[k]@,
        decreases n - i,
    {
        out.push(dup_simple(&v[i]));
        i = i + 1;
    }
    proof {
        assert(out@.map_values(|s: SimpleCmd| s@) =~= v@.map_values(|s: SimpleCmd| s@));
    }
    out
}

fn guard_contains(guard: &Vec<String>, w: &String) -> (r: bool)
    ensures
        r == guard@.map_values(|s: String| s@).contains(w@),
{
    let n = guard.len();
    let mut i: usize = 0;
    while i < n
        invariant
            i <= n,
            n == guard@.len(),
            forall|k: int| 0 <= k < i ==> (#[trigger] guard@[k])@ != w@,
        decreases n - i,
    {
        if guard[i] == *w {
            proof {
                assert(guard@.map_values(|s: String| s@)[i as int] == w@);
            }
            return true;
        }
        i = i + 1;
    }
    proof {
        let gv = guard@.map_values(|s: String| s@);
        assert(forall|k: int| 0 <= k < gv.len() ==> #[trigger] gv[k] != w@);
        assert(!gv.contains(w@));
    }
    false
}

/// Expands the leading word of one simple command against the alias
/// table, returning the sequence elements it becomes.
pub fn expand_alias(
    sc: SimpleCmd,
    aliases: &StrMap<Option<Cmd>>,
    guard: Vec<String>,
    fuel: usize,
) -> (r: Vec<SeqItem>)
    ensures
        r@.map_values(|s: SeqItem| s@) == spec_expand_alias(
            sc@,
            aliases@,
            guard@.map_values(|s: String| s@),
            fuel as nat,
        ),
    decreases fuel,
{
    let ghost scv = sc@;
    let ghost guardv = guard@.map_values(|s: String| s@);
    if sc.words.len() == 0 || fuel == 0 || guard_contains(&guard, &sc.words[0]) {
        return single_item_x(sc);
    }
    let w0 = sc.words[0].clone();
    let repl: Option<Cmd> = match aliases.get(&w0) {
        Some(binding) => match binding {
            Some(c) => Some(dup_cmd(c)),
            None => None,
        },
        None => None,
    };
    match repl {
        None => single_item_x(sc),
        Some(c) => {
            let ghost cv = c@;
            let mut items: Vec<SeqItem> = cmd_items_x(c);
            proof {
                assert(items@.map_values(|s: SeqItem| s@) == cmd_items(cv));
            }
            let n_items = items.len();
            let single = n_items == 1 && items[0].stages.len() == 1;
            if single {
                let mut item0 = match items.pop() {
                    Some(it) => it,
                    None => {
                        proof {
                            assert(false);
                        }
                        return single_item_x(sc);
                    },
                };
                let repl_sc = match item0.stages.pop() {
                    Some(s) => s,
                    None => {
                        proof {
                            assert(false);
                        }
                        return single_item_x(sc);
                    },
                };
                proof {
                    assert(cmd_items(cv)[0].stages[0] == repl_sc@);
                }
                let spliced = splice_simple_x(repl_sc, sc);
                let mut guard2 = guard;
                guard2.push(w0);
                proof {
                    assert(guard2@.map_values(|s: String| s@) =~= guardv.push(scv.words[0]));
                }
                expand_alias(spliced, aliases, guard2, fuel - 1)
            } else {
                let ok = n_items > 0 && items[0].stages.len() > 0 && items[n_items
                    - 1].stages.len() > 0;
                if ok {
                    splice_items_x(items, sc)
                } else {
                    single_item_x(sc)
                }
            }
        },
    }
}

fn single_item_x(sc: SimpleCmd) -> (r: Vec<SeqItem>)
    ensures
        r@.map_values(|s: SeqItem| s@) == seq![single_item(sc@)],
{
    let ghost scv = sc@;
    let mut stages: Vec<SimpleCmd> = Vec::new();
    stages.push(sc);
    let mut out: Vec<SeqItem> = Vec::new();
    out.push(SeqItem { connector: Connector::Semi, stages });
    proof {
        assert(out@[0]@.stages =~= seq![scv]);
        assert(out@[0]@ =~= single_item(scv));
        assert(out@.map_values(|s: SeqItem| s@) =~= seq![single_item(scv)]);
    }
    out
}

/// The sequence elements of a command tree, whatever its variant.
pub fn cmd_items_x(c: Cmd) -> (r: Vec<SeqItem>)
    ensures
        r@.map_values(|s: SeqItem| s@) == cmd_items(c@),
{
    let ghost cv = c@;
    match c {
        Cmd::Simple(sc) => {
            let ghost scv = sc@;
            let mut stages: Vec<SimpleCmd> = Vec::new();
            stages.push(sc);
            let mut out: Vec<SeqItem> = Vec::new();
            out.push(SeqItem { connector: Connector::Semi, stages });
            proof {
                assert(out@[0]@.stages =~= seq![scv]);
                assert(out@[0]@ =~= cmd_items(cv)[0]);
                assert(out@.map_values(|s: SeqItem| s@) =~= cmd_items(cv));
            }
            out
        },
        Cmd::Pipeline(stages) => {
            let ghost stv = stages@.map_values(|s: SimpleCmd| s@);
            let mut out: Vec<SeqItem> = Vec::new();
            out.push(SeqItem { connector: Connector::Semi, stages });
            proof {
                assert(out@[0]@ =~= cmd_items(cv)[0]);
                assert(out@.map_values(|s: SeqItem| s@) =~= cmd_items(cv));
            }
            out
        },
        Cmd::Sequence(items) => {
            proof {
                assert(items@.map_values(|s: SeqItem| s@) == cmd_items(cv));
            }
            items
        },
    }
}

/// A structural copy of a whole command tree with the same meaning.
pub fn dup_cmd(c: &Cmd) -> (r: Cmd)
    ensures
        r@ == c@,
{
    match c {
        Cmd::Simple(sc) => Cmd::Simple(dup_simple(sc)),
        Cmd::Pipeline(stages) => {
            let r = Cmd::Pipeline(dup_simple_vec(stages));
            proof {
                assert(r@ =~= c@);
            }
            r
        },
        Cmd::Sequence(items) => {
            let mut out: Vec<SeqItem> = Vec::new();
            let n = items.len();
            let mut i: usize = 0;
            while i < n
                invariant
                    i <= n,
                    n == items@.len(),
                    out@.len() == i,
                    forall|k: int| 0 <= k < i ==> (#[trigger] out@[k])@ == items@[k]@,
                decreases n - i,
            {
                let it = &items[i];
                let r2 = SeqItem { connector: it.connector, stages: dup_simple_vec(&it.stages) };
                proof {
                    assert(r2@ =~= items@[i as int]@);
                }
                out.push(r2);
                i = i + 1;
            }
            let r = Cmd::Sequence(out);
            proof {
                assert(out@.map_values(|s: SeqItem| s@) =~= items@.map_values(|s: SeqItem| s@));
                assert(r@ =~= c@);
            }
            r
        },
    }
}

fn splice_simple_x(repl: SimpleCmd, sc: SimpleCmd) -> (r: SimpleCmd)
    requires
        sc.words@.len() >= 1,
    ensures
        r@ == splice_simple(repl@, sc@),
{
    let ghost rv = repl@;
    let ghost scv = sc@;
    let mut assignments = dup_pair_vec(&sc.assignments);
    let mut more_asg = repl.assignments;
    assignments.append(&mut more_asg);
    let mut words = repl.words;
    let nw = sc.words.len();
    let mut i: usize = 1;
    let ghost rw = words@.map_values(|s: String| s@);
    proof {
        assert(words@.map_values(|s: String| s@) =~= rw + scv.words.subrange(1, 1));
    }
    while i < nw
        invariant
            1 <= i <= nw,
            nw == sc.words@.len(),
            scv == sc@,
            rw == rv.words,
            words@.map_values(|s: String| s@) == rw + scv.words.subrange(1, i as int),
        decreases nw - i,
    {
        let ghost wv0 = words@.map_values(|s: String| s@);
        words.push(sc.words[i].clone());
        proof {
            assert(words@.map_values(|s: String| s@) =~= wv0.push(scv.words[i as int]));
            assert(wv0.push(scv.words[i as int]) =~= rw + scv.words.subrange(1, i + 1));
        }
        i = i + 1;
    }
    let mut redirects = repl.redirects;
    let mut more_rd = dup_redirect_vec(&sc.redirects);
    redirects.append(&mut more_rd);
    let r = SimpleCmd { assignments, words, redirects };
    proof {
        assert(r@.assignments =~= scv.assignments + rv.assignments);
        assert(r@.words =~= rv.words + scv.words.subrange(1, scv.words.len() as int));
        assert(r@.redirects =~= rv.redirects + scv.redirects);
        assert(r@ =~= splice_simple(rv, scv));
    }
    r
}

fn splice_items_x(items: Vec<SeqItem>, sc: SimpleCmd) -> (r: Vec<SeqItem>)
    requires
        sc.words@.len() >= 1,
        items@.len() > 0,
        items@[0].stages@.len() > 0,
        items@[items@.len() - 1].stages@.len() > 0,
    ensures
        r@.map_values(|s: SeqItem| s@) == splice_items(
            items@.map_values(|s: SeqItem| s@),
            sc@,
        ),
{
    let ghost iv = items@.map_values(|s: SeqItem| s@);
    let ghost scv = sc@;
    let mut items = items;
    // front: put the original's assignments before the first stage's own
    let mut first = items.remove(0);
    let ghost firstv = first@;
    let mut s0 = first.stages.remove(0);
    let ghost s0v = s0@;
    let mut asg = dup_pair_vec(&sc.assignments);
    let mut own = s0.assignments;
    asg.append(&mut own);
    s0.assignments = asg;
    proof {
        assert(s0@ =~= SimpleCmdV { assignments: scv.assignments + s0v.assignments, ..s0v });
    }
    first.stages.insert(0, s0);
    proof {
        assert(first.stages@.map_values(|s: SimpleCmd| s@) =~= firstv.stages.update(
            0,
            SimpleCmdV { assignments: scv.assignments + firstv.stages[0].assignments, ..firstv.stages[0] },
        ));
    }
    items.insert(0, first);
    let ghost step1 = iv.update(
        0,
        SeqItemV {
            stages: iv[0].stages.update(
                0,
                SimpleCmdV { assignments: scv.assignments + iv[0].stages[0].assignments, ..iv[0].stages[0] },
            ),
            ..iv[0]
        },
    );
    proof {
        assert(items@.map_values(|s: SeqItem| s@) =~= step1);
    }
    // back: append the remaining words and redirections to the last stage
    let li = items.len() - 1;
    let mut last = items.remove(li);
    let ghost lastv = last@;
    let ls = last.stages.len() - 1;
    let mut sl = last.stages.remove(ls);
    let ghost slv = sl@;
    let mut words = sl.words;
    let nw = sc.words.len();
    let mut i: usize = 1;
    let ghost lw = slv.words;
    proof {
        assert(words@.map_values(|s: String| s@) =~= lw + scv.words.subrange(1, 1));
    }
    while i < nw
        invariant
            1 <= i <= nw,
            nw == sc.words@.len(),
            scv == sc@,
            lw == slv.words,
            words@.map_values(|s: String| s@) == lw + scv.words.subrange(1, i as int),
        decreases nw - i,
    {
        let ghost wv0 = words@.map_values(|s: String| s@);
        words.push(sc.words[i].clone());
        proof {
            assert(words@.map_values(|s: String| s@) =~= wv0.push(scv.words[i as int]));
            assert(wv0.push(scv.words[i as int]) =~= lw + scv.words.subrange(1, i + 1));
        }
        i = i + 1;
    }
    sl.words = words;
    let mut redirects = sl.redirects;
    let mut more_rd = dup_redirect_vec(&sc.redirects);
    redirects.append(&mut more_rd);
    sl.redirects = redirects;
    proof {
        assert(sl@ =~= SimpleCmdV {
            words: slv.words + scv.words.subrange(1, scv.words.len() as int),
            redirects: slv.redirects + scv.redirects,
            ..slv
        });
    }
    last.stages.insert(ls, sl);
    proof {
        assert(last.stages@.map_values(|s: SimpleCmd| s@) =~= lastv.stages.update(
            ls as int,
            SimpleCmdV {
                words: lastv.stages[ls as int].words + scv.words.subrange(1, scv.words.len() as int),
                redirects: lastv.stages[ls as int].redirects + scv.redirects,
                ..lastv.stages[ls as int]
            },
        ));
    }
    items.insert(li, last);
    proof {
        assert(items@.map_values(|s: SeqItem| s@) =~= splice_items(iv, scv));
    }
    items
}


/// Chain-only expansion for a stage inside a multi-stage pipeline: a
/// replacement that is itself a pipeline or sequence cannot be spliced
/// into one stage, so it leaves the stage unchanged.
pub open spec fn spec_expand_stage_simple(
    sc: SimpleCmdV,
    amap: Map<Seq<char>, Option<Cmd>>,
    guard: Seq<Seq<char>>,
    fuel: nat,
) -> SimpleCmdV
    decreases fuel,
{
    if sc.words.len() == 0 || fuel == 0 || guard.contains(sc.words[0]) {
        sc
    } else {
        match bound_replacement(amap, sc.words[0]) {
            None => sc,
            Some(cv) => {
                let items = cmd_items(cv);
                if items.len() == 1 && items[0].stages.len() == 1 {
                    spec_expand_stage_simple(
                        splice_simple(items[0].stages[0], sc),
                        amap,
                        guard.push(sc.words[0]),
                        (fuel - 1) as nat,
                    )
                } else {
                    sc
                }
            },
        }
    }
}

fn expand_stage_simple(
    sc: SimpleCmd,
    aliases: &StrMap<Option<Cmd>>,
    guard: Vec<String>,
    fuel: usize,
) -> (r: SimpleCmd)
    ensures
        r@ == spec_expand_stage_simple(
            sc@,
            aliases@,
            guard@.map_values(|s: String| s@),
            fuel as nat,
        ),
    decreases fuel,
{
    let ghost scv = sc@;
    let ghost guardv = guard@.map_values(|s: String| s@);
    if sc.words.len() == 0 || fuel == 0 || guard_contains(&guard, &sc.words[0]) {
        return sc;
    }
    let w0 = sc.words[0].clone();
    let repl: Option<Cmd> = match aliases.get(&w0) {
        Some(binding) => match binding {
            Some(c) => Some(dup_cmd(c)),
            None => None,
        },
        None => None,
    };
    match repl {
        None => sc,
        Some(c) => {
            let ghost cv = c@;
            let mut items: Vec<SeqItem> = cmd_items_x(c);
            let n_items = items.len();
            let single = n_items == 1 && items[0].stages.len() == 1;
            if single {
                let mut item0 = match items.pop() {
                    Some(it) => it,
                    None => {
                        proof {
                            assert(false);
                        }
                        return sc;
                    },
                };
                let repl_sc = match item0.stages.pop() {
                    Some(s) => s,
                    None => {
                        proof {
                            assert(false);
                        }
                        return sc;
                    },
                };
                proof {
                    assert(cmd_items(cv)[0].stages[0] == repl_sc@);
                }
                let spliced = splice_simple_x(repl_sc, sc);
                let mut guard2 = guard;
                guard2.push(w0);
                proof {
                    assert(guard2@.map_values(|s: String| s@) =~= guardv.push(scv.words[0]));
                }
                expand_stage_simple(spliced, aliases, guard2, fuel - 1)
            } else {
                sc
            }
        },
    }
}

/// Alias expansion of one sequence element: a lone stage may expand into
/// several elements (keeping the element's own connector on the first);
/// the stages of a longer pipeline expand one by one, chains of simple
/// replacements only.
pub open spec fn spec_expand_item(
    item: SeqItemV,
    amap: Map<Seq<char>, Option<Cmd>>,
    fuel: nat,
) -> Seq<SeqItemV> {
    if item.stages.len() == 1 {
        let r = spec_expand_alias(item.stages[0], amap, Seq::empty(), fuel);
        r.update(0, SeqItemV { connector: item.connector, stages: r[0].stages })
    } else {
        seq![
            SeqItemV {
                connector: item.connector,
                stages: Seq::new(
                    item.stages.len(),
                    |i: int| spec_expand_stage_simple(item.stages[i], amap, Seq::empty(), fuel),
                ),
            },
        ]
    }
}

fn expand_item(item: SeqItem, aliases: &StrMap<Option<Cmd>>, fuel: usize) -> (r: Vec<SeqItem>)
    ensures
        r@.map_values(|s: SeqItem| s@) == spec_expand_item(item@, aliases@, fuel as nat),
        r@.len() > 0,
{
    let ghost itemv = item@;
    let mut item = item;
    if item.stages.len() == 1 {
        let sc = match item.stages.pop() {
            Some(s) => s,
            None => {
                proof {
                    assert(false);
                }
                return Vec::new();
            },
        };
        proof {
            assert(itemv.stages[0] == sc@);
        }
        let g: Vec<String> = Vec::new();
        proof {
            assert(g@.map_values(|s: String| s@) =~= Seq::<Seq<char>>::empty());
            lemma_expand_alias_nonempty(itemv.stages[0], aliases@, Seq::empty(), fuel as nat);
        }
        let mut r = expand_alias(sc, aliases, g, fuel);
        let mut first = match r.remove(0) {
            it => it,
        };
        let fixed = SeqItem { connector: item.connector, stages: first.stages };
        r.insert(0, fixed);
        proof {
            let spec_r = spec_expand_alias(itemv.stages[0], aliases@, Seq::empty(), fuel as nat);
            assert(r@.map_values(|s: SeqItem| s@) =~= spec_r.update(
                0,
                SeqItemV { connector: itemv.connector, stages: spec_r[0].stages },
            ));
        }
        r
    } else {
        let ghost amap = aliases@;
        let n = item.stages.len();
        let mut stages2: Vec<SimpleCmd> = Vec::new();
        let mut stages = item.stages;
        let ghost stv = stages@.map_values(|s: SimpleCmd| s@);
        let mut i: usize = 0;
        while i < n
            invariant
                i <= n,
                n == stv.len(),
                amap == aliases@,
                stages@.len() == n - i,
                stages@.map_values(|s: SimpleCmd| s@) =~= stv.subrange(i as int, n as int),
                stages2@.len() == i,
                forall|k: int|
                    0 <= k < i ==> (#[trigger] stages2@[k])@ == spec_expand_stage_simple(
                        stv[k],
                        amap,
                        Seq::empty(),
                        fuel as nat,
                    ),
            decreases n - i,
        {
            let ghost pre = stages@;
            let sc = stages.remove(0);
            let ghost scv2 = sc@;
            let g: Vec<String> = Vec::new();
            let ghost gv = g@.map_values(|s: String| s@);
            proof {
                assert(pre.map_values(|s: SimpleCmd| s@)[0] == pre[0]@);
                assert(pre.map_values(|s: SimpleCmd| s@)[0] == stv.subrange(i as int, n as int)[0]);
                assert(sc@ == stv[i as int]);
                assert(forall|k: int|
                    0 <= k < stages@.len() ==> (#[trigger] stages@[k]) == pre[k + 1]);
                assert(stages@.map_values(|s: SimpleCmd| s@) =~= stv.subrange(i + 1, n as int))
                    by {
                    let m1 = stages@.map_values(|s: SimpleCmd| s@);
                    let m0 = pre.map_values(|s: SimpleCmd| s@);
                    assert(forall|k: int| 0 <= k < m1.len() ==> #[trigger] m1[k] == m0[k + 1]);
                    assert(forall|k: int|
                        0 <= k < m1.len() ==> #[trigger] m0[k + 1] == stv.subrange(
                            i as int,
                            n as int,
                        )[k + 1]);
                };
                assert(g@.map_values(|s: String| s@) =~= Seq::<Seq<char>>::empty());
            }
            let e = expand_stage_simple(sc, aliases, g, fuel);
            stages2.push(e);
            proof {
                assert(e@ == spec_expand_stage_simple(scv2, amap, gv, fuel as nat));
                assert(gv =~= Seq::<Seq<char>>::empty());
                assert(scv2 == stv[i as int]);
                assert(stages2@[i as int]@ == spec_expand_stage_simple(
                    stv[i as int],
                    amap,
                    Seq::<Seq<char>>::empty(),
                    fuel as nat,
                ));
            }
            i = i + 1;
        }
        let it2 = SeqItem { connector: item.connector, stages: stages2 };
        let mut out: Vec<SeqItem> = Vec::new();
        out.push(it2);
        proof {
            assert(out@[0]@.stages =~= Seq::new(
                itemv.stages.len(),
                |i: int| spec_expand_stage_simple(itemv.stages[i], amap, Seq::empty(), fuel as nat),
            ));
            assert(out@[0]@ =~= spec_expand_item(itemv, amap, fuel as nat)[0]);
            assert(out@.map_values(|s: SeqItem| s@) =~= spec_expand_item(
                itemv,
                amap,
                fuel as nat,
            ));
        }
        out
    }
}

/// The sequence elements a whole tree expands to, element by element.
pub open spec fn spec_expand_items(
    items: Seq<SeqItemV>,
    amap: Map<Seq<char>, Option<Cmd>>,
    fuel: nat,
    k: int,
) -> Seq<SeqItemV>
    decreases items.len() - k,
    when 0 <= k <= items.len()
{
    if k >= items.len() {
        Seq::empty()
    } else {
        spec_expand_item(items[k], amap, fuel) + spec_expand_items(items, amap, fuel, k + 1)
    }
}

/// What a whole command becomes under alias expansion.
pub open spec fn spec_expand_cmd(c: CmdV, amap: Map<Seq<char>, Option<Cmd>>, fuel: nat) -> CmdV {
    items_to_cmd(spec_expand_items(cmd_items(c), amap, fuel, 0))
}

fn items_to_cmd_x(items: Vec<SeqItem>) -> (r: Cmd)
    ensures
        r@ == items_to_cmd(items@.map_values(|s: SeqItem| s@)),
{
    let ghost allv = items@.map_values(|s: SeqItem| s@);
    let mut items = items;
    if items.len() == 1 && matches!(items[0].connector, Connector::Semi) {
        let mut item = match items.pop() {
            Some(it) => it,
            None => {
                proof {
                    assert(false);
                }
                return Cmd::Sequence(items);
            },
        };
        let ghost itemv = item@;
        proof {
            assert(allv[0] == itemv);
        }
        if item.stages.len() == 1 {
            let sc = match item.stages.pop() {
                Some(sc) => sc,
                None => {
                    proof {
                        assert(false);
                    }
                    return Cmd::Sequence(items);
                },
            };
            proof {
                assert(itemv.stages[0] == sc@);
            }
            Cmd::Simple(sc)
        } else {
            Cmd::Pipeline(item.stages)
        }
    } else {
        Cmd::Sequence(items)
    }
}

/// Substitutes aliases throughout one parsed command, as if the bound
/// replacement text had been typed in place of each leading word.  The
/// fuel bounds how long a chain of alias-to-alias replacements is
/// followed; the alias count plus one lets every distinct alias take its
/// turn while a self-reference is stopped by the guard.
pub fn expand_cmd(c: Cmd, aliases: &StrMap<Option<Cmd>>, fuel: usize) -> (r: Cmd)
    ensures
        r@ == spec_expand_cmd(c@, aliases@, fuel as nat),
{
    let ghost cv = c@;
    let ghost amap = aliases@;
    let items = cmd_items_x(c);
    let ghost iv = items@.map_values(|s: SeqItem| s@);
    let n = items.len();
    let mut out: Vec<SeqItem> = Vec::new();
    let mut items = items;
    let mut i: usize = 0;
    while i < n
        invariant
            i <= n,
            n == iv.len(),
            amap == aliases@,
            items@.len() == n - i,
            items@.map_values(|s: SeqItem| s@) =~= iv.subrange(i as int, n as int),
            out@.map_values(|s: SeqItem| s@) + spec_expand_items(iv, amap, fuel as nat, i as int)
                =~= spec_expand_items(iv, amap, fuel as nat, 0),
        decreases n - i,
    {
        let ghost pre = items@;
        let it = items.remove(0);
        proof {
            assert(pre.map_values(|s: SeqItem| s@)[0] == pre[0]@);
            assert(pre.map_values(|s: SeqItem| s@)[0] == iv.subrange(i as int, n as int)[0]);
            assert(it@ == iv[i as int]);
            assert(forall|k: int| 0 <= k < items@.len() ==> (#[trigger] items@[k]) == pre[k + 1]);
            assert(items@.map_values(|s: SeqItem| s@) =~= iv.subrange(i + 1, n as int)) by {
                let m1 = items@.map_values(|s: SeqItem| s@);
                let m0 = pre.map_values(|s: SeqItem| s@);
                assert(forall|k: int| 0 <= k < m1.len() ==> #[trigger] m1[k] == m0[k + 1]);
                assert(forall|k: int|
                    0 <= k < m1.len() ==> #[trigger] m0[k + 1] == iv.subrange(
                        i as int,
                        n as int,
                    )[k + 1]);
            };
        }
        let ghost out0 = out@.map_values(|s: SeqItem| s@);
        let mut expanded = expand_item(it, aliases, fuel);
        let ghost ev = expanded@.map_values(|s: SeqItem| s@);
        out.append(&mut expanded);
        proof {
            assert(out@.map_values(|s: SeqItem| s@) =~= out0 + ev);
            assert((out0 + ev) + spec_expand_items(iv, amap, fuel as nat, i + 1) =~= out0 + (ev
                + spec_expand_items(iv, amap, fuel as nat, i + 1)));
        }
        i = i + 1;
    }
    proof {
        assert(spec_expand_items(iv, amap, fuel as nat, n as int) =~= Seq::<SeqItemV>::empty());
        assert(out@.map_values(|s: SeqItem| s@) + Seq::<SeqItemV>::empty() =~= out@.map_values(
            |s: SeqItem| s@,
        ));
        assert(cmd_items(cv) == iv);
    }
    items_to_cmd_x(out)
}


/// One step of running a parsed line, driving one element at a time:
/// whether element `k` runs given the status of what ran before it and,
/// if it runs, that element expanded against the alias table *as it now
/// stands* — so an alias defined by an earlier element of the same line
/// already applies.
pub fn next_step(
    items: &Vec<SeqItem>,
    k: usize,
    status: i32,
    aliases: &StrMap<Option<Cmd>>,
    fuel: usize,
) -> (r: Option<Vec<SeqItem>>)
    requires
        k < items@.len(),
    ensures
        (r is Some) == crate::executor::spec_should_run(items@[k as int]@.connector, status),
        r matches Some(v) ==> v@.map_values(|s: SeqItem| s@) == spec_expand_item(
            items@[k as int]@,
            aliases@,
            fuel as nat,
        ),
{
    let item = &items[k];
    if crate::executor::should_run(item.connector, status) {
        let copy = SeqItem { connector: item.connector, stages: dup_simple_vec(&item.stages) };
        proof {
            assert(copy@ =~= items@[k as int]@);
        }
        Some(expand_item(copy, aliases, fuel))
    } else {
        None
    }
}

} // verus!
