use vstd::prelude::*;

use crate::lexer::TokenV;
use crate::parser::{
    assignment_name, assignment_value, empty_simple, is_assignment_word, is_name_char,
    lemma_name_end_bounds, name_end_from, parse_chain, parse_items, parse_pipeline, parse_redirect,
    parse_simple, spec_parse, ParseError,
};
use crate::render::{
    conn_token, toks_of_asgs, toks_of_cmd, toks_of_items, toks_of_redirect, toks_of_redirs,
    toks_of_simple, toks_of_stages, toks_of_words,
};
use crate::syntax::{
    cmd_items, is_empty_simple, items_to_cmd, CmdV, Connector, RedirectV, RedirKind, SeqItemV,
    SimpleCmdV,
};

verus! {

/// An assignment as the parser itself would recognize it: a nonempty
/// name of name characters, so that `name=value` splits back into
/// exactly this pair.
pub open spec fn wf_asg(a: (Seq<char>, Seq<char>)) -> bool {
    a.0.len() > 0 && (forall|i: int| 0 <= i < a.0.len() ==> is_name_char(#[trigger] a.0[i]))
}

/// A simple command as the parser produces it: well-formed assignments,
/// a first argument word that is not itself assignment-shaped, and not
/// empty.
pub open spec fn wf_simple_toks(sc: SimpleCmdV) -> bool {
    &&& (forall|i: int| 0 <= i < sc.assignments.len() ==> wf_asg(#[trigger] sc.assignments[i]))
    &&& (sc.words.len() > 0 ==> !is_assignment_word(sc.words[0]))
    &&& !is_empty_simple(sc)
}

pub open spec fn wf_item_toks(it: SeqItemV) -> bool {
    it.stages.len() > 0 && (forall|k: int|
        0 <= k < it.stages.len() ==> wf_simple_toks(#[trigger] it.stages[k]))
}

/// A tree the parser could have produced: every element well formed, the
/// first element joined by `;`, and the variant canonical for its
/// element list.
pub open spec fn wf_cmd_toks(c: CmdV) -> bool {
    let iv = cmd_items(c);
    &&& (forall|k: int| 0 <= k < iv.len() ==> wf_item_toks(#[trigger] iv[k]))
    &&& (iv.len() > 0 ==> iv[0].connector == Connector::Semi)
    &&& items_to_cmd(iv) == c
}

proof fn lemma_name_end_all_name_chars(w: Seq<char>, j: int)
    requires
        0 <= j <= w.len(),
        forall|i: int| j <= i < w.len() ==> is_name_char(#[trigger] w[i]),
    ensures
        name_end_from(w, j) == w.len(),
    decreases w.len() - j,
{
    if j < w.len() {
        lemma_name_end_all_name_chars(w, j + 1);
    }
}

proof fn lemma_name_end_stops(w: Seq<char>, j: int, m: int)
    requires
        0 <= j <= m < w.len(),
        forall|i: int| j <= i < m ==> is_name_char(#[trigger] w[i]),
        !is_name_char(w[m]),
    ensures
        name_end_from(w, j) == m,
    decreases m - j,
{
    if j < m {
        lemma_name_end_stops(w, j + 1, m);
    }
}

/// A well-formed assignment pair written out as one word splits back
/// into exactly the pair.
proof fn lemma_asg_word_splits(a: (Seq<char>, Seq<char>))
    requires
        wf_asg(a),
    ensures
        is_assignment_word(a.0 + seq!['='] + a.1),
        assignment_name(a.0 + seq!['='] + a.1) == a.0,
        assignment_value(a.0 + seq!['='] + a.1) == a.1,
{
    let w = a.0 + seq!['='] + a.1;
    assert(!is_name_char('='));
    assert(forall|i: int| 0 <= i < a.0.len() ==> #[trigger] w[i] == a.0[i]);
    lemma_name_end_stops(w, 0, a.0.len() as int);
    assert(assignment_name(w) =~= a.0);
    assert(assignment_value(w) =~= a.1);
}

proof fn lemma_toks_of_asgs_len(asgs: Seq<(Seq<char>, Seq<char>)>, k: int)
    requires
        0 <= k <= asgs.len(),
    ensures
        toks_of_asgs(asgs, k).len() == asgs.len() - k,
    decreases asgs.len() - k,
{
    if k < asgs.len() {
        lemma_toks_of_asgs_len(asgs, k + 1);
    }
}

proof fn lemma_toks_of_words_len(ws: Seq<Seq<char>>, k: int)
    requires
        0 <= k <= ws.len(),
    ensures
        toks_of_words(ws, k).len() == ws.len() - k,
    decreases ws.len() - k,
{
    if k < ws.len() {
        lemma_toks_of_words_len(ws, k + 1);
    }
}

proof fn lemma_toks_of_redirs_len(rs: Seq<RedirectV>, k: int)
    requires
        0 <= k <= rs.len(),
    ensures
        toks_of_redirs(rs, k).len() == 2 * (rs.len() - k),
    decreases rs.len() - k,
{
    if k < rs.len() {
        lemma_toks_of_redirs_len(rs, k + 1);
    }
}

/// Reading the assignment words back: they all land in the accumulator,
/// in order, and the scan proceeds past them with no word yet seen.
proof fn lemma_parse_asgs(
    ts: Seq<TokenV>,
    i: int,
    acc: SimpleCmdV,
    asgs: Seq<(Seq<char>, Seq<char>)>,
    k: int,
)
    requires
        0 <= k <= asgs.len(),
        0 <= i,
        i + (asgs.len() - k) <= ts.len(),
        forall|j: int| 0 <= j < asgs.len() ==> wf_asg(#[trigger] asgs[j]),
        forall|j: int|
            k <= j < asgs.len() ==> ts[i + (j - k)] == TokenV::Word(
                #[trigger] asgs[j].0 + seq!['='] + asgs[j].1,
            ),
    ensures
        parse_simple(ts, i, acc, false) == parse_simple(
            ts,
            i + (asgs.len() - k),
            SimpleCmdV { assignments: acc.assignments + asgs.subrange(k, asgs.len() as int), ..acc },
            false,
        ),
    decreases asgs.len() - k,
{
    if k == asgs.len() {
        assert(acc.assignments + asgs.subrange(k, asgs.len() as int) =~= acc.assignments);
        assert(SimpleCmdV {
            assignments: acc.assignments + asgs.subrange(k, asgs.len() as int),
            ..acc
        } =~= acc);
    } else {
        let a = asgs[k];
        lemma_asg_word_splits(a);
        assert(ts[i] == TokenV::Word(a.0 + seq!['='] + a.1));
        let acc2 = SimpleCmdV { assignments: acc.assignments.push((a.0, a.1)), ..acc };
        assert(parse_simple(ts, i, acc, false) == parse_simple(ts, i + 1, acc2, false));
        lemma_parse_asgs(ts, i + 1, acc2, asgs, k + 1);
        assert(acc2.assignments + asgs.subrange(k + 1, asgs.len() as int) =~= acc.assignments
            + asgs.subrange(k, asgs.len() as int));
        assert(SimpleCmdV {
            assignments: acc2.assignments + asgs.subrange(k + 1, asgs.len() as int),
            ..acc2
        } =~= SimpleCmdV {
            assignments: acc.assignments + asgs.subrange(k, asgs.len() as int),
            ..acc
        });
    }
}

/// Reading the argument words back: they all land in the accumulator.
/// `seen` already being true, or the next word not being
/// assignment-shaped, keeps them out of the assignments.
proof fn lemma_parse_words(ts: Seq<TokenV>, i: int, acc: SimpleCmdV, ws: Seq<Seq<char>>, k: int, seen: bool)
    requires
        0 <= k <= ws.len(),
        0 <= i,
        i + (ws.len() - k) <= ts.len(),
        !seen && k < ws.len() ==> !is_assignment_word(ws[k]),
        forall|j: int| k <= j < ws.len() ==> ts[i + (j - k)] == TokenV::Word(#[trigger] ws[j]),
    ensures
        parse_simple(ts, i, acc, seen) == parse_simple(
            ts,
            i + (ws.len() - k),
            SimpleCmdV { words: acc.words + ws.subrange(k, ws.len() as int), ..acc },
            if k < ws.len() {
                true
            } else {
                seen
            },
        ),
    decreases ws.len() - k,
{
    if k == ws.len() {
        assert(acc.words + ws.subrange(k, ws.len() as int) =~= acc.words);
        assert(SimpleCmdV { words: acc.words + ws.subrange(k, ws.len() as int), ..acc } =~= acc);
    } else {
        let w = ws[k];
        assert(ts[i] == TokenV::Word(w));
        let acc2 = SimpleCmdV { words: acc.words.push(w), ..acc };
        assert(parse_simple(ts, i, acc, seen) == parse_simple(ts, i + 1, acc2, true));
        lemma_parse_words(ts, i + 1, acc2, ws, k + 1, true);
        assert(acc2.words + ws.subrange(k + 1, ws.len() as int) =~= acc.words + ws.subrange(
            k,
            ws.len() as int,
        ));
        assert(SimpleCmdV {
            words: acc2.words + ws.subrange(k + 1, ws.len() as int),
            ..acc2
        } =~= SimpleCmdV { words: acc.words + ws.subrange(k, ws.len() as int), ..acc });
    }
}

/// Reading the redirections back: operator and target pairs land in the
/// accumulator in order.
proof fn lemma_parse_redirs(ts: Seq<TokenV>, i: int, acc: SimpleCmdV, rs: Seq<RedirectV>, k: int, seen: bool)
    requires
        0 <= k <= rs.len(),
        0 <= i,
        i + 2 * (rs.len() - k) <= ts.len(),
        forall|j: int|
            k <= j < rs.len() ==> ts[i + 2 * (j - k)] == (match (#[trigger] rs[j]).kind {
                RedirKind::In => TokenV::Less(rs[j].fd),
                RedirKind::OutTrunc => TokenV::Great(rs[j].fd),
                RedirKind::OutAppend => TokenV::DGreat(rs[j].fd),
            }) && ts[i + 2 * (j - k) + 1] == TokenV::Word(rs[j].target),
    ensures
        parse_simple(ts, i, acc, seen) == parse_simple(
            ts,
            i + 2 * (rs.len() - k),
            SimpleCmdV { redirects: acc.redirects + rs.subrange(k, rs.len() as int), ..acc },
            seen,
        ),
    decreases rs.len() - k,
{
    if k == rs.len() {
        assert(acc.redirects + rs.subrange(k, rs.len() as int) =~= acc.redirects);
        assert(SimpleCmdV {
            redirects: acc.redirects + rs.subrange(k, rs.len() as int),
            ..acc
        } =~= acc);
    } else {
        let r = rs[k];
        let acc2 = SimpleCmdV {
            redirects: acc.redirects.push(RedirectV { fd: r.fd, kind: r.kind, target: r.target }),
            ..acc
        };
        assert(RedirectV { fd: r.fd, kind: r.kind, target: r.target } =~= r);
        assert(parse_simple(ts, i, acc, seen) == parse_redirect(ts, i, acc, seen, r.fd, r.kind));
        assert(parse_redirect(ts, i, acc, seen, r.fd, r.kind) == parse_simple(
            ts,
            i + 2,
            acc2,
            seen,
        ));
        lemma_parse_redirs(ts, i + 2, acc2, rs, k + 1, seen);
        assert(acc2.redirects + rs.subrange(k + 1, rs.len() as int) =~= acc.redirects + rs.subrange(
            k,
            rs.len() as int,
        ));
        assert(SimpleCmdV {
            redirects: acc2.redirects + rs.subrange(k + 1, rs.len() as int),
            ..acc2
        } =~= SimpleCmdV { redirects: acc.redirects + rs.subrange(k, rs.len() as int), ..acc });
    }
}

/// A stop token (or the end of the tokens) ends the simple command with
/// the accumulator as it stands.
pub open spec fn is_stop_token(t: TokenV) -> bool {
    t == TokenV::Pipe || t == TokenV::Semi || t == TokenV::AndIf || t == TokenV::OrIf
}

/// Reading one whole serialized simple command back, starting from the
/// empty accumulator, yields exactly the original stage, stopping at the
/// stop token (or end) that follows it.
proof fn lemma_parse_simple_of_toks(ts: Seq<TokenV>, i: int, sc: SimpleCmdV)
    requires
        wf_simple_toks(sc),
        0 <= i,
        i + toks_of_simple(sc).len() <= ts.len(),
        forall|j: int|
            0 <= j < toks_of_simple(sc).len() ==> ts[i + j] == toks_of_simple(sc)[j],
        i + toks_of_simple(sc).len() == ts.len() || is_stop_token(
            ts[i + toks_of_simple(sc).len()],
        ),
    ensures
        parse_simple(ts, i, empty_simple(), false) == Ok::<(SimpleCmdV, int), ParseError>(
            (sc, i + toks_of_simple(sc).len()),
        ),
{
    let asgs = sc.assignments;
    let ws = sc.words;
    let rs = sc.redirects;
    lemma_toks_of_asgs_len(asgs, 0);
    lemma_toks_of_words_len(ws, 0);
    lemma_toks_of_redirs_len(rs, 0);
    lemma_toks_of_asgs_index(asgs, 0);
    lemma_toks_of_words_index(ws, 0);
    lemma_toks_of_redirs_index(rs, 0);
    let na = asgs.len() as int;
    let nw = ws.len() as int;
    let nr = rs.len() as int;
    assert forall|j: int| 0 <= j < na implies ts[i + j] == TokenV::Word(
        (#[trigger] asgs[j]).0 + seq!['='] + asgs[j].1,
    ) by {
        assert(toks_of_simple(sc)[j] == toks_of_asgs(asgs, 0)[j]);
        assert(ts[i + j] == toks_of_simple(sc)[j]);
    }
    assert forall|j: int| 0 <= j < nw implies ts[i + na + j] == TokenV::Word(#[trigger] ws[j]) by {
        assert(toks_of_simple(sc)[na + j] == toks_of_words(ws, 0)[j]);
        assert(ts[i + (na + j)] == toks_of_simple(sc)[na + j]);
        assert(i + na + j == i + (na + j));
    }
    assert forall|j: int| 0 <= j < nr implies ts[i + na + nw + 2 * j] == (match (
        #[trigger] rs[j]
    ).kind {
        RedirKind::In => TokenV::Less(rs[j].fd),
        RedirKind::OutTrunc => TokenV::Great(rs[j].fd),
        RedirKind::OutAppend => TokenV::DGreat(rs[j].fd),
    }) && ts[i + na + nw + 2 * j + 1] == TokenV::Word(rs[j].target) by {
        assert(toks_of_simple(sc)[na + nw + 2 * j] == toks_of_redirs(rs, 0)[2 * j]);
        assert(toks_of_simple(sc)[na + nw + 2 * j + 1] == toks_of_redirs(rs, 0)[2 * j + 1]);
        assert(ts[i + (na + nw + 2 * j)] == toks_of_simple(sc)[na + nw + 2 * j]);
        assert(ts[i + (na + nw + 2 * j + 1)] == toks_of_simple(sc)[na + nw + 2 * j + 1]);
        assert(i + na + nw + 2 * j == i + (na + nw + 2 * j));
        assert(i + na + nw + 2 * j + 1 == i + (na + nw + 2 * j + 1));
    }
    lemma_parse_asgs(ts, i, empty_simple(), asgs, 0);
    let acc1 = SimpleCmdV {
        assignments: empty_simple().assignments + asgs.subrange(0, na),
        ..empty_simple()
    };
    lemma_parse_words(ts, i + na, acc1, ws, 0, false);
    let acc2 = SimpleCmdV { words: acc1.words + ws.subrange(0, nw), ..acc1 };
    let seen2 = nw > 0;
    lemma_parse_redirs(ts, i + na + nw, acc2, rs, 0, seen2);
    let acc3 = SimpleCmdV { redirects: acc2.redirects + rs.subrange(0, nr), ..acc2 };
    let end = i + na + nw + 2 * nr;
    assert(end == i + toks_of_simple(sc).len());
    assert(parse_simple(ts, i, empty_simple(), false) == parse_simple(ts, end, acc3, seen2));
    assert(end == ts.len() || is_stop_token(ts[end]));
    assert(parse_simple(ts, end, acc3, seen2) == Ok::<(SimpleCmdV, int), ParseError>((acc3, end)));
    assert(acc3 =~= sc);
}

proof fn lemma_toks_of_asgs_index(asgs: Seq<(Seq<char>, Seq<char>)>, k: int)
    requires
        0 <= k <= asgs.len(),
    ensures
        forall|j: int|
            k <= j < asgs.len() ==> toks_of_asgs(asgs, k)[j - k] == TokenV::Word(
                (#[trigger] asgs[j]).0 + seq!['='] + asgs[j].1,
            ),
    decreases asgs.len() - k,
{
    lemma_toks_of_asgs_len(asgs, k);
    if k < asgs.len() {
        lemma_toks_of_asgs_len(asgs, k + 1);
        lemma_toks_of_asgs_index(asgs, k + 1);
    }
}

proof fn lemma_toks_of_words_index(ws: Seq<Seq<char>>, k: int)
    requires
        0 <= k <= ws.len(),
    ensures
        forall|j: int|
            k <= j < ws.len() ==> toks_of_words(ws, k)[j - k] == TokenV::Word(#[trigger] ws[j]),
    decreases ws.len() - k,
{
    lemma_toks_of_words_len(ws, k);
    if k < ws.len() {
        lemma_toks_of_words_len(ws, k + 1);
        lemma_toks_of_words_index(ws, k + 1);
    }
}

proof fn lemma_toks_of_redirs_index(rs: Seq<RedirectV>, k: int)
    requires
        0 <= k <= rs.len(),
    ensures
        forall|j: int|
            k <= j < rs.len() ==> toks_of_redirs(rs, k)[2 * (j - k)] == (match (#[trigger] rs[j]).kind {
                RedirKind::In => TokenV::Less(rs[j].fd),
                RedirKind::OutTrunc => TokenV::Great(rs[j].fd),
                RedirKind::OutAppend => TokenV::DGreat(rs[j].fd),
            }) && toks_of_redirs(rs, k)[2 * (j - k) + 1] == TokenV::Word(rs[j].target),
    decreases rs.len() - k,
{
    lemma_toks_of_redirs_len(rs, k);
    if k < rs.len() {
        lemma_toks_of_redirs_len(rs, k + 1);
        lemma_toks_of_redirs_index(rs, k + 1);
    }
}


/// A token that ends a pipeline and joins or separates sequence
/// elements.
pub open spec fn is_chain_delim(t: TokenV) -> bool {
    t == TokenV::Semi || t == TokenV::AndIf || t == TokenV::OrIf
}

proof fn lemma_toks_of_simple_len(sc: SimpleCmdV)
    ensures
        toks_of_simple(sc).len() == sc.assignments.len() + sc.words.len() + 2 * sc.redirects.len(),
        !is_empty_simple(sc) ==> toks_of_simple(sc).len() > 0,
{
    lemma_toks_of_asgs_len(sc.assignments, 0);
    lemma_toks_of_words_len(sc.words, 0);
    lemma_toks_of_redirs_len(sc.redirects, 0);
}

/// Reading a serialized pipeline back, stage by stage: the `|` tokens
/// divide exactly the original stages, and the scan stops at the chain
/// delimiter (or end) that follows the pipeline.
proof fn lemma_parse_pipeline_of_toks(ts: Seq<TokenV>, i: int, stages: Seq<SimpleCmdV>, k: int)
    requires
        0 <= k < stages.len(),
        forall|j: int| 0 <= j < stages.len() ==> wf_simple_toks(#[trigger] stages[j]),
        0 <= i,
        i + (toks_of_simple(stages[k]) + toks_of_stages(stages, k + 1)).len() <= ts.len(),
        ts.subrange(
            i,
            i + (toks_of_simple(stages[k]) + toks_of_stages(stages, k + 1)).len(),
        ) == toks_of_simple(stages[k]) + toks_of_stages(stages, k + 1),
        i + (toks_of_simple(stages[k]) + toks_of_stages(stages, k + 1)).len() == ts.len()
            || is_chain_delim(
            ts[i + (toks_of_simple(stages[k]) + toks_of_stages(stages, k + 1)).len()],
        ),
    ensures
        parse_pipeline(ts, i) == Ok::<(Seq<SimpleCmdV>, int), ParseError>(
            (
                stages.subrange(k, stages.len() as int),
                i + (toks_of_simple(stages[k]) + toks_of_stages(stages, k + 1)).len(),
            ),
        ),
    decreases stages.len() - k,
{
    let win = toks_of_simple(stages[k]) + toks_of_stages(stages, k + 1);
    let l0 = toks_of_simple(stages[k]).len() as int;
    lemma_toks_of_simple_len(stages[k]);
    assert forall|j: int| 0 <= j < l0 implies ts[i + j] == toks_of_simple(stages[k])[j] by {
        assert(ts.subrange(i, i + win.len())[j] == ts[i + j]);
        assert(win[j] == toks_of_simple(stages[k])[j]);
    }
    if k + 1 < stages.len() {
        assert(toks_of_stages(stages, k + 1) == seq![TokenV::Pipe] + (toks_of_simple(
            stages[k + 1],
        ) + toks_of_stages(stages, k + 2)));
        assert(win[l0] == TokenV::Pipe);
        assert(ts.subrange(i, i + win.len())[l0] == ts[i + l0]);
        assert(ts[i + l0] == TokenV::Pipe);
        lemma_parse_simple_of_toks(ts, i, stages[k]);
        let win2 = toks_of_simple(stages[k + 1]) + toks_of_stages(stages, k + 2);
        assert(win.len() == l0 + 1 + win2.len());
        assert forall|j: int| 0 <= j < win2.len() implies ts.subrange(
            i + l0 + 1,
            i + l0 + 1 + win2.len(),
        )[j] == win2[j] by {
            assert(ts.subrange(i + l0 + 1, i + l0 + 1 + win2.len())[j] == ts[i + l0 + 1 + j]);
            assert(ts.subrange(i, i + win.len())[l0 + 1 + j] == ts[i + (l0 + 1 + j)]);
            assert(win[l0 + 1 + j] == toks_of_stages(stages, k + 1)[1 + j]);
            assert(toks_of_stages(stages, k + 1)[1 + j] == win2[j]);
        }
        assert(ts.subrange(i + l0 + 1, i + l0 + 1 + win2.len()) =~= win2);
        lemma_parse_pipeline_of_toks(ts, i + l0 + 1, stages, k + 1);
        assert(seq![stages[k]] + stages.subrange(k + 1, stages.len() as int) =~= stages.subrange(
            k,
            stages.len() as int,
        ));
    } else {
        assert(toks_of_stages(stages, k + 1) =~= Seq::<TokenV>::empty());
        assert(win =~= toks_of_simple(stages[k]));
        assert(i + l0 == ts.len() || is_chain_delim(ts[i + l0]));
        lemma_parse_simple_of_toks(ts, i, stages[k]);
        assert(seq![stages[k]] =~= stages.subrange(k, stages.len() as int));
    }
}

/// The element at which the chain that starts at `k` ends: the next
/// element joined by `;`, or the end of the elements.
pub open spec fn chain_end(items: Seq<SeqItemV>, k: int) -> int
    decreases items.len() - k,
    when 0 <= k < items.len()
{
    if k + 1 >= items.len() {
        items.len() as int
    } else if items[k + 1].connector == Connector::Semi {
        k + 1
    } else {
        chain_end(items, k + 1)
    }
}

proof fn lemma_chain_end_bounds(items: Seq<SeqItemV>, k: int)
    requires
        0 <= k < items.len(),
    ensures
        k < chain_end(items, k) <= items.len(),
        chain_end(items, k) < items.len() ==> items[chain_end(items, k)].connector
            == Connector::Semi,
    decreases items.len() - k,
{
    if !(k + 1 >= items.len()) && !(items[k + 1].connector == Connector::Semi) {
        lemma_chain_end_bounds(items, k + 1);
    }
}

/// The tokens of one sequence element (a pipeline), with what follows.
pub open spec fn item_window(items: Seq<SeqItemV>, k: int) -> Seq<TokenV> {
    toks_of_stages(items[k].stages, 0) + toks_of_items(items, k + 1)
}

/// Reading a serialized `&&`/`||` chain back from the stage tokens of its
/// element `k`: the chain covers the elements up to the next `;`, and the
/// scan stops at that `;` token or at the end of the tokens.
proof fn lemma_parse_chain_of_toks(ts: Seq<TokenV>, i: int, items: Seq<SeqItemV>, k: int)
    requires
        0 <= k < items.len(),
        forall|j: int| 0 <= j < items.len() ==> wf_item_toks(#[trigger] items[j]),
        0 <= i,
        i + item_window(items, k).len() == ts.len(),
        ts.subrange(i, ts.len() as int) == item_window(items, k),
    ensures
        parse_chain(ts, i, items[k].connector) == Ok::<(Seq<SeqItemV>, int), ParseError>(
            (
                items.subrange(k, chain_end(items, k)),
                ts.len() - (toks_of_items(items, chain_end(items, k)).len() as int),
            ),
        ),
        chain_end(items, k) < items.len() ==> ts[ts.len() - (toks_of_items(
            items,
            chain_end(items, k),
        ).len() as int)] == TokenV::Semi,
    decreases items.len() - k,
{
    let win = item_window(items, k);
    let stages = items[k].stages;
    let sw = toks_of_stages(stages, 0);
    let l0 = sw.len() as int;
    let after = toks_of_items(items, k + 1);
    lemma_chain_end_bounds(items, k);
    // the pipeline of element k
    assert(sw == toks_of_simple(stages[0]) + toks_of_stages(stages, 1));
    assert forall|j: int| 0 <= j < l0 implies ts.subrange(i, i + l0)[j] == sw[j] by {
        assert(ts.subrange(i, i + l0)[j] == ts[i + j]);
        assert(ts.subrange(i, ts.len() as int)[j] == ts[i + j]);
        assert(win[j] == sw[j]);
    }
    assert(ts.subrange(i, i + l0) =~= sw);
    let j0 = i + l0;
    if k + 1 < items.len() {
        assert(after == seq![conn_token(items[k + 1].connector)] + item_window(items, k + 1));
        assert(ts.subrange(i, ts.len() as int)[l0] == ts[j0]);
        assert(win[l0] == conn_token(items[k + 1].connector));
        assert(ts[j0] == conn_token(items[k + 1].connector));
        assert(is_chain_delim(ts[j0]));
        lemma_parse_pipeline_of_toks(ts, i, stages, 0);
        assert(stages.subrange(0, stages.len() as int) =~= stages);
        // what follows element k
        assert forall|j: int| 0 <= j < item_window(items, k + 1).len() implies #[trigger] ts.subrange(
            j0 + 1,
            ts.len() as int,
        )[j] == item_window(items, k + 1)[j] by {
            assert(ts.subrange(j0 + 1, ts.len() as int)[j] == ts[j0 + 1 + j]);
            assert(ts.subrange(i, ts.len() as int)[l0 + 1 + j] == ts[i + (l0 + 1 + j)]);
            assert(win[l0 + 1 + j] == after[1 + j]);
            assert(after[1 + j] == item_window(items, k + 1)[j]);
        }
        assert(ts.subrange(j0 + 1, ts.len() as int) =~= item_window(items, k + 1));
        if items[k + 1].connector == Connector::Semi {
            // the chain ends here; the `;` token stands at j0
            assert(parse_chain(ts, i, items[k].connector) == Ok::<
                (Seq<SeqItemV>, int),
                ParseError,
            >((seq![SeqItemV { connector: items[k].connector, stages }], j0)));
            assert(chain_end(items, k) == k + 1);
            assert(toks_of_items(items, k + 1).len() == after.len());
            assert(j0 == ts.len() - after.len());
            assert(seq![SeqItemV { connector: items[k].connector, stages }] =~= items.subrange(
                k,
                k + 1,
            ));
        } else {
            // the chain continues through `&&` / `||`
            lemma_parse_chain_of_toks(ts, j0 + 1, items, k + 1);
            assert(chain_end(items, k) == chain_end(items, k + 1));
            assert(seq![SeqItemV { connector: items[k].connector, stages }] + items.subrange(
                k + 1,
                chain_end(items, k),
            ) =~= items.subrange(k, chain_end(items, k)));
        }
    } else {
        assert(after =~= Seq::<TokenV>::empty());
        assert(win =~= sw);
        assert(j0 == ts.len());
        lemma_parse_pipeline_of_toks(ts, i, stages, 0);
        assert(stages.subrange(0, stages.len() as int) =~= stages);
        assert(chain_end(items, k) == items.len());
        assert(toks_of_items(items, chain_end(items, k)) =~= Seq::<TokenV>::empty());
        assert(seq![SeqItemV { connector: items[k].connector, stages }] =~= items.subrange(
            k,
            items.len() as int,
        ));
    }
}

/// Reading serialized sequence elements back from the start of element
/// `k`'s chain: every remaining element comes back, in order.
proof fn lemma_parse_items_of_toks(ts: Seq<TokenV>, i: int, items: Seq<SeqItemV>, k: int)
    requires
        0 <= k < items.len(),
        items[k].connector == Connector::Semi,
        forall|j: int| 0 <= j < items.len() ==> wf_item_toks(#[trigger] items[j]),
        0 <= i,
        i + item_window(items, k).len() == ts.len(),
        ts.subrange(i, ts.len() as int) == item_window(items, k),
    ensures
        parse_items(ts, i) == Ok::<Seq<SeqItemV>, ParseError>(
            items.subrange(k, items.len() as int),
        ),
    decreases items.len() - k,
{
    lemma_chain_end_bounds(items, k);
    let ce = chain_end(items, k);
    // the element window is nonempty, so the scan has not reached the end
    lemma_toks_of_simple_len(items[k].stages[0]);
    assert(toks_of_stages(items[k].stages, 0) == toks_of_simple(items[k].stages[0])
        + toks_of_stages(items[k].stages, 1));
    assert(item_window(items, k).len() > 0);
    assert(i < ts.len());
    lemma_parse_chain_of_toks(ts, i, items, k);
    let p = ts.len() - (toks_of_items(items, ce).len() as int);
    if ce == items.len() {
        assert(toks_of_items(items, ce) =~= Seq::<TokenV>::empty());
        assert(p == ts.len());
        assert(parse_items(ts, i) == Ok::<Seq<SeqItemV>, ParseError>(
            items.subrange(k, ce),
        ));
    } else {
        assert(ts[p] == TokenV::Semi);
        assert(p < ts.len());
        // past the `;`, the next chain begins
        assert(toks_of_items(items, ce) == seq![conn_token(items[ce].connector)] + item_window(
            items,
            ce,
        ));
        assert(toks_of_items(items, ce).len() == 1 + item_window(items, ce).len());
        lemma_items_window_suffix(items, k, ce);
        assert(i <= p);
        assert forall|j: int| 0 <= j < item_window(items, ce).len() implies #[trigger] ts.subrange(
            p + 1,
            ts.len() as int,
        )[j] == item_window(items, ce)[j] by {
            assert(ts.subrange(p + 1, ts.len() as int)[j] == ts[p + 1 + j]);
            assert(ts.subrange(i, ts.len() as int)[p + 1 + j - i] == ts[i + (p + 1 + j - i)]);
            let wlen = item_window(items, k).len() as int;
            let tlen = toks_of_items(items, ce).len() as int;
            assert(item_window(items, k)[wlen - tlen + (1 + j)] == toks_of_items(items, ce)[1 + j]);
            assert(p + 1 + j - i == wlen - tlen + (1 + j));
            assert(toks_of_items(items, ce)[1 + j] == item_window(items, ce)[j]);
        }
        assert(ts.subrange(p + 1, ts.len() as int) =~= item_window(items, ce));
        lemma_parse_items_of_toks(ts, p + 1, items, ce);
        assert(items.subrange(k, ce) + items.subrange(ce, items.len() as int) =~= items.subrange(
            k,
            items.len() as int,
        ));
    }
}

/// Within one element's window, the tokens of the elements from the
/// chain's end onward form the window's tail.
proof fn lemma_items_window_suffix(items: Seq<SeqItemV>, k: int, ce: int)
    requires
        0 <= k < items.len(),
        ce == chain_end(items, k),
        forall|j: int| 0 <= j < items.len() ==> wf_item_toks(#[trigger] items[j]),
    ensures
        toks_of_items(items, ce).len() <= item_window(items, k).len(),
        forall|j: int|
            0 <= j < toks_of_items(items, ce).len() ==> #[trigger] item_window(items, k)[
                item_window(items, k).len() - toks_of_items(items, ce).len() + j
            ] == toks_of_items(items, ce)[j],
    decreases items.len() - k,
{
    lemma_chain_end_bounds(items, k);
    let win = item_window(items, k);
    let sw = toks_of_stages(items[k].stages, 0);
    if k + 1 < items.len() && items[k + 1].connector != Connector::Semi {
        lemma_items_window_suffix(items, k + 1, ce);
        assert(toks_of_items(items, k + 1) == seq![conn_token(items[k + 1].connector)]
            + item_window(items, k + 1));
        assert forall|j: int| 0 <= j < toks_of_items(items, ce).len() implies #[trigger] win[
            win.len() - toks_of_items(items, ce).len() + j
        ] == toks_of_items(items, ce)[j] by {
            let w2 = item_window(items, k + 1);
            let d = win.len() - toks_of_items(items, ce).len() + j;
            assert(win[d] == toks_of_items(items, k + 1)[d - sw.len()]);
            assert(toks_of_items(items, k + 1)[d - sw.len()] == w2[d - sw.len() - 1]);
            assert(w2[w2.len() - toks_of_items(items, ce).len() + j] == toks_of_items(
                items,
                ce,
            )[j]);
            assert(d - sw.len() - 1 == w2.len() - toks_of_items(items, ce).len() + j);
        }
    } else {
        // the chain ends right after element k
        assert(ce == if k + 1 < items.len() {
            k + 1
        } else {
            items.len() as int
        });
        assert(win.len() == sw.len() + toks_of_items(items, k + 1).len());
        if k + 1 < items.len() {
            assert(toks_of_items(items, ce) == toks_of_items(items, k + 1));
        } else {
            assert(toks_of_items(items, ce) =~= Seq::<TokenV>::empty());
        }
        assert forall|j: int| 0 <= j < toks_of_items(items, ce).len() implies #[trigger] win[
            win.len() - toks_of_items(items, ce).len() + j
        ] == toks_of_items(items, ce)[j] by {
            assert(win[sw.len() + j] == toks_of_items(items, k + 1)[j]);
        }
    }
}

/// Serialize-then-reparse is the identity on every tree the parser can
/// produce: reading a command's token list back yields the command
/// itself, not merely an equivalent one.  Together with a lexer that
/// returns those tokens for the rendered text, this is the semantic
/// round trip of serialization.
pub proof fn theorem_parse_of_serialized(c: CmdV)
    requires
        wf_cmd_toks(c),
    ensures
        spec_parse(toks_of_cmd(c)) == Ok::<CmdV, ParseError>(c),
{
    let iv = cmd_items(c);
    let ts = toks_of_cmd(c);
    if iv.len() == 0 {
        assert(ts =~= Seq::<TokenV>::empty());
        assert(parse_items(ts, 0) == Ok::<Seq<SeqItemV>, ParseError>(Seq::empty()));
        assert(items_to_cmd(Seq::empty()) == items_to_cmd(iv));
    } else {
        assert(ts == item_window(iv, 0));
        assert(ts.subrange(0, ts.len() as int) =~= ts);
        lemma_parse_items_of_toks(ts, 0, iv, 0);
        assert(iv.subrange(0, iv.len() as int) =~= iv);
    }
}

/// The parser only produces trees on which serialization round-trips:
/// every successful parse is well formed in the sense above.
pub proof fn lemma_parse_output_wf(ts: Seq<TokenV>, c: CmdV)
    requires
        spec_parse(ts) == Ok::<CmdV, ParseError>(c),
    ensures
        wf_cmd_toks(c),
{
    let items = (match parse_items(ts, 0) {
        Ok(items) => items,
        Err(_) => Seq::empty(),
    });
    lemma_parse_items_wf(ts, 0);
    lemma_items_to_cmd_canonical(items);
    assert(cmd_items(c) == items);
}

/// The canonical tree of an element list has exactly that element list.
proof fn lemma_items_to_cmd_canonical(items: Seq<SeqItemV>)
    requires
        items.len() == 1 ==> items[0].connector == Connector::Semi,
    ensures
        cmd_items(items_to_cmd(items)) == items,
{
    if items.len() == 1 && items[0].connector == Connector::Semi {
        let it = items[0];
        if it.stages.len() == 1 {
            assert(seq![it.stages[0]] =~= it.stages);
            assert(SeqItemV { connector: Connector::Semi, stages: seq![it.stages[0]] } =~= it);
            assert(cmd_items(items_to_cmd(items)) =~= items);
        } else {
            assert(SeqItemV { connector: Connector::Semi, stages: it.stages } =~= it);
            assert(cmd_items(items_to_cmd(items)) =~= items);
        }
    }
}


proof fn lemma_name_prefix_chars(w: Seq<char>, j: int)
    requires
        0 <= j <= w.len(),
    ensures
        forall|x: int| j <= x < name_end_from(w, j) ==> is_name_char(#[trigger] w[x]),
    decreases w.len() - j,
{
    lemma_name_end_bounds(w, j);
    if !(j >= w.len() || !is_name_char(w[j])) {
        lemma_name_prefix_chars(w, j + 1);
    }
}

/// The accumulator facts `parse_simple` preserves: assignments are
/// well formed, and the first argument word is never assignment-shaped.
pub open spec fn acc_wf(acc: SimpleCmdV, seen: bool) -> bool {
    &&& (forall|i: int| 0 <= i < acc.assignments.len() ==> wf_asg(#[trigger] acc.assignments[i]))
    &&& (seen <==> acc.words.len() > 0)
    &&& (acc.words.len() > 0 ==> !is_assignment_word(acc.words[0]))
}

proof fn lemma_parse_simple_wf(ts: Seq<TokenV>, i: int, acc: SimpleCmdV, seen: bool)
    requires
        0 <= i <= ts.len(),
        acc_wf(acc, seen),
    ensures
        parse_simple(ts, i, acc, seen) matches Ok((sc, j)) ==> (forall|x: int|
            0 <= x < sc.assignments.len() ==> wf_asg(#[trigger] sc.assignments[x])) && (
        sc.words.len() > 0 ==> !is_assignment_word(sc.words[0])),
    decreases ts.len() - i, 2int,
{
    if i < ts.len() {
        match ts[i] {
            TokenV::Word(w) => {
                if !seen && is_assignment_word(w) {
                    let acc2 = SimpleCmdV {
                        assignments: acc.assignments.push((assignment_name(w), assignment_value(w))),
                        ..acc
                    };
                    lemma_name_prefix_chars(w, 0);
                    lemma_name_end_bounds(w, 0);
                    assert(wf_asg((assignment_name(w), assignment_value(w)))) by {
                        assert(forall|x: int|
                            0 <= x < assignment_name(w).len() ==> #[trigger] assignment_name(w)[x]
                                == w[x]);
                    }
                    assert(acc_wf(acc2, false));
                    lemma_parse_simple_wf(ts, i + 1, acc2, false);
                } else {
                    let acc2 = SimpleCmdV { words: acc.words.push(w), ..acc };
                    assert(acc_wf(acc2, true)) by {
                        if acc.words.len() == 0 {
                            assert(acc2.words[0] == w);
                        } else {
                            assert(acc2.words[0] == acc.words[0]);
                        }
                    }
                    lemma_parse_simple_wf(ts, i + 1, acc2, true);
                }
            },
            TokenV::Less(fd) => {
                lemma_parse_redirect_wf(ts, i, acc, seen, fd, RedirKind::In);
            },
            TokenV::Great(fd) => {
                lemma_parse_redirect_wf(ts, i, acc, seen, fd, RedirKind::OutTrunc);
            },
            TokenV::DGreat(fd) => {
                lemma_parse_redirect_wf(ts, i, acc, seen, fd, RedirKind::OutAppend);
            },
            _ => {},
        }
    }
}

proof fn lemma_parse_redirect_wf(
    ts: Seq<TokenV>,
    i: int,
    acc: SimpleCmdV,
    seen: bool,
    fd: u32,
    kind: RedirKind,
)
    requires
        0 <= i < ts.len(),
        acc_wf(acc, seen),
    ensures
        parse_redirect(ts, i, acc, seen, fd, kind) matches Ok((sc, j)) ==> (forall|x: int|
            0 <= x < sc.assignments.len() ==> wf_asg(#[trigger] sc.assignments[x])) && (
        sc.words.len() > 0 ==> !is_assignment_word(sc.words[0])),
    decreases ts.len() - i, 1int,
{
    if i + 1 < ts.len() && (ts[i + 1] matches TokenV::Word(_)) {
        let t = ts[i + 1]->Word_0;
        let acc2 = SimpleCmdV {
            redirects: acc.redirects.push(RedirectV { fd, kind, target: t }),
            ..acc
        };
        lemma_parse_simple_wf(ts, i + 2, acc2, seen);
    }
}

proof fn lemma_parse_pipeline_wf(ts: Seq<TokenV>, i: int)
    requires
        0 <= i <= ts.len(),
    ensures
        parse_pipeline(ts, i) matches Ok((stages, k)) ==> stages.len() > 0 && (forall|j: int|
            0 <= j < stages.len() ==> wf_simple_toks(#[trigger] stages[j])),
    decreases ts.len() - i,
{
    crate::parser::lemma_parse_simple_bounds(ts, i, empty_simple(), false);
    lemma_parse_simple_wf(ts, i, empty_simple(), false);
    if let Ok((sc, j)) = parse_simple(ts, i, empty_simple(), false) {
        if !is_empty_simple(sc) && j < ts.len() && ts[j] == TokenV::Pipe {
            lemma_parse_pipeline_wf(ts, j + 1);
            if let Ok((rest, k)) = parse_pipeline(ts, j + 1) {
                assert(forall|x: int|
                    0 <= x < (seq![sc] + rest).len() ==> wf_simple_toks(
                        #[trigger] (seq![sc] + rest)[x],
                    ));
            }
        }
    }
}

proof fn lemma_parse_chain_wf(ts: Seq<TokenV>, i: int, conn: Connector)
    requires
        0 <= i <= ts.len(),
    ensures
        parse_chain(ts, i, conn) matches Ok((items, k)) ==> items.len() > 0 && items[0].connector
            == conn && (forall|j: int|
            0 <= j < items.len() ==> wf_item_toks(#[trigger] items[j])),
    decreases ts.len() - i,
{
    crate::parser::lemma_parse_pipeline_bounds(ts, i);
    lemma_parse_pipeline_wf(ts, i);
    if let Ok((stages, j)) = parse_pipeline(ts, i) {
        let item = SeqItemV { connector: conn, stages };
        if j < ts.len() && (ts[j] == TokenV::AndIf || ts[j] == TokenV::OrIf) {
            let c2 = if ts[j] == TokenV::AndIf {
                Connector::AndIf
            } else {
                Connector::OrIf
            };
            lemma_parse_chain_wf(ts, j + 1, c2);
            if let Ok((items, k)) = parse_chain(ts, j + 1, c2) {
                assert(forall|x: int|
                    0 <= x < (seq![item] + items).len() ==> wf_item_toks(
                        #[trigger] (seq![item] + items)[x],
                    ));
            }
        }
    }
}

proof fn lemma_parse_items_wf(ts: Seq<TokenV>, i: int)
    requires
        0 <= i <= ts.len(),
    ensures
        parse_items(ts, i) matches Ok(items) ==> (forall|j: int|
            0 <= j < items.len() ==> wf_item_toks(#[trigger] items[j])) && (items.len() > 0
            ==> items[0].connector == Connector::Semi),
    decreases ts.len() - i,
{
    if i < ts.len() {
        crate::parser::lemma_parse_chain_bounds(ts, i, Connector::Semi);
        lemma_parse_chain_wf(ts, i, Connector::Semi);
        if let Ok((items, j)) = parse_chain(ts, i, Connector::Semi) {
            if j < ts.len() {
                lemma_parse_items_wf(ts, j + 1);
                if let Ok(rest) = parse_items(ts, j + 1) {
                    assert(forall|x: int|
                        0 <= x < (items + rest).len() ==> wf_item_toks(
                            #[trigger] (items + rest)[x],
                        ));
                    assert((items + rest)[0] == items[0]);
                }
            }
        }
    }
}


/// The serialization round trip: a command whose words are words the
/// lexer can produce (quotes balanced, no unquoted operator or
/// separator) and whose descriptor indices fit in one digit serializes
/// to text that tokenizes back to exactly its token list, and that token
/// list parses back to exactly the command — the re-read tree is the
/// original, not merely an equivalent one.
pub proof fn theorem_serialize_roundtrip(c: CmdV)
    requires
        wf_cmd_toks(c),
        forall|j: int|
            0 <= j < toks_of_cmd(c).len() ==> crate::lexprint::wf_token(
                #[trigger] toks_of_cmd(c)[j],
            ),
    ensures
        crate::lexer::spec_lex(crate::render::render_toks(toks_of_cmd(c))) == Ok::<
            Seq<TokenV>,
            crate::lexer::LexError,
        >(toks_of_cmd(c)),
        spec_parse(toks_of_cmd(c)) == Ok::<CmdV, ParseError>(c),
{
    crate::lexprint::theorem_lex_of_rendered(toks_of_cmd(c));
    theorem_parse_of_serialized(c);
}


/// Every token in a list is well formed in the round-trip sense.
pub open spec fn all_wf(ts: Seq<TokenV>) -> bool {
    forall|k: int| 0 <= k < ts.len() ==> crate::lexprint::wf_token(#[trigger] ts[k])
}

proof fn lemma_all_wf_concat(a: Seq<TokenV>, b: Seq<TokenV>)
    requires
        all_wf(a),
        all_wf(b),
    ensures
        all_wf(a + b),
{
    assert forall|k: int| 0 <= k < (a + b).len() implies crate::lexprint::wf_token(
        #[trigger] (a + b)[k],
    ) by {
        if k < a.len() {
            assert((a + b)[k] == a[k]);
        } else {
            assert((a + b)[k] == b[k - a.len()]);
        }
    }
}

/// The fields of a simple command carry round-trip-safe text: every word,
/// reassembled assignment word and redirection target is a word the lexer
/// could produce, and every descriptor index is one digit.
pub open spec fn fields_wf(sc: SimpleCmdV) -> bool {
    &&& (forall|x: int|
        0 <= x < sc.assignments.len() ==> crate::lexprint::wf_word(
            (#[trigger] sc.assignments[x]).0 + seq!['='] + sc.assignments[x].1,
        ))
    &&& (forall|x: int|
        0 <= x < sc.words.len() ==> crate::lexprint::wf_word(#[trigger] sc.words[x]))
    &&& (forall|x: int|
        0 <= x < sc.redirects.len() ==> crate::lexprint::wf_word(
            (#[trigger] sc.redirects[x]).target,
        ) && sc.redirects[x].fd <= 9)
}

proof fn lemma_parse_simple_fields_wf(ts: Seq<TokenV>, i: int, acc: SimpleCmdV, seen: bool)
    requires
        0 <= i <= ts.len(),
        all_wf(ts),
        fields_wf(acc),
    ensures
        parse_simple(ts, i, acc, seen) matches Ok((sc, j)) ==> fields_wf(sc),
    decreases ts.len() - i, 2int,
{
    if i < ts.len() {
        match ts[i] {
            TokenV::Word(w) => {
                assert(crate::lexprint::wf_word(w));
                if !seen && is_assignment_word(w) {
                    let n = name_end_from(w, 0);
                    lemma_name_end_bounds(w, 0);
                    assert(assignment_name(w) + seq!['='] + assignment_value(w) =~= w);
                    let acc2 = SimpleCmdV {
                        assignments: acc.assignments.push((assignment_name(w), assignment_value(w))),
                        ..acc
                    };
                    assert(fields_wf(acc2));
                    lemma_parse_simple_fields_wf(ts, i + 1, acc2, false);
                } else {
                    let acc2 = SimpleCmdV { words: acc.words.push(w), ..acc };
                    assert(fields_wf(acc2));
                    lemma_parse_simple_fields_wf(ts, i + 1, acc2, true);
                }
            },
            TokenV::Less(fd) => {
                assert(fd <= 9);
                lemma_parse_redirect_fields_wf(ts, i, acc, seen, fd, RedirKind::In);
            },
            TokenV::Great(fd) => {
                assert(fd <= 9);
                lemma_parse_redirect_fields_wf(ts, i, acc, seen, fd, RedirKind::OutTrunc);
            },
            TokenV::DGreat(fd) => {
                assert(fd <= 9);
                lemma_parse_redirect_fields_wf(ts, i, acc, seen, fd, RedirKind::OutAppend);
            },
            _ => {},
        }
    }
}

proof fn lemma_parse_redirect_fields_wf(
    ts: Seq<TokenV>,
    i: int,
    acc: SimpleCmdV,
    seen: bool,
    fd: u32,
    kind: RedirKind,
)
    requires
        0 <= i < ts.len(),
        all_wf(ts),
        fields_wf(acc),
        fd <= 9,
    ensures
        parse_redirect(ts, i, acc, seen, fd, kind) matches Ok((sc, j)) ==> fields_wf(sc),
    decreases ts.len() - i, 1int,
{
    if i + 1 < ts.len() && (ts[i + 1] matches TokenV::Word(_)) {
        let t = ts[i + 1]->Word_0;
        assert(crate::lexprint::wf_word(t));
        let acc2 = SimpleCmdV {
            redirects: acc.redirects.push(RedirectV { fd, kind, target: t }),
            ..acc
        };
        assert(fields_wf(acc2));
        lemma_parse_simple_fields_wf(ts, i + 2, acc2, seen);
    }
}

proof fn lemma_parse_pipeline_fields_wf(ts: Seq<TokenV>, i: int)
    requires
        0 <= i <= ts.len(),
        all_wf(ts),
    ensures
        parse_pipeline(ts, i) matches Ok((stages, k)) ==> forall|j: int|
            0 <= j < stages.len() ==> fields_wf(#[trigger] stages[j]),
    decreases ts.len() - i,
{
    crate::parser::lemma_parse_simple_bounds(ts, i, empty_simple(), false);
    lemma_parse_simple_fields_wf(ts, i, empty_simple(), false);
    if let Ok((sc, j)) = parse_simple(ts, i, empty_simple(), false) {
        if !is_empty_simple(sc) && j < ts.len() && ts[j] == TokenV::Pipe {
            lemma_parse_pipeline_fields_wf(ts, j + 1);
            if let Ok((rest, k)) = parse_pipeline(ts, j + 1) {
                assert(forall|x: int|
                    0 <= x < (seq![sc] + rest).len() ==> fields_wf(
                        #[trigger] (seq![sc] + rest)[x],
                    ));
            }
        }
    }
}

proof fn lemma_parse_chain_fields_wf(ts: Seq<TokenV>, i: int, conn: Connector)
    requires
        0 <= i <= ts.len(),
        all_wf(ts),
    ensures
        parse_chain(ts, i, conn) matches Ok((items, k)) ==> forall|j: int, x: int|
            0 <= j < items.len() && 0 <= x < (#[trigger] items[j]).stages.len() ==> fields_wf(
                #[trigger] items[j].stages[x],
            ),
    decreases ts.len() - i,
{
    crate::parser::lemma_parse_pipeline_bounds(ts, i);
    lemma_parse_pipeline_fields_wf(ts, i);
    if let Ok((stages, j)) = parse_pipeline(ts, i) {
        let item = SeqItemV { connector: conn, stages };
        if j < ts.len() && (ts[j] == TokenV::AndIf || ts[j] == TokenV::OrIf) {
            let c2 = if ts[j] == TokenV::AndIf {
                Connector::AndIf
            } else {
                Connector::OrIf
            };
            lemma_parse_chain_fields_wf(ts, j + 1, c2);
            if let Ok((items, k)) = parse_chain(ts, j + 1, c2) {
                assert(forall|y: int, x: int|
                    0 <= y < (seq![item] + items).len() && 0 <= x < (#[trigger] (seq![item]
                        + items)[y]).stages.len() ==> fields_wf(
                        #[trigger] (seq![item] + items)[y].stages[x],
                    ));
            }
        }
    }
}

proof fn lemma_parse_items_fields_wf(ts: Seq<TokenV>, i: int)
    requires
        0 <= i <= ts.len(),
        all_wf(ts),
    ensures
        parse_items(ts, i) matches Ok(items) ==> forall|j: int, x: int|
            0 <= j < items.len() && 0 <= x < (#[trigger] items[j]).stages.len() ==> fields_wf(
                #[trigger] items[j].stages[x],
            ),
    decreases ts.len() - i,
{
    if i < ts.len() {
        crate::parser::lemma_parse_chain_bounds(ts, i, Connector::Semi);
        lemma_parse_chain_fields_wf(ts, i, Connector::Semi);
        if let Ok((items, j)) = parse_chain(ts, i, Connector::Semi) {
            if j < ts.len() {
                lemma_parse_items_fields_wf(ts, j + 1);
                if let Ok(rest) = parse_items(ts, j + 1) {
                    assert(forall|y: int, x: int|
                        0 <= y < (items + rest).len() && 0 <= x < (#[trigger] (items
                            + rest)[y]).stages.len() ==> fields_wf(
                            #[trigger] (items + rest)[y].stages[x],
                        ));
                }
            }
        }
    }
}

proof fn lemma_toks_of_asgs_all_wf(asgs: Seq<(Seq<char>, Seq<char>)>, k: int)
    requires
        0 <= k <= asgs.len(),
        forall|x: int|
            0 <= x < asgs.len() ==> crate::lexprint::wf_word(
                (#[trigger] asgs[x]).0 + seq!['='] + asgs[x].1,
            ),
    ensures
        all_wf(toks_of_asgs(asgs, k)),
    decreases asgs.len() - k,
{
    if k < asgs.len() {
        lemma_toks_of_asgs_all_wf(asgs, k + 1);
        lemma_all_wf_concat(
            seq![TokenV::Word(asgs[k].0 + seq!['='] + asgs[k].1)],
            toks_of_asgs(asgs, k + 1),
        );
    }
}

proof fn lemma_toks_of_words_all_wf(ws: Seq<Seq<char>>, k: int)
    requires
        0 <= k <= ws.len(),
        forall|x: int| 0 <= x < ws.len() ==> crate::lexprint::wf_word(#[trigger] ws[x]),
    ensures
        all_wf(toks_of_words(ws, k)),
    decreases ws.len() - k,
{
    if k < ws.len() {
        lemma_toks_of_words_all_wf(ws, k + 1);
        lemma_all_wf_concat(seq![TokenV::Word(ws[k])], toks_of_words(ws, k + 1));
    }
}

proof fn lemma_toks_of_redirs_all_wf(rs: Seq<RedirectV>, k: int)
    requires
        0 <= k <= rs.len(),
        forall|x: int|
            0 <= x < rs.len() ==> crate::lexprint::wf_word((#[trigger] rs[x]).target) && rs[x].fd
                <= 9,
    ensures
        all_wf(toks_of_redirs(rs, k)),
    decreases rs.len() - k,
{
    if k < rs.len() {
        lemma_toks_of_redirs_all_wf(rs, k + 1);
        assert(all_wf(crate::render::toks_of_redirect(rs[k])));
        lemma_all_wf_concat(crate::render::toks_of_redirect(rs[k]), toks_of_redirs(rs, k + 1));
    }
}

proof fn lemma_toks_of_simple_all_wf(sc: SimpleCmdV)
    requires
        fields_wf(sc),
    ensures
        all_wf(toks_of_simple(sc)),
{
    lemma_toks_of_asgs_all_wf(sc.assignments, 0);
    lemma_toks_of_words_all_wf(sc.words, 0);
    lemma_toks_of_redirs_all_wf(sc.redirects, 0);
    lemma_all_wf_concat(toks_of_words(sc.words, 0), toks_of_redirs(sc.redirects, 0));
    lemma_all_wf_concat(
        toks_of_asgs(sc.assignments, 0),
        toks_of_words(sc.words, 0) + toks_of_redirs(sc.redirects, 0),
    );
}

proof fn lemma_toks_of_stages_all_wf(stages: Seq<SimpleCmdV>, k: int)
    requires
        0 <= k <= stages.len(),
        forall|x: int| 0 <= x < stages.len() ==> fields_wf(#[trigger] stages[x]),
    ensures
        all_wf(toks_of_stages(stages, k)),
    decreases stages.len() - k,
{
    if k < stages.len() {
        lemma_toks_of_stages_all_wf(stages, k + 1);
        lemma_toks_of_simple_all_wf(stages[k]);
        lemma_all_wf_concat(toks_of_simple(stages[k]), toks_of_stages(stages, k + 1));
        if k > 0 {
            lemma_all_wf_concat(
                seq![TokenV::Pipe],
                toks_of_simple(stages[k]) + toks_of_stages(stages, k + 1),
            );
        } else {
            assert(toks_of_stages(stages, k) =~= Seq::<TokenV>::empty() + (toks_of_simple(
                stages[k],
            ) + toks_of_stages(stages, k + 1)));
            lemma_all_wf_concat(
                Seq::<TokenV>::empty(),
                toks_of_simple(stages[k]) + toks_of_stages(stages, k + 1),
            );
        }
    }
}

proof fn lemma_toks_of_items_all_wf(items: Seq<SeqItemV>, k: int)
    requires
        0 <= k <= items.len(),
        forall|j: int, x: int|
            0 <= j < items.len() && 0 <= x < (#[trigger] items[j]).stages.len() ==> fields_wf(
                #[trigger] items[j].stages[x],
            ),
    ensures
        all_wf(toks_of_items(items, k)),
    decreases items.len() - k,
{
    if k < items.len() {
        lemma_toks_of_items_all_wf(items, k + 1);
        assert(forall|x: int|
            0 <= x < items[k].stages.len() ==> fields_wf(#[trigger] items[k].stages[x]));
        lemma_toks_of_stages_all_wf(items[k].stages, 0);
        lemma_all_wf_concat(toks_of_stages(items[k].stages, 0), toks_of_items(items, k + 1));
        if k > 0 {
            lemma_all_wf_concat(
                seq![conn_token(items[k].connector)],
                toks_of_stages(items[k].stages, 0) + toks_of_items(items, k + 1),
            );
        } else {
            assert(toks_of_items(items, k) =~= Seq::<TokenV>::empty() + (toks_of_stages(
                items[k].stages,
                0,
            ) + toks_of_items(items, k + 1)));
            lemma_all_wf_concat(
                Seq::<TokenV>::empty(),
                toks_of_stages(items[k].stages, 0) + toks_of_items(items, k + 1),
            );
        }
    }
}

/// The whole semantic round trip, with nothing assumed: any line that
/// tokenizes and parses serializes to text that tokenizes back to the
/// same tokens and parses back to the same tree.
pub proof fn theorem_lex_parse_serialize_roundtrip(text: Seq<char>, ts: Seq<TokenV>, c: CmdV)
    requires
        crate::lexer::spec_lex(text) == Ok::<Seq<TokenV>, crate::lexer::LexError>(ts),
        spec_parse(ts) == Ok::<CmdV, ParseError>(c),
    ensures
        crate::lexer::spec_lex(crate::render::render_toks(toks_of_cmd(c))) == Ok::<
            Seq<TokenV>,
            crate::lexer::LexError,
        >(toks_of_cmd(c)),
        spec_parse(toks_of_cmd(c)) == Ok::<CmdV, ParseError>(c),
{
    crate::lexprint::theorem_lex_output_wf(text, ts);
    lemma_parse_output_wf(ts, c);
    lemma_parse_items_fields_wf(ts, 0);
    if let Ok(items) = parse_items(ts, 0) {
        lemma_items_to_cmd_canonical(items);
        assert(cmd_items(c) == items);
        lemma_toks_of_items_all_wf(items, 0);
        assert(all_wf(toks_of_cmd(c)));
    }
    theorem_serialize_roundtrip(c);
}

} // verus!
