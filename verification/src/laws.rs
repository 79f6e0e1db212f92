//! The converter's general properties, stated over the ghost models and
//! proved for all inputs: the emitted document always has a single root,
//! nesting and sibling order are carried over exactly, list arity is kept,
//! and trimming only ever removes surrounding whitespace.
use vstd::prelude::*;
use crate::emit::node_model_of;
use crate::emit::node_models_of;
use crate::emit::lemma_node_models_of_len;
use crate::parse::excess;
use crate::parse::flat_forest;
use crate::parse::flat_item;
use crate::parse::lemma_excess_concat;
use crate::parse::lemma_flat_forest_balanced;
use crate::parse::lemma_flat_item_len;
use crate::parse::lemma_min_excess_prefix;
use crate::parse::lemma_single_tok;
use crate::parse::min_excess;
use crate::text::find_at;
use crate::text::is_space;
use crate::text::split_at_char;
use crate::text::trim;
use crate::text::trim_back;
use crate::text::trim_front;
use crate::token::LineClass;
use crate::token::TokModel;
use crate::token::classify_line;
use crate::token::doc_lex_ok;
use crate::token::doc_lines;
use crate::token::doc_toks;
use crate::token::lex_ok;
use crate::token::line_toks;
use crate::tree::StructureModel;
use crate::tree::ValueModel;

verus! {

/// The number of leading whitespace characters of `s`.
pub open spec fn lead_spaces(s: Seq<char>) -> nat
    decreases s.len(),
{
    if s.len() == 0 {
        0
    } else if is_space(s[0]) {
        1 + lead_spaces(s.drop_first())
    } else {
        0
    }
}

/// The number of trailing whitespace characters of `s`.
pub open spec fn trail_spaces(s: Seq<char>) -> nat
    decreases s.len(),
{
    if s.len() == 0 {
        0
    } else if is_space(s.last()) {
        1 + trail_spaces(s.drop_last())
    } else {
        0
    }
}

proof fn lemma_trim_front_shape(s: Seq<char>)
    ensures
        lead_spaces(s) <= s.len(),
        trim_front(s) == s.subrange(lead_spaces(s) as int, s.len() as int),
        forall|k: int| 0 <= k < lead_spaces(s) ==> is_space(s[k]),
        trim_front(s).len() > 0 ==> !is_space(trim_front(s)[0]),
    decreases s.len(),
{
    if s.len() == 0 {
        assert(s.subrange(0, 0) =~= s);
    } else if is_space(s[0]) {
        lemma_trim_front_shape(s.drop_first());
        assert(s.drop_first().subrange(
            lead_spaces(s.drop_first()) as int,
            s.drop_first().len() as int,
        ) =~= s.subrange(lead_spaces(s) as int, s.len() as int));
        assert forall|k: int| 0 <= k < lead_spaces(s) implies is_space(s[k]) by {
            if k > 0 {
                assert(s.drop_first()[k - 1] == s[k]);
            }
        }
    } else {
        assert(s.subrange(0, s.len() as int) =~= s);
    }
}

proof fn lemma_trim_back_shape(s: Seq<char>)
    ensures
        trail_spaces(s) <= s.len(),
        trim_back(s) == s.subrange(0, s.len() - trail_spaces(s)),
        forall|k: int| s.len() - trail_spaces(s) <= k < s.len() ==> is_space(s[k]),
        trim_back(s).len() > 0 ==> !is_space(trim_back(s).last()),
    decreases s.len(),
{
    if s.len() == 0 {
        assert(s.subrange(0, 0) =~= s);
    } else if is_space(s.last()) {
        lemma_trim_back_shape(s.drop_last());
        assert(s.drop_last().subrange(0, s.drop_last().len() - trail_spaces(s.drop_last()))
            =~= s.subrange(0, s.len() - trail_spaces(s)));
        assert forall|k: int| s.len() - trail_spaces(s) <= k < s.len() implies is_space(
            s[k],
        ) by {
            if k < s.len() - 1 {
                assert(s.drop_last()[k] == s[k]);
            }
        }
    } else {
        assert(s.subrange(0, s.len() as int) =~= s);
    }
}

/// Text fidelity: a trimmed value is a contiguous substring of its source
/// text — only surrounding whitespace is removed, and every removed
/// character is whitespace; no character of the kept part changes.
pub proof fn lemma_text_fidelity(s: Seq<char>)
    ensures
        lead_spaces(s) + trim(s).len() <= s.len(),
        trim(s) == s.subrange(lead_spaces(s) as int, lead_spaces(s) + trim(s).len() as int),
        forall|k: int| 0 <= k < lead_spaces(s) ==> is_space(s[k]),
        forall|k: int| lead_spaces(s) + trim(s).len() <= k < s.len() ==> is_space(s[k]),
{
    lemma_trim_front_shape(s);
    let u = trim_front(s);
    lemma_trim_back_shape(u);
    let a = lead_spaces(s) as int;
    assert(u.subrange(0, u.len() - trail_spaces(u)) =~= s.subrange(
        a,
        a + u.len() - trail_spaces(u),
    ));
    assert forall|k: int| a + trim(s).len() <= k < s.len() implies is_space(s[k]) by {
        assert(s[k] == u[k - a]);
    }
}

/// Trimming is idempotent: a value that has already been trimmed is left
/// exactly as it is.
pub proof fn lemma_trim_idempotent(s: Seq<char>)
    ensures
        trim(trim(s)) == trim(s),
{
    lemma_trim_front_shape(s);
    let u = trim_front(s);
    lemma_trim_back_shape(u);
    let t = trim(s);
    if t.len() > 0 {
        assert(t[0] == u[0]);
        assert(!is_space(t[0]));
        assert(trim_front(t) == t);
        assert(!is_space(t.last()));
        assert(trim_back(t) == t);
    } else {
        assert(trim_front(t) == t);
        assert(trim_back(t) == t);
    }
}

/// Round-trip structure: whatever the top-level items, the emitted KDL
/// document holds exactly one root node — the synthetic aggregate named
/// "file" — and that root wraps all the items as its children, so two
/// independent top-level blocks still yield a single root.
pub proof fn lemma_single_root(items: Seq<StructureModel>)
    ensures
        seq![node_model_of(StructureModel::Agg("file"@, items))].len() == 1,
        seq![node_model_of(StructureModel::Agg("file"@, items))][0].name == "file"@,
        items.len() > 0 ==> seq![node_model_of(StructureModel::Agg("file"@, items))][0].children
            == Option::Some(node_models_of(items)),
        items.len() == 0 ==> seq![node_model_of(StructureModel::Agg("file"@, items))][0].children
            is None,
{
}

/// Nesting fidelity and order preservation: a block holding M items is
/// emitted as a node whose children block holds exactly M nodes, and for
/// every position the node at that position is emitted from the item at
/// the same position — sibling order is preserved, recursively.
pub proof fn lemma_nesting_fidelity(name: Seq<char>, cs: Seq<StructureModel>)
    requires
        cs.len() > 0,
    ensures
        node_model_of(StructureModel::Agg(name, cs)).children == Option::Some(node_models_of(cs)),
        node_models_of(cs).len() == cs.len(),
        forall|i: int|
            0 <= i < cs.len() ==> #[trigger] node_models_of(cs)[i] == node_model_of(cs[i]),
{
    lemma_node_models_of_len(cs);
}

/// Unique readability, and with it determinism: two forests with the same
/// flattening are the same forest, so the intermediate tree of any
/// well-formed source document — and with it the emitted document — is
/// unique for that document's token stream.
pub proof fn lemma_flat_forest_injective(a: Seq<StructureModel>, b: Seq<StructureModel>)
    requires
        flat_forest(a) == flat_forest(b),
    ensures
        a == b,
    decreases flat_forest(a).len(),
{
    let fa = flat_forest(a);
    let fb = flat_forest(b);
    if a.len() == 0 {
        if b.len() != 0 {
            lemma_flat_item_len(b[0]);
            assert(fb.len() >= 1);
            assert(false);
        }
        assert(a =~= b);
    } else if b.len() == 0 {
        lemma_flat_item_len(a[0]);
        assert(fa.len() >= 1);
        assert(false);
    } else {
        let x = a[0];
        let y = b[0];
        let ra = a.drop_first();
        let rb = b.drop_first();
        lemma_flat_item_len(x);
        lemma_flat_item_len(y);
        match (x, y) {
            (StructureModel::Pair(k1, v1), StructureModel::Pair(k2, v2)) => {
                assert(fa[0] == TokModel::PairTok(k1, v1));
                assert(fb[0] == TokModel::PairTok(k2, v2));
                assert(k1 == k2 && v1 == v2);
                assert(flat_forest(ra) =~= fa.subrange(1, fa.len() as int));
                assert(flat_forest(rb) =~= fb.subrange(1, fb.len() as int));
                lemma_flat_forest_injective(ra, rb);
                assert(x == y);
                assert forall|m: int| 0 <= m < a.len() implies a[m] == b[m] by {
                    if m > 0 {
                        assert(a[m] == ra[m - 1]);
                        assert(b[m] == rb[m - 1]);
                    }
                }
                assert(a =~= b);
            },
            (StructureModel::Agg(n1, cs), StructureModel::Agg(n2, ds)) => {
                assert(fa[0] == TokModel::Open(n1));
                assert(fb[0] == TokModel::Open(n2));
                assert(n1 == n2);
                let u = flat_forest(cs);
                let v = flat_forest(ds);
                let s = fa.subrange(1, fa.len() as int);
                assert(flat_item(x) == seq![TokModel::Open(n1)] + u + seq![TokModel::Close]);
                assert(flat_item(y) == seq![TokModel::Open(n2)] + v + seq![TokModel::Close]);
                assert(s =~= u + (seq![TokModel::Close] + flat_forest(ra)));
                assert(s =~= v + (seq![TokModel::Close] + flat_forest(rb)));
                lemma_flat_forest_balanced(cs);
                lemma_flat_forest_balanced(ds);
                assert forall|m: int| 0 <= m < u.len() && m < v.len() implies u[m] == v[m] by {
                    assert(s[m] == u[m]);
                    assert(s[m] == v[m]);
                }
                if u.len() < v.len() {
                    assert(v[u.len() as int] == s[u.len() as int]);
                    assert(s[u.len() as int] == (seq![TokModel::Close] + flat_forest(ra))[0]);
                    assert(v[u.len() as int] == TokModel::Close);
                    assert(v.subrange(0, u.len() as int + 1) =~= u + seq![TokModel::Close]);
                    lemma_excess_concat(u, seq![TokModel::Close]);
                    lemma_single_tok(TokModel::Close);
                    assert(excess(v.subrange(0, u.len() as int + 1)) == -1);
                    lemma_min_excess_prefix(v, u.len() as int + 1);
                    assert(min_excess(v) <= -1);
                    assert(false);
                }
                if v.len() < u.len() {
                    assert(u[v.len() as int] == s[v.len() as int]);
                    assert(s[v.len() as int] == (seq![TokModel::Close] + flat_forest(rb))[0]);
                    assert(u[v.len() as int] == TokModel::Close);
                    assert(u.subrange(0, v.len() as int + 1) =~= v + seq![TokModel::Close]);
                    lemma_excess_concat(v, seq![TokModel::Close]);
                    lemma_single_tok(TokModel::Close);
                    assert(excess(u.subrange(0, v.len() as int + 1)) == -1);
                    lemma_min_excess_prefix(u, v.len() as int + 1);
                    assert(min_excess(u) <= -1);
                    assert(false);
                }
                assert(u.len() == v.len());
                assert(u =~= v);
                assert(u.len() + 2 <= fa.len());
                lemma_flat_forest_injective(cs, ds);
                assert(flat_forest(ra) =~= s.subrange(u.len() as int + 1, s.len() as int));
                assert(flat_forest(rb) =~= s.subrange(v.len() as int + 1, s.len() as int));
                lemma_flat_forest_injective(ra, rb);
                assert(x == y);
                assert forall|m: int| 0 <= m < a.len() implies a[m] == b[m] by {
                    if m > 0 {
                        assert(a[m] == ra[m - 1]);
                        assert(b[m] == rb[m - 1]);
                    }
                }
                assert(a =~= b);
            },
            (StructureModel::Pair(_, _), StructureModel::Agg(_, _)) => {
                assert(fa[0] is PairTok && fb[0] is Open);
                assert(false);
            },
            (StructureModel::Agg(_, _), StructureModel::Pair(_, _)) => {
                assert(fa[0] is Open && fb[0] is PairTok);
                assert(false);
            },
        }
    }
}

/// Whether a pair's payload obeys the grammar invariants: a scalar is
/// nonempty and trimmed; a list has at least two values, each nonempty
/// and trimmed.
pub open spec fn value_wf(v: ValueModel) -> bool {
    match v {
        ValueModel::Single(x) => trim(x) == x && x.len() > 0,
        ValueModel::List(xs) => xs.len() >= 2 && forall|i: int|
            0 <= i < xs.len() ==> trim(#[trigger] xs[i]) == xs[i] && xs[i].len() > 0,
    }
}

/// Whether a token obeys the grammar invariants: names and keys are
/// nonempty and trimmed, and values obey `value_wf`.
pub open spec fn tok_wf(t: TokModel) -> bool {
    match t {
        TokModel::Open(n) => trim(n) == n && n.len() > 0,
        TokModel::Close => true,
        TokModel::PairTok(k, v) => trim(k) == k && k.len() > 0 && value_wf(v),
    }
}

/// Whether a tree item obeys the grammar invariants, recursively.
pub open spec fn item_wf(t: StructureModel) -> bool
    decreases t,
{
    match t {
        StructureModel::Pair(k, v) => trim(k) == k && k.len() > 0 && value_wf(v),
        StructureModel::Agg(n, cs) => trim(n) == n && n.len() > 0 && forest_wf(cs),
    }
}

/// Whether every item of a forest obeys the grammar invariants.
pub open spec fn forest_wf(ts: Seq<StructureModel>) -> bool
    decreases ts,
{
    if ts.len() == 0 {
        true
    } else {
        item_wf(ts[0]) && forest_wf(ts.drop_first())
    }
}

proof fn lemma_trim_keeps_nonspace_head(u: Seq<char>)
    requires
        u.len() > 0,
        !is_space(u[0]),
    ensures
        trim(u).len() > 0,
{
    lemma_trim_front_shape(u);
    assert(lead_spaces(u) == 0);
    assert(u.subrange(0, u.len() as int) =~= u);
    assert(trim_front(u) == u);
    lemma_trim_back_shape(u);
    if trail_spaces(u) == u.len() {
        assert(is_space(u[0]));
    }
}

proof fn lemma_trim_head_nonspace(line: Seq<char>)
    requires
        trim(line).len() > 0,
    ensures
        !is_space(trim(line)[0]),
{
    lemma_trim_front_shape(line);
    let u = trim_front(line);
    lemma_trim_back_shape(u);
    assert(trim(line)[0] == u[0]);
}

/// Every token a line classifies to obeys the grammar invariants.
proof fn lemma_classify_wf(line: Seq<char>)
    ensures
        classify_line(line) matches LineClass::Tok(t) ==> tok_wf(t),
{
    let t = trim(line);
    let f = find_at(t, '=') as int;
    if t.len() == 0 {
    } else if t.len() == 1 && t[0] == '.' {
    } else if f < t.len() {
        match classify_line(line) {
            LineClass::Tok(TokModel::PairTok(key, v)) => {
                lemma_trim_idempotent(t.subrange(0, f));
                let segs = split_at_char(t.subrange(f + 1, t.len() as int), ',');
                let vals = segs.map_values(|g: Seq<char>| trim(g));
                assert(segs.len() >= 1);
                assert forall|i: int| 0 <= i < vals.len() implies trim(#[trigger] vals[i])
                    == vals[i] by {
                    lemma_trim_idempotent(segs[i]);
                }
                assert(forall|i: int|
                    0 <= i < vals.len() ==> #[trigger] vals[i].len() != 0);
            },
            _ => {},
        }
    } else if t[t.len() - 1] == '.' {
        let u = t.subrange(0, t.len() - 1);
        lemma_trim_idempotent(u);
        lemma_trim_head_nonspace(line);
        assert(u[0] == t[0]);
        lemma_trim_keeps_nonspace_head(u);
    } else {
    }
}

/// Every token of a lexically valid document obeys the grammar invariants.
proof fn lemma_line_toks_wf(lines: Seq<Seq<char>>)
    requires
        lex_ok(lines),
    ensures
        forall|i: int| 0 <= i < line_toks(lines).len() ==> tok_wf(#[trigger] line_toks(lines)[i]),
    decreases lines.len(),
{
    if lines.len() > 0 {
        assert forall|k: int| 0 <= k < lines.drop_first().len() implies !(#[trigger] classify_line(
            lines.drop_first()[k],
        ) is Faulty) by {
            assert(lines.drop_first()[k] == lines[k + 1]);
        }
        lemma_line_toks_wf(lines.drop_first());
        lemma_classify_wf(lines[0]);
        match classify_line(lines[0]) {
            LineClass::Tok(t0) => {
                assert(line_toks(lines) == seq![t0] + line_toks(lines.drop_first()));
                assert forall|i: int| 0 <= i < line_toks(lines).len() implies tok_wf(
                    #[trigger] line_toks(lines)[i],
                ) by {
                    if i > 0 {
                        assert(line_toks(lines)[i] == line_toks(lines.drop_first())[i - 1]);
                    }
                }
            },
            _ => {
                assert(line_toks(lines) == line_toks(lines.drop_first()));
            },
        }
    }
}

/// A forest whose flattening holds only well-formed tokens is itself
/// well formed.
proof fn lemma_flat_wf_item(t: StructureModel)
    requires
        forall|i: int| 0 <= i < flat_item(t).len() ==> tok_wf(#[trigger] flat_item(t)[i]),
    ensures
        item_wf(t),
    decreases t,
{
    match t {
        StructureModel::Pair(_, _) => {
            assert(tok_wf(flat_item(t)[0]));
        },
        StructureModel::Agg(n, cs) => {
            assert(tok_wf(flat_item(t)[0]));
            let mid = flat_forest(cs);
            assert forall|j: int| 0 <= j < mid.len() implies tok_wf(#[trigger] mid[j]) by {
                assert(flat_item(t)[j + 1] == mid[j]);
            }
            lemma_flat_wf_forest(cs);
        },
    }
}

proof fn lemma_flat_wf_forest(ts: Seq<StructureModel>)
    requires
        forall|i: int| 0 <= i < flat_forest(ts).len() ==> tok_wf(#[trigger] flat_forest(ts)[i]),
    ensures
        forest_wf(ts),
    decreases ts,
{
    if ts.len() > 0 {
        let head = flat_item(ts[0]);
        let rest = flat_forest(ts.drop_first());
        assert forall|j: int| 0 <= j < head.len() implies tok_wf(#[trigger] head[j]) by {
            assert(flat_forest(ts)[j] == head[j]);
        }
        assert forall|j: int| 0 <= j < rest.len() implies tok_wf(#[trigger] rest[j]) by {
            assert(flat_forest(ts)[head.len() + j] == rest[j]);
        }
        lemma_flat_wf_item(ts[0]);
        lemma_flat_wf_forest(ts.drop_first());
    }
}

/// Grammar invariants of every parse result: in the tree of a lexically
/// valid document, every block name and key is nonempty and carries no
/// surrounding whitespace, every scalar value is nonempty and trimmed,
/// and every list holds at least two values, each nonempty and trimmed.
pub proof fn lemma_parse_result_wf(s: Seq<char>, items: Seq<StructureModel>)
    requires
        doc_lex_ok(s),
        flat_forest(items) == doc_toks(s),
    ensures
        forest_wf(items),
{
    lemma_line_toks_wf(doc_lines(s));
    lemma_flat_wf_forest(items);
}

/// List arity: a pair with a list of N values is emitted with exactly N
/// string arguments, each equal to the corresponding value in order, and a
/// pair with a single value is emitted with exactly one argument.
pub proof fn lemma_list_arity(k: Seq<char>, vs: Seq<Seq<char>>, v: Seq<char>)
    ensures
        node_model_of(StructureModel::Pair(k, ValueModel::List(vs))).args == vs,
        node_model_of(StructureModel::Pair(k, ValueModel::List(vs))).args.len() == vs.len(),
        node_model_of(StructureModel::Pair(k, ValueModel::Single(v))).args == seq![v],
        node_model_of(StructureModel::Pair(k, ValueModel::Single(v))).args.len() == 1,
{
}

} // verus!
