//! The structural layer of the grammar: matching open and close markers.
//! The token stream of a well-formed document is exactly the flattening of
//! one forest of blocks and pairs; the parser rebuilds that forest and
//! wraps it in a single synthetic root aggregate named "file".
use vstd::prelude::*;
use vstd::string::StringExecFns;
use crate::error::ErrorKind;
use crate::error::GrammarError;
use crate::text::chars_of;
use crate::token::LineClass;
use crate::token::TokModel;
use crate::token::Token;
use crate::token::TokenKind;
use crate::token::classify_line;
use crate::token::doc_lex_ok;
use crate::token::doc_lines;
use crate::token::doc_toks;
use crate::token::first_faulty;
use crate::token::lex;
use crate::token::tok_views;
use crate::tree::Structure;
use crate::tree::StructureModel;
use crate::tree::lemma_models_of_push;
use crate::tree::model_of;
use crate::tree::models_of;

verus! {

broadcast use vstd::seq::axiom_seq_index_decreases, vstd::seq::axiom_seq_subrange_decreases;

/// The nesting contribution of one token: an open marker opens a block, a
/// close marker closes one, a pair changes nothing.
pub open spec fn delta(t: TokModel) -> int {
    match t {
        TokModel::Open(_) => 1,
        TokModel::Close => -1,
        TokModel::PairTok(_, _) => 0,
    }
}

/// Opens minus closes over the whole token sequence.
pub open spec fn excess(s: Seq<TokModel>) -> int
    decreases s.len(),
{
    if s.len() == 0 {
        0
    } else {
        delta(s[0]) + excess(s.drop_first())
    }
}

/// The smallest value of `excess` over all prefixes of `s`. It is negative
/// exactly when some close marker has no earlier matching open marker.
pub open spec fn min_excess(s: Seq<TokModel>) -> int
    decreases s.len(),
{
    if s.len() == 0 {
        0
    } else {
        vstd::math::min(0, delta(s[0]) + min_excess(s.drop_first()))
    }
}

/// The token stream a tree item came from: a pair is one token, a block is
/// its open marker, its flattened children, and its close marker.
pub open spec fn flat_item(t: StructureModel) -> Seq<TokModel>
    decreases t,
{
    match t {
        StructureModel::Pair(k, v) => seq![TokModel::PairTok(k, v)],
        StructureModel::Agg(n, cs) => seq![TokModel::Open(n)] + flat_forest(cs) + seq![
            TokModel::Close,
        ],
    }
}

/// The token stream a forest of tree items came from, in order.
pub open spec fn flat_forest(ts: Seq<StructureModel>) -> Seq<TokModel>
    decreases ts,
{
    if ts.len() == 0 {
        Seq::empty()
    } else {
        flat_item(ts[0]) + flat_forest(ts.drop_first())
    }
}

/// A source text is well formed when every line obeys the line grammar,
/// there is at least one block or pair, no close marker lacks a matching
/// open marker before it, and the markers balance over the whole text.
pub open spec fn well_formed(s: Seq<char>) -> bool {
    &&& doc_lex_ok(s)
    &&& doc_toks(s).len() > 0
    &&& min_excess(doc_toks(s)) >= 0
    &&& excess(doc_toks(s)) == 0
}

pub proof fn lemma_excess_concat(a: Seq<TokModel>, b: Seq<TokModel>)
    ensures
        excess(a + b) == excess(a) + excess(b),
    decreases a.len(),
{
    if a.len() == 0 {
        assert(a + b =~= b);
    } else {
        lemma_excess_concat(a.drop_first(), b);
        assert((a + b).drop_first() =~= a.drop_first() + b);
        assert((a + b)[0] == a[0]);
    }
}

pub proof fn lemma_min_excess_concat(a: Seq<TokModel>, b: Seq<TokModel>)
    ensures
        min_excess(a + b) == vstd::math::min(min_excess(a), excess(a) + min_excess(b)),
    decreases a.len(),
{
    if a.len() == 0 {
        assert(a + b =~= b);
    } else {
        lemma_min_excess_concat(a.drop_first(), b);
        lemma_excess_concat(a.drop_first(), b);
        assert((a + b).drop_first() =~= a.drop_first() + b);
        assert((a + b)[0] == a[0]);
    }
}

pub proof fn lemma_single_tok(tk: TokModel)
    ensures
        excess(seq![tk]) == delta(tk),
        min_excess(seq![tk]) == vstd::math::min(0, delta(tk)),
{
    assert(seq![tk].drop_first() =~= Seq::<TokModel>::empty());
    assert(excess(Seq::<TokModel>::empty()) == 0);
    assert(min_excess(Seq::<TokModel>::empty()) == 0);
}

pub proof fn lemma_min_excess_le_zero(s: Seq<TokModel>)
    ensures
        min_excess(s) <= 0,
{
    if s.len() == 0 {
    } else {
    }
}

pub proof fn lemma_min_le_excess(s: Seq<TokModel>)
    ensures
        min_excess(s) <= excess(s),
    decreases s.len(),
{
    if s.len() > 0 {
        lemma_min_le_excess(s.drop_first());
    }
}

/// The prefix minimum bounds the running excess at every cut.
pub proof fn lemma_min_excess_prefix(s: Seq<TokModel>, k: int)
    requires
        0 <= k <= s.len(),
    ensures
        min_excess(s) <= excess(s.subrange(0, k)),
{
    let pre = s.subrange(0, k);
    let suf = s.subrange(k, s.len() as int);
    assert(s =~= pre + suf);
    lemma_min_excess_concat(pre, suf);
    lemma_min_le_excess(pre);
    lemma_min_excess_le_zero(suf);
}

pub proof fn lemma_flat_item_len(t: StructureModel)
    ensures
        flat_item(t).len() >= 1,
{
    match t {
        StructureModel::Pair(_, _) => {},
        StructureModel::Agg(_, _) => {},
    }
}

/// The flattening of any single tree item has balancing markers, and no
/// prefix of it closes more blocks than it has opened.
pub proof fn lemma_flat_item_balanced(t: StructureModel)
    ensures
        excess(flat_item(t)) == 0,
        min_excess(flat_item(t)) >= 0,
    decreases t,
{
    match t {
        StructureModel::Pair(k, v) => {
            lemma_single_tok(TokModel::PairTok(k, v));
        },
        StructureModel::Agg(n, cs) => {
            lemma_flat_forest_balanced(cs);
            let op = seq![TokModel::Open(n)];
            let cl = seq![TokModel::Close];
            let mid = flat_forest(cs);
            lemma_single_tok(TokModel::Open(n));
            lemma_single_tok(TokModel::Close);
            assert(excess(op) == 1 && min_excess(op) == 0);
            assert(excess(cl) == -1 && min_excess(cl) == -1);
            assert(flat_item(t) == (op + mid) + cl);
            lemma_excess_concat(op, mid);
            lemma_excess_concat(op + mid, cl);
            lemma_min_excess_concat(op, mid);
            lemma_min_excess_concat(op + mid, cl);
        },
    }
}

/// The flattening of any forest has balancing markers, and no prefix of it
/// closes more blocks than it has opened.
pub proof fn lemma_flat_forest_balanced(ts: Seq<StructureModel>)
    ensures
        excess(flat_forest(ts)) == 0,
        min_excess(flat_forest(ts)) >= 0,
    decreases ts,
{
    if ts.len() == 0 {
    } else {
        lemma_flat_item_balanced(ts[0]);
        lemma_flat_forest_balanced(ts.drop_first());
        lemma_excess_concat(flat_item(ts[0]), flat_forest(ts.drop_first()));
        lemma_min_excess_concat(flat_item(ts[0]), flat_forest(ts.drop_first()));
    }
}

pub proof fn lemma_flat_forest_push(ts: Seq<StructureModel>, x: StructureModel)
    ensures
        flat_forest(ts.push(x)) == flat_forest(ts) + flat_item(x),
    decreases ts.len(),
{
    if ts.len() == 0 {
        assert(ts.push(x).drop_first() =~= Seq::<StructureModel>::empty());
        assert(ts.push(x)[0] == x);
        assert(flat_forest(Seq::<StructureModel>::empty()) == Seq::<TokModel>::empty());
        assert(flat_forest(ts.push(x)) =~= flat_forest(ts) + flat_item(x));
    } else {
        lemma_flat_forest_push(ts.drop_first(), x);
        assert(ts.push(x).drop_first() =~= ts.drop_first().push(x));
        assert(ts.push(x)[0] == ts[0]);
        assert(flat_forest(ts.push(x)) == flat_item(ts[0]) + (flat_forest(ts.drop_first())
            + flat_item(x)));
        assert(flat_forest(ts.push(x)) =~= flat_forest(ts) + flat_item(x));
    }
}

/// Builds the forest of items from token position `i` up to the first
/// unmatched close marker or the end of the stream. On success the
/// flattening of the returned items is exactly the consumed token range.
/// It fails exactly when some block opened at or after `i` is never closed.
fn parse_items(toks: &Vec<Token>, i: usize) -> (r: Result<(Vec<Structure>, usize), GrammarError>)
    requires
        i <= toks@.len(),
    ensures
        r matches Ok(p) ==> i <= p.1 <= toks@.len() && flat_forest(models_of(p.0@)) == tok_views(
            toks@,
        ).subrange(i as int, p.1 as int) && (p.1 < toks@.len() ==> tok_views(toks@)[p.1 as int]
            is Close),
        r matches Err(e) ==> e.kind == ErrorKind::UnclosedBlock && min_excess(
            tok_views(toks@).subrange(i as int, toks@.len() as int),
        ) >= 0 && excess(tok_views(toks@).subrange(i as int, toks@.len() as int)) > 0,
    decreases toks@.len() - i,
{
    let ghost t = tok_views(toks@);
    let n = toks.len();
    let mut items: Vec<Structure> = Vec::new();
    let mut j: usize = i;
    proof {
        assert(t.subrange(i as int, i as int) =~= Seq::<TokModel>::empty());
        assert(models_of(items@) =~= Seq::<StructureModel>::empty());
    }
    loop
        invariant
            n == toks@.len(),
            t == tok_views(toks@),
            i <= j <= n,
            flat_forest(models_of(items@)) == t.subrange(i as int, j as int),
        ensures
            n == toks@.len(),
            t == tok_views(toks@),
            i <= j <= n,
            flat_forest(models_of(items@)) == t.subrange(i as int, j as int),
            j == n || t[j as int] is Close,
        decreases n - j,
    {
        if j == n {
            break ;
        }
        let ghost pre = t.subrange(i as int, j as int);
        match &toks[j].kind {
            TokenKind::Close => {
                break ;
            },
            TokenKind::Pair(k, v) => {
                let item = Structure::Pair(k.clone(), v.clone());
                proof {
                    assert(t[j as int] == TokModel::PairTok(k@, v@));
                    assert(model_of(item) == StructureModel::Pair(k@, v@));
                    lemma_models_of_push(items@, item);
                    lemma_flat_forest_push(models_of(items@), model_of(item));
                    assert(flat_item(model_of(item)) =~= seq![t[j as int]]);
                    assert(pre + seq![t[j as int]] =~= t.subrange(i as int, j + 1));
                }
                items.push(item);
                j += 1;
            },
            TokenKind::Open(name) => {
                let open_line = toks[j].line_no;
                proof {
                    assert(t[j as int] == TokModel::Open(name@));
                }
                match parse_items(toks, j + 1) {
                    Err(e) => {
                        proof {
                            let op = seq![t[j as int]];
                            let suf = t.subrange(j + 1, n as int);
                            lemma_single_tok(t[j as int]);
                            assert(excess(op) == 1 && min_excess(op) == 0);
                            lemma_excess_concat(op, suf);
                            lemma_min_excess_concat(op, suf);
                            lemma_flat_forest_balanced(models_of(items@));
                            lemma_excess_concat(pre, op + suf);
                            lemma_min_excess_concat(pre, op + suf);
                            assert(t.subrange(i as int, n as int) =~= pre + (op + suf));
                        }
                        return Err(e);
                    },
                    Ok((children, j2)) => {
                        if j2 == n {
                            proof {
                                let op = seq![t[j as int]];
                                let suf = t.subrange(j + 1, n as int);
                                assert(flat_forest(models_of(children@)) == suf);
                                lemma_flat_forest_balanced(models_of(children@));
                                lemma_single_tok(t[j as int]);
                                assert(excess(op) == 1 && min_excess(op) == 0);
                                lemma_excess_concat(op, suf);
                                lemma_min_excess_concat(op, suf);
                                lemma_flat_forest_balanced(models_of(items@));
                                lemma_excess_concat(pre, op + suf);
                                lemma_min_excess_concat(pre, op + suf);
                                assert(t.subrange(i as int, n as int) =~= pre + (op + suf));
                            }
                            return Err(
                                GrammarError { line: open_line, kind: ErrorKind::UnclosedBlock },
                            );
                        }
                        let item = Structure::Struct(name.clone(), children);
                        proof {
                            let children_ghost = match item {
                                Structure::Struct(_, ref cs) => cs@,
                                _ => Seq::empty(),
                            };
                            assert(t[j2 as int] == TokModel::Close);
                            assert(model_of(item) == StructureModel::Agg(
                                name@,
                                models_of(children_ghost),
                            ));
                            assert(flat_forest(models_of(children_ghost)) == t.subrange(
                                j + 1,
                                j2 as int,
                            ));
                            lemma_models_of_push(items@, item);
                            lemma_flat_forest_push(models_of(items@), model_of(item));
                            assert(flat_item(model_of(item)) =~= seq![t[j as int]] + t.subrange(
                                j + 1,
                                j2 as int,
                            ) + seq![t[j2 as int]]);
                            assert(pre + flat_item(model_of(item)) =~= t.subrange(
                                i as int,
                                j2 + 1,
                            ));
                        }
                        items.push(item);
                        j = j2 + 1;
                    },
                }
            },
        }
    }
    Ok((items, j))
}

/// Parses a whole source document into the intermediate tree: a single
/// root aggregate named "file" whose children are the top-level blocks and
/// pairs, in source order. Succeeds exactly on well-formed input; on any
/// other input it reports the grammar fault.
pub fn parse_oud2(input: &str) -> (r: Result<Structure, GrammarError>)
    ensures
        r is Ok <==> well_formed(input@),
        r matches Ok(root) ==> root@ matches StructureModel::Agg(name, items) && name == "file"@
            && flat_forest(items) == doc_toks(input@),
        r matches Err(e) ==> !doc_lex_ok(input@) ==> e.line == first_faulty(doc_lines(input@)) + 1
            && classify_line(doc_lines(input@)[first_faulty(doc_lines(input@))])
            == LineClass::Faulty(e.kind),
        r matches Err(e) ==> doc_lex_ok(input@) && doc_toks(input@).len() == 0 ==> e.kind
            == ErrorKind::EmptyDocument,
        r matches Err(e) ==> doc_lex_ok(input@) && min_excess(doc_toks(input@)) < 0 ==> e.kind
            == ErrorKind::UnexpectedClose,
        r matches Err(e) ==> doc_lex_ok(input@) && doc_toks(input@).len() > 0 && min_excess(
            doc_toks(input@),
        ) >= 0 && excess(doc_toks(input@)) != 0 ==> e.kind == ErrorKind::UnclosedBlock,
{
    let cs = chars_of(input);
    let toks = match lex(&cs) {
        Ok(t) => t,
        Err(e) => {
            return Err(e);
        },
    };
    let ghost t = tok_views(toks@);
    let n = toks.len();
    if n == 0 {
        return Err(GrammarError { line: 1, kind: ErrorKind::EmptyDocument });
    }
    match parse_items(&toks, 0) {
        Err(e) => {
            proof {
                assert(t.subrange(0, n as int) =~= t);
            }
            Err(e)
        },
        Ok((items, j)) => {
            if j < n {
                let line = toks[j].line_no;
                proof {
                    let pre = t.subrange(0, j as int);
                    let suf = t.subrange(j as int, n as int);
                    assert(t =~= pre + suf);
                    lemma_flat_forest_balanced(models_of(items@));
                    lemma_excess_concat(pre, suf);
                    lemma_min_excess_concat(pre, suf);
                    assert(suf[0] == t[j as int]);
                    lemma_min_excess_le_zero(suf.drop_first());
                    assert(min_excess(suf) <= -1 + min_excess(suf.drop_first()));
                    assert(min_excess(t) < 0);
                }
                return Err(GrammarError { line, kind: ErrorKind::UnexpectedClose });
            }
            proof {
                assert(t.subrange(0, n as int) =~= t);
                lemma_flat_forest_balanced(models_of(items@));
            }
            Ok(Structure::Struct(String::from_str("file"), items))
        },
    }
}

} // verus!
