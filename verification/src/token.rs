//! The lexical layer of the grammar. The source format is line-oriented:
//! after trimming, a line of a single `.` closes a block, a line ending in
//! `.` opens a block named by the rest of the line, a line containing `=`
//! is a pair of a key and one or more comma-separated values, a blank line
//! carries nothing, and any other line breaks the grammar.
use vstd::prelude::*;
use crate::error::ErrorKind;
use crate::error::GrammarError;
use crate::text::copy_range;
use crate::text::find_at;
use crate::text::find_char;
use crate::text::split_at_char;
use crate::text::split_chars;
use crate::text::string_from_chars;
use crate::text::trim;
use crate::text::trim_range;
use crate::tree::Value;
use crate::tree::ValueModel;
use crate::tree::string_views;

verus! {

/// Ghost model of one meaningful source line.
pub enum TokModel {
    Open(Seq<char>),
    Close,
    PairTok(Seq<char>, ValueModel),
}

/// Ghost classification of a single source line.
pub enum LineClass {
    Blank,
    Tok(TokModel),
    Faulty(ErrorKind),
}

/// The classification of one source line, after trimming surrounding
/// whitespace: blank, close marker `.`, open marker `name.`, pair
/// `key=value(,value)*`, or a grammar fault.
pub open spec fn classify_line(line: Seq<char>) -> LineClass {
    let t = trim(line);
    let f = find_at(t, '=') as int;
    if t.len() == 0 {
        LineClass::Blank
    } else if t.len() == 1 && t[0] == '.' {
        LineClass::Tok(TokModel::Close)
    } else if f < t.len() {
        let key = trim(t.subrange(0, f));
        let vals = split_at_char(t.subrange(f + 1, t.len() as int), ',').map_values(
            |g: Seq<char>| trim(g),
        );
        if key.len() == 0 {
            LineClass::Faulty(ErrorKind::EmptyKey)
        } else if exists|k: int| 0 <= k < vals.len() && #[trigger] vals[k].len() == 0 {
            LineClass::Faulty(ErrorKind::EmptyValue)
        } else if vals.len() == 1 {
            LineClass::Tok(TokModel::PairTok(key, ValueModel::Single(vals[0])))
        } else {
            LineClass::Tok(TokModel::PairTok(key, ValueModel::List(vals)))
        }
    } else if t[t.len() - 1] == '.' {
        LineClass::Tok(TokModel::Open(trim(t.subrange(0, t.len() - 1))))
    } else {
        LineClass::Faulty(ErrorKind::BadLine)
    }
}

/// The lines of a source text: its character sequence split at newlines.
pub open spec fn doc_lines(s: Seq<char>) -> Seq<Seq<char>> {
    split_at_char(s, '\n')
}

/// The meaningful lines of the given lines, classified, in order.
pub open spec fn line_toks(lines: Seq<Seq<char>>) -> Seq<TokModel>
    decreases lines.len(),
{
    if lines.len() == 0 {
        Seq::empty()
    } else {
        let rest = line_toks(lines.drop_first());
        match classify_line(lines[0]) {
            LineClass::Tok(t) => seq![t] + rest,
            _ => rest,
        }
    }
}

/// Whether every line of the input obeys the line grammar.
pub open spec fn lex_ok(lines: Seq<Seq<char>>) -> bool {
    forall|i: int| 0 <= i < lines.len() ==> !(#[trigger] classify_line(lines[i]) is Faulty)
}

/// The token stream of a source text.
pub open spec fn doc_toks(s: Seq<char>) -> Seq<TokModel> {
    line_toks(doc_lines(s))
}

/// Whether every line of a source text obeys the line grammar.
pub open spec fn doc_lex_ok(s: Seq<char>) -> bool {
    lex_ok(doc_lines(s))
}

/// Index of the first line that breaks the line grammar, or the number of
/// lines if none does.
pub open spec fn first_faulty(lines: Seq<Seq<char>>) -> int
    decreases lines.len(),
{
    if lines.len() == 0 {
        0
    } else if classify_line(lines[0]) is Faulty {
        0
    } else {
        1 + first_faulty(lines.drop_first())
    }
}

pub proof fn lemma_first_faulty(lines: Seq<Seq<char>>, i: int)
    requires
        0 <= i <= lines.len(),
        forall|k: int| 0 <= k < i ==> !(#[trigger] classify_line(lines[k]) is Faulty),
        i < lines.len() ==> classify_line(lines[i]) is Faulty,
    ensures
        first_faulty(lines) == i,
    decreases i,
{
    if lines.len() == 0 {
    } else if i == 0 {
    } else {
        lemma_first_faulty(lines.drop_first(), i - 1);
    }
}

pub proof fn lemma_line_toks_concat(a: Seq<Seq<char>>, b: Seq<Seq<char>>)
    ensures
        line_toks(a + b) == line_toks(a) + line_toks(b),
    decreases a.len(),
{
    if a.len() == 0 {
        assert(a + b =~= b);
        assert(line_toks(a) =~= Seq::<TokModel>::empty());
        assert(line_toks(a) + line_toks(b) =~= line_toks(b));
    } else {
        lemma_line_toks_concat(a.drop_first(), b);
        assert((a + b).drop_first() =~= a.drop_first() + b);
        assert((a + b)[0] == a[0]);
        match classify_line(a[0]) {
            LineClass::Tok(t) => {
                assert(line_toks(a + b) == seq![t] + (line_toks(a.drop_first()) + line_toks(b)));
                assert(line_toks(a + b) =~= line_toks(a) + line_toks(b));
            },
            _ => {},
        }
    }
}

/// One meaningful source line, with its 1-based line number.
pub struct Token {
    pub line_no: usize,
    pub kind: TokenKind,
}

/// The payload of a meaningful source line.
pub enum TokenKind {
    Open(String),
    Close,
    Pair(String, Value),
}

impl View for TokenKind {
    type V = TokModel;

    open spec fn view(&self) -> TokModel {
        match self {
            TokenKind::Open(name) => TokModel::Open(name@),
            TokenKind::Close => TokModel::Close,
            TokenKind::Pair(k, v) => TokModel::PairTok(k@, v@),
        }
    }
}

impl View for Token {
    type V = TokModel;

    open spec fn view(&self) -> TokModel {
        self.kind@
    }
}

/// The models of a token sequence, in order.
pub open spec fn tok_views(ts: Seq<Token>) -> Seq<TokModel> {
    ts.map_values(|t: Token| t@)
}

/// The exec classification of one line; its model is `classify_line`.
pub enum LineForm {
    BlankLine,
    CloseLine,
    OpenLine(String),
    PairLine(String, Value),
    FaultyLine(ErrorKind),
}

/// The ghost class an exec classification stands for.
pub open spec fn form_class(r: LineForm) -> LineClass {
    match r {
        LineForm::BlankLine => LineClass::Blank,
        LineForm::CloseLine => LineClass::Tok(TokModel::Close),
        LineForm::OpenLine(name) => LineClass::Tok(TokModel::Open(name@)),
        LineForm::PairLine(k, v) => LineClass::Tok(TokModel::PairTok(k@, v@)),
        LineForm::FaultyLine(k) => LineClass::Faulty(k),
    }
}

/// Classifies one source line, as `classify_line` does.
#[verifier::loop_isolation(false)]
pub fn classify(line: &Vec<char>) -> (r: LineForm)
    ensures
        form_class(r) == classify_line(line@),
{
    proof {
        assert(line@.subrange(0, line@.len() as int) =~= line@);
    }
    let t = trim_range(line, 0, line.len());
    let tl = t.len();
    if tl == 0 {
        return LineForm::BlankLine;
    }
    let f = find_char(&t, '=');
    if tl == 1 && t[0] == '.' {
        return LineForm::CloseLine;
    }
    if f < tl {
        let keyv = trim_range(&t, 0, f);
        if keyv.len() == 0 {
            return LineForm::FaultyLine(ErrorKind::EmptyKey);
        }
        let restv = copy_range(&t, f + 1, tl);
        let segs = split_chars(&restv, ',');
        let ghost spec_vals = split_at_char(t@.subrange(f + 1, tl as int), ',').map_values(
            |g: Seq<char>| trim(g),
        );
        proof {
            assert(restv@ == t@.subrange(f + 1, tl as int));
            assert(spec_vals.len() == segs@.len());
        }
        let mut vals: Vec<String> = Vec::new();
        let mut k: usize = 0;
        while k < segs.len()
            invariant
                k <= segs@.len(),
                spec_vals == split_at_char(restv@, ',').map_values(|g: Seq<char>| trim(g)),
                segs@.map_values(|x: Vec<char>| x@) == split_at_char(restv@, ','),
                spec_vals.len() == segs@.len(),
                vals@.len() == k,
                forall|m: int| 0 <= m < k ==> #[trigger] vals@[m]@ == spec_vals[m],
                forall|m: int| 0 <= m < k ==> #[trigger] spec_vals[m].len() != 0,
            decreases segs@.len() - k,
        {
            let sv = &segs[k];
            let tv = trim_range(sv, 0, sv.len());
            proof {
                assert(sv@.subrange(0, sv@.len() as int) =~= sv@);
                assert(segs@.map_values(|x: Vec<char>| x@)[k as int] == sv@);
                assert(spec_vals[k as int] == trim(sv@));
            }
            if tv.len() == 0 {
                proof {
                    let tt = trim(line@);
                    assert(t@ == tt);
                    assert(tt.len() != 0);
                    assert(!(tt.len() == 1 && tt[0] == '.'));
                    let ff = find_at(tt, '=') as int;
                    assert(ff == f as int);
                    assert(ff < tt.len());
                    assert(trim(tt.subrange(0, ff)).len() != 0);
                    let svals = split_at_char(tt.subrange(ff + 1, tt.len() as int),
                        ',').map_values(|g: Seq<char>| trim(g));
                    assert(svals == spec_vals);
                    assert(spec_vals[k as int].len() == 0);
                    assert(exists|m: int|
                        0 <= m < svals.len() && #[trigger] svals[m].len() == 0);
                    assert(classify_line(line@) == LineClass::Faulty(ErrorKind::EmptyValue));
                }
                return LineForm::FaultyLine(ErrorKind::EmptyValue);
            }
            vals.push(string_from_chars(&tv));
            k += 1;
        }
        if vals.len() == 1 {
            let v0 = match vals.pop() {
                Some(x) => x,
                None => {
                    proof {
                        assert(false);
                    }
                    String::new()
                },
            };
            return LineForm::PairLine(string_from_chars(&keyv), Value::Single(v0));
        }
        proof {
            assert(string_views(vals@) =~= spec_vals);
        }
        return LineForm::PairLine(string_from_chars(&keyv), Value::List(vals));
    }
    if t[tl - 1] == '.' {
        let name = trim_range(&t, 0, tl - 1);
        return LineForm::OpenLine(string_from_chars(&name));
    }
    LineForm::FaultyLine(ErrorKind::BadLine)
}

/// Splits the input into lines and classifies each, dropping blank lines.
/// Succeeds exactly when every line obeys the line grammar, and then yields
/// the token stream of the input; fails on the first faulty line, naming it.
pub fn lex(input: &Vec<char>) -> (r: Result<Vec<Token>, GrammarError>)
    ensures
        r matches Ok(toks) ==> doc_lex_ok(input@) && tok_views(toks@) == doc_toks(input@),
        r matches Err(e) ==> !doc_lex_ok(input@) && e.line == first_faulty(doc_lines(input@)) + 1
            && classify_line(doc_lines(input@)[first_faulty(doc_lines(input@))])
            == LineClass::Faulty(e.kind),
{
    let lines = split_chars(input, '\n');
    let ghost lviews = doc_lines(input@);
    let mut toks: Vec<Token> = Vec::new();
    let mut i: usize = 0;
    proof {
        assert(lviews.subrange(0, 0) =~= Seq::<Seq<char>>::empty());
        assert(tok_views(toks@) =~= Seq::<TokModel>::empty());
    }
    while i < lines.len()
        invariant
            i <= lines@.len(),
            lines@.map_values(|x: Vec<char>| x@) == lviews,
            lviews == doc_lines(input@),
            tok_views(toks@) == line_toks(lviews.subrange(0, i as int)),
            forall|k: int| 0 <= k < i ==> !(#[trigger] classify_line(lviews[k]) is Faulty),
        decreases lines@.len() - i,
    {
        let form = classify(&lines[i]);
        proof {
            assert(lines@.map_values(|x: Vec<char>| x@)[i as int] == lines@[i as int]@);
            assert(lviews.subrange(0, i + 1) =~= lviews.subrange(0, i as int) + seq![
                lviews[i as int],
            ]);
            lemma_line_toks_concat(lviews.subrange(0, i as int), seq![lviews[i as int]]);
            assert(seq![lviews[i as int]].drop_first() =~= Seq::<Seq<char>>::empty());
        }
        let next_no = i + 1;
        match form {
            LineForm::BlankLine => {
                proof {
                    assert(line_toks(Seq::<Seq<char>>::empty()) == Seq::<TokModel>::empty());
                    assert(line_toks(seq![lviews[i as int]]) =~= Seq::<TokModel>::empty());
                    assert(tok_views(toks@) =~= line_toks(lviews.subrange(0, i + 1)));
                }
            },
            LineForm::CloseLine => {
                let ghost tm = TokModel::Close;
                toks.push(Token { line_no: next_no, kind: TokenKind::Close });
                proof {
                    assert(line_toks(Seq::<Seq<char>>::empty()) == Seq::<TokModel>::empty());
                    assert(classify_line(lviews[i as int]) == LineClass::Tok(tm));
                    assert(line_toks(seq![lviews[i as int]]) =~= seq![tm]);
                    assert(tok_views(toks@) =~= line_toks(lviews.subrange(0, i + 1)));
                }
            },
            LineForm::OpenLine(name) => {
                let ghost tm = TokModel::Open(name@);
                toks.push(Token { line_no: next_no, kind: TokenKind::Open(name) });
                proof {
                    assert(line_toks(Seq::<Seq<char>>::empty()) == Seq::<TokModel>::empty());
                    assert(classify_line(lviews[i as int]) == LineClass::Tok(tm));
                    assert(line_toks(seq![lviews[i as int]]) =~= seq![tm]);
                    assert(tok_views(toks@) =~= line_toks(lviews.subrange(0, i + 1)));
                }
            },
            LineForm::PairLine(key, v) => {
                let ghost tm = TokModel::PairTok(key@, v@);
                toks.push(Token { line_no: next_no, kind: TokenKind::Pair(key, v) });
                proof {
                    assert(line_toks(Seq::<Seq<char>>::empty()) == Seq::<TokModel>::empty());
                    assert(classify_line(lviews[i as int]) == LineClass::Tok(tm));
                    assert(line_toks(seq![lviews[i as int]]) =~= seq![tm]);
                    assert(tok_views(toks@) =~= line_toks(lviews.subrange(0, i + 1)));
                }
            },
            LineForm::FaultyLine(kind) => {
                proof {
                    lemma_first_faulty(lviews, i as int);
                }
                return Err(GrammarError { line: next_no, kind });
            },
        }
        i += 1;
        proof {
            assert(tok_views(toks@) == line_toks(lviews.subrange(0, i as int)));
        }
    }
    proof {
        assert(lviews.subrange(0, lviews.len() as int) =~= lviews);
    }
    Ok(toks)
}

} // verus!
