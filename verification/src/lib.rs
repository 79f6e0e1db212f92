//! Converts the OuDiaSecond line-oriented nested-block text format into a
//! KDL document: named blocks become nodes with children, `key=value` lines
//! become nodes with one string argument, and `key=a,b,...` lines become
//! nodes with one string argument per comma-separated value.
//!
//! The conversion is one-shot and pure: the whole input is parsed into a
//! single-rooted intermediate tree, the tree is emitted as a KDL document,
//! and the document is rendered; any grammar violation fails the call
//! atomically with a message naming the offending line.
use vstd::prelude::*;

pub mod emit;
pub mod error;
pub mod laws;
pub mod parse;
pub mod text;
pub mod token;
pub mod tree;

use crate::emit::kdl_format;
use crate::emit::make_kdl;
use crate::emit::node_model_of;
use crate::error::ErrorKind;
use crate::error::GrammarError;
use crate::error::message_of;
use crate::parse::excess;
use crate::parse::flat_forest;
use crate::parse::min_excess;
use crate::parse::parse_oud2;
use crate::parse::well_formed;
use crate::token::LineClass;
use crate::token::classify_line;
use crate::token::doc_lex_ok;
use crate::token::doc_lines;
use crate::token::doc_toks;
use crate::token::first_faulty;
use crate::tree::Structure;
use crate::tree::StructureModel;

verus! {

/// The grammar engine for the OuDiaSecond source format: a recognizer for
/// its nested blocks, pairs and value lists.
pub struct OuDiaSecondParser;

impl OuDiaSecondParser {
    /// Parses a source document into the intermediate tree; equivalent to
    /// `parse_oud2`.
    pub fn parse(input: &str) -> (r: Result<Structure, GrammarError>)
        ensures
            r is Ok <==> well_formed(input@),
            r matches Ok(root) ==> root@ matches StructureModel::Agg(name, items) && name
                == "file"@ && flat_forest(items) == doc_toks(input@),
    {
        parse_oud2(input)
    }
}

/// Converts an OuDiaSecond source document to the canonical text of a KDL
/// document with a single root node named "file". Succeeds exactly on
/// well-formed input; on any other input the error describes the first
/// grammar violation and its line.
pub fn convert(input: &str) -> (r: Result<String, String>)
    ensures
        r is Ok <==> well_formed(input@),
        r matches Ok(out) ==> exists|items: Seq<StructureModel>|
            flat_forest(items) == doc_toks(input@) && out@ == kdl_format(
                seq![node_model_of(StructureModel::Agg("file"@, items))],
            ),
        r matches Err(m) ==> m@.len() > 0 && exists|e: GrammarError|
            {
                &&& m@ == message_of(e)
                &&& !doc_lex_ok(input@) ==> e.line == first_faulty(doc_lines(input@)) + 1
                    && classify_line(doc_lines(input@)[first_faulty(doc_lines(input@))])
                    == LineClass::Faulty(e.kind)
                &&& doc_lex_ok(input@) && doc_toks(input@).len() == 0 ==> e.kind
                    == ErrorKind::EmptyDocument
                &&& doc_lex_ok(input@) && min_excess(doc_toks(input@)) < 0 ==> e.kind
                    == ErrorKind::UnexpectedClose
                &&& doc_lex_ok(input@) && doc_toks(input@).len() > 0 && min_excess(
                    doc_toks(input@),
                ) >= 0 && excess(doc_toks(input@)) != 0 ==> e.kind == ErrorKind::UnclosedBlock
            },
{
    match parse_oud2(input) {
        Ok(root) => {
            let out = make_kdl(&root);
            proof {
                let items = match root@ {
                    StructureModel::Agg(_, cs) => cs,
                    _ => Seq::empty(),
                };
                assert(root@ == StructureModel::Agg("file"@, items));
                assert(flat_forest(items) == doc_toks(input@) && out@ == kdl_format(
                    seq![node_model_of(StructureModel::Agg("file"@, items))],
                ));
            }
            Ok(out)
        },
        Err(e) => {
            let m = e.message();
            proof {
                reveal_strlit("line ");
                assert(m@ == message_of(e));
            }
            Err(m)
        },
    }
}

} // verus!
