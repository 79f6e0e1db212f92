//! Emission of the intermediate tree as a KDL document. The tree-shaped
//! logic is verified against a ghost model of the KDL value being built;
//! only the calls into the kdl crate itself are trusted, each behind a
//! wrapper whose contract states what the call does to that model.
use vstd::prelude::*;
use kdl::KdlDocument;
use kdl::KdlNode;
use kdl::KdlValue;
use crate::tree::Structure;
use crate::tree::StructureModel;
use crate::tree::Value;
use crate::tree::ValueModel;
use crate::tree::lemma_models_of_len;
use crate::tree::model_of;
use crate::tree::models_of;
use crate::tree::string_views;

verus! {

broadcast use vstd::std_specs::vec::axiom_vec_decreases_to_view, vstd::seq::axiom_seq_index_decreases, vstd::seq::axiom_seq_subrange_decreases;

/// Ghost model of an emitted KDL node: its name, its positional string
/// arguments in order, and — if it has a children block — its child nodes
/// in order. A node without a children block differs from one with an
/// empty children block, as it does in the rendered text.
pub struct NodeModel {
    pub name: Seq<char>,
    pub args: Seq<Seq<char>>,
    pub children: Option<Seq<NodeModel>>,
}

#[verifier::external_type_specification]
#[verifier::external_body]
pub struct ExKdlNode(KdlNode);

#[verifier::external_type_specification]
#[verifier::external_body]
pub struct ExKdlDocument(KdlDocument);

/// What a KDL node holds: its name, string arguments and children.
pub uninterp spec fn node_model(n: KdlNode) -> NodeModel;

/// What a KDL document holds: its top-level nodes, in order.
pub uninterp spec fn doc_model(d: KdlDocument) -> Seq<NodeModel>;

/// Whether a KDL node (with everything in it) carries no comments, type
/// annotations or stored text representations, so that its canonical
/// rendering depends on its model alone.
pub uninterp spec fn node_plain(n: KdlNode) -> bool;

/// Whether a KDL document carries no comments, type annotations or stored
/// text representations anywhere.
pub uninterp spec fn doc_plain(d: KdlDocument) -> bool;

/// The canonical KDL rendering of a document holding the given nodes.
pub uninterp spec fn kdl_format(nodes: Seq<NodeModel>) -> Seq<char>;

/// Relies on kdl's `KdlNode::new`: a fresh node has the given name, no
/// entries, no children block, and carries no comments or annotations.
#[verifier::external_body]
fn kdl_node_new(name: &str) -> (n: KdlNode)
    ensures
        node_model(n) == (NodeModel {
            name: name@,
            args: Seq::<Seq<char>>::empty(),
            children: Option::None,
        }),
        node_plain(n),
{
    KdlNode::new(name)
}

/// Relies on kdl's `KdlNode::push` (with `KdlValue: Into<KdlEntry>`):
/// pushing a string value appends one positional string argument and
/// leaves the name and children unchanged.
#[verifier::external_body]
fn kdl_node_push_arg(n: &mut KdlNode, v: String)
    ensures
        node_model(*final(n)) == (NodeModel {
            name: node_model(*old(n)).name,
            args: node_model(*old(n)).args.push(v@),
            children: node_model(*old(n)).children,
        }),
        node_plain(*old(n)) ==> node_plain(*final(n)),
{
    n.push(KdlValue::String(v));
}

/// Relies on kdl's `KdlDocument::new`: a fresh document holds no nodes and
/// no comments.
#[verifier::external_body]
fn kdl_doc_new() -> (d: KdlDocument)
    ensures
        doc_model(d) == Seq::<NodeModel>::empty(),
        doc_plain(d),
{
    KdlDocument::new()
}

/// Relies on kdl's `KdlDocument::nodes_mut`: pushing onto the node vector
/// appends the node after the existing ones.
#[verifier::external_body]
fn kdl_doc_push(d: &mut KdlDocument, n: KdlNode)
    ensures
        doc_model(*final(d)) == doc_model(*old(d)).push(node_model(n)),
        doc_plain(*old(d)) && node_plain(n) ==> doc_plain(*final(d)),
{
    d.nodes_mut().push(n);
}

/// Relies on kdl's `KdlNode::set_children`: the node gets the document as
/// its children block; its name and entries stay as they were.
#[verifier::external_body]
fn kdl_node_set_children(n: &mut KdlNode, d: KdlDocument)
    ensures
        node_model(*final(n)) == (NodeModel {
            name: node_model(*old(n)).name,
            args: node_model(*old(n)).args,
            children: Option::Some(doc_model(d)),
        }),
        node_plain(*old(n)) && doc_plain(d) ==> node_plain(*final(n)),
{
    n.set_children(d);
}

/// Relies on kdl's `KdlDocument::autoformat` and its `Display` impl:
/// autoformat rewrites all stored formatting to the canonical layout
/// while leaving names, values and children unchanged, and the rendered
/// text of a comment-free document is then determined by its nodes'
/// names, string arguments and children alone.
#[verifier::external_body]
fn kdl_render(d: KdlDocument) -> (r: String)
    requires
        doc_plain(d),
    ensures
        r@ == kdl_format(doc_model(d)),
{
    let mut d = d;
    d.autoformat();
    d.to_string()
}

/// The KDL node a tree item is emitted as: an aggregate becomes a node
/// with its children (no children block when it has none); a pair becomes
/// a node with one string argument per value.
pub open spec fn node_model_of(t: StructureModel) -> NodeModel
    decreases t,
{
    match t {
        StructureModel::Agg(name, cs) => NodeModel {
            name: name,
            args: Seq::<Seq<char>>::empty(),
            children: if cs.len() == 0 {
                Option::None
            } else {
                Option::Some(node_models_of(cs))
            },
        },
        StructureModel::Pair(k, ValueModel::Single(v)) => NodeModel {
            name: k,
            args: seq![v],
            children: Option::None,
        },
        StructureModel::Pair(k, ValueModel::List(vs)) => NodeModel {
            name: k,
            args: vs,
            children: Option::None,
        },
    }
}

/// The KDL nodes a forest of tree items is emitted as, in order.
pub open spec fn node_models_of(ts: Seq<StructureModel>) -> Seq<NodeModel>
    decreases ts,
{
    if ts.len() == 0 {
        Seq::empty()
    } else {
        seq![node_model_of(ts[0])] + node_models_of(ts.drop_first())
    }
}

pub proof fn lemma_node_models_of_len(ts: Seq<StructureModel>)
    ensures
        node_models_of(ts).len() == ts.len(),
        forall|i: int|
            0 <= i < ts.len() ==> #[trigger] node_models_of(ts)[i] == node_model_of(ts[i]),
    decreases ts.len(),
{
    if ts.len() > 0 {
        lemma_node_models_of_len(ts.drop_first());
    }
}

/// Emits one tree item as a KDL node whose model is `node_model_of` the
/// item's model.
#[verifier::loop_isolation(false)]
pub fn to_kdl_node(node: &Structure) -> (r: KdlNode)
    ensures
        node_model(r) == node_model_of(node@),
        node_plain(r),
    decreases node,
{
    match node {
        Structure::Pair(k, v) => {
            let mut kn = kdl_node_new(k.as_str());
            match v {
                Value::Single(s) => {
                    kdl_node_push_arg(&mut kn, s.clone());
                    proof {
                        assert(node_model(kn).args =~= seq![s@]);
                    }
                },
                Value::List(vs) => {
                    let mut i: usize = 0;
                    while i < vs.len()
                        invariant
                            i <= vs@.len(),
                            node_model(kn).name == k@,
                            node_model(kn).children is None,
                            node_model(kn).args == string_views(vs@).subrange(0, i as int),
                            node_plain(kn),
                        decreases vs@.len() - i,
                    {
                        kdl_node_push_arg(&mut kn, vs[i].clone());
                        i += 1;
                        proof {
                            assert(node_model(kn).args =~= string_views(vs@).subrange(
                                0,
                                i as int,
                            ));
                        }
                    }
                    proof {
                        assert(string_views(vs@).subrange(0, vs@.len() as int) =~= string_views(
                            vs@,
                        ));
                    }
                },
            }
            kn
        },
        Structure::Struct(name, fields) => {
            let mut kn = kdl_node_new(name.as_str());
            if fields.len() > 0 {
                let mut doc = kdl_doc_new();
                let mut i: usize = 0;
                while i < fields.len()
                    invariant
                        i <= fields@.len(),
                        doc_model(doc).len() == i,
                        forall|m: int|
                            0 <= m < i ==> #[trigger] doc_model(doc)[m] == node_model_of(
                                model_of(fields@[m]),
                            ),
                        doc_plain(doc),
                    decreases fields@.len() - i,
                {
                    let child = to_kdl_node(&fields[i]);
                    kdl_doc_push(&mut doc, child);
                    i += 1;
                }
                proof {
                    lemma_models_of_len(fields@);
                    lemma_node_models_of_len(models_of(fields@));
                    assert(doc_model(doc) =~= node_models_of(models_of(fields@)));
                }
                kdl_node_set_children(&mut kn, doc);
            }
            proof {
                if fields@.len() == 0 {
                    assert(models_of(fields@).len() == 0);
                } else {
                    assert(models_of(fields@).len() == fields@.len()) by {
                        lemma_models_of_len(fields@);
                    }
                }
            }
            kn
        },
    }
}

/// Emits the whole intermediate tree as the canonical text of a KDL
/// document holding exactly one top-level node: the emitted root.
pub fn make_kdl(root: &Structure) -> (out: String)
    ensures
        out@ == kdl_format(seq![node_model_of(root@)]),
{
    let mut doc = kdl_doc_new();
    let kn = to_kdl_node(root);
    kdl_doc_push(&mut doc, kn);
    proof {
        assert(doc_model(doc) =~= seq![node_model_of(root@)]);
    }
    kdl_render(doc)
}

} // verus!
