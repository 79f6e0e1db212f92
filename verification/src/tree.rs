//! The generic intermediate tree: the single contract between parsing and
//! emission. A source block becomes an aggregate with a name and ordered
//! children; a `key=value` line becomes a pair carrying one raw text value
//! or an ordered list of them.
use vstd::prelude::*;

verus! {

broadcast use vstd::std_specs::vec::axiom_vec_decreases_to_view, vstd::seq::axiom_seq_index_decreases, vstd::seq::axiom_seq_subrange_decreases;

/// Ghost model of a pair's payload.
pub enum ValueModel {
    Single(Seq<char>),
    List(Seq<Seq<char>>),
}

/// Ghost model of an intermediate-tree node.
pub enum StructureModel {
    Agg(Seq<char>, Seq<StructureModel>),
    Pair(Seq<char>, ValueModel),
}

/// A pair's payload: one raw text value, or an ordered list of at least two.
#[derive(Debug, PartialEq, Eq)]
pub enum Value {
    Single(String),
    List(Vec<String>),
}

/// One node of the intermediate tree: a named block with ordered children,
/// or a key with its value(s).
#[derive(Debug, PartialEq, Eq)]
pub enum Structure {
    Struct(String, Vec<Structure>),
    Pair(String, Value),
}

/// The sequence of string contents, in order.
pub open spec fn string_views(v: Seq<String>) -> Seq<Seq<char>> {
    v.map_values(|x: String| x@)
}

/// The model of one tree node.
pub open spec fn model_of(s: Structure) -> StructureModel
    decreases s,
{
    match s {
        Structure::Struct(name, fields) => StructureModel::Agg(name@, models_of(fields@)),
        Structure::Pair(k, v) => StructureModel::Pair(k@, v@),
    }
}

/// The models of a sequence of tree nodes, in order.
pub open spec fn models_of(ss: Seq<Structure>) -> Seq<StructureModel>
    decreases ss,
{
    if ss.len() == 0 {
        Seq::empty()
    } else {
        seq![model_of(ss[0])] + models_of(ss.drop_first())
    }
}

pub proof fn lemma_models_of_push(ss: Seq<Structure>, x: Structure)
    ensures
        models_of(ss.push(x)) == models_of(ss).push(model_of(x)),
    decreases ss.len(),
{
    if ss.len() == 0 {
        assert(ss.push(x).drop_first() =~= Seq::<Structure>::empty());
        assert(models_of(Seq::<Structure>::empty()) == Seq::<StructureModel>::empty());
        assert(ss.push(x)[0] == x);
        assert(models_of(ss.push(x)) == seq![model_of(x)] + Seq::<StructureModel>::empty());
        assert(models_of(ss.push(x)) =~= models_of(ss).push(model_of(x)));
    } else {
        lemma_models_of_push(ss.drop_first(), x);
        assert(ss.push(x).drop_first() =~= ss.drop_first().push(x));
        assert(ss.push(x)[0] == ss[0]);
        assert(models_of(ss.push(x)) == seq![model_of(ss[0])] + models_of(ss.drop_first()).push(
            model_of(x),
        ));
        assert(models_of(ss.push(x)) =~= models_of(ss).push(model_of(x)));
    }
}

pub proof fn lemma_models_of_len(ss: Seq<Structure>)
    ensures
        models_of(ss).len() == ss.len(),
        forall|i: int| 0 <= i < ss.len() ==> #[trigger] models_of(ss)[i] == model_of(ss[i]),
    decreases ss.len(),
{
    if ss.len() > 0 {
        lemma_models_of_len(ss.drop_first());
    }
}

impl View for Value {
    type V = ValueModel;

    open spec fn view(&self) -> ValueModel {
        match self {
            Value::Single(s) => ValueModel::Single(s@),
            Value::List(v) => ValueModel::List(string_views(v@)),
        }
    }
}

impl View for Structure {
    type V = StructureModel;

    open spec fn view(&self) -> StructureModel {
        model_of(*self)
    }
}

/// A copy of a vector of strings, equal to the original in content.
pub fn clone_strings(v: &Vec<String>) -> (r: Vec<String>)
    ensures
        string_views(r@) == string_views(v@),
{
    let mut r: Vec<String> = Vec::new();
    let mut i: usize = 0;
    while i < v.len()
        invariant
            i <= v@.len(),
            r@.len() == i,
            forall|k: int| 0 <= k < i ==> #[trigger] r@[k]@ == v@[k]@,
        decreases v@.len() - i,
    {
        r.push(v[i].clone());
        i += 1;
    }
    proof {
        assert(string_views(r@) =~= string_views(v@));
    }
    r
}

impl Clone for Value {
    /// A copy whose model is the model of the original.
    fn clone(&self) -> (r: Self)
        ensures
            r@ == self@,
    {
        match self {
            Value::Single(s) => Value::Single(s.clone()),
            Value::List(v) => Value::List(clone_strings(v)),
        }
    }
}

} // verus!
