//! The self-describing data model: a decoded document is a tree of mappings,
//! sequences and scalar strings, independent of the textual format it came
//! from.

use vstd::prelude::*;

verus! {

/// One value of a self-describing document: a scalar string, a sequence of
/// values, a mapping from string keys to values in document order, or a
/// scalar of some other kind (number, boolean, ...), which the schema never
/// accepts.
pub enum Node {
    Scalar(String),
    Sequence(Vec<Node>),
    Mapping(Vec<(String, Node)>),
    Other,
}

/// The mathematical shape of a document value; the view of a [`Node`].
pub enum NodeView {
    Scalar(Seq<char>),
    Sequence(Seq<NodeView>),
    Mapping(Seq<(Seq<char>, NodeView)>),
    Other,
}

/// The views of the nodes of `s`, in order.
pub open spec fn views_of_nodes(s: Seq<Node>) -> Seq<NodeView>
    decreases s,
{
    if s.len() == 0 {
        Seq::empty()
    } else {
        views_of_nodes(s.drop_last()).push(s.last().view())
    }
}

/// The views of the key/value entries of `s`, in order.
pub open spec fn views_of_entries(s: Seq<(String, Node)>) -> Seq<(Seq<char>, NodeView)>
    decreases s,
{
    if s.len() == 0 {
        Seq::empty()
    } else {
        views_of_entries(s.drop_last()).push((s.last().0.view(), s.last().1.view()))
    }
}

impl View for Node {
    type V = NodeView;

    open spec fn view(&self) -> NodeView
        decreases self,
    {
        match self {
            Node::Scalar(s) => NodeView::Scalar(s.view()),
            Node::Sequence(items) => NodeView::Sequence(views_of_nodes(items.view())),
            Node::Mapping(entries) => NodeView::Mapping(views_of_entries(entries.view())),
            Node::Other => NodeView::Other,
        }
    }
}

pub broadcast proof fn lemma_views_of_nodes_len(s: Seq<Node>)
    ensures
        (#[trigger] views_of_nodes(s)).len() == s.len(),
    decreases s,
{
    if s.len() > 0 {
        lemma_views_of_nodes_len(s.drop_last());
        assert(s.drop_last().len() == s.len() - 1);
        assert(views_of_nodes(s) == views_of_nodes(s.drop_last()).push(s.last().view()));
        assert(views_of_nodes(s).len() == views_of_nodes(s.drop_last()).len() + 1);
    }
}

pub broadcast proof fn lemma_views_of_nodes_index(s: Seq<Node>, i: int)
    requires
        0 <= i < s.len(),
    ensures
        #[trigger] views_of_nodes(s)[i] == s[i]@,
    decreases s,
{
    lemma_views_of_nodes_len(s.drop_last());
    assert(views_of_nodes(s) == views_of_nodes(s.drop_last()).push(s.last().view()));
    if i < s.len() - 1 {
        lemma_views_of_nodes_index(s.drop_last(), i);
        assert(s.drop_last()[i] == s[i]);
    } else {
        assert(s.last() == s[i]);
    }
}

pub broadcast proof fn lemma_views_of_entries_len(s: Seq<(String, Node)>)
    ensures
        (#[trigger] views_of_entries(s)).len() == s.len(),
    decreases s,
{
    if s.len() > 0 {
        lemma_views_of_entries_len(s.drop_last());
        assert(views_of_entries(s) == views_of_entries(s.drop_last()).push(
            (s.last().0.view(), s.last().1.view()),
        ));
    }
}

pub broadcast proof fn lemma_views_of_entries_index(s: Seq<(String, Node)>, i: int)
    requires
        0 <= i < s.len(),
    ensures
        #[trigger] views_of_entries(s)[i] == (s[i].0@, s[i].1@),
    decreases s,
{
    lemma_views_of_entries_len(s.drop_last());
    assert(views_of_entries(s) == views_of_entries(s.drop_last()).push(
        (s.last().0.view(), s.last().1.view()),
    ));
    if i < s.len() - 1 {
        lemma_views_of_entries_index(s.drop_last(), i);
        assert(s.drop_last()[i] == s[i]);
    } else {
        assert(s.last() == s[i]);
    }
}

} // verus!
