//! The virtual tree as a mathematical value: the nodes that the tree widget
//! has materialised, what it means to search them and to commit a child, and
//! the facts about both that the widget relies on.

use vstd::prelude::*;
use vstd::seq_lib::lemma_multiset_commutative;
use crate::command::CommandView;

verus! {

/// A node of the virtual tree as a mathematical value.
pub ghost struct VirtualTreeNode<U> {
    pub id: Seq<char>,
    pub caption: Seq<char>,
    pub children: Seq<VirtualTreeNode<U>>,
    pub has_children: bool,
    pub children_loaded: bool,
    pub payload: U,
}

/// How many nodes of the forest carry `id`.
pub open spec fn forest_count<U>(forest: Seq<VirtualTreeNode<U>>, id: Seq<char>) -> nat
    decreases forest,
{
    if forest.len() == 0 {
        0
    } else {
        forest_count(forest.drop_last(), id) + forest.last().count(id)
    }
}

/// The first node of the forest that carries `id`, searching depth first and
/// from the first tree to the last.
pub open spec fn forest_find<U>(forest: Seq<VirtualTreeNode<U>>, id: Seq<char>) -> Option<
    VirtualTreeNode<U>,
>
    decreases forest,
{
    if forest.len() == 0 {
        None
    } else {
        match forest_find(forest.drop_last(), id) {
            Some(node) => Some(node),
            None => forest.last().find(id),
        }
    }
}

/// The forest after `child` was committed under the first node that carries
/// `parent`; the forest itself where no node carries it.
pub open spec fn forest_adopt<U>(
    forest: Seq<VirtualTreeNode<U>>,
    parent: Seq<char>,
    child: VirtualTreeNode<U>,
) -> Seq<VirtualTreeNode<U>>
    decreases forest,
{
    if forest.len() == 0 {
        forest
    } else if forest_count(forest.drop_last(), parent) > 0 {
        forest_adopt(forest.drop_last(), parent, child).push(forest.last())
    } else {
        forest.drop_last().push(forest.last().adopt(parent, child))
    }
}

/// No node of the forest has children before its children were loaded.
pub open spec fn forest_settled<U>(forest: Seq<VirtualTreeNode<U>>) -> bool
    decreases forest,
{
    if forest.len() == 0 {
        true
    } else {
        forest_settled(forest.drop_last()) && forest.last().settled()
    }
}

/// The identifiers of the nodes of a forest, depth first and from the first
/// tree to the last.
pub open spec fn forest_ids<U>(forest: Seq<VirtualTreeNode<U>>) -> Seq<Seq<char>>
    decreases forest,
{
    if forest.len() == 0 {
        Seq::empty()
    } else {
        forest_ids(forest.drop_last()) + forest.last().ids()
    }
}

/// The rows of the given nodes, one after the other.
pub open spec fn forest_rows<U>(forest: Seq<VirtualTreeNode<U>>) -> Seq<char>
    decreases forest.len(),
{
    if forest.len() == 0 {
        Seq::empty()
    } else {
        forest_rows(forest.drop_last()) + forest.last().row()
    }
}

impl<U> VirtualTreeNode<U> {
    /// How many nodes of this subtree carry `id`.
    pub open spec fn count(self, id: Seq<char>) -> nat
        decreases self,
    {
        (if self.id == id {
            1nat
        } else {
            0nat
        }) + forest_count(self.children, id)
    }

    /// The first node of this subtree that carries `id`, searching depth
    /// first.
    pub open spec fn find(self, id: Seq<char>) -> Option<VirtualTreeNode<U>>
        decreases self,
    {
        if self.id == id {
            Some(self)
        } else {
            forest_find(self.children, id)
        }
    }

    /// This subtree after `child` was committed under its first node that
    /// carries `parent`: that node has `child` as its last child and its
    /// children count as loaded.
    pub open spec fn adopt(self, parent: Seq<char>, child: VirtualTreeNode<U>) -> VirtualTreeNode<
        U,
    >
        decreases self,
    {
        if self.id == parent {
            VirtualTreeNode {
                children: self.children.push(child),
                children_loaded: true,
                ..self
            }
        } else {
            VirtualTreeNode { children: forest_adopt(self.children, parent, child), ..self }
        }
    }

    /// No node of this subtree has children before its children were loaded.
    pub open spec fn settled(self) -> bool
        decreases self,
    {
        (!self.children_loaded ==> self.children.len() == 0) && forest_settled(self.children)
    }

    /// The identifiers of the nodes of this subtree, depth first.
    pub open spec fn ids(self) -> Seq<Seq<char>>
        decreases self,
    {
        seq![self.id] + forest_ids(self.children)
    }

    /// A node as it is created: without children, and not yet expanded.
    pub open spec fn pristine(self) -> bool {
        self.children.len() == 0 && !self.children_loaded
    }

    /// The markup of the node's row.
    pub open spec fn row(self) -> Seq<char> {
        "<li id=\""@ + self.id + "\" data-caption=\""@ + self.caption
            + "\" data-collapsed=\"true\">"@ + (if self.has_children {
            "<ul></ul>"@
        } else {
            ""@
        }) + "</li>"@
    }

    /// The command that asks the rendering surface to show this node under
    /// `parent` in the tree `tree`.
    pub open spec fn add_command(self, tree: Seq<char>, parent: Seq<char>) -> CommandView {
        CommandView::AddTreeNode {
            tree_id: tree,
            parent_id: parent,
            node_id: self.id,
            caption: self.caption,
            has_children: self.has_children,
        }
    }
}

/// `after` is the node `before` at a later time: it carries the same
/// identifier, caption, payload and children flag, and its children are
/// loaded if they were loaded before.
pub open spec fn later_node<U>(before: VirtualTreeNode<U>, after: VirtualTreeNode<U>) -> bool {
    &&& after.id == before.id
    &&& after.caption == before.caption
    &&& after.payload == before.payload
    &&& after.has_children == before.has_children
    &&& before.children_loaded ==> after.children_loaded
}

/// `after` is the forest `before` at a later time: every identifier that was
/// found is still found, at a node that is the earlier node at a later time.
pub open spec fn later_forest<U>(
    before: Seq<VirtualTreeNode<U>>,
    after: Seq<VirtualTreeNode<U>>,
) -> bool {
    forall|id: Seq<char>|
        (#[trigger] forest_find(before, id)) is Some ==> forest_find(after, id) is Some
            && later_node(forest_find(before, id).unwrap(), forest_find(after, id).unwrap())
}

/// The commands that ask the rendering surface to show the candidates under
/// `parent`, in the candidates' order.
pub open spec fn add_commands<U>(
    candidates: Seq<VirtualTreeNode<U>>,
    tree: Seq<char>,
    parent: Seq<char>,
) -> Seq<CommandView> {
    Seq::new(candidates.len(), |i: int| candidates[i].add_command(tree, parent))
}

/// The commands of one expansion: clear what is shown beneath `parent`, then
/// add each candidate.
pub open spec fn expansion_commands<U>(
    tree: Seq<char>,
    parent: Seq<char>,
    candidates: Seq<VirtualTreeNode<U>>,
) -> Seq<CommandView> {
    seq![CommandView::ClearNode { tree_id: tree, node_id: parent }] + add_commands(
        candidates,
        tree,
        parent,
    )
}

/// Some candidate carries `id`.
pub open spec fn has_candidate<U>(candidates: Seq<VirtualTreeNode<U>>, id: Seq<char>) -> bool {
    exists|k: int| 0 <= k < candidates.len() && (#[trigger] candidates[k]).id == id
}

/// `k` is the position of the first candidate that carries `id`.
pub open spec fn is_first_candidate<U>(
    candidates: Seq<VirtualTreeNode<U>>,
    id: Seq<char>,
    k: int,
) -> bool {
    &&& 0 <= k < candidates.len()
    &&& candidates[k].id == id
    &&& forall|j: int| 0 <= j < k ==> (#[trigger] candidates[j]).id != id
}

/// The position of the first candidate that carries `id`.
pub open spec fn candidate_index<U>(candidates: Seq<VirtualTreeNode<U>>, id: Seq<char>) -> int {
    choose|k: int| is_first_candidate(candidates, id, k)
}

/// A forest of one more tree counts the identifiers of both parts.
pub proof fn lemma_count_push<U>(
    forest: Seq<VirtualTreeNode<U>>,
    node: VirtualTreeNode<U>,
    id: Seq<char>,
)
    ensures
        forest_count(forest.push(node), id) == forest_count(forest, id) + node.count(id),
{
    assert(forest.push(node).drop_last() == forest);
}

/// An identifier that occurs in one tree of a forest occurs in the forest,
/// and an identifier that occurs in a prefix occurs in the whole.
pub proof fn lemma_count_parts<U>(forest: Seq<VirtualTreeNode<U>>, k: int, id: Seq<char>)
    requires
        0 <= k <= forest.len(),
    ensures
        forest_count(forest.take(k), id) <= forest_count(forest, id),
        k < forest.len() ==> forest_count(forest.take(k), id) + forest[k].count(id)
            <= forest_count(forest, id),
    decreases forest.len(),
{
    if k == forest.len() {
        assert(forest.take(k) == forest);
    } else {
        assert(forest.drop_last().take(k) == forest.take(k));
        lemma_count_parts(forest.drop_last(), k, id);
    }
}

/// An identifier occurs in a forest without its tree at `k` as often as in
/// the forest, less the occurrences in that tree.
pub proof fn lemma_count_remove<U>(forest: Seq<VirtualTreeNode<U>>, k: int, id: Seq<char>)
    requires
        0 <= k < forest.len(),
    ensures
        forest_count(forest.remove(k), id) + forest[k].count(id) == forest_count(forest, id),
    decreases forest.len(),
{
    if k == forest.len() - 1 {
        assert(forest.remove(k) == forest.drop_last());
    } else {
        assert(forest.remove(k).drop_last() == forest.drop_last().remove(k));
        assert(forest.remove(k).last() == forest.last());
        lemma_count_remove(forest.drop_last(), k, id);
    }
}

/// A node without children carries its own identifier and no other.
pub proof fn lemma_pristine_count<U>(node: VirtualTreeNode<U>, id: Seq<char>)
    requires
        node.children.len() == 0,
    ensures
        node.count(id) == (if node.id == id {
            1nat
        } else {
            0nat
        }),
        !node.children_loaded ==> node.settled(),
{
}

/// A search finds a node exactly when the identifier occurs, and the node
/// found carries the identifier.
pub proof fn lemma_find_count<U>(forest: Seq<VirtualTreeNode<U>>, id: Seq<char>)
    ensures
        forest_find(forest, id) is Some <==> forest_count(forest, id) > 0,
        forest_find(forest, id) matches Some(node) ==> node.id == id,
    decreases forest,
{
    if forest.len() > 0 {
        lemma_find_count(forest.drop_last(), id);
        lemma_node_find_count(forest.last(), id);
    }
}

/// A search below a node finds a node exactly when the identifier occurs
/// there, and the node found carries the identifier.
pub proof fn lemma_node_find_count<U>(node: VirtualTreeNode<U>, id: Seq<char>)
    ensures
        node.find(id) is Some <==> node.count(id) > 0,
        node.find(id) matches Some(found) ==> found.id == id,
    decreases node,
{
    if node.id != id {
        lemma_find_count(node.children, id);
    }
}

/// A node found in a prefix of a forest is the node found in the forest.
pub proof fn lemma_find_prefix<U>(forest: Seq<VirtualTreeNode<U>>, k: int, id: Seq<char>)
    requires
        0 <= k <= forest.len(),
        forest_find(forest.take(k), id) is Some,
    ensures
        forest_find(forest, id) == forest_find(forest.take(k), id),
    decreases forest.len() - k,
{
    if k < forest.len() {
        assert(forest.take(k + 1).drop_last() == forest.take(k));
        lemma_find_prefix(forest, k + 1, id);
    } else {
        assert(forest.take(k) == forest);
    }
}

/// A node found in a forest lies in the forest: it carries no identifier more
/// often than the forest does.
pub proof fn lemma_found_within<U>(forest: Seq<VirtualTreeNode<U>>, id: Seq<char>, other: Seq<char>)
    requires
        forest_find(forest, id) is Some,
    ensures
        forest_find(forest, id).unwrap().count(other) <= forest_count(forest, other),
    decreases forest,
{
    if forest.len() > 0 {
        if forest_find(forest.drop_last(), id) is Some {
            lemma_found_within(forest.drop_last(), id, other);
        } else {
            lemma_node_found_within(forest.last(), id, other);
        }
    }
}

/// A node found below a node lies in that node's subtree: it carries no
/// identifier more often than the subtree does.
pub proof fn lemma_node_found_within<U>(node: VirtualTreeNode<U>, id: Seq<char>, other: Seq<char>)
    requires
        node.find(id) is Some,
    ensures
        node.find(id).unwrap().count(other) <= node.count(other),
    decreases node,
{
    if node.id != id {
        lemma_found_within(node.children, id, other);
    }
}

/// The list of a forest's identifiers holds each identifier as often as the
/// forest has nodes that carry it.
pub proof fn lemma_ids_count<U>(forest: Seq<VirtualTreeNode<U>>, id: Seq<char>)
    ensures
        forest_ids(forest).to_multiset().count(id) == forest_count(forest, id),
    decreases forest,
{
    broadcast use vstd::multiset::group_multiset_axioms;

    if forest.len() == 0 {
        assert(forest_ids(forest).to_multiset() =~= vstd::multiset::Multiset::empty()) by {
            forest_ids(forest).to_multiset_ensures();
        }
    } else {
        lemma_ids_count(forest.drop_last(), id);
        lemma_node_ids_count(forest.last(), id);
        lemma_multiset_commutative(forest_ids(forest.drop_last()), forest.last().ids());
    }
}

/// The list of a subtree's identifiers holds each identifier as often as the
/// subtree has nodes that carry it.
pub proof fn lemma_node_ids_count<U>(node: VirtualTreeNode<U>, id: Seq<char>)
    ensures
        node.ids().to_multiset().count(id) == node.count(id),
    decreases node,
{
    broadcast use vstd::multiset::group_multiset_axioms;

    lemma_ids_count(node.children, id);
    lemma_multiset_commutative(seq![node.id], forest_ids(node.children));
    assert(seq![node.id].to_multiset() =~= vstd::multiset::Multiset::singleton(node.id)) by {
        let empty = Seq::<Seq<char>>::empty();
        empty.to_multiset_ensures();
        assert(empty.push(node.id) =~= seq![node.id]);
        assert(empty.to_multiset() =~= vstd::multiset::Multiset::empty());
    }
}

/// Committing a child under a parent that does not occur changes nothing.
pub proof fn lemma_adopt_absent<U>(
    forest: Seq<VirtualTreeNode<U>>,
    parent: Seq<char>,
    child: VirtualTreeNode<U>,
)
    requires
        forest_count(forest, parent) == 0,
    ensures
        forest_adopt(forest, parent, child) == forest,
    decreases forest,
{
    if forest.len() > 0 {
        lemma_node_adopt_absent(forest.last(), parent, child);
        assert(forest.drop_last().push(forest.last()) == forest);
    }
}

/// Committing a child below a node where the parent does not occur changes
/// nothing.
pub proof fn lemma_node_adopt_absent<U>(
    node: VirtualTreeNode<U>,
    parent: Seq<char>,
    child: VirtualTreeNode<U>,
)
    requires
        node.count(parent) == 0,
    ensures
        node.adopt(parent, child) == node,
    decreases node,
{
    lemma_adopt_absent(node.children, parent, child);
}

/// Where the first tree that holds `parent` stands at `k`, committing a
/// child changes that tree and no other.
pub proof fn lemma_adopt_at<U>(
    forest: Seq<VirtualTreeNode<U>>,
    k: int,
    parent: Seq<char>,
    child: VirtualTreeNode<U>,
)
    requires
        0 <= k < forest.len(),
        forest_count(forest.take(k), parent) == 0,
        forest[k].count(parent) > 0,
    ensures
        forest_adopt(forest, parent, child) == forest.update(k, forest[k].adopt(parent, child)),
        forest_count(forest, parent) > 0,
    decreases forest.len(),
{
    lemma_count_parts(forest, k, parent);
    if k == forest.len() - 1 {
        assert(forest.drop_last() == forest.take(k));
        assert(forest.drop_last().push(forest.last().adopt(parent, child)) =~= forest.update(
            k,
            forest[k].adopt(parent, child),
        ));
    } else {
        assert(forest.drop_last().take(k) == forest.take(k));
        lemma_adopt_at(forest.drop_last(), k, parent, child);
        assert(forest.drop_last().update(k, forest[k].adopt(parent, child)).push(forest.last())
            =~= forest.update(k, forest[k].adopt(parent, child)));
    }
}

/// Committing a child adds the child's identifiers to those of the forest,
/// and nothing else.
pub proof fn lemma_adopt_count<U>(
    forest: Seq<VirtualTreeNode<U>>,
    parent: Seq<char>,
    child: VirtualTreeNode<U>,
    id: Seq<char>,
)
    requires
        forest_count(forest, parent) > 0,
    ensures
        forest_count(forest_adopt(forest, parent, child), id) == forest_count(forest, id)
            + child.count(id),
    decreases forest,
{
    if forest.len() > 0 {
        if forest_count(forest.drop_last(), parent) > 0 {
            lemma_adopt_count(forest.drop_last(), parent, child, id);
            lemma_count_push(forest_adopt(forest.drop_last(), parent, child), forest.last(), id);
        } else {
            lemma_node_adopt_count(forest.last(), parent, child, id);
            lemma_count_push(forest.drop_last(), forest.last().adopt(parent, child), id);
        }
    }
}

/// Committing a child below a node adds the child's identifiers to those of
/// the node's subtree, and nothing else.
pub proof fn lemma_node_adopt_count<U>(
    node: VirtualTreeNode<U>,
    parent: Seq<char>,
    child: VirtualTreeNode<U>,
    id: Seq<char>,
)
    requires
        node.count(parent) > 0,
    ensures
        node.adopt(parent, child).count(id) == node.count(id) + child.count(id),
    decreases node,
{
    if node.id == parent {
        lemma_count_push(node.children, child, id);
    } else {
        lemma_adopt_count(node.children, parent, child, id);
    }
}

/// Committing a settled child keeps the forest settled.
pub proof fn lemma_adopt_settled<U>(
    forest: Seq<VirtualTreeNode<U>>,
    parent: Seq<char>,
    child: VirtualTreeNode<U>,
)
    requires
        forest_settled(forest),
        child.settled(),
    ensures
        forest_settled(forest_adopt(forest, parent, child)),
    decreases forest,
{
    if forest.len() > 0 {
        if forest_count(forest.drop_last(), parent) > 0 {
            lemma_adopt_settled(forest.drop_last(), parent, child);
            let grown = forest_adopt(forest.drop_last(), parent, child).push(forest.last());
            assert(grown.drop_last() == forest_adopt(forest.drop_last(), parent, child));
        } else {
            lemma_node_adopt_settled(forest.last(), parent, child);
            let grown = forest.drop_last().push(forest.last().adopt(parent, child));
            assert(grown.drop_last() == forest.drop_last());
        }
    }
}

/// Committing a settled child below a settled node keeps it settled.
pub proof fn lemma_node_adopt_settled<U>(
    node: VirtualTreeNode<U>,
    parent: Seq<char>,
    child: VirtualTreeNode<U>,
)
    requires
        node.settled(),
        child.settled(),
    ensures
        node.adopt(parent, child).settled(),
    decreases node,
{
    if node.id == parent {
        assert(node.children.push(child).drop_last() == node.children);
    } else {
        lemma_adopt_settled(node.children, parent, child);
        if !node.children_loaded {
            assert(forest_count(node.children, parent) == 0);
            lemma_adopt_absent(node.children, parent, child);
        }
    }
}

/// After a child was committed under `parent`, a search for `parent` finds
/// the node it found before, now with loaded children and with the child as
/// its last one.
pub proof fn lemma_adopt_find<U>(
    forest: Seq<VirtualTreeNode<U>>,
    parent: Seq<char>,
    child: VirtualTreeNode<U>,
)
    requires
        forest_count(forest, parent) > 0,
    ensures
        forest_find(forest, parent) is Some,
        forest_find(forest_adopt(forest, parent, child), parent) == Some(
            forest_find(forest, parent).unwrap().adopt(parent, child),
        ),
        forest_find(forest, parent).unwrap().adopt(parent, child).children_loaded,
        forest_find(forest, parent).unwrap().adopt(parent, child).children == forest_find(
            forest,
            parent,
        ).unwrap().children.push(child),
    decreases forest,
{
    lemma_find_count(forest, parent);
    if forest.len() > 0 {
        lemma_find_count(forest.drop_last(), parent);
        if forest_count(forest.drop_last(), parent) > 0 {
            lemma_adopt_find(forest.drop_last(), parent, child);
            let grown = forest_adopt(forest.drop_last(), parent, child).push(forest.last());
            assert(grown.drop_last() == forest_adopt(forest.drop_last(), parent, child));
        } else {
            lemma_node_adopt_find(forest.last(), parent, child);
            let grown = forest.drop_last().push(forest.last().adopt(parent, child));
            assert(grown.drop_last() == forest.drop_last());
            assert(grown.last() == forest.last().adopt(parent, child));
        }
    }
}

/// After a child was committed below a node, a search for `parent` finds the
/// node it found before, now with loaded children and with the child as its
/// last one.
pub proof fn lemma_node_adopt_find<U>(
    node: VirtualTreeNode<U>,
    parent: Seq<char>,
    child: VirtualTreeNode<U>,
)
    requires
        node.count(parent) > 0,
    ensures
        node.find(parent) is Some,
        node.adopt(parent, child).find(parent) == Some(
            node.find(parent).unwrap().adopt(parent, child),
        ),
        node.find(parent).unwrap().adopt(parent, child).children_loaded,
        node.find(parent).unwrap().adopt(parent, child).children == node.find(
            parent,
        ).unwrap().children.push(child),
    decreases node,
{
    if node.id != parent {
        lemma_adopt_find(node.children, parent, child);
    }
}

/// In a forest without repeated identifiers, committing a child whose
/// subtree does not carry `id` leaves the search for `id` where it was: the
/// node found before is found again, with the child committed below it where
/// the parent lies in its subtree, and a search that found nothing still
/// finds nothing.
pub proof fn lemma_adopt_keeps_nodes<U>(
    forest: Seq<VirtualTreeNode<U>>,
    parent: Seq<char>,
    child: VirtualTreeNode<U>,
    id: Seq<char>,
)
    requires
        forest_count(forest, parent) <= 1,
        child.count(id) == 0,
    ensures
        match forest_find(forest, id) {
            Some(node) => forest_find(forest_adopt(forest, parent, child), id) == Some(
                node.adopt(parent, child),
            ),
            None => forest_find(forest_adopt(forest, parent, child), id) is None,
        },
    decreases forest,
{
    lemma_find_count(forest, id);
    lemma_find_count(forest_adopt(forest, parent, child), id);
    if forest_count(forest, parent) == 0 {
        lemma_adopt_absent(forest, parent, child);
        if forest_find(forest, id) is Some {
            lemma_found_within(forest, id, parent);
            lemma_node_adopt_absent(forest_find(forest, id).unwrap(), parent, child);
        }
    } else if forest_find(forest, id) is None {
        lemma_adopt_count(forest, parent, child, id);
    } else {
        let front = forest.drop_last();
        let last = forest.last();
        lemma_find_count(front, id);
        if forest_count(front, parent) > 0 {
            let grown = forest_adopt(front, parent, child).push(last);
            assert(grown.drop_last() == forest_adopt(front, parent, child));
            assert(grown.last() == last);
            lemma_adopt_keeps_nodes(front, parent, child, id);
            if forest_find(front, id) is None {
                lemma_node_found_within(last, id, parent);
                lemma_node_adopt_absent(last.find(id).unwrap(), parent, child);
            }
        } else {
            let grown = front.push(last.adopt(parent, child));
            assert(grown.drop_last() == front);
            assert(grown.last() == last.adopt(parent, child));
            if forest_find(front, id) is Some {
                lemma_found_within(front, id, parent);
                lemma_node_adopt_absent(forest_find(front, id).unwrap(), parent, child);
            } else {
                lemma_node_adopt_keeps_nodes(last, parent, child, id);
            }
        }
    }
}

/// In a subtree without repeated identifiers, committing a child whose
/// subtree does not carry `id` leaves the search for `id` where it was.
pub proof fn lemma_node_adopt_keeps_nodes<U>(
    node: VirtualTreeNode<U>,
    parent: Seq<char>,
    child: VirtualTreeNode<U>,
    id: Seq<char>,
)
    requires
        node.count(parent) <= 1,
        child.count(id) == 0,
    ensures
        match node.find(id) {
            Some(found) => node.adopt(parent, child).find(id) == Some(found.adopt(parent, child)),
            None => node.adopt(parent, child).find(id) is None,
        },
    decreases node,
{
    if node.id != id {
        if node.id == parent {
            let grown = node.children.push(child);
            assert(grown.drop_last() == node.children);
            assert(grown.last() == child);
            lemma_find_count(node.children, id);
            lemma_node_find_count(child, id);
            if forest_find(node.children, id) is Some {
                lemma_found_within(node.children, id, parent);
                lemma_node_adopt_absent(forest_find(node.children, id).unwrap(), parent, child);
            }
        } else {
            lemma_adopt_keeps_nodes(node.children, parent, child, id);
        }
    }
}

/// In a forest without repeated identifiers, committing a child with fresh
/// identifiers gives the forest at a later time: no node is lost or renamed,
/// and no node's children cease to count as loaded.
pub proof fn lemma_adopt_later<U>(
    forest: Seq<VirtualTreeNode<U>>,
    parent: Seq<char>,
    child: VirtualTreeNode<U>,
)
    requires
        forest_count(forest, parent) <= 1,
        forall|id: Seq<char>| forest_count(forest, id) > 0 ==> child.count(id) == 0,
    ensures
        later_forest(forest, forest_adopt(forest, parent, child)),
{
    assert forall|id: Seq<char>| (#[trigger] forest_find(forest, id)) is Some implies forest_find(
        forest_adopt(forest, parent, child),
        id,
    ) is Some && later_node(
        forest_find(forest, id).unwrap(),
        forest_find(forest_adopt(forest, parent, child), id).unwrap(),
    ) by {
        lemma_find_count(forest, id);
        lemma_adopt_keeps_nodes(forest, parent, child, id);
    }
}

/// The forest after each of `children` was committed under the first node
/// that carries `parent`, the first child first.
pub open spec fn forest_adopt_all<U>(
    forest: Seq<VirtualTreeNode<U>>,
    parent: Seq<char>,
    children: Seq<VirtualTreeNode<U>>,
) -> Seq<VirtualTreeNode<U>>
    decreases children.len(),
{
    if children.len() == 0 {
        forest
    } else {
        forest_adopt_all(
            forest_adopt(forest, parent, children.first()),
            parent,
            children.drop_first(),
        )
    }
}

/// Every node of the sequence is as it was created.
pub open spec fn all_pristine<U>(nodes: Seq<VirtualTreeNode<U>>) -> bool {
    forall|i: int| 0 <= i < nodes.len() ==> (#[trigger] nodes[i]).pristine()
}

/// Two forests one after the other count the identifiers of both.
pub proof fn lemma_count_concat<U>(
    front: Seq<VirtualTreeNode<U>>,
    back: Seq<VirtualTreeNode<U>>,
    id: Seq<char>,
)
    ensures
        forest_count(front + back, id) == forest_count(front, id) + forest_count(back, id),
    decreases back.len(),
{
    if back.len() == 0 {
        assert(front + back == front);
    } else {
        assert((front + back).drop_last() == front + back.drop_last());
        assert((front + back).last() == back.last());
        lemma_count_concat(front, back.drop_last(), id);
    }
}

/// A forest counts the identifiers of its first tree and of the rest.
pub proof fn lemma_count_first<U>(forest: Seq<VirtualTreeNode<U>>, id: Seq<char>)
    requires
        forest.len() > 0,
    ensures
        forest_count(forest, id) == forest.first().count(id) + forest_count(
            forest.drop_first(),
            id,
        ),
{
    let single = seq![forest.first()];
    assert(forest =~= single + forest.drop_first());
    lemma_count_concat(single, forest.drop_first(), id);
    assert(single.drop_last().len() == 0);
    assert(single.last() == forest.first());
    assert(forest_count(single.drop_last(), id) == 0);
}

/// A later time of a later time is a later time.
pub proof fn lemma_later_transitive<U>(
    first: Seq<VirtualTreeNode<U>>,
    second: Seq<VirtualTreeNode<U>>,
    third: Seq<VirtualTreeNode<U>>,
)
    requires
        later_forest(first, second),
        later_forest(second, third),
    ensures
        later_forest(first, third),
{
    assert forall|id: Seq<char>| (#[trigger] forest_find(first, id)) is Some implies forest_find(
        third,
        id,
    ) is Some && later_node(forest_find(first, id).unwrap(), forest_find(third, id).unwrap()) by {
        assert(forest_find(second, id) is Some);
    }
}

/// Committing children adds their identifiers to those of the forest, and
/// nothing else.
pub proof fn lemma_adopt_all_count<U>(
    forest: Seq<VirtualTreeNode<U>>,
    parent: Seq<char>,
    children: Seq<VirtualTreeNode<U>>,
    id: Seq<char>,
)
    requires
        forest_count(forest, parent) > 0,
    ensures
        forest_count(forest_adopt_all(forest, parent, children), id) == forest_count(forest, id)
            + forest_count(children, id),
    decreases children.len(),
{
    if children.len() > 0 {
        let next = forest_adopt(forest, parent, children.first());
        lemma_adopt_count(forest, parent, children.first(), id);
        lemma_adopt_count(forest, parent, children.first(), parent);
        lemma_count_first(children, id);
        lemma_adopt_all_count(next, parent, children.drop_first(), id);
    }
}

/// Committing children that were just created keeps the forest settled.
pub proof fn lemma_adopt_all_settled<U>(
    forest: Seq<VirtualTreeNode<U>>,
    parent: Seq<char>,
    children: Seq<VirtualTreeNode<U>>,
)
    requires
        forest_settled(forest),
        all_pristine(children),
    ensures
        forest_settled(forest_adopt_all(forest, parent, children)),
    decreases children.len(),
{
    if children.len() > 0 {
        assert(children.first().pristine());
        lemma_pristine_count(children.first(), parent);
        lemma_adopt_settled(forest, parent, children.first());
        assert(all_pristine(children.drop_first())) by {
            assert forall|i: int| 0 <= i < children.drop_first().len() implies (
            #[trigger] children.drop_first()[i]).pristine() by {
                assert(children[i + 1].pristine());
            }
        }
        lemma_adopt_all_settled(
            forest_adopt(forest, parent, children.first()),
            parent,
            children.drop_first(),
        );
    }
}

/// Where no identifier occurs twice among the forest and the children,
/// committing the children gives the forest at a later time.
pub proof fn lemma_adopt_all_later<U>(
    forest: Seq<VirtualTreeNode<U>>,
    parent: Seq<char>,
    children: Seq<VirtualTreeNode<U>>,
)
    requires
        forall|id: Seq<char>| forest_count(forest, id) + forest_count(children, id) <= 1,
    ensures
        later_forest(forest, forest_adopt_all(forest, parent, children)),
    decreases children.len(),
{
    if children.len() > 0 {
        let first = children.first();
        let rest = children.drop_first();
        let next = forest_adopt(forest, parent, first);
        assert(forest_count(forest, parent) + forest_count(children, parent) <= 1);
        assert forall|id: Seq<char>| forest_count(forest, id) > 0 implies first.count(id) == 0 by {
            lemma_count_first(children, id);
            assert(forest_count(forest, id) + forest_count(children, id) <= 1);
        }
        lemma_adopt_later(forest, parent, first);
        assert forall|id: Seq<char>| forest_count(next, id) + forest_count(rest, id) <= 1 by {
            lemma_count_first(children, id);
            assert(forest_count(forest, id) + forest_count(children, id) <= 1);
            if forest_count(forest, parent) > 0 {
                lemma_adopt_count(forest, parent, first, id);
            } else {
                lemma_adopt_absent(forest, parent, first);
            }
        }
        lemma_adopt_all_later(next, parent, rest);
        lemma_later_transitive(forest, next, forest_adopt_all(next, parent, rest));
    }
}

/// After children were committed under `parent`, a search for `parent` finds
/// the node it found before, now with loaded children: those it had, then
/// the committed ones in their order.
pub proof fn lemma_adopt_all_find<U>(
    forest: Seq<VirtualTreeNode<U>>,
    parent: Seq<char>,
    children: Seq<VirtualTreeNode<U>>,
)
    requires
        forest_count(forest, parent) > 0,
        children.len() > 0,
    ensures
        forest_find(forest, parent) is Some,
        forest_find(forest_adopt_all(forest, parent, children), parent) is Some,
        forest_find(forest_adopt_all(forest, parent, children), parent).unwrap().children_loaded,
        forest_find(forest_adopt_all(forest, parent, children), parent).unwrap().children
            == forest_find(forest, parent).unwrap().children + children,
    decreases children.len(),
{
    let first = children.first();
    let rest = children.drop_first();
    let next = forest_adopt(forest, parent, first);
    lemma_adopt_find(forest, parent, first);
    lemma_adopt_count(forest, parent, first, parent);
    let before = forest_find(forest, parent).unwrap();
    assert(forest_adopt_all(forest, parent, children) == forest_adopt_all(next, parent, rest));
    if rest.len() > 0 {
        lemma_adopt_all_find(next, parent, rest);
        assert(before.children.push(first) + rest =~= before.children + children);
    } else {
        assert(forest_adopt_all(next, parent, rest) == next);
        assert(before.children.push(first) =~= before.children + children);
    }
}

/// The nodes of `nodes` that are kept when they are taken in one by one and
/// a node is left out where its identifier is in use: in use from the start,
/// or by a node kept before it.
pub open spec fn kept<U>(in_use: Set<Seq<char>>, nodes: Seq<VirtualTreeNode<U>>) -> Seq<
    VirtualTreeNode<U>,
>
    decreases nodes.len(),
{
    if nodes.len() == 0 {
        Seq::empty()
    } else if in_use.contains(nodes.first().id) {
        kept(in_use, nodes.drop_first())
    } else {
        seq![nodes.first()] + kept(in_use.insert(nodes.first().id), nodes.drop_first())
    }
}

/// Where no identifier is in use that a node of `nodes` carries, and no two
/// nodes carry the same, all nodes are kept.
pub proof fn lemma_kept_all<U>(in_use: Set<Seq<char>>, nodes: Seq<VirtualTreeNode<U>>)
    requires
        forall|i: int| 0 <= i < nodes.len() ==> !in_use.contains((#[trigger] nodes[i]).id),
        forall|i: int, j: int| 0 <= i < j < nodes.len() ==> nodes[i].id != nodes[j].id,
    ensures
        kept(in_use, nodes) == nodes,
    decreases nodes.len(),
{
    if nodes.len() > 0 {
        let rest = nodes.drop_first();
        assert(!in_use.contains(nodes[0].id));
        assert forall|i: int| 0 <= i < rest.len() implies !in_use.insert(nodes.first().id).contains(
            (#[trigger] rest[i]).id,
        ) by {
            assert(rest[i] == nodes[i + 1]);
        }
        assert forall|i: int, j: int| 0 <= i < j < rest.len() implies rest[i].id != rest[j].id by {
            assert(rest[i] == nodes[i + 1] && rest[j] == nodes[j + 1]);
        }
        lemma_kept_all(in_use.insert(nodes.first().id), rest);
        assert(seq![nodes.first()] + rest =~= nodes);
    }
}

/// Of nodes that are as they were created, those kept are so too.
pub proof fn lemma_kept_pristine<U>(in_use: Set<Seq<char>>, nodes: Seq<VirtualTreeNode<U>>)
    requires
        all_pristine(nodes),
    ensures
        all_pristine(kept(in_use, nodes)),
    decreases nodes.len(),
{
    if nodes.len() > 0 {
        let rest = nodes.drop_first();
        assert(all_pristine(rest)) by {
            assert forall|i: int| 0 <= i < rest.len() implies (#[trigger] rest[i]).pristine() by {
                assert(nodes[i + 1].pristine());
            }
        }
        assert(nodes[0].pristine());
        lemma_kept_pristine(in_use, rest);
        lemma_kept_pristine(in_use.insert(nodes.first().id), rest);
    }
}

/// A node found in a settled forest is settled.
pub proof fn lemma_found_settled<U>(forest: Seq<VirtualTreeNode<U>>, id: Seq<char>)
    requires
        forest_settled(forest),
        forest_find(forest, id) is Some,
    ensures
        forest_find(forest, id).unwrap().settled(),
    decreases forest,
{
    if forest.len() > 0 {
        if forest_find(forest.drop_last(), id) is Some {
            lemma_found_settled(forest.drop_last(), id);
        } else {
            lemma_node_found_settled(forest.last(), id);
        }
    }
}

/// A node found below a settled node is settled.
pub proof fn lemma_node_found_settled<U>(node: VirtualTreeNode<U>, id: Seq<char>)
    requires
        node.settled(),
        node.find(id) is Some,
    ensures
        node.find(id).unwrap().settled(),
    decreases node,
{
    if node.id != id {
        lemma_found_settled(node.children, id);
    }
}

} // verus!
