//! The tree widget: a lazily materialised mirror of a hierarchical data model,
//! kept in step with the rendering surface by confirmed mutation commands.

use vstd::prelude::*;
use vstd::seq_lib::lemma_multiset_commutative;
use vstd::string::*;
use crate::command::{Command, CommandView, Reply, command_views};
use crate::component::Component;
use crate::component::virtual_tree::{
    VirtualTreeNode,
    add_commands,
    all_pristine,
    candidate_index,
    expansion_commands,
    forest_adopt,
    forest_adopt_all,
    forest_count,
    forest_find,
    forest_ids,
    forest_rows,
    forest_settled,
    has_candidate,
    is_first_candidate,
    kept,
    later_forest,
    lemma_adopt_all_count,
    lemma_adopt_all_find,
    lemma_adopt_all_later,
    lemma_adopt_all_settled,
    lemma_adopt_at,
    lemma_adopt_count,
    lemma_count_parts,
    lemma_count_push,
    lemma_count_remove,
    lemma_find_count,
    lemma_find_prefix,
    lemma_found_settled,
    lemma_ids_count,
    lemma_kept_pristine,
    lemma_pristine_count,
};
use crate::event::{Event, EventValue};
use crate::listener::{FnListener, Listener};
use crate::utils::{create_id, is_component_id};

verus! {

/// Trait to provide data for the tree.
pub trait TreeModel<U> {
    /// Get the roots of the tree.
    fn roots(&self) -> Vec<U>;

    /// Get a node's children.
    fn children(&self, parent: &U) -> Vec<U>;

    /// Get the label to be displayed for a node.
    fn caption(&self, node: &U) -> String;

    /// Has this node children.
    fn has_children(&self, node: &U) -> bool;
}

/// A model as the tree asks it: each answer comes with the fact that the
/// model gave it. The tree can establish such a fact only by asking.
pub trait AskedModel<U> {
    /// The model gave `roots` when it was asked for the roots.
    spec fn gave_roots(&self, roots: Vec<U>) -> bool;

    /// The model gave `children` when it was asked for the children of
    /// `parent`.
    spec fn gave_children(&self, parent: &U, children: Vec<U>) -> bool;

    /// The model gave `caption` when it was asked for the caption of `node`.
    spec fn gave_caption(&self, node: &U, caption: String) -> bool;

    /// The model gave `has_children` when it was asked whether `node` has
    /// children.
    spec fn gave_flag(&self, node: &U, has_children: bool) -> bool;

    fn ask_roots(&self) -> (roots: Vec<U>)
        ensures
            self.gave_roots(roots),
    ;

    fn ask_children(&self, parent: &U) -> (children: Vec<U>)
        ensures
            self.gave_children(parent, children),
    ;

    fn ask_caption(&self, node: &U) -> (caption: String)
        ensures
            self.gave_caption(node, caption),
    ;

    fn ask_has_children(&self, node: &U) -> (has_children: bool)
        ensures
            self.gave_flag(node, has_children),
    ;
}

/// An application's model, ready to be asked.
pub struct Asked<M> {
    pub model: M,
}

impl<U, M: TreeModel<U>> AskedModel<U> for Asked<M> {
    open spec fn gave_roots(&self, roots: Vec<U>) -> bool {
        call_ensures(M::roots, (&self.model,), roots)
    }

    open spec fn gave_children(&self, parent: &U, children: Vec<U>) -> bool {
        call_ensures(M::children, (&self.model, parent), children)
    }

    open spec fn gave_caption(&self, node: &U, caption: String) -> bool {
        call_ensures(M::caption, (&self.model, node), caption)
    }

    open spec fn gave_flag(&self, node: &U, has_children: bool) -> bool {
        call_ensures(M::has_children, (&self.model, node), has_children)
    }

    fn ask_roots(&self) -> (roots: Vec<U>) {
        self.model.roots()
    }

    fn ask_children(&self, parent: &U) -> (children: Vec<U>) {
        self.model.children(parent)
    }

    fn ask_caption(&self, node: &U) -> (caption: String) {
        self.model.caption(node)
    }

    fn ask_has_children(&self, node: &U) -> (has_children: bool) {
        self.model.has_children(node)
    }
}

/// Internal representation of the current tree structure.
pub struct TreeNode<U> {
    pub id: String,
    pub caption: String,
    pub nodes: Vec<TreeNode<U>>,
    pub has_children: bool,
    pub children_loaded: bool,
    pub user_object: U,
}

/// The nodes of a forest as mathematical values, in the same order.
pub open spec fn forest_view<U>(nodes: Seq<TreeNode<U>>) -> Seq<VirtualTreeNode<U>>
    decreases nodes,
{
    if nodes.len() == 0 {
        Seq::empty()
    } else {
        forest_view(nodes.drop_last()).push(nodes.last().model())
    }
}

impl<U> View for TreeNode<U> {
    type V = VirtualTreeNode<U>;

    open spec fn view(&self) -> VirtualTreeNode<U> {
        self.model()
    }
}

/// The view of a forest has the view of each node at the node's position.
pub proof fn lemma_forest_view<U>(nodes: Seq<TreeNode<U>>)
    ensures
        forest_view(nodes).len() == nodes.len(),
        forall|i: int| 0 <= i < nodes.len() ==> (#[trigger] forest_view(nodes)[i]) == nodes[i]@,
    decreases nodes,
{
    if nodes.len() > 0 {
        lemma_forest_view(nodes.drop_last());
    }
}

/// Replacing a node replaces its view.
pub proof fn lemma_forest_view_update<U>(nodes: Seq<TreeNode<U>>, i: int, node: TreeNode<U>)
    requires
        0 <= i < nodes.len(),
    ensures
        forest_view(nodes.update(i, node)) == forest_view(nodes).update(i, node@),
{
    lemma_forest_view(nodes);
    lemma_forest_view(nodes.update(i, node));
    assert(forest_view(nodes.update(i, node)) =~= forest_view(nodes).update(i, node@));
}

/// Removing a node removes its view.
pub proof fn lemma_forest_view_remove<U>(nodes: Seq<TreeNode<U>>, i: int)
    requires
        0 <= i < nodes.len(),
    ensures
        forest_view(nodes.remove(i)) == forest_view(nodes).remove(i),
{
    lemma_forest_view(nodes);
    lemma_forest_view(nodes.remove(i));
    assert(forest_view(nodes.remove(i)) =~= forest_view(nodes).remove(i));
}

impl<U> TreeNode<U> {
    /// The node as a mathematical value.
    pub open spec fn model(&self) -> VirtualTreeNode<U>
        decreases self,
    {
        VirtualTreeNode {
            id: self.id@,
            caption: self.caption@,
            children: forest_view(self.nodes@),
            has_children: self.has_children,
            children_loaded: self.children_loaded,
            payload: self.user_object,
        }
    }

    /// Create a new tree node.
    pub fn new(caption: String, user_object: U, has_children: bool) -> (node: Self)
        ensures
            node@.pristine(),
            node.caption == caption,
            node.has_children == has_children,
            node@.payload == user_object,
            is_component_id(node@.id),
    {
        TreeNode {
            id: create_id(),
            caption,
            nodes: Vec::new(),
            has_children,
            children_loaded: false,
            user_object,
        }
    }

    /// Render this tree node as HTML.
    pub fn render_node(&self) -> (html: String)
        ensures
            html@ == self@.row(),
    {
        let mut html = String::from_str("<li id=\"");
        html.append(self.id.as_str());
        html.append("\" data-caption=\"");
        html.append(self.caption.as_str());
        html.append("\" data-collapsed=\"true\">");
        html.append(
            if self.has_children {
                "<ul></ul>"
            } else {
                ""
            },
        );
        html.append("</li>");
        html
    }

    /// Find a child node recursively by its id.
    pub fn find_node(&self, id: &String) -> (found: Option<&TreeNode<U>>)
        ensures
            match found {
                Some(node) => self@.find(id@) == Some(node@),
                None => self@.find(id@) is None,
            },
        decreases self,
    {
        if self.id == *id {
            return Some(self);
        }
        find_tree_node(&self.nodes, id)
    }

    /// Commit `child` under the first node of this subtree that carries
    /// `parent_id`, marking that node's children as loaded. Hands the child
    /// back where no node carries the id.
    pub fn adopt(&mut self, parent_id: &String, child: TreeNode<U>) -> (rest: Option<TreeNode<U>>)
        ensures
            old(self)@.count(parent_id@) > 0 ==> rest is None && final(self)@ == old(self)@.adopt(
                parent_id@,
                child@,
            ),
            old(self)@.count(parent_id@) == 0 ==> rest == Some(child) && final(self)@ == old(self)@,
        decreases *old(self),
    {
        if self.id == *parent_id {
            self.children_loaded = true;
            proof {
                lemma_forest_view(self.nodes@.push(child));
                lemma_forest_view(self.nodes@);
                assert(forest_view(self.nodes@.push(child)) =~= forest_view(self.nodes@).push(
                    child@,
                ));
            }
            self.nodes.push(child);
            return None;
        }
        adopt_tree_node(&mut self.nodes, parent_id, child)
    }
}

/// Find a tree node below the current roots.
pub fn find_tree_node<'a, U>(roots: &'a Vec<TreeNode<U>>, id: &String) -> (found: Option<
    &'a TreeNode<U>,
>)
    ensures
        match found {
            Some(node) => forest_find(forest_view(roots@), id@) == Some(node@),
            None => forest_find(forest_view(roots@), id@) is None,
        },
    decreases roots,
{
    let ghost forest = forest_view(roots@);
    proof {
        lemma_forest_view(roots@);
    }
    let mut i: usize = 0;
    while i < roots.len()
        invariant
            i <= roots@.len(),
            forest == forest_view(roots@),
            forest.len() == roots@.len(),
            forall|j: int| 0 <= j < roots@.len() ==> (#[trigger] forest[j]) == roots@[j]@,
            forest_find(forest.take(i as int), id@) is None,
        decreases roots@.len() - i,
    {
        let found = roots[i].find_node(id);
        proof {
            assert(forest.take(i + 1).drop_last() == forest.take(i as int));
            assert(forest.take(i + 1).last() == roots@[i as int]@);
        }
        if found.is_some() {
            proof {
                lemma_find_prefix(forest, i + 1, id@);
            }
            return found;
        }
        i = i + 1;
    }
    proof {
        assert(forest.take(i as int) == forest);
    }
    None
}

/// Commit `child` under the first node below the roots that carries
/// `parent_id`, marking that node's children as loaded. Hands the child back
/// where no node carries the id.
pub fn adopt_tree_node<U>(roots: &mut Vec<TreeNode<U>>, parent_id: &String, child: TreeNode<U>) -> (rest:
    Option<TreeNode<U>>)
    ensures
        forest_count(forest_view(old(roots)@), parent_id@) > 0 ==> rest is None && forest_view(
            final(roots)@,
        ) == forest_adopt(forest_view(old(roots)@), parent_id@, child@),
        forest_count(forest_view(old(roots)@), parent_id@) == 0 ==> rest == Some(child)
            && forest_view(final(roots)@) == forest_view(old(roots)@),
    decreases *old(roots),
{
    let ghost forest = forest_view(roots@);
    let ghost given = child;
    proof {
        lemma_forest_view(roots@);
    }
    let mut rest: Option<TreeNode<U>> = Some(child);
    let mut i: usize = 0;
    while i < roots.len() && rest.is_some()
        invariant
            i <= roots@.len(),
            roots@.len() == old(roots)@.len(),
            forest == forest_view(old(roots)@),
            forest.len() == roots@.len(),
            rest == Some(given) ==> {
                &&& forest == forest_view(roots@)
                &&& forall|j: int| 0 <= j < roots@.len() ==> (#[trigger] forest[j]) == roots@[j]@
                &&& forest_count(forest.take(i as int), parent_id@) == 0
                &&& forall|j: int| i <= j < roots@.len() ==> roots@[j] == old(roots)@[j]
            },
            rest is None ==> {
                &&& forest_count(forest, parent_id@) > 0
                &&& forest_view(roots@) == forest_adopt(forest, parent_id@, given@)
            },
            rest is Some ==> rest == Some(given),
        decreases roots@.len() - i,
    {
        let ghost before = roots@;
        proof {
            assert(decreases_to!(*old(roots) => old(roots)[i as int]));
        }
        let child = rest.unwrap();
        rest = roots[i].adopt(parent_id, child);
        proof {
            assert(forest.take(i + 1).drop_last() == forest.take(i as int));
            assert(forest.take(i + 1).last() == forest[i as int]);
            assert(roots@ == before.update(i as int, roots@[i as int]));
            lemma_forest_view_update(before, i as int, roots@[i as int]);
            if rest is None {
                lemma_adopt_at(forest, i as int, parent_id@, given@);
            } else {
                assert(forest.update(i as int, forest[i as int]) =~= forest);
            }
        }
        i = i + 1;
    }
    proof {
        if rest is Some {
            assert(forest.take(i as int) == forest);
        }
    }
    rest
}

/// Commit each of `children` under the first node below the roots that
/// carries `parent_id`, the first child first.
pub fn adopt_tree_nodes<U>(
    roots: &mut Vec<TreeNode<U>>,
    parent_id: &String,
    children: Vec<TreeNode<U>>,
)
    requires
        forest_count(forest_view(old(roots)@), parent_id@) > 0,
    ensures
        forest_view(final(roots)@) == forest_adopt_all(
            forest_view(old(roots)@),
            parent_id@,
            forest_view(children@),
        ),
{
    let ghost given = children@;
    let ghost all = forest_view(children@);
    let ghost target = forest_adopt_all(forest_view(roots@), parent_id@, all);
    proof {
        lemma_forest_view(given);
        assert(all.skip(0) == all);
    }
    for child in it: children
        invariant
            it.seq() == given,
            all == forest_view(given),
            all.len() == given.len(),
            forall|j: int| 0 <= j < given.len() ==> (#[trigger] all[j]) == given[j]@,
            forest_count(forest_view(roots@), parent_id@) > 0,
            forest_adopt_all(forest_view(roots@), parent_id@, all.skip(it.index())) == target,
    {
        let ghost before = forest_view(roots@);
        let ghost at = it.index();
        proof {
            assert(all.skip(at).first() == child@);
            assert(all.skip(at).drop_first() == all.skip(at + 1));
            lemma_adopt_count(before, parent_id@, child@, parent_id@);
        }
        let rest = adopt_tree_node(roots, parent_id, child);
    }
    proof {
        assert(all.skip(given.len() as int).len() == 0);
    }
}

/// Tree widget.
///
/// The widget mirrors a hierarchical data model. Roots are fetched the first
/// time the tree is rendered. The children of a node are fetched when the node
/// is expanded and offered to the rendering surface as commands. The children
/// that the surface confirms are held back until every child of the expansion
/// is answered: then they become the node's children, all at once and in the
/// order of their confirmation, and the node counts as loaded. Where the
/// surface fails one child, the expansion fails: its confirmed children are
/// given up with it and the node stays as it was, so that a later expansion
/// clears the node on the surface and offers all children anew.
#[verifier::reject_recursive_types(U)]
pub struct Tree<U> {
    pub id: String,
    /// The materialised part of the hierarchy.
    pub roots: Vec<TreeNode<U>>,
    /// Whether the roots were fetched from the model.
    pub roots_loaded: bool,
    /// Children offered to the rendering surface and not yet answered.
    pub in_flight: Vec<TreeNode<U>>,
    /// Children of the expansion under way that the surface confirmed.
    pub confirmed: Vec<TreeNode<U>>,
    /// Whether the surface failed a child of the expansion under way.
    pub failed: bool,
    /// The node under expansion.
    pub in_flight_parent: String,
    /// Commands waiting to be handed to the rendering surface.
    pub pending: Vec<Command>,
    pub click_event: Option<Box<dyn Listener<U>>>,
    pub model: Box<dyn AskedModel<U>>,
}

impl<U: 'static> Tree<U> {
    /// The materialised part of the hierarchy as a mathematical value.
    pub open spec fn forest(&self) -> Seq<VirtualTreeNode<U>> {
        forest_view(self.roots@)
    }

    /// The children in flight as mathematical values.
    pub open spec fn candidates(&self) -> Seq<VirtualTreeNode<U>> {
        forest_view(self.in_flight@)
    }

    /// The confirmed children of the expansion under way as mathematical
    /// values.
    pub open spec fn confirmed_children(&self) -> Seq<VirtualTreeNode<U>> {
        forest_view(self.confirmed@)
    }

    /// How often `id` is in use: by the widget itself, by a node of the
    /// hierarchy, by a child in flight, or by a confirmed child.
    pub open spec fn occurrences(&self, id: Seq<char>) -> nat {
        (if self.id@ == id {
            1nat
        } else {
            0nat
        }) + forest_count(self.forest(), id) + forest_count(self.candidates(), id) + forest_count(
            self.confirmed_children(),
            id,
        )
    }

    /// The identifiers in use.
    pub open spec fn in_use(&self) -> Set<Seq<char>> {
        Set::new(|id: Seq<char>| self.occurrences(id) > 0)
    }

    /// The node under expansion is in the hierarchy and its children are not
    /// loaded.
    pub open spec fn expanding(&self) -> bool {
        &&& forest_find(self.forest(), self.in_flight_parent@) is Some
        &&& !forest_find(self.forest(), self.in_flight_parent@).unwrap().children_loaded
    }

    /// `other` has the identifier, the listener and the model of `self`.
    pub open spec fn same_setup(&self, other: &Self) -> bool {
        &&& other.id@ == self.id@
        &&& other.click_event == self.click_event
        &&& other.model == self.model
    }

    /// `other` is as far in its expansion as `self`.
    pub open spec fn same_expansion(&self, other: &Self) -> bool {
        &&& other.candidates() == self.candidates()
        &&& other.confirmed_children() == self.confirmed_children()
        &&& other.failed == self.failed
        &&& other.in_flight_parent@ == self.in_flight_parent@
    }

    /// `other` is in the state of `self`.
    pub open spec fn same_state(&self, other: &Self) -> bool {
        &&& self.same_setup(other)
        &&& self.same_expansion(other)
        &&& other.forest() == self.forest()
        &&& other.roots_loaded == self.roots_loaded
        &&& command_views(other.pending@) == command_views(self.pending@)
    }

    /// `nodes` are the nodes built for `objects`: one for each and in their
    /// order, each as it was created, with a fresh identifier, with its object
    /// as payload, and with the caption and the children flag that the model
    /// gave for the object.
    pub open spec fn built_for(&self, nodes: Seq<TreeNode<U>>, objects: Seq<U>) -> bool {
        &&& nodes.len() == objects.len()
        &&& forall|i: int|
            0 <= i < nodes.len() ==> {
                &&& (#[trigger] nodes[i])@.pristine()
                &&& nodes[i]@.payload == objects[i]
                &&& is_component_id(nodes[i]@.id)
                &&& self.model.gave_caption(&objects[i], nodes[i].caption)
                &&& self.model.gave_flag(&objects[i], nodes[i].has_children)
            }
    }

    /// The identifiers of the widget and of the nodes of the hierarchy.
    pub open spec fn settled_ids(&self) -> Set<Seq<char>> {
        Set::new(|id: Seq<char>| id == self.id@ || forest_count(self.forest(), id) > 0)
    }

    /// `after` has as roots what `self` made of the model's answer: the model
    /// gave `objects` as roots, `nodes` are the nodes built for them, and the
    /// roots are those of the nodes whose identifier was not in use.
    pub open spec fn rooted_with(&self, after: &Self, objects: Vec<U>, nodes: Seq<TreeNode<U>>) -> bool {
        &&& self.model.gave_roots(objects)
        &&& self.built_for(nodes, objects@)
        &&& after.forest() == kept(self.in_use(), forest_view(nodes))
    }

    /// `after` has in flight what `self` made of the model's answer: the model
    /// gave `objects` as children of the payload of the node `parent`, `nodes`
    /// are the nodes built for them, and the children in flight are those of
    /// the nodes whose identifier was not in use.
    pub open spec fn expanded_with(
        &self,
        after: &Self,
        parent: Seq<char>,
        objects: Vec<U>,
        nodes: Seq<TreeNode<U>>,
    ) -> bool {
        &&& forest_find(self.forest(), parent) is Some
        &&& self.model.gave_children(&forest_find(self.forest(), parent).unwrap().payload, objects)
        &&& self.built_for(nodes, objects@)
        &&& after.candidates() == kept(self.settled_ids(), forest_view(nodes))
    }

    /// `after` is `self` once the rendering surface's answer for the child
    /// `node_id` was taken in.
    ///
    /// Nothing changes where no child in flight carries the id. Otherwise the
    /// child leaves the children in flight, to join the confirmed children
    /// where the surface showed it, and to be given up, marking the expansion
    /// as failed, where the surface failed. Where it was the last child in
    /// flight the expansion closes: without a failure the confirmed children
    /// are committed under the node under expansion, in the order of their
    /// confirmation; after a failure they are given up and the hierarchy
    /// stays as it was.
    pub open spec fn settled_as(&self, after: &Self, node_id: Seq<char>, succeeded: bool) -> bool {
        if !has_candidate(self.candidates(), node_id) {
            self.same_state(after)
        } else {
            let k = candidate_index(self.candidates(), node_id);
            let rest = self.candidates().remove(k);
            let confirmed = if succeeded {
                self.confirmed_children().push(self.candidates()[k])
            } else {
                self.confirmed_children()
            };
            let failed = self.failed || !succeeded;
            &&& is_first_candidate(self.candidates(), node_id, k)
            &&& self.same_setup(after)
            &&& after.roots_loaded == self.roots_loaded
            &&& after.in_flight_parent@ == self.in_flight_parent@
            &&& command_views(after.pending@) == command_views(self.pending@)
            &&& after.candidates() == rest
            &&& if rest.len() > 0 {
                &&& after.confirmed_children() == confirmed
                &&& after.failed == failed
                &&& after.forest() == self.forest()
            } else {
                &&& after.confirmed_children() == Seq::<VirtualTreeNode<U>>::empty()
                &&& !after.failed
                &&& after.forest() == if failed {
                    self.forest()
                } else {
                    forest_adopt_all(self.forest(), self.in_flight_parent@, confirmed)
                }
            }
        }
    }

    /// All identifiers in use: the widget's own, then those of the nodes of
    /// the hierarchy, of the children in flight and of the confirmed
    /// children.
    pub open spec fn ids(&self) -> Seq<Seq<char>> {
        seq![self.id@] + forest_ids(self.forest()) + forest_ids(self.candidates()) + forest_ids(
            self.confirmed_children(),
        )
    }

    /// In a valid tree all identifiers are pairwise distinct: no two nodes
    /// share one, whether they are in the hierarchy, in flight or confirmed,
    /// and none carries the identifier of the widget itself.
    pub proof fn law_ids_pairwise_distinct(&self)
        requires
            self.wf(),
        ensures
            self.ids().no_duplicates(),
    {
        broadcast use vstd::multiset::group_multiset_axioms;

        let own = seq![self.id@];
        let nodes = forest_ids(self.forest());
        let flying = forest_ids(self.candidates());
        let held = forest_ids(self.confirmed_children());
        assert forall|id: Seq<char>| self.ids().to_multiset().contains(id) implies self.ids().to_multiset().count(
            id,
        ) == 1 by {
            lemma_multiset_commutative(own + nodes + flying, held);
            lemma_multiset_commutative(own + nodes, flying);
            lemma_multiset_commutative(own, nodes);
            lemma_ids_count(self.forest(), id);
            lemma_ids_count(self.candidates(), id);
            lemma_ids_count(self.confirmed_children(), id);
            assert(own.to_multiset() =~= vstd::multiset::Multiset::singleton(self.id@)) by {
                let empty = Seq::<Seq<char>>::empty();
                empty.to_multiset_ensures();
                assert(empty.push(self.id@) =~= own);
                assert(empty.to_multiset() =~= vstd::multiset::Multiset::empty());
            }
            assert(self.ids().to_multiset().count(id) == self.occurrences(id));
            assert(self.occurrences(id) <= 1);
        }
        self.ids().lemma_multiset_has_no_duplicates_conv();
    }

    /// In a valid tree a child in flight is not part of the hierarchy: a
    /// search of the hierarchy for its identifier finds nothing.
    pub proof fn law_candidate_absent(&self, k: int)
        requires
            self.wf(),
            0 <= k < self.candidates().len(),
        ensures
            forest_count(self.forest(), self.candidates()[k].id) == 0,
            forest_find(self.forest(), self.candidates()[k].id) is None,
    {
        let id = self.candidates()[k].id;
        lemma_count_parts(self.candidates(), k, id);
        assert(self.occurrences(id) <= 1);
        lemma_find_count(self.forest(), id);
    }

    /// In a valid tree, while a child is in flight the node under expansion
    /// is in the hierarchy, its children do not count as loaded, and it has
    /// no children.
    pub proof fn law_parent_unloaded_while_expanding(&self)
        requires
            self.wf(),
            self.candidates().len() > 0,
        ensures
            forest_find(self.forest(), self.in_flight_parent@) is Some,
            !forest_find(self.forest(), self.in_flight_parent@).unwrap().children_loaded,
            forest_find(self.forest(), self.in_flight_parent@).unwrap().children.len() == 0,
    {
        lemma_found_settled(self.forest(), self.in_flight_parent@);
    }

    /// Create a tree over the given model. Nothing is fetched yet.
    pub fn new<M: TreeModel<U> + 'static>(model: M) -> (tree: Self)
        ensures
            tree.wf(),
            is_component_id(tree.id@),
            tree.forest() == Seq::<VirtualTreeNode<U>>::empty(),
            tree.candidates() == Seq::<VirtualTreeNode<U>>::empty(),
            tree.confirmed_children() == Seq::<VirtualTreeNode<U>>::empty(),
            tree.outbox() == Seq::<CommandView>::empty(),
            !tree.failed,
            !tree.roots_loaded,
            tree.click_event is None,
    {
        let tree = Tree {
            id: create_id(),
            roots: Vec::new(),
            roots_loaded: false,
            in_flight: Vec::new(),
            confirmed: Vec::new(),
            failed: false,
            in_flight_parent: String::new(),
            pending: Vec::new(),
            click_event: None,
            model: Box::new(Asked { model }),
        };
        assert(tree.outbox() =~= Seq::<CommandView>::empty());
        tree
    }

    /// Register the listener that is told the payload of a clicked node: from
    /// now on the listener is `event`, whatever it was before.
    pub fn set_click_event<F: Fn(&U) + 'static>(&mut self, event: F)
        requires
            old(self).wf(),
            forall|payload: &U| call_requires(event, (payload,)),
        ensures
            final(self).wf(),
            final(self).click_event is Some,
            forall|payload: &U| #[trigger]
                final(self).click_event.unwrap().received(payload) <==> call_ensures(
                    event,
                    (payload,),
                    (),
                ),
            final(self).id@ == old(self).id@,
            final(self).model == old(self).model,
            old(self).same_expansion(final(self)),
            final(self).forest() == old(self).forest(),
            final(self).roots_loaded == old(self).roots_loaded,
            final(self).outbox() == old(self).outbox(),
    {
        let concrete = FnListener::new(event);
        let listener: Box<dyn Listener<U>> = Box::new(concrete);
        let registered = Some(listener);
        proof {
            assert forall|payload: &U| #[trigger]
                registered.unwrap().received(payload) <==> call_ensures(event, (payload,), ()) by {
                assert(listener.received(payload) <==> concrete.received(payload));
            }
        }
        self.click_event = registered;
        proof {
            assert forall|id: Seq<char>| #[trigger] self.occurrences(id) <= 1 by {
                assert(old(self).occurrences(id) <= 1);
            }
        }
    }

    /// Build the node for a domain object, with the caption and the children
    /// flag that the model gives for it.
    pub fn create_tree_node(&self, node_object: U) -> (node: TreeNode<U>)
        ensures
            node@.pristine(),
            node@.payload == node_object,
            is_component_id(node@.id),
            self.model.gave_caption(&node_object, node.caption),
            self.model.gave_flag(&node_object, node.has_children),
    {
        let caption = self.model.ask_caption(&node_object);
        let has_children = self.model.ask_has_children(&node_object);
        TreeNode::new(caption, node_object, has_children)
    }

    /// Build the nodes for domain objects, one for each and in their order.
    pub fn create_tree_nodes(&self, objects: Vec<U>) -> (nodes: Vec<TreeNode<U>>)
        ensures
            self.built_for(nodes@, objects@),
            all_pristine(forest_view(nodes@)),
    {
        let ghost given = objects@;
        let mut nodes: Vec<TreeNode<U>> = Vec::new();
        for object in it: objects
            invariant
                it.seq() == given,
                nodes@.len() == it.index(),
                self.built_for(nodes@, given.take(it.index())),
        {
            let ghost before = nodes@;
            let ghost at = it.index();
            let node = self.create_tree_node(object);
            nodes.push(node);
            proof {
                assert forall|i: int| 0 <= i < nodes@.len() implies {
                    &&& (#[trigger] nodes@[i])@.pristine()
                    &&& nodes@[i]@.payload == given.take(at + 1)[i]
                    &&& is_component_id(nodes@[i]@.id)
                    &&& self.model.gave_caption(&given.take(at + 1)[i], nodes@[i].caption)
                    &&& self.model.gave_flag(&given.take(at + 1)[i], nodes@[i].has_children)
                } by {
                    if i < at {
                        assert(nodes@[i] == before[i]);
                        assert(given.take(at)[i] == given.take(at + 1)[i]);
                    }
                }
            }
        }
        proof {
            assert(given.take(given.len() as int) == given);
        }
        proof {
            lemma_forest_view(nodes@);
        }
        nodes
    }

    /// Whether `id` is in use by the widget, a node, a child in flight or a
    /// confirmed child.
    pub fn is_used(&self, id: &String) -> (used: bool)
        ensures
            used == (self.occurrences(id@) > 0),
            used == self.in_use().contains(id@),
    {
        proof {
            lemma_find_count(self.forest(), id@);
            lemma_find_count(self.candidates(), id@);
            lemma_find_count(self.confirmed_children(), id@);
        }
        if self.id == *id {
            return true;
        }
        if find_tree_node(&self.roots, id).is_some() {
            return true;
        }
        if find_tree_node(&self.in_flight, id).is_some() {
            return true;
        }
        find_tree_node(&self.confirmed, id).is_some()
    }

    /// Add `node` to the roots. A node whose id is already in use is dropped.
    pub fn add_root(&mut self, node: TreeNode<U>) -> (added: bool)
        requires
            old(self).wf(),
            old(self).roots_loaded,
            node@.pristine(),
        ensures
            final(self).wf(),
            added == !old(self).in_use().contains(node@.id),
            added ==> final(self).forest() == old(self).forest().push(node@) && final(self).in_use() == old(self).in_use().insert(node@.id),
            !added ==> final(self).forest() == old(self).forest() && final(self).in_use() == old(self).in_use(),
            old(self).same_setup(final(self)),
            old(self).same_expansion(final(self)),
            final(self).roots_loaded == old(self).roots_loaded,
            final(self).outbox() == old(self).outbox(),
    {
        if self.is_used(&node.id) {
            proof {
                assert(self.in_use() =~= old(self).in_use());
            }
            return false;
        }
        let ghost fresh = node@;
        proof {
            assert(self.roots@.push(node).drop_last() == self.roots@);
            lemma_pristine_count(node@, node@.id);
            assert(self.forest().push(node@).drop_last() == self.forest());
            if self.candidates().len() > 0 {
                lemma_find_count(self.forest(), self.in_flight_parent@);
                lemma_find_prefix(
                    self.forest().push(node@),
                    self.forest().len() as int,
                    self.in_flight_parent@,
                );
                assert(self.forest().push(node@).take(self.forest().len() as int)
                    == self.forest());
            }
        }
        self.roots.push(node);
        proof {
            assert(self.forest() == old(self).forest().push(fresh));
            assert forall|id: Seq<char>| #[trigger] self.occurrences(id) == old(self).occurrences(id)
                + (if id == fresh.id {
                1nat
            } else {
                0nat
            }) by {
                lemma_count_push(old(self).forest(), fresh, id);
                lemma_pristine_count(fresh, id);
            }
            assert forall|id: Seq<char>| #[trigger] self.occurrences(id) <= 1 by {
                assert(old(self).occurrences(id) <= 1);
                assert(old(self).in_use().contains(id) == (old(self).occurrences(id) > 0));
            }
            assert(self.in_use() =~= old(self).in_use().insert(fresh.id));
        }
        true
    }

    /// Add the nodes to the roots, in their order. A node whose id is already
    /// in use, be it by a node added before it, is dropped.
    pub fn add_roots(&mut self, nodes: Vec<TreeNode<U>>)
        requires
            old(self).wf(),
            old(self).roots_loaded,
            all_pristine(forest_view(nodes@)),
        ensures
            final(self).wf(),
            final(self).forest() == old(self).forest() + kept(
                old(self).in_use(),
                forest_view(nodes@),
            ),
            old(self).same_setup(final(self)),
            old(self).same_expansion(final(self)),
            final(self).roots_loaded == old(self).roots_loaded,
            final(self).outbox() == old(self).outbox(),
    {
        let ghost given = nodes@;
        let ghost all = forest_view(nodes@);
        let ghost target = self.forest() + kept(self.in_use(), all);
        proof {
            lemma_forest_view(given);
            assert(all.skip(0) == all);
        }
        for node in it: nodes
            invariant
                it.seq() == given,
                all == forest_view(given),
                all.len() == given.len(),
                forall|j: int| 0 <= j < given.len() ==> (#[trigger] all[j]) == given[j]@,
                all_pristine(all),
                self.wf(),
                self.roots_loaded,
                old(self).same_setup(self),
                old(self).same_expansion(self),
                self.outbox() == old(self).outbox(),
                self.forest() + kept(self.in_use(), all.skip(it.index())) == target,
        {
            let ghost at = it.index();
            let ghost before = self.forest();
            let ghost used = self.in_use();
            proof {
                assert(all.skip(at).first() == node@);
                assert(all.skip(at).drop_first() == all.skip(at + 1));
                assert(node@.pristine());
            }
            let added = self.add_root(node);
            proof {
                if added {
                    assert(before.push(all[at]) + kept(used.insert(all[at].id), all.skip(at + 1))
                        =~= before + (seq![all[at]] + kept(
                        used.insert(all[at].id),
                        all.skip(at + 1),
                    )));
                }
            }
        }
        proof {
            assert(all.skip(given.len() as int).len() == 0);
            assert(self.forest() + Seq::<VirtualTreeNode<U>>::empty() =~= self.forest());
        }
    }

    /// Offer `node` as a child of the node under expansion: the node joins
    /// the children in flight, and the command that shows it joins the waiting
    /// commands. A node whose id is already in use is dropped.
    pub fn stage_candidate(&mut self, node: TreeNode<U>) -> (staged: bool)
        requires
            old(self).wf(),
            old(self).expanding(),
            node@.pristine(),
        ensures
            final(self).wf(),
            staged == !old(self).in_use().contains(node@.id),
            staged ==> {
                &&& final(self).candidates() == old(self).candidates().push(node@)
                &&& final(self).outbox() == old(self).outbox().push(
                    node@.add_command(old(self).id@, old(self).in_flight_parent@),
                )
                &&& final(self).in_use() == old(self).in_use().insert(node@.id)
            },
            !staged ==> {
                &&& final(self).candidates() == old(self).candidates()
                &&& final(self).outbox() == old(self).outbox()
                &&& final(self).in_use() == old(self).in_use()
            },
            old(self).same_setup(final(self)),
            final(self).forest() == old(self).forest(),
            final(self).roots_loaded == old(self).roots_loaded,
            final(self).confirmed_children() == old(self).confirmed_children(),
            final(self).failed == old(self).failed,
            final(self).in_flight_parent@ == old(self).in_flight_parent@,
    {
        if self.is_used(&node.id) {
            proof {
                assert(self.in_use() =~= old(self).in_use());
            }
            return false;
        }
        let command = Command::AddTreeNode {
            tree_id: self.id.clone(),
            parent_id: self.in_flight_parent.clone(),
            node_id: node.id.clone(),
            caption: node.caption.clone(),
            has_children: node.has_children,
        };
        let ghost fresh = node@;
        proof {
            assert(self.in_flight@.push(node).drop_last() == self.in_flight@);
            assert(command_views(self.pending@.push(command)) =~= command_views(
                self.pending@,
            ).push(command@));
        }
        self.pending.push(command);
        self.in_flight.push(node);
        proof {
            assert(self.candidates() == old(self).candidates().push(fresh));
            assert forall|id: Seq<char>| #[trigger] self.occurrences(id) == old(self).occurrences(id)
                + (if id == fresh.id {
                1nat
            } else {
                0nat
            }) by {
                lemma_count_push(old(self).candidates(), fresh, id);
                lemma_pristine_count(fresh, id);
            }
            assert forall|id: Seq<char>| #[trigger] self.occurrences(id) <= 1 by {
                assert(old(self).occurrences(id) <= 1);
                assert(old(self).in_use().contains(id) == (old(self).occurrences(id) > 0));
            }
            assert(self.in_use() =~= old(self).in_use().insert(fresh.id));
        }
        true
    }

    /// Offer the nodes as children of the node under expansion, in their
    /// order: each joins the children in flight, and the command that shows it
    /// joins the waiting commands. A node whose id is already in use, be it by
    /// a node offered before it, is dropped.
    pub fn stage_children(&mut self, nodes: Vec<TreeNode<U>>)
        requires
            old(self).wf(),
            old(self).expanding(),
            all_pristine(forest_view(nodes@)),
        ensures
            final(self).wf(),
            final(self).candidates() == old(self).candidates() + kept(
                old(self).in_use(),
                forest_view(nodes@),
            ),
            final(self).outbox() == old(self).outbox() + add_commands(
                kept(old(self).in_use(), forest_view(nodes@)),
                old(self).id@,
                old(self).in_flight_parent@,
            ),
            old(self).same_setup(final(self)),
            final(self).forest() == old(self).forest(),
            final(self).roots_loaded == old(self).roots_loaded,
            final(self).confirmed_children() == old(self).confirmed_children(),
            final(self).failed == old(self).failed,
            final(self).in_flight_parent@ == old(self).in_flight_parent@,
    {
        let ghost given = nodes@;
        let ghost all = forest_view(nodes@);
        let ghost tree = self.id@;
        let ghost parent = self.in_flight_parent@;
        let ghost target = self.candidates() + kept(self.in_use(), all);
        let ghost commands = self.outbox() + add_commands(kept(self.in_use(), all), tree, parent);
        proof {
            lemma_forest_view(given);
            assert(all.skip(0) == all);
        }
        for node in it: nodes
            invariant
                it.seq() == given,
                all == forest_view(given),
                all.len() == given.len(),
                forall|j: int| 0 <= j < given.len() ==> (#[trigger] all[j]) == given[j]@,
                all_pristine(all),
                self.wf(),
                self.expanding(),
                old(self).same_setup(self),
                self.id@ == tree,
                self.in_flight_parent@ == parent,
                self.forest() == old(self).forest(),
                self.roots_loaded == old(self).roots_loaded,
                self.confirmed_children() == old(self).confirmed_children(),
                self.failed == old(self).failed,
                self.candidates() + kept(self.in_use(), all.skip(it.index())) == target,
                self.outbox() + add_commands(
                    kept(self.in_use(), all.skip(it.index())),
                    tree,
                    parent,
                ) == commands,
        {
            let ghost at = it.index();
            let ghost before = self.candidates();
            let ghost waiting = self.outbox();
            let ghost used = self.in_use();
            proof {
                assert(all.skip(at).first() == node@);
                assert(all.skip(at).drop_first() == all.skip(at + 1));
                assert(node@.pristine());
            }
            let staged = self.stage_candidate(node);
            proof {
                if staged {
                    let later = kept(used.insert(all[at].id), all.skip(at + 1));
                    assert(before.push(all[at]) + later =~= before + (seq![all[at]] + later));
                    assert(waiting.push(all[at].add_command(tree, parent)) + add_commands(
                        later,
                        tree,
                        parent,
                    ) =~= waiting + add_commands(seq![all[at]] + later, tree, parent));
                }
            }
        }
        proof {
            assert(all.skip(given.len() as int).len() == 0);
            assert(self.candidates() + Seq::<VirtualTreeNode<U>>::empty() =~= self.candidates());
            assert(self.outbox() + add_commands(
                Seq::<VirtualTreeNode<U>>::empty(),
                tree,
                parent,
            ) =~= self.outbox());
        }
    }

    /// Fetch the roots from the model the first time this is called; later
    /// calls change nothing. The roots are the nodes built for the model's
    /// objects, in the model's order, as [`Tree::add_roots`] takes them in.
    pub fn load_roots(&mut self)
        requires
            old(self).wf(),
        ensures
            final(self).wf(),
            final(self).roots_loaded,
            old(self).roots_loaded ==> final(self).forest() == old(self).forest(),
            !old(self).roots_loaded ==> all_pristine(final(self).forest()),
            !old(self).roots_loaded ==> exists|objects: Vec<U>, nodes: Seq<TreeNode<U>>| #[trigger]
                old(self).rooted_with(final(self), objects, nodes),
            old(self).same_setup(final(self)),
            old(self).same_expansion(final(self)),
            final(self).outbox() == old(self).outbox(),
    {
        if self.roots_loaded {
            return;
        }
        let objects = self.model.ask_roots();
        let nodes = self.create_tree_nodes(objects);
        let ghost built = nodes@;
        self.roots_loaded = true;
        proof {
            assert forall|id: Seq<char>| #[trigger] self.occurrences(id) <= 1 by {
                assert(old(self).occurrences(id) <= 1);
            }
        }
        let ghost fresh = kept(self.in_use(), forest_view(nodes@));
        proof {
            lemma_kept_pristine(self.in_use(), forest_view(nodes@));
            assert(self.in_use() =~= old(self).in_use());
        }
        self.add_roots(nodes);
        proof {
            assert(self.forest() =~= fresh);
            assert(old(self).rooted_with(self, objects, built));
        }
    }

    /// Render the rows of the roots, fetching the roots first where they were
    /// not fetched yet.
    pub fn render_roots(&mut self) -> (html: String)
        requires
            old(self).wf(),
        ensures
            final(self).wf(),
            final(self).roots_loaded,
            old(self).roots_loaded ==> final(self).forest() == old(self).forest(),
            !old(self).roots_loaded ==> all_pristine(final(self).forest()),
            !old(self).roots_loaded ==> exists|objects: Vec<U>, nodes: Seq<TreeNode<U>>| #[trigger]
                old(self).rooted_with(final(self), objects, nodes),
            old(self).same_setup(final(self)),
            old(self).same_expansion(final(self)),
            final(self).outbox() == old(self).outbox(),
            html@ == forest_rows(final(self).forest()),
    {
        self.load_roots();
        let ghost forest = self.forest();
        proof {
            lemma_forest_view(self.roots@);
        }
        let mut html = String::new();
        let mut i: usize = 0;
        while i < self.roots.len()
            invariant
                i <= self.roots@.len(),
                forest == self.forest(),
                forest.len() == self.roots@.len(),
                forall|j: int| 0 <= j < self.roots@.len() ==> (#[trigger] forest[j]) == self.roots@[j]@,
                html@ == forest_rows(forest.take(i as int)),
            decreases self.roots@.len() - i,
        {
            let row = self.roots[i].render_node();
            proof {
                assert(forest.take(i + 1).drop_last() == forest.take(i as int));
                assert(forest.take(i + 1).last() == forest[i as int]);
            }
            html.append(row.as_str());
            i = i + 1;
        }
        proof {
            assert(forest.take(i as int) == forest);
        }
        html
    }

    /// Tell the click listener the payload of the node `child_id`. The
    /// listener is called, once, where there is a listener and a node carries
    /// the id; otherwise the click is dropped. Returns whether it was called.
    pub fn click_child(&self, child_id: &String) -> (told: bool)
        ensures
            told == (self.click_event is Some && forest_find(self.forest(), child_id@) is Some),
            told ==> self.click_event.unwrap().received(
                &forest_find(self.forest(), child_id@).unwrap().payload,
            ),
    {
        match &self.click_event {
            Some(listener) => {
                match find_tree_node(&self.roots, child_id) {
                    Some(child) => {
                        listener.notify(&child.user_object);
                        true
                    },
                    None => false,
                }
            },
            None => false,
        }
    }

    /// Make `parent_id` the node under expansion: the children in flight and
    /// the confirmed children of an expansion that was under way are given up,
    /// and the one waiting command is to clear what the rendering surface
    /// shows beneath the node.
    pub fn begin_expansion(&mut self, parent_id: &String)
        requires
            old(self).wf(),
            forest_find(old(self).forest(), parent_id@) is Some,
            !forest_find(old(self).forest(), parent_id@).unwrap().children_loaded,
        ensures
            final(self).wf(),
            final(self).expanding(),
            old(self).same_setup(final(self)),
            final(self).forest() == old(self).forest(),
            final(self).roots_loaded == old(self).roots_loaded,
            final(self).in_flight_parent@ == parent_id@,
            final(self).candidates() == Seq::<VirtualTreeNode<U>>::empty(),
            final(self).confirmed_children() == Seq::<VirtualTreeNode<U>>::empty(),
            !final(self).failed,
            final(self).outbox() == seq![
                CommandView::ClearNode { tree_id: old(self).id@, node_id: parent_id@ },
            ],
            forall|id: Seq<char>|
                final(self).in_use().contains(id) <==> (id == old(self).id@ || forest_count(
                    old(self).forest(),
                    id,
                ) > 0),
    {
        let clear = Command::ClearNode { tree_id: self.id.clone(), node_id: parent_id.clone() };
        self.in_flight = Vec::new();
        self.confirmed = Vec::new();
        self.failed = false;
        self.in_flight_parent = parent_id.clone();
        self.pending = Vec::new();
        self.pending.push(clear);
        proof {
            assert forall|id: Seq<char>| #[trigger] self.occurrences(id) <= 1 by {
                assert(old(self).occurrences(id) <= 1);
            }
            assert(self.outbox() =~= seq![
                CommandView::ClearNode { tree_id: old(self).id@, node_id: parent_id@ },
            ]);
            assert forall|id: Seq<char>| self.in_use().contains(id) <==> (id == old(self).id@
                || forest_count(old(self).forest(), id) > 0) by {
                assert(self.in_use().contains(id) == (self.occurrences(id) > 0));
            }
        }
    }

    /// Start the expansion of the node `parent_id`.
    ///
    /// Nothing happens where no node carries the id, or where the node's
    /// children are loaded already. Otherwise the node becomes the node under
    /// expansion, as [`Tree::begin_expansion`] says; the model is asked for the
    /// children of the node's payload; and the nodes built for the model's
    /// objects are offered, in the model's order, as [`Tree::stage_children`]
    /// says. The waiting commands are then: clear the node, then add each
    /// child in flight. The hierarchy itself changes only when the answers
    /// arrive.
    pub fn create_children(&mut self, parent_id: &String)
        requires
            old(self).wf(),
        ensures
            final(self).wf(),
            old(self).same_setup(final(self)),
            final(self).forest() == old(self).forest(),
            final(self).roots_loaded == old(self).roots_loaded,
            match forest_find(old(self).forest(), parent_id@) {
                Some(parent) => if parent.children_loaded {
                    old(self).same_state(final(self))
                } else {
                    &&& final(self).in_flight_parent@ == parent_id@
                    &&& final(self).confirmed_children() == Seq::<VirtualTreeNode<U>>::empty()
                    &&& !final(self).failed
                    &&& final(self).outbox() == expansion_commands(
                        final(self).id@,
                        parent_id@,
                        final(self).candidates(),
                    )
                    &&& exists|objects: Vec<U>, nodes: Seq<TreeNode<U>>| #[trigger]
                        old(self).expanded_with(final(self), parent_id@, objects, nodes)
                },
                None => old(self).same_state(final(self)),
            },
    {
        let objects = match find_tree_node(&self.roots, parent_id) {
            None => {
                return;
            },
            Some(parent) => {
                if parent.children_loaded {
                    return;
                }
                self.model.ask_children(&parent.user_object)
            },
        };
        let nodes = self.create_tree_nodes(objects);
        let ghost built = nodes@;
        self.begin_expansion(parent_id);
        let ghost fresh = kept(self.in_use(), forest_view(nodes@));
        proof {
            assert(self.in_use() =~= old(self).settled_ids());
        }
        self.stage_children(nodes);
        proof {
            assert(self.candidates() =~= fresh);
            assert(self.outbox() =~= expansion_commands(self.id@, parent_id@, self.candidates()));
            assert(old(self).expanded_with(self, parent_id@, objects, built));
        }
    }

    /// Take in the rendering surface's answer for the child `node_id`, as
    /// [`Tree::settled_as`] says.
    ///
    /// A node's children count as loaded only through the answer that closes
    /// an expansion without failure. After an expansion that failed the node
    /// under expansion is as it was before, without children and not loaded,
    /// and neither the failed child nor its confirmed siblings are in the
    /// hierarchy.
    pub fn settle(&mut self, node_id: &String, succeeded: bool)
        requires
            old(self).wf(),
        ensures
            final(self).wf(),
            old(self).settled_as(final(self), node_id@, succeeded),
            later_forest(old(self).forest(), final(self).forest()),
            !has_candidate(final(self).candidates(), node_id@),
            !succeeded ==> final(self).forest() == old(self).forest(),
            has_candidate(old(self).candidates(), node_id@) ==> {
                let parent = old(self).in_flight_parent@;
                let before = forest_find(old(self).forest(), parent);
                let after = forest_find(final(self).forest(), parent);
                &&& forest_find(final(self).forest(), node_id@) is Some ==> succeeded
                &&& before is Some
                &&& after is Some
                &&& !before.unwrap().children_loaded
                &&& before.unwrap().children.len() == 0
                &&& after.unwrap().children_loaded <==> final(self).candidates().len() == 0 && !old(self).failed && succeeded
                &&& after.unwrap().children_loaded ==> after.unwrap().children == old(self).confirmed_children().push(
                    old(self).candidates()[candidate_index(old(self).candidates(), node_id@)],
                )
                &&& !after.unwrap().children_loaded ==> after.unwrap().children.len() == 0
            },
    {
        let ghost candidates = self.candidates();
        let ghost held = self.confirmed_children();
        let ghost forest = self.forest();
        let ghost parent = self.in_flight_parent@;
        proof {
            lemma_forest_view(self.in_flight@);
        }
        let mut at: Option<usize> = None;
        let mut i: usize = 0;
        while i < self.in_flight.len() && at.is_none()
            invariant
                i <= self.in_flight@.len(),
                candidates == self.candidates(),
                candidates.len() == self.in_flight@.len(),
                forall|j: int|
                    0 <= j < self.in_flight@.len() ==> (#[trigger] candidates[j])
                        == self.in_flight@[j]@,
                at is None ==> forall|j: int| 0 <= j < i ==> (#[trigger] candidates[j]).id != node_id@,
                at matches Some(k) ==> is_first_candidate(candidates, node_id@, k as int),
            decreases self.in_flight@.len() - i,
        {
            if self.in_flight[i].id == *node_id {
                at = Some(i);
            }
            i = i + 1;
        }
        match at {
            None => {
                assert(!has_candidate(self.candidates(), node_id@));
            },
            Some(k) => {
                let ghost child = candidates[k as int];
                let ghost rest = candidates.remove(k as int);
                let ghost confirmed = if succeeded {
                    held.push(child)
                } else {
                    held
                };
                proof {
                    let chosen = candidate_index(candidates, node_id@);
                    assert(is_first_candidate(candidates, node_id@, k as int));
                    assert(is_first_candidate(candidates, node_id@, chosen));
                    assert(chosen == k) by {
                        if chosen < k {
                            assert(candidates[chosen].id != node_id@);
                        } else if k < chosen {
                            assert(candidates[k as int].id != node_id@);
                        }
                    }
                    assert(has_candidate(candidates, node_id@));
                    lemma_forest_view_remove(self.in_flight@, k as int);
                    self.law_candidate_absent(k as int);
                    self.law_parent_unloaded_while_expanding();
                    lemma_find_count(forest, parent);
                    assert(child.pristine());
                    assert forall|j: int| 0 <= j < rest.len() implies (#[trigger] rest[j]).id
                        != node_id@ by {
                        lemma_count_remove(candidates, k as int, node_id@);
                        lemma_count_parts(rest, j, node_id@);
                        lemma_pristine_count(child, node_id@);
                        assert(self.occurrences(node_id@) <= 1);
                    }
                    assert forall|id: Seq<char>|
                        forest_count(rest, id) + forest_count(confirmed, id) <= forest_count(
                            candidates,
                            id,
                        ) + forest_count(held, id) by {
                        lemma_count_remove(candidates, k as int, id);
                        lemma_count_push(held, child, id);
                    }
                    assert(all_pristine(confirmed));
                    assert(self.confirmed@.push(self.in_flight@[k as int]).drop_last()
                        == self.confirmed@);
                }
                let node = self.in_flight.remove(k);
                if succeeded {
                    self.confirmed.push(node);
                } else {
                    self.failed = true;
                }
                proof {
                    assert(self.confirmed_children() == confirmed);
                    assert(self.candidates() == rest);
                }
                if self.in_flight.len() == 0 {
                    let mut children: Vec<TreeNode<U>> = Vec::new();
                    core::mem::swap(&mut self.confirmed, &mut children);
                    let failed = self.failed;
                    self.failed = false;
                    proof {
                        assert(forest_view(children@) == confirmed);
                        lemma_forest_view(self.in_flight@);
                        assert(rest.len() == 0);
                        assert forall|id: Seq<char>|
                            forest_count(forest, id) + forest_count(confirmed, id) <= 1 by {
                            assert(old(self).occurrences(id) <= 1);
                        }
                    }
                    if !failed {
                        proof {
                            lemma_adopt_all_settled(forest, parent, confirmed);
                            lemma_adopt_all_later(forest, parent, confirmed);
                            lemma_adopt_all_find(forest, parent, confirmed);
                            assert forall|id: Seq<char>|
                                forest_count(forest_adopt_all(forest, parent, confirmed), id)
                                    == forest_count(forest, id) + forest_count(confirmed, id) by {
                                lemma_adopt_all_count(forest, parent, confirmed, id);
                            }
                            assert(Seq::<VirtualTreeNode<U>>::empty() + confirmed =~= confirmed);
                            assert(forest_find(forest, parent).unwrap().children
                                =~= Seq::<VirtualTreeNode<U>>::empty());
                        }
                        adopt_tree_nodes(&mut self.roots, &self.in_flight_parent, children);
                        proof {
                            lemma_find_count(self.forest(), node_id@);
                        }
                    }
                    proof {
                        assert forall|id: Seq<char>| #[trigger] self.occurrences(id) <= 1 by {
                            assert(old(self).occurrences(id) <= 1);
                            assert(forest_count(rest, id) + forest_count(confirmed, id)
                                <= forest_count(candidates, id) + forest_count(held, id));
                        }
                    }
                } else {
                    proof {
                        assert forall|id: Seq<char>| #[trigger] self.occurrences(id) <= 1 by {
                            assert(old(self).occurrences(id) <= 1);
                            assert(forest_count(rest, id) + forest_count(confirmed, id)
                                <= forest_count(candidates, id) + forest_count(held, id));
                        }
                    }
                }
            },
        }
    }
}

impl<U: 'static> Component for Tree<U> {
    open spec fn ident(&self) -> Seq<char> {
        self.id@
    }

    /// No identifier is in use twice. No node has children before its
    /// children were loaded. The children in flight and the confirmed children
    /// are as they were created. While children are in flight, the node under
    /// expansion is in the hierarchy and not loaded; once none is in flight,
    /// no confirmed child is held back and no failure is remembered. There are
    /// no roots before the roots were fetched.
    open spec fn wf(&self) -> bool {
        &&& forall|id: Seq<char>| #[trigger] self.occurrences(id) <= 1
        &&& forest_settled(self.forest())
        &&& all_pristine(self.candidates())
        &&& all_pristine(self.confirmed_children())
        &&& self.candidates().len() > 0 ==> self.expanding()
        &&& self.candidates().len() == 0 ==> self.confirmed_children().len() == 0 && !self.failed
        &&& !self.roots_loaded ==> self.roots@.len() == 0
    }

    open spec fn markup(&self) -> Seq<char> {
        "<ul id=\""@ + self.id@
            + "\" data-role=\"treeview\" data-on-expand-node=\"fire_node_expand\" data-on-tree-view-create=\"fire_created\" data-on-node-click=\"fire_node_clicked\">"@
            + forest_rows(self.forest()) + "</ul>"@
    }

    open spec fn handled(&self, event: &Event) -> bool {
        event.id@ == self.id@ ==> match event.value {
            EventValue::ChildClicked(child_id) => (self.click_event matches Some(listener) ==> (
            forest_find(self.forest(), child_id@) matches Some(node) ==> listener.received(
                &node.payload,
            ))),
            EventValue::NodeExpand(parent_id) => (forest_find(
                self.forest(),
                parent_id@,
            ) matches Some(parent) ==> parent.children_loaded || (self.in_flight_parent@
                == parent_id@ && self.outbox() == expansion_commands(
                self.id@,
                parent_id@,
                self.candidates(),
            ))),
            _ => true,
        }
    }

    open spec fn outbox(&self) -> Seq<CommandView> {
        command_views(self.pending@)
    }

    open spec fn answered(&self, reply: &Reply) -> bool {
        match reply.command {
            Command::AddTreeNode { tree_id, node_id, .. } => tree_id@ == self.id@ ==> !has_candidate(
                self.candidates(),
                node_id@,
            ),
            Command::ClearNode { .. } => true,
        }
    }

    /// Render the tree with the rows of its roots. The roots are fetched from
    /// the model the first time, and kept from then on. Children are not part
    /// of the markup: they reach the rendering surface as add commands.
    fn render(&mut self) -> (html: String)
        ensures
            final(self).roots_loaded,
            later_forest(old(self).forest(), final(self).forest()),
            old(self).roots_loaded ==> old(self).same_state(final(self)),
            !old(self).roots_loaded ==> all_pristine(final(self).forest()),
            !old(self).roots_loaded ==> exists|objects: Vec<U>, nodes: Seq<TreeNode<U>>| #[trigger]
                old(self).rooted_with(final(self), objects, nodes),
            old(self).same_setup(final(self)),
            old(self).same_expansion(final(self)),
    {
        let roots = self.render_roots();
        let mut html = String::from_str("<ul id=\"");
        html.append(self.id.as_str());
        html.append(
            "\" data-role=\"treeview\" data-on-expand-node=\"fire_node_expand\" data-on-tree-view-create=\"fire_created\" data-on-node-click=\"fire_node_clicked\">",
        );
        html.append(roots.as_str());
        html.append("</ul>");
        html
    }

    /// React to an event addressed to this tree: tell the click listener the
    /// payload of a clicked node, or start the expansion of a node. Events
    /// addressed elsewhere, clicks on unknown nodes and clicks without a
    /// listener change nothing.
    fn handle_event(&mut self, event: &Event)
        ensures
            old(self).same_setup(final(self)),
            final(self).forest() == old(self).forest(),
            final(self).roots_loaded == old(self).roots_loaded,
            event.id@ != old(self).id@ ==> old(self).same_state(final(self)),
            !(event.value is NodeExpand) ==> old(self).same_state(final(self)),
            event.id@ == old(self).id@ ==> (event.value matches EventValue::NodeExpand(parent_id)
                ==> match forest_find(old(self).forest(), parent_id@) {
                Some(parent) => if parent.children_loaded {
                    old(self).same_state(final(self))
                } else {
                    &&& final(self).in_flight_parent@ == parent_id@
                    &&& final(self).confirmed_children() == Seq::<VirtualTreeNode<U>>::empty()
                    &&& !final(self).failed
                    &&& final(self).outbox() == expansion_commands(
                        final(self).id@,
                        parent_id@,
                        final(self).candidates(),
                    )
                    &&& exists|objects: Vec<U>, nodes: Seq<TreeNode<U>>| #[trigger]
                        old(self).expanded_with(final(self), parent_id@, objects, nodes)
                },
                None => old(self).same_state(final(self)),
            }),
    {
        if event.id == self.id {
            match &event.value {
                EventValue::ChildClicked(child_id) => {
                    self.click_child(child_id);
                },
                EventValue::NodeExpand(parent_id) => {
                    self.create_children(parent_id);
                },
                _ => {},
            }
        }
    }

    /// Hand out the waiting commands. The children in flight stay in flight
    /// until they are answered.
    fn take_commands(&mut self) -> (commands: Vec<Command>)
        ensures
            old(self).same_setup(final(self)),
            old(self).same_expansion(final(self)),
            final(self).forest() == old(self).forest(),
            final(self).roots_loaded == old(self).roots_loaded,
    {
        let mut commands: Vec<Command> = Vec::new();
        core::mem::swap(&mut self.pending, &mut commands);
        proof {
            assert(self.outbox() =~= Seq::<CommandView>::empty());
            assert forall|id: Seq<char>| #[trigger] self.occurrences(id) <= 1 by {
                assert(old(self).occurrences(id) <= 1);
            }
        }
        commands
    }

    /// Take in the answer to a command. Only the answer to an add command of
    /// this tree for a child in flight has an effect: see [`Tree::settle`].
    /// The answer to a clear command has none, whatever it is.
    fn handle_reply(&mut self, reply: &Reply)
        ensures
            old(self).same_setup(final(self)),
            final(self).roots_loaded == old(self).roots_loaded,
            final(self).in_flight_parent@ == old(self).in_flight_parent@,
            final(self).outbox() == old(self).outbox(),
            later_forest(old(self).forest(), final(self).forest()),
            match reply.command {
                Command::AddTreeNode { tree_id, node_id, .. } => if tree_id@ == old(self).id@ {
                    old(self).settled_as(final(self), node_id@, reply.succeeded)
                } else {
                    old(self).same_state(final(self))
                },
                Command::ClearNode { .. } => old(self).same_state(final(self)),
            },
    {
        match &reply.command {
            Command::AddTreeNode { tree_id, node_id, .. } => {
                if *tree_id == self.id {
                    self.settle(node_id, reply.succeeded);
                }
            },
            Command::ClearNode { .. } => {},
        }
    }

    fn id(&self) -> (id: String) {
        self.id.clone()
    }
}

} // verus!
