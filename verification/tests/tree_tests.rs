use denshi::command::{Command, Reply};
use denshi::component::tree::{find_tree_node, Tree, TreeModel, TreeNode};
use denshi::component::Component;
use denshi::event::{Event, EventValue};
use std::cell::RefCell;
use std::collections::HashSet;
use std::rc::Rc;

/// A model with roots `a` and `b`, where `a` has the child `a1`.
struct Letters {
    root_calls: Rc<RefCell<u32>>,
    child_calls: Rc<RefCell<u32>>,
}

impl Letters {
    fn new() -> Self {
        Letters { root_calls: Rc::new(RefCell::new(0)), child_calls: Rc::new(RefCell::new(0)) }
    }
}

impl TreeModel<String> for Letters {
    fn roots(&self) -> Vec<String> {
        *self.root_calls.borrow_mut() += 1;
        vec!["a".to_string(), "b".to_string()]
    }

    fn children(&self, parent: &String) -> Vec<String> {
        *self.child_calls.borrow_mut() += 1;
        if parent == "a" {
            vec!["a1".to_string()]
        } else {
            Vec::new()
        }
    }

    fn caption(&self, node: &String) -> String {
        node.clone()
    }

    fn has_children(&self, node: &String) -> bool {
        node == "a"
    }
}

/// A model with one root `r` that has the children `x`, `y` and `z`.
struct Wide;

impl TreeModel<String> for Wide {
    fn roots(&self) -> Vec<String> {
        vec!["r".to_string()]
    }

    fn children(&self, parent: &String) -> Vec<String> {
        if parent == "r" {
            vec!["x".to_string(), "y".to_string(), "z".to_string()]
        } else {
            Vec::new()
        }
    }

    fn caption(&self, node: &String) -> String {
        format!("<{}>", node)
    }

    fn has_children(&self, node: &String) -> bool {
        node == "r" || node == "y"
    }
}

fn expand(tree: &Tree<String>, node_id: &str) -> Event {
    Event { id: tree.id(), value: EventValue::NodeExpand(node_id.to_string()) }
}

fn click(tree: &Tree<String>, node_id: &str) -> Event {
    Event { id: tree.id(), value: EventValue::ChildClicked(node_id.to_string()) }
}

/// Answers every command with the outcome that `verdict` gives for it.
fn answer(tree: &mut Tree<String>, commands: Vec<Command>, verdict: &dyn Fn(&Command) -> bool) {
    for command in commands {
        let succeeded = verdict(&command);
        tree.handle_reply(&Reply { command, succeeded });
    }
}

fn collect_ids(nodes: &Vec<TreeNode<String>>, into: &mut Vec<String>) {
    for node in nodes {
        into.push(node.id.clone());
        collect_ids(&node.nodes, into);
    }
}

fn node_id(tree: &Tree<String>, payload: &str) -> String {
    fn search(nodes: &Vec<TreeNode<String>>, payload: &str) -> Option<String> {
        for node in nodes {
            if node.user_object == payload {
                return Some(node.id.clone());
            }
            if let Some(found) = search(&node.nodes, payload) {
                return Some(found);
            }
        }
        None
    }
    search(&tree.roots, payload).unwrap()
}

#[test]
fn new_tree_fetches_nothing() {
    let model = Letters::new();
    let root_calls = model.root_calls.clone();
    let tree = Tree::new(model);
    assert!(tree.id.starts_with("id-"));
    assert_eq!(tree.id.len(), 24);
    assert!(tree.roots.is_empty());
    assert!(!tree.roots_loaded);
    assert!(tree.in_flight.is_empty());
    assert!(tree.confirmed.is_empty());
    assert!(!tree.failed);
    assert!(tree.pending.is_empty());
    assert!(tree.click_event.is_none());
    assert_eq!(*root_calls.borrow(), 0);
}

#[test]
fn first_render_yields_two_unexpanded_root_rows() {
    let mut tree = Tree::new(Letters::new());
    let html = tree.render();
    assert_eq!(tree.roots.len(), 2);
    let a = &tree.roots[0];
    let b = &tree.roots[1];
    assert_eq!(a.caption, "a");
    assert_eq!(b.caption, "b");
    assert!(a.has_children);
    assert!(!b.has_children);
    assert!(!a.children_loaded);
    assert!(!b.children_loaded);
    assert!(a.nodes.is_empty());
    assert!(b.nodes.is_empty());
    let expected = format!(
        "<ul id=\"{id}\" data-role=\"treeview\" data-on-expand-node=\"fire_node_expand\" data-on-tree-view-create=\"fire_created\" data-on-node-click=\"fire_node_clicked\"><li id=\"{a}\" data-caption=\"a\" data-collapsed=\"true\"><ul></ul></li><li id=\"{b}\" data-caption=\"b\" data-collapsed=\"true\"></li></ul>",
        id = tree.id,
        a = a.id,
        b = b.id
    );
    assert_eq!(html, expected);
}

#[test]
fn roots_are_fetched_once() {
    let model = Letters::new();
    let root_calls = model.root_calls.clone();
    let mut tree = Tree::new(model);
    let first = tree.render();
    let second = tree.render();
    let third = tree.render_roots();
    assert_eq!(first, second);
    assert!(first.contains(&third));
    assert_eq!(tree.roots.len(), 2);
    assert_eq!(*root_calls.borrow(), 1);
}

#[test]
fn render_node_writes_the_row() {
    let node = TreeNode::new("cap".to_string(), 7u32, true);
    assert_eq!(
        node.render_node(),
        format!(
            "<li id=\"{}\" data-caption=\"cap\" data-collapsed=\"true\"><ul></ul></li>",
            node.id
        )
    );
    let leaf = TreeNode::new("leaf".to_string(), 8u32, false);
    assert_eq!(
        leaf.render_node(),
        format!("<li id=\"{}\" data-caption=\"leaf\" data-collapsed=\"true\"></li>", leaf.id)
    );
    assert!(!leaf.children_loaded);
    assert!(leaf.nodes.is_empty());
    assert_eq!(leaf.user_object, 8);
}

#[test]
fn expansion_issues_one_clear_and_one_add_then_loads() {
    let mut tree = Tree::new(Letters::new());
    tree.render();
    let a = node_id(&tree, "a");
    tree.handle_event(&expand(&tree, &a));

    // Nothing is committed before the surface answered.
    assert!(tree.roots[0].nodes.is_empty());
    assert!(!tree.roots[0].children_loaded);
    assert_eq!(tree.in_flight.len(), 1);
    assert_eq!(tree.in_flight_parent, a);

    let commands = tree.take_commands();
    assert_eq!(commands.len(), 2);
    assert_eq!(
        commands[0],
        Command::ClearNode { tree_id: tree.id.clone(), node_id: a.clone() }
    );
    let a1 = tree.in_flight[0].id.clone();
    assert_eq!(
        commands[1],
        Command::AddTreeNode {
            tree_id: tree.id.clone(),
            parent_id: a.clone(),
            node_id: a1.clone(),
            caption: "a1".to_string(),
            has_children: false,
        }
    );
    assert_eq!(commands[0].script(), format!("clear_node('{}', '{}')", tree.id, a));
    assert_eq!(
        commands[1].script(),
        format!("add_tree_node('{}', '{}', '{}', 'a1', false)", tree.id, a, a1)
    );
    assert!(tree.take_commands().is_empty());

    answer(&mut tree, commands, &|_| true);
    assert!(tree.in_flight.is_empty());
    assert!(tree.roots[0].children_loaded);
    assert_eq!(tree.roots[0].nodes.len(), 1);
    assert_eq!(tree.roots[0].nodes[0].id, a1);
    assert_eq!(tree.roots[0].nodes[0].caption, "a1");
    assert_eq!(tree.roots[0].nodes[0].user_object, "a1");
    assert!(!tree.roots[0].nodes[0].children_loaded);
    assert!(!tree.roots[1].children_loaded);
}

#[test]
fn second_expansion_is_a_no_op() {
    let model = Letters::new();
    let child_calls = model.child_calls.clone();
    let mut tree = Tree::new(model);
    tree.render();
    let a = node_id(&tree, "a");
    tree.handle_event(&expand(&tree, &a));
    let commands = tree.take_commands();
    answer(&mut tree, commands, &|_| true);
    let children: Vec<String> = tree.roots[0].nodes.iter().map(|n| n.id.clone()).collect();

    tree.handle_event(&expand(&tree, &a));
    assert!(tree.take_commands().is_empty());
    assert!(tree.in_flight.is_empty());
    let again: Vec<String> = tree.roots[0].nodes.iter().map(|n| n.id.clone()).collect();
    assert_eq!(children, again);
    assert_eq!(tree.roots[0].nodes.len(), 1);
    assert_eq!(*child_calls.borrow(), 1);
}

#[test]
fn failed_add_leaves_the_child_out_and_the_parent_unloaded() {
    let mut tree = Tree::new(Letters::new());
    tree.render();
    let a = node_id(&tree, "a");
    tree.handle_event(&expand(&tree, &a));
    let commands = tree.take_commands();
    let a1 = tree.in_flight[0].id.clone();
    answer(&mut tree, commands, &|_| false);

    assert!(tree.in_flight.is_empty());
    assert!(tree.roots[0].nodes.is_empty());
    assert!(!tree.roots[0].children_loaded);
    assert!(find_tree_node(&tree.roots, &a1).is_none());

    // A later expansion tries again.
    tree.handle_event(&expand(&tree, &a));
    let retry = tree.take_commands();
    assert_eq!(retry.len(), 2);
    assert!(matches!(retry[0], Command::ClearNode { .. }));
    answer(&mut tree, retry, &|_| true);
    assert!(tree.roots[0].children_loaded);
    assert_eq!(tree.roots[0].nodes.len(), 1);
}

#[test]
fn failed_clear_does_not_block_the_commit() {
    let mut tree = Tree::new(Letters::new());
    tree.render();
    let a = node_id(&tree, "a");
    tree.handle_event(&expand(&tree, &a));
    let commands = tree.take_commands();
    answer(&mut tree, commands, &|c| matches!(c, Command::AddTreeNode { .. }));
    assert!(tree.roots[0].children_loaded);
    assert_eq!(tree.roots[0].nodes.len(), 1);
}

#[test]
fn a_failed_sibling_fails_the_expansion() {
    let mut tree = Tree::new(Wide);
    tree.render();
    let r = node_id(&tree, "r");
    tree.handle_event(&expand(&tree, &r));
    let commands = tree.take_commands();
    assert_eq!(commands.len(), 4);
    let ids: Vec<String> = tree.in_flight.iter().map(|n| n.id.clone()).collect();
    let failing = ids[1].clone();
    answer(&mut tree, commands, &|c| match c {
        Command::AddTreeNode { node_id, .. } => *node_id != failing,
        Command::ClearNode { .. } => true,
    });
    // The node is as it was: not loaded, without children.
    let root = &tree.roots[0];
    assert!(!root.children_loaded);
    assert!(root.nodes.is_empty());
    for id in &ids {
        assert!(find_tree_node(&tree.roots, id).is_none());
    }
    assert!(tree.in_flight.is_empty());
    assert!(tree.confirmed.is_empty());
    assert!(!tree.failed);

    // A later expansion clears the node and offers all children anew.
    tree.handle_event(&expand(&tree, &r));
    let retry = tree.take_commands();
    assert_eq!(retry.len(), 4);
    assert_eq!(retry[0], Command::ClearNode { tree_id: tree.id.clone(), node_id: r.clone() });
    answer(&mut tree, retry, &|_| true);
    let root = &tree.roots[0];
    assert!(root.children_loaded);
    let payloads: Vec<&str> = root.nodes.iter().map(|n| n.user_object.as_str()).collect();
    assert_eq!(payloads, vec!["x", "y", "z"]);
    assert_eq!(root.nodes[0].caption, "<x>");
    assert!(!root.nodes[0].has_children);
    assert!(root.nodes[1].has_children);
}

#[test]
fn a_failure_before_a_confirmed_sibling_leaves_the_node_unloaded() {
    struct Pair;
    impl TreeModel<String> for Pair {
        fn roots(&self) -> Vec<String> {
            vec!["a".to_string()]
        }
        fn children(&self, parent: &String) -> Vec<String> {
            if parent == "a" {
                vec!["a1".to_string(), "a2".to_string()]
            } else {
                Vec::new()
            }
        }
        fn caption(&self, node: &String) -> String {
            node.clone()
        }
        fn has_children(&self, node: &String) -> bool {
            node == "a"
        }
    }
    let mut tree = Tree::new(Pair);
    tree.render();
    let a = node_id(&tree, "a");
    tree.handle_event(&expand(&tree, &a));
    let commands = tree.take_commands();
    assert_eq!(commands.len(), 3);
    let a1 = tree.in_flight[0].id.clone();
    answer(&mut tree, commands, &|c| match c {
        Command::AddTreeNode { node_id, .. } => *node_id != a1,
        Command::ClearNode { .. } => true,
    });
    assert!(!tree.roots[0].children_loaded);
    assert!(tree.roots[0].nodes.is_empty());
    assert_eq!(tree.roots.len(), 1);

    // The next expansion is no no-op: it clears and tries again.
    tree.handle_event(&expand(&tree, &a));
    let retry = tree.take_commands();
    assert_eq!(retry.len(), 3);
    assert!(matches!(retry[0], Command::ClearNode { .. }));
}

#[test]
fn confirmed_children_are_held_back_until_the_expansion_closes() {
    let mut tree = Tree::new(Wide);
    tree.render();
    let r = node_id(&tree, "r");
    tree.handle_event(&expand(&tree, &r));
    let mut commands = tree.take_commands();
    let last = commands.pop().unwrap();
    let middle = commands.pop().unwrap();
    answer(&mut tree, commands, &|_| true);
    assert_eq!(tree.in_flight.len(), 2);
    assert_eq!(tree.confirmed.len(), 1);
    assert_eq!(tree.confirmed[0].user_object, "x");
    assert!(tree.roots[0].nodes.is_empty());
    assert!(!tree.roots[0].children_loaded);

    // The children are committed in the order of their confirmation.
    tree.handle_reply(&Reply { command: last, succeeded: true });
    assert!(!tree.roots[0].children_loaded);
    assert_eq!(tree.confirmed.len(), 2);
    tree.handle_reply(&Reply { command: middle, succeeded: true });
    assert!(tree.roots[0].children_loaded);
    assert!(tree.confirmed.is_empty());
    let payloads: Vec<&str> =
        tree.roots[0].nodes.iter().map(|n| n.user_object.as_str()).collect();
    assert_eq!(payloads, vec!["x", "z", "y"]);
}

#[test]
fn a_failure_as_the_last_answer_fails_the_expansion() {
    let mut tree = Tree::new(Wide);
    tree.render();
    let r = node_id(&tree, "r");
    tree.handle_event(&expand(&tree, &r));
    let commands = tree.take_commands();
    let last = tree.in_flight[2].id.clone();
    answer(&mut tree, commands, &|c| match c {
        Command::AddTreeNode { node_id, .. } => *node_id != last,
        Command::ClearNode { .. } => true,
    });
    assert!(!tree.roots[0].children_loaded);
    assert!(tree.roots[0].nodes.is_empty());
    assert!(tree.confirmed.is_empty());
    assert!(!tree.failed);
}

#[test]
fn nodes_whose_id_is_in_use_are_dropped_from_a_batch() {
    let mut tree = Tree::new(Letters::new());
    tree.render();
    let a = node_id(&tree, "a");
    let b = node_id(&tree, "b");
    tree.begin_expansion(&a);

    let fresh_one = TreeNode::new("one".to_string(), "one".to_string(), false);
    let mut taken = TreeNode::new("taken".to_string(), "taken".to_string(), false);
    taken.id = b.clone();
    let mut twin = TreeNode::new("twin".to_string(), "twin".to_string(), false);
    twin.id = fresh_one.id.clone();
    let mut own = TreeNode::new("own".to_string(), "own".to_string(), false);
    own.id = tree.id.clone();
    let fresh_two = TreeNode::new("two".to_string(), "two".to_string(), true);
    let one_id = fresh_one.id.clone();
    let two_id = fresh_two.id.clone();
    tree.stage_children(vec![fresh_one, taken, twin, own, fresh_two]);

    let staged: Vec<&str> = tree.in_flight.iter().map(|n| n.user_object.as_str()).collect();
    assert_eq!(staged, vec!["one", "two"]);
    let commands = tree.take_commands();
    assert_eq!(commands.len(), 3);
    assert_eq!(
        commands[1],
        Command::AddTreeNode {
            tree_id: tree.id.clone(),
            parent_id: a.clone(),
            node_id: one_id,
            caption: "one".to_string(),
            has_children: false,
        }
    );
    assert_eq!(
        commands[2],
        Command::AddTreeNode {
            tree_id: tree.id.clone(),
            parent_id: a.clone(),
            node_id: two_id.clone(),
            caption: "two".to_string(),
            has_children: true,
        }
    );

    let mut again = TreeNode::new("again".to_string(), "again".to_string(), false);
    again.id = two_id;
    let root = TreeNode::new("c".to_string(), "c".to_string(), false);
    let mut root_twin = TreeNode::new("c2".to_string(), "c2".to_string(), false);
    root_twin.id = root.id.clone();
    tree.add_roots(vec![again, root, root_twin]);
    let roots: Vec<&str> = tree.roots.iter().map(|n| n.user_object.as_str()).collect();
    assert_eq!(roots, vec!["a", "b", "c"]);
}

#[test]
fn nodes_are_built_for_the_objects_in_their_order() {
    let tree = Tree::new(Wide);
    let nodes = tree.create_tree_nodes(vec!["x".to_string(), "y".to_string(), "q".to_string()]);
    let payloads: Vec<&str> = nodes.iter().map(|n| n.user_object.as_str()).collect();
    assert_eq!(payloads, vec!["x", "y", "q"]);
    let captions: Vec<&str> = nodes.iter().map(|n| n.caption.as_str()).collect();
    assert_eq!(captions, vec!["<x>", "<y>", "<q>"]);
    let flags: Vec<bool> = nodes.iter().map(|n| n.has_children).collect();
    assert_eq!(flags, vec![false, true, false]);
    assert!(nodes.iter().all(|n| n.nodes.is_empty() && !n.children_loaded));
    assert!(tree.create_tree_nodes(Vec::new()).is_empty());
}

#[test]
fn children_keep_the_order_of_the_model() {
    let mut tree = Tree::new(Wide);
    tree.render();
    let r = node_id(&tree, "r");
    tree.handle_event(&expand(&tree, &r));
    let commands = tree.take_commands();
    let captions: Vec<String> = commands
        .iter()
        .filter_map(|c| match c {
            Command::AddTreeNode { caption, .. } => Some(caption.clone()),
            Command::ClearNode { .. } => None,
        })
        .collect();
    assert_eq!(captions, vec!["<x>", "<y>", "<z>"]);
    let flags: Vec<bool> = commands
        .iter()
        .filter_map(|c| match c {
            Command::AddTreeNode { has_children, .. } => Some(*has_children),
            Command::ClearNode { .. } => None,
        })
        .collect();
    assert_eq!(flags, vec![false, true, false]);
    answer(&mut tree, commands, &|_| true);
    let payloads: Vec<&str> =
        tree.roots[0].nodes.iter().map(|n| n.user_object.as_str()).collect();
    assert_eq!(payloads, vec!["x", "y", "z"]);
}

#[test]
fn nested_expansion_reaches_the_grandchildren() {
    struct Deep;
    impl TreeModel<String> for Deep {
        fn roots(&self) -> Vec<String> {
            vec!["r".to_string()]
        }
        fn children(&self, parent: &String) -> Vec<String> {
            if parent.len() < 3 {
                vec![format!("{}0", parent), format!("{}1", parent)]
            } else {
                Vec::new()
            }
        }
        fn caption(&self, node: &String) -> String {
            node.clone()
        }
        fn has_children(&self, node: &String) -> bool {
            node.len() < 3
        }
    }
    let mut tree = Tree::new(Deep);
    tree.render();
    for payload in ["r", "r1", "r0"] {
        let id = node_id(&tree, payload);
        tree.handle_event(&expand(&tree, &id));
        let commands = tree.take_commands();
        assert_eq!(commands.len(), 3);
        answer(&mut tree, commands, &|_| true);
    }
    let root = &tree.roots[0];
    assert_eq!(root.nodes.len(), 2);
    assert_eq!(root.nodes[0].nodes.len(), 2);
    assert_eq!(root.nodes[1].nodes.len(), 2);
    assert_eq!(root.nodes[1].nodes[0].user_object, "r10");
    let r11 = node_id(&tree, "r11");
    let found = find_tree_node(&tree.roots, &r11).unwrap();
    assert_eq!(found.user_object, "r11");
    assert_eq!(root.find_node(&r11).unwrap().id, r11);
    assert!(root.nodes[0].find_node(&r11).is_none());
}

#[test]
fn all_ids_are_pairwise_distinct() {
    let mut tree = Tree::new(Wide);
    tree.render();
    let r = node_id(&tree, "r");
    tree.handle_event(&expand(&tree, &r));
    let commands = tree.take_commands();
    answer(&mut tree, commands, &|_| true);
    let y = node_id(&tree, "y");
    tree.handle_event(&expand(&tree, &y));

    let mut ids = vec![tree.id.clone()];
    collect_ids(&tree.roots, &mut ids);
    collect_ids(&tree.in_flight, &mut ids);
    collect_ids(&tree.confirmed, &mut ids);
    assert_eq!(ids.len(), 5);
    let unique: HashSet<&String> = ids.iter().collect();
    assert_eq!(unique.len(), ids.len());
}

#[test]
fn an_id_in_use_is_not_staged_again() {
    let mut tree = Tree::new(Letters::new());
    tree.render();
    let a = node_id(&tree, "a");
    assert!(tree.is_used(&a));
    assert!(tree.is_used(&tree.id.clone()));
    assert!(!tree.is_used(&"id-unknown".to_string()));

    tree.handle_event(&expand(&tree, &a));
    let before = tree.pending.len();
    let mut twin = TreeNode::new("twin".to_string(), "twin".to_string(), false);
    twin.id = tree.roots[1].id.clone();
    assert!(!tree.stage_candidate(twin));
    assert_eq!(tree.pending.len(), before);
    assert_eq!(tree.in_flight.len(), 1);

    let fresh = TreeNode::new("fresh".to_string(), "fresh".to_string(), false);
    let fresh_id = fresh.id.clone();
    assert!(tree.stage_candidate(fresh));
    assert_eq!(tree.in_flight.len(), 2);
    assert_eq!(tree.pending.len(), before + 1);
    assert!(tree.is_used(&fresh_id));

    let mut root_twin = TreeNode::new("again".to_string(), "again".to_string(), false);
    root_twin.id = fresh_id;
    assert!(!tree.add_root(root_twin));
    assert_eq!(tree.roots.len(), 2);
}

#[test]
fn adopt_commits_under_the_first_match_only() {
    let mut root = TreeNode::new("root".to_string(), 0u32, true);
    let root_id = root.id.clone();
    let child = TreeNode::new("child".to_string(), 1u32, true);
    let child_id = child.id.clone();
    assert!(root.adopt(&root_id, child).is_none());
    assert!(root.children_loaded);

    let grandchild = TreeNode::new("grandchild".to_string(), 2u32, false);
    assert!(root.adopt(&child_id, grandchild).is_none());
    assert_eq!(root.nodes.len(), 1);
    assert!(root.nodes[0].children_loaded);
    assert_eq!(root.nodes[0].nodes[0].user_object, 2);

    let stray = TreeNode::new("stray".to_string(), 3u32, false);
    let back = root.adopt(&"id-missing".to_string(), stray).unwrap();
    assert_eq!(back.user_object, 3);
    assert_eq!(root.nodes.len(), 1);
    assert_eq!(root.nodes[0].nodes.len(), 1);
}

#[test]
fn unknown_parent_is_dropped() {
    let model = Letters::new();
    let child_calls = model.child_calls.clone();
    let mut tree = Tree::new(model);
    tree.render();
    tree.handle_event(&expand(&tree, "id-nobody"));
    assert!(tree.take_commands().is_empty());
    assert!(tree.in_flight.is_empty());
    assert_eq!(*child_calls.borrow(), 0);
}

#[test]
fn events_for_another_widget_are_ignored() {
    let mut tree = Tree::new(Letters::new());
    tree.render();
    let a = node_id(&tree, "a");
    let clicks = Rc::new(RefCell::new(0u32));
    let seen = clicks.clone();
    tree.set_click_event(move |_payload: &String| {
        *seen.borrow_mut() += 1;
    });
    let elsewhere = Event { id: "id-elsewhere".to_string(), value: EventValue::NodeExpand(a.clone()) };
    tree.handle_event(&elsewhere);
    assert!(tree.take_commands().is_empty());
    let click_elsewhere =
        Event { id: "id-elsewhere".to_string(), value: EventValue::ChildClicked(a.clone()) };
    tree.handle_event(&click_elsewhere);
    assert_eq!(*clicks.borrow(), 0);
    for value in [
        EventValue::Clicked,
        EventValue::Created,
        EventValue::PageLoaded,
        EventValue::ValueChanged("x".to_string()),
    ] {
        tree.handle_event(&Event { id: tree.id(), value });
    }
    assert_eq!(*clicks.borrow(), 0);
    assert!(tree.take_commands().is_empty());
    assert_eq!(tree.roots.len(), 2);
}

#[test]
fn click_on_a_known_child_calls_the_listener_once_with_its_payload() {
    let mut tree = Tree::new(Letters::new());
    tree.render();
    let a = node_id(&tree, "a");
    tree.handle_event(&expand(&tree, &a));
    let commands = tree.take_commands();
    answer(&mut tree, commands, &|_| true);
    let a1 = node_id(&tree, "a1");

    let heard: Rc<RefCell<Vec<String>>> = Rc::new(RefCell::new(Vec::new()));
    let sink = heard.clone();
    tree.set_click_event(move |payload: &String| {
        sink.borrow_mut().push(payload.clone());
    });
    tree.handle_event(&click(&tree, &a1));
    assert_eq!(*heard.borrow(), vec!["a1".to_string()]);
    tree.handle_event(&click(&tree, &a));
    assert_eq!(*heard.borrow(), vec!["a1".to_string(), "a".to_string()]);
}

#[test]
fn click_on_an_unknown_child_calls_nobody() {
    let mut tree = Tree::new(Letters::new());
    tree.render();
    let heard: Rc<RefCell<Vec<String>>> = Rc::new(RefCell::new(Vec::new()));
    let sink = heard.clone();
    tree.set_click_event(move |payload: &String| {
        sink.borrow_mut().push(payload.clone());
    });
    tree.handle_event(&click(&tree, "id-nobody"));
    assert!(heard.borrow().is_empty());
}

#[test]
fn click_without_a_listener_is_dropped() {
    let mut tree = Tree::new(Letters::new());
    tree.render();
    let a = node_id(&tree, "a");
    tree.handle_event(&click(&tree, &a));
    assert_eq!(tree.roots.len(), 2);
    assert!(tree.take_commands().is_empty());
}

#[test]
fn answers_for_strangers_change_nothing() {
    let mut tree = Tree::new(Letters::new());
    tree.render();
    let a = node_id(&tree, "a");
    tree.handle_event(&expand(&tree, &a));
    let commands = tree.take_commands();
    let a1 = tree.in_flight[0].id.clone();

    // An answer for another tree, and one for a node that is not in flight.
    tree.handle_reply(&Reply {
        command: Command::AddTreeNode {
            tree_id: "id-other-tree".to_string(),
            parent_id: a.clone(),
            node_id: a1.clone(),
            caption: "a1".to_string(),
            has_children: false,
        },
        succeeded: true,
    });
    tree.handle_reply(&Reply {
        command: Command::AddTreeNode {
            tree_id: tree.id.clone(),
            parent_id: a.clone(),
            node_id: "id-not-in-flight".to_string(),
            caption: "a1".to_string(),
            has_children: false,
        },
        succeeded: true,
    });
    assert_eq!(tree.in_flight.len(), 1);
    assert!(tree.roots[0].nodes.is_empty());
    assert!(!tree.roots[0].children_loaded);

    // The same answer twice commits once.
    let again = || Command::AddTreeNode {
        tree_id: tree.id.clone(),
        parent_id: a.clone(),
        node_id: a1.clone(),
        caption: "a1".to_string(),
        has_children: false,
    };
    assert_eq!(commands[1], again());
    let first = Reply { command: again(), succeeded: true };
    let second = Reply { command: again(), succeeded: true };
    tree.handle_reply(&first);
    tree.handle_reply(&second);
    assert_eq!(tree.roots[0].nodes.len(), 1);
}

#[test]
fn a_new_expansion_gives_up_unanswered_children() {
    let mut tree = Tree::new(Wide);
    tree.render();
    let r = node_id(&tree, "r");
    tree.handle_event(&expand(&tree, &r));
    let stale = tree.take_commands();
    let stale_ids: Vec<String> = tree.in_flight.iter().map(|n| n.id.clone()).collect();

    tree.handle_event(&expand(&tree, &r));
    let fresh = tree.take_commands();
    assert_eq!(fresh.len(), 4);
    for id in &stale_ids {
        assert!(tree.in_flight.iter().all(|n| &n.id != id));
    }
    // Answers to the stale commands no longer commit anything.
    answer(&mut tree, stale, &|_| true);
    assert!(tree.roots[0].nodes.is_empty());
    answer(&mut tree, fresh, &|_| true);
    assert_eq!(tree.roots[0].nodes.len(), 3);
}

#[test]
fn create_tree_node_asks_the_model() {
    let tree = Tree::new(Wide);
    let node = tree.create_tree_node("y".to_string());
    assert_eq!(node.caption, "<y>");
    assert!(node.has_children);
    assert!(!node.children_loaded);
    assert!(node.nodes.is_empty());
    assert_eq!(node.user_object, "y");
    assert!(node.id.starts_with("id-"));
}

#[test]
fn click_child_reports_whether_the_listener_was_told() {
    let mut tree = Tree::new(Letters::new());
    tree.render();
    let a = node_id(&tree, "a");
    assert!(!tree.click_child(&a));

    let heard: Rc<RefCell<Vec<String>>> = Rc::new(RefCell::new(Vec::new()));
    let sink = heard.clone();
    tree.set_click_event(move |payload: &String| sink.borrow_mut().push(payload.clone()));
    assert!(tree.click_child(&a));
    assert!(!tree.click_child(&"id-nobody".to_string()));
    assert!(!tree.click_child(&tree.id.clone()));
    assert_eq!(*heard.borrow(), vec!["a".to_string()]);
}

#[test]
fn begin_expansion_leaves_one_clear_command() {
    let mut tree = Tree::new(Wide);
    tree.render();
    let r = node_id(&tree, "r");
    tree.begin_expansion(&r);
    assert!(tree.in_flight.is_empty());
    assert_eq!(tree.in_flight_parent, r);
    assert_eq!(
        tree.pending,
        vec![Command::ClearNode { tree_id: tree.id.clone(), node_id: r.clone() }]
    );
    tree.settle(&"id-nobody".to_string(), true);
    assert!(tree.roots[0].nodes.is_empty());
    assert!(!tree.roots[0].children_loaded);
}
