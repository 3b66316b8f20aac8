//! Mutation commands that the engine sends to the rendering surface, and the
//! surface's answers to them.

use vstd::prelude::*;
use vstd::string::*;
use crate::utils::{bool_text, bool_to_text};

verus! {

/// An instruction to alter the rendered surface in place.
#[derive(Debug, PartialEq, Eq)]
pub enum Command {
    /// Remove all descendant markup of `node_id` within tree `tree_id`.
    ClearNode { tree_id: String, node_id: String },
    /// Append a new row under `parent_id`.
    AddTreeNode {
        tree_id: String,
        parent_id: String,
        node_id: String,
        caption: String,
        has_children: bool,
    },
}

/// The mathematical content of a [`Command`].
pub ghost enum CommandView {
    ClearNode { tree_id: Seq<char>, node_id: Seq<char> },
    AddTreeNode {
        tree_id: Seq<char>,
        parent_id: Seq<char>,
        node_id: Seq<char>,
        caption: Seq<char>,
        has_children: bool,
    },
}

impl View for Command {
    type V = CommandView;

    open spec fn view(&self) -> CommandView {
        match self {
            Command::ClearNode { tree_id, node_id } => CommandView::ClearNode {
                tree_id: tree_id@,
                node_id: node_id@,
            },
            Command::AddTreeNode { tree_id, parent_id, node_id, caption, has_children } =>
                CommandView::AddTreeNode {
                    tree_id: tree_id@,
                    parent_id: parent_id@,
                    node_id: node_id@,
                    caption: caption@,
                    has_children: *has_children,
                },
        }
    }
}

/// The views of a sequence of commands, in the same order.
pub open spec fn command_views(commands: Seq<Command>) -> Seq<CommandView> {
    commands.map_values(|c: Command| c@)
}

impl CommandView {
    /// The script that performs this command on the rendering surface.
    pub open spec fn script(self) -> Seq<char> {
        match self {
            CommandView::ClearNode { tree_id, node_id } => "clear_node('"@ + tree_id + "', '"@
                + node_id + "')"@,
            CommandView::AddTreeNode { tree_id, parent_id, node_id, caption, has_children } =>
                "add_tree_node('"@ + tree_id + "', '"@ + parent_id + "', '"@ + node_id + "', '"@
                    + caption + "', "@ + bool_text(has_children) + ")"@,
        }
    }
}

impl Command {
    /// The script that performs this command on the rendering surface.
    pub fn script(&self) -> (js: String)
        ensures
            js@ == self@.script(),
    {
        match self {
            Command::ClearNode { tree_id, node_id } => {
                let mut js = String::from_str("clear_node('");
                js.append(tree_id.as_str());
                js.append("', '");
                js.append(node_id.as_str());
                js.append("')");
                js
            },
            Command::AddTreeNode { tree_id, parent_id, node_id, caption, has_children } => {
                let mut js = String::from_str("add_tree_node('");
                js.append(tree_id.as_str());
                js.append("', '");
                js.append(parent_id.as_str());
                js.append("', '");
                js.append(node_id.as_str());
                js.append("', '");
                js.append(caption.as_str());
                js.append("', ");
                js.append(bool_to_text(*has_children));
                js.append(")");
                js
            },
        }
    }
}

/// The rendering surface's answer to one command.
#[derive(Debug, PartialEq, Eq)]
pub struct Reply {
    /// The command that was performed.
    pub command: Command,
    /// Whether the surface applied it.
    pub succeeded: bool,
}

} // verus!
