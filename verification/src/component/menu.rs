//! The menu bar.

use vstd::prelude::*;
use vstd::string::*;
use crate::command::{Command, CommandView, Reply, command_views};
use crate::component::Component;
use crate::event::Event;
use crate::utils::{create_id, is_component_id};

verus! {

/// One item of a menu bar.
pub enum MenuItem {
    Entry(String),
}

impl MenuItem {
    /// The markup of the item.
    pub open spec fn markup(self) -> Seq<char> {
        match self {
            MenuItem::Entry(label) => "<li><a href=\"#\">"@ + label@ + "</a></li>"@,
        }
    }
}

/// The markup of the items, one after the other.
pub open spec fn items_markup(items: Seq<MenuItem>) -> Seq<char>
    decreases items.len(),
{
    if items.len() == 0 {
        Seq::empty()
    } else {
        items_markup(items.drop_last()) + items.last().markup()
    }
}

/// A horizontal menu.
pub struct MenuBar {
    pub id: String,
    pub entries: Vec<MenuItem>,
}

impl MenuBar {
    /// Create a menu bar without entries.
    pub fn new() -> (bar: Self)
        ensures
            is_component_id(bar.id@),
            bar.entries@.len() == 0,
    {
        MenuBar { id: create_id(), entries: Vec::new() }
    }

    /// Append an entry with the given label.
    pub fn add_entry(&mut self, label: &str)
        ensures
            final(self).id == old(self).id,
            final(self).entries@.len() == old(self).entries@.len() + 1,
            final(self).entries@.drop_last() == old(self).entries@,
            final(self).entries@.last() matches MenuItem::Entry(text) && text@ == label@,
            final(self).markup() == "<ul class=\"h-menu\">"@ + (items_markup(old(self).entries@)
                + ("<li><a href=\"#\">"@ + label@ + "</a></li>"@)) + "</ul>"@,
    {
        self.entries.push(MenuItem::Entry(String::from_str(label)));
        assert(self.entries@.drop_last() =~= old(self).entries@);
    }

    /// Render the entries in the order in which they were added.
    pub fn render_items(&self) -> (html: String)
        ensures
            html@ == items_markup(self.entries@),
    {
        let mut items = String::new();
        let mut i: usize = 0;
        while i < self.entries.len()
            invariant
                i <= self.entries@.len(),
                items@ == items_markup(self.entries@.take(i as int)),
            decreases self.entries@.len() - i,
        {
            proof {
                assert(self.entries@.take(i + 1).drop_last() == self.entries@.take(i as int));
                assert(self.entries@.take(i + 1).last() == self.entries@[i as int]);
            }
            match &self.entries[i] {
                MenuItem::Entry(label) => {
                    items.append("<li><a href=\"#\">");
                    items.append(label.as_str());
                    items.append("</a></li>");
                    assert(items@ =~= items_markup(self.entries@.take(i as int))
                        + self.entries@[i as int].markup());
                },
            }
            i = i + 1;
        }
        proof {
            assert(self.entries@.take(i as int) == self.entries@);
        }
        items
    }
}

impl Component for MenuBar {
    open spec fn ident(&self) -> Seq<char> {
        self.id@
    }

    open spec fn wf(&self) -> bool {
        true
    }

    open spec fn markup(&self) -> Seq<char> {
        "<ul class=\"h-menu\">"@ + items_markup(self.entries@) + "</ul>"@
    }

    open spec fn handled(&self, event: &Event) -> bool {
        true
    }

    open spec fn outbox(&self) -> Seq<CommandView> {
        Seq::empty()
    }

    open spec fn answered(&self, reply: &Reply) -> bool {
        true
    }

    fn render(&mut self) -> (html: String)
        ensures
            *final(self) == *old(self),
    {
        let items = self.render_items();
        let mut html = String::from_str("<ul class=\"h-menu\">");
        html.append(items.as_str());
        html.append("</ul>");
        html
    }

    fn handle_event(&mut self, event: &Event)
        ensures
            *final(self) == *old(self),
    {
    }

    fn take_commands(&mut self) -> (commands: Vec<Command>)
        ensures
            *final(self) == *old(self),
            commands@.len() == 0,
    {
        let commands: Vec<Command> = Vec::new();
        assert(command_views(commands@) =~= Seq::<CommandView>::empty());
        commands
    }

    fn handle_reply(&mut self, reply: &Reply)
        ensures
            *final(self) == *old(self),
    {
    }

    fn id(&self) -> (id: String) {
        self.id.clone()
    }
}

} // verus!
