//! Buttons and check boxes.

use vstd::prelude::*;
use vstd::string::*;
use crate::command::{Command, CommandView, Reply, command_views};
use crate::component::Component;
use crate::event::Event;
use crate::listener::{FnAction, Listener};
use crate::utils::{create_id, is_component_id};

verus! {

/// Standard button to be pressed.
pub struct Button {
    pub id: String,
    pub label: String,
    pub click_event: Option<Box<dyn Listener<()>>>,
}

impl Button {
    /// Create a button with the given label and no listener.
    pub fn new(label: &str) -> (button: Button)
        ensures
            is_component_id(button.id@),
            button.label@ == label@,
            button.click_event is None,
    {
        Button { id: create_id(), label: String::from_str(label), click_event: None }
    }

    /// Register the listener that is called when an event reaches the
    /// button: from now on the listener is `event`, whatever it was before.
    pub fn set_click_event<F: Fn() + 'static>(&mut self, event: F)
        requires
            call_requires(event, ()),
        ensures
            final(self).click_event is Some,
            final(self).click_event.unwrap().received(&()) <==> call_ensures(event, (), ()),
            final(self).id == old(self).id,
            final(self).label == old(self).label,
    {
        let concrete = FnAction::new(event);
        let listener: Box<dyn Listener<()>> = Box::new(concrete);
        let registered = Some(listener);
        proof {
            assert(listener.received(&()) <==> concrete.received(&()));
            assert(registered.unwrap().received(&()) <==> call_ensures(event, (), ()));
        }
        self.click_event = registered;
    }
}

impl Component for Button {
    open spec fn ident(&self) -> Seq<char> {
        self.id@
    }

    open spec fn wf(&self) -> bool {
        true
    }

    open spec fn markup(&self) -> Seq<char> {
        "<a id=\""@ + self.id@ + "\" class=\"button\" onclick=\"fire_clicked('"@ + self.id@
            + "')\">"@ + self.label@ + "</a>"@
    }

    open spec fn handled(&self, event: &Event) -> bool {
        event.id@ == self.id@ ==> (self.click_event matches Some(listener)
            ==> listener.received(&()))
    }

    open spec fn outbox(&self) -> Seq<CommandView> {
        Seq::empty()
    }

    open spec fn answered(&self, reply: &Reply) -> bool {
        true
    }

    fn render(&mut self) -> (html: String)
        ensures
            *final(self) == *old(self),
    {
        let mut html = String::from_str("<a id=\"");
        html.append(self.id.as_str());
        html.append("\" class=\"button\" onclick=\"fire_clicked('");
        html.append(self.id.as_str());
        html.append("')\">");
        html.append(self.label.as_str());
        html.append("</a>");
        html
    }

    /// Call the listener where the event is addressed to this button.
    fn handle_event(&mut self, event: &Event)
        ensures
            *final(self) == *old(self),
    {
        if event.id == self.id {
            match &self.click_event {
                Some(listener) => {
                    listener.notify(&());
                },
                None => {},
            }
        }
    }

    fn take_commands(&mut self) -> (commands: Vec<Command>)
        ensures
            *final(self) == *old(self),
            commands@.len() == 0,
    {
        let commands: Vec<Command> = Vec::new();
        assert(command_views(commands@) =~= Seq::<CommandView>::empty());
        commands
    }

    fn handle_reply(&mut self, reply: &Reply)
        ensures
            *final(self) == *old(self),
    {
    }

    fn id(&self) -> (id: String) {
        self.id.clone()
    }
}

/// A check box with a label.
pub struct Checkbox {
    pub id: String,
    pub label: String,
}

impl Checkbox {
    /// Create a check box with the given label.
    pub fn new(label: &str) -> (checkbox: Self)
        ensures
            is_component_id(checkbox.id@),
            checkbox.label@ == label@,
    {
        Checkbox { id: create_id(), label: String::from_str(label) }
    }
}

impl Component for Checkbox {
    open spec fn ident(&self) -> Seq<char> {
        self.id@
    }

    open spec fn wf(&self) -> bool {
        true
    }

    open spec fn markup(&self) -> Seq<char> {
        "<input id=\""@ + self.id@
            + "\" type=\"checkbox\" data-role=\"checkbox\" data-on-checkbox-create=\"fire_created\" data-caption=\""@
            + self.label@ + "\">"@
    }

    open spec fn handled(&self, event: &Event) -> bool {
        true
    }

    open spec fn outbox(&self) -> Seq<CommandView> {
        Seq::empty()
    }

    open spec fn answered(&self, reply: &Reply) -> bool {
        true
    }

    fn render(&mut self) -> (html: String)
        ensures
            *final(self) == *old(self),
    {
        let mut html = String::from_str("<input id=\"");
        html.append(self.id.as_str());
        html.append(
            "\" type=\"checkbox\" data-role=\"checkbox\" data-on-checkbox-create=\"fire_created\" data-caption=\"",
        );
        html.append(self.label.as_str());
        html.append("\">");
        html
    }

    fn handle_event(&mut self, event: &Event)
        ensures
            *final(self) == *old(self),
    {
    }

    fn take_commands(&mut self) -> (commands: Vec<Command>)
        ensures
            *final(self) == *old(self),
            commands@.len() == 0,
    {
        let commands: Vec<Command> = Vec::new();
        assert(command_views(commands@) =~= Seq::<CommandView>::empty());
        commands
    }

    fn handle_reply(&mut self, reply: &Reply)
        ensures
            *final(self) == *old(self),
    {
    }

    fn id(&self) -> (id: String) {
        self.id.clone()
    }
}

} // verus!
