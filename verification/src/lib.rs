//! A retained-mode UI composition engine: widgets render themselves to markup,
//! receive identity-tagged events and route them down the widget tree, and the
//! tree widget keeps a lazily materialised mirror of a hierarchical data model.
//!
//! The engine never touches a rendering surface itself. It answers an event
//! with mutation commands for the surface, and takes the surface's answers to
//! those commands as its next input.

use vstd::prelude::*;
use vstd::string::*;
use crate::command::{Command, CommandView, Reply, command_views};
use crate::component::{Child, Component};
use crate::event::{Event, EventBroker, audience, delivered};

pub mod command;
pub mod component;
pub mod event;
pub mod frp;
pub mod listener;
pub mod utils;

verus! {

/// Errors to be returned from app functions.
#[derive(Clone, Copy, Debug, PartialEq, Eq)]
pub enum AppError {
    /// No content was set before the application was built.
    NoAppContentError,
}

impl AppError {
    /// The text of the error.
    pub open spec fn text(self) -> Seq<char> {
        "No content defined for this app."@
    }

    /// The text of the error.
    pub fn message(&self) -> (message: String)
        ensures
            message@ == self.text(),
    {
        String::from_str("No content defined for this app.")
    }
}

/// The document around the markup of an application's content.
pub open spec fn document(title: Seq<char>, content: Seq<char>) -> Seq<char> {
    "<!DOCTYPE html><html><head><meta charset=\"utf-8\"><title>"@ + title
        + "</title></head><body>"@ + content + "</body></html>"@
}

/// The main application: a title, the root of the widget tree, and the broker
/// for application events of type `E`.
#[verifier::reject_recursive_types(E)]
pub struct App<E> {
    pub title: String,
    pub content: Option<Child>,
    pub event_broker: EventBroker<E>,
}

impl<E: 'static> App<E> {
    /// The root of the widget tree, where there is one, is valid.
    pub open spec fn wf(&self) -> bool {
        self.content matches Some(root) ==> root.widget.wf()
    }

    /// Create a new application with a given title.
    pub fn new(title: &str) -> (app: Self)
        ensures
            app.wf(),
            app.title@ == title@,
            app.content is None,
            app.event_broker.listeners@.len() == 0,
    {
        App { title: String::from_str(title), content: None, event_broker: EventBroker::new() }
    }

    /// Set the main content of the app.
    pub fn set_content(&mut self, content: Child)
        requires
            content.widget.wf(),
        ensures
            final(self).wf(),
            final(self).content == Some(content),
            final(self).title == old(self).title,
            final(self).event_broker == old(self).event_broker,
    {
        self.content = Some(content);
    }

    /// Publish an application event under `topic`. Returns how many listeners
    /// were called.
    pub fn send(&self, topic: u64, event: &E) -> (reached: usize)
        ensures
            reached == audience(self.event_broker.listeners@, topic),
            delivered(self.event_broker.listeners@, topic, event),
    {
        self.event_broker.send(topic, event)
    }

    /// Subscribe to the application events published under `topic`.
    pub fn subscribe<F: Fn(&E) + 'static>(&mut self, topic: u64, listener: F)
        requires
            forall|event: &E| call_requires(listener, (event,)),
        ensures
            final(self).title == old(self).title,
            final(self).content == old(self).content,
            final(self).event_broker.listeners@.len() == old(self).event_broker.listeners@.len()
                + 1,
            final(self).event_broker.listeners@.drop_last() == old(self).event_broker.listeners@,
            final(self).event_broker.listeners@.last().topic == topic,
            forall|event: &E| #[trigger]
                final(self).event_broker.listeners@.last().listener.received(event)
                    <==> call_ensures(listener, (event,), ()),
            audience(final(self).event_broker.listeners@, topic) == audience(
                old(self).event_broker.listeners@,
                topic,
            ) + 1,
            forall|other: u64|
                other != topic ==> audience(final(self).event_broker.listeners@, other)
                    == audience(old(self).event_broker.listeners@, other),
    {
        self.event_broker.subscribe(topic, listener)
    }

    /// Render the application as a document. Fails where no content was set.
    pub fn build_html(&mut self) -> (built: Result<String, AppError>)
        requires
            old(self).wf(),
        ensures
            final(self).wf(),
            final(self).title == old(self).title,
            final(self).event_broker == old(self).event_broker,
            match built {
                Ok(html) => {
                    &&& old(self).content matches Some(before)
                    &&& final(self).content matches Some(root)
                    &&& root.widget.ident() == before.widget.ident()
                    &&& root.widget.outbox() == before.widget.outbox()
                    &&& html@ == document(final(self).title@, root.widget.markup())
                },
                Err(error) => {
                    &&& old(self).content is None
                    &&& final(self).content is None
                    &&& error is NoAppContentError
                },
            },
    {
        match &mut self.content {
            None => Err(AppError::NoAppContentError),
            Some(root) => {
                let content = root.widget.render();
                let mut html = String::from_str(
                    "<!DOCTYPE html><html><head><meta charset=\"utf-8\"><title>",
                );
                html.append(self.title.as_str());
                html.append("</title></head><body>");
                html.append(content.as_str());
                html.append("</body></html>");
                Ok(html)
            },
        }
    }

    /// Route an event from the rendering surface through the widget tree.
    /// Without content the event is dropped.
    pub fn handle_event(&mut self, event: &Event)
        requires
            old(self).wf(),
        ensures
            final(self).wf(),
            final(self).title == old(self).title,
            final(self).event_broker == old(self).event_broker,
            match old(self).content {
                Some(before) => {
                    &&& final(self).content matches Some(root)
                    &&& root.widget.ident() == before.widget.ident()
                    &&& root.widget.handled(event)
                },
                None => final(self).content is None,
            },
    {
        match &mut self.content {
            None => {},
            Some(root) => {
                root.widget.handle_event(event);
            },
        }
    }

    /// Hand out the mutation commands that the widget tree is waiting to see
    /// performed on the rendering surface, oldest first. Each command is
    /// handed out once.
    pub fn take_commands(&mut self) -> (commands: Vec<Command>)
        requires
            old(self).wf(),
        ensures
            final(self).wf(),
            final(self).title == old(self).title,
            final(self).event_broker == old(self).event_broker,
            match old(self).content {
                Some(before) => {
                    &&& final(self).content matches Some(root)
                    &&& root.widget.ident() == before.widget.ident()
                    &&& root.widget.markup() == before.widget.markup()
                    &&& root.widget.outbox() == Seq::<CommandView>::empty()
                    &&& command_views(commands@) == before.widget.outbox()
                },
                None => final(self).content is None && commands@.len() == 0,
            },
    {
        match &mut self.content {
            None => Vec::new(),
            Some(root) => root.widget.take_commands(),
        }
    }

    /// Route the rendering surface's answer to a command through the widget
    /// tree. Without content the answer is dropped.
    pub fn handle_reply(&mut self, reply: &Reply)
        requires
            old(self).wf(),
        ensures
            final(self).wf(),
            final(self).title == old(self).title,
            final(self).event_broker == old(self).event_broker,
            match old(self).content {
                Some(before) => {
                    &&& final(self).content matches Some(root)
                    &&& root.widget.ident() == before.widget.ident()
                    &&& root.widget.answered(reply)
                },
                None => final(self).content is None,
            },
    {
        match &mut self.content {
            None => {},
            Some(root) => {
                root.widget.handle_reply(reply);
            },
        }
    }
}

} // verus!
