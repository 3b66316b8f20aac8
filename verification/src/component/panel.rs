//! A panel around a single component.

use vstd::prelude::*;
use vstd::string::*;
use crate::command::{Command, CommandView, Reply};
use crate::component::{Child, Component};
use crate::event::Event;
use crate::utils::{bool_text, bool_to_text, create_id, is_component_id};

verus! {

/// When a panel shows scroll bars.
#[derive(Clone, Copy)]
pub enum ScrollMode {
    Auto,
    Always,
}

impl ScrollMode {
    /// The value of the overflow style for this mode.
    pub open spec fn style_text(self) -> Seq<char> {
        match self {
            ScrollMode::Auto => "auto"@,
            ScrollMode::Always => "scroll"@,
        }
    }

    /// The value of the overflow style for this mode.
    pub fn style(&self) -> (style: &'static str)
        ensures
            style@ == self.style_text(),
    {
        match self {
            ScrollMode::Auto => "auto",
            ScrollMode::Always => "scroll",
        }
    }
}

/// An attribute with its value, or nothing where there is no value.
pub open spec fn attribute_text(attribute: Seq<char>, value: Option<String>) -> Seq<char> {
    match value {
        Some(text) => attribute + "=\""@ + text@ + "\""@,
        None => Seq::empty(),
    }
}

/// Write an attribute with its value, or nothing where there is no value.
pub fn optional_attribute(attribute: &str, value: &Option<String>) -> (text: String)
    ensures
        text@ == attribute_text(attribute@, *value),
{
    match value {
        Some(s) => {
            let mut text = String::from_str(attribute);
            text.append("=\"");
            text.append(s.as_str());
            text.append("\"");
            text
        },
        None => String::new(),
    }
}

/// A panel with a single content and optional title.
pub struct Panel {
    pub id: String,
    pub collapsible: bool,
    pub scroll_mode: ScrollMode,
    pub title: Option<String>,
    pub content: Child,
}

impl Panel {
    /// Create a panel around `content`: without title, not collapsible, with
    /// scroll bars as needed.
    pub fn new(content: Child) -> (panel: Self)
        requires
            content.widget.wf(),
        ensures
            panel.wf(),
            is_component_id(panel.id@),
            panel.content == content,
            panel.title is None,
            !panel.collapsible,
            panel.scroll_mode == ScrollMode::Auto,
    {
        Panel {
            id: create_id(),
            collapsible: false,
            scroll_mode: ScrollMode::Auto,
            title: None,
            content,
        }
    }

    /// Choose when the panel shows scroll bars.
    pub fn set_scroll_mode(&mut self, mode: ScrollMode)
        ensures
            final(self).scroll_mode == mode,
            final(self).id == old(self).id,
            final(self).collapsible == old(self).collapsible,
            final(self).title == old(self).title,
            final(self).content == old(self).content,
    {
        self.scroll_mode = mode
    }

    /// Give the panel a title.
    pub fn set_title(&mut self, title: &str)
        ensures
            final(self).title matches Some(text) && text@ == title@,
            final(self).id == old(self).id,
            final(self).collapsible == old(self).collapsible,
            final(self).scroll_mode == old(self).scroll_mode,
            final(self).content == old(self).content,
    {
        self.title = Some(String::from_str(title))
    }

    /// Choose whether the panel can be collapsed.
    pub fn set_collapsible(&mut self, collapsible: bool)
        ensures
            final(self).collapsible == collapsible,
            final(self).id == old(self).id,
            final(self).scroll_mode == old(self).scroll_mode,
            final(self).title == old(self).title,
            final(self).content == old(self).content,
    {
        self.collapsible = collapsible
    }
}

impl Component for Panel {
    open spec fn ident(&self) -> Seq<char> {
        self.id@
    }

    open spec fn wf(&self) -> bool {
        self.content.widget.wf()
    }

    open spec fn markup(&self) -> Seq<char> {
        "<div style=\"overflow: "@ + self.scroll_mode.style_text() + ";\" id=\""@ + self.id@
            + "\" class=\"h-100 w-100\" "@ + attribute_text("data-title-caption"@, self.title)
            + " data-collapsible=\""@ + bool_text(self.collapsible) + "\" data-role=\"panel\">"@
            + self.content.widget.markup() + "</div>"@
    }

    open spec fn handled(&self, event: &Event) -> bool {
        self.content.widget.handled(event)
    }

    open spec fn outbox(&self) -> Seq<CommandView> {
        self.content.widget.outbox()
    }

    open spec fn answered(&self, reply: &Reply) -> bool {
        self.content.widget.answered(reply)
    }

    fn render(&mut self) -> (html: String)
        ensures
            final(self).id == old(self).id,
            final(self).collapsible == old(self).collapsible,
            final(self).scroll_mode == old(self).scroll_mode,
            final(self).title == old(self).title,
            final(self).content.widget.ident() == old(self).content.widget.ident(),
    {
        let content = self.content.widget.render();
        let title = optional_attribute("data-title-caption", &self.title);
        let mut html = String::from_str("<div style=\"overflow: ");
        html.append(self.scroll_mode.style());
        html.append(";\" id=\"");
        html.append(self.id.as_str());
        html.append("\" class=\"h-100 w-100\" ");
        html.append(title.as_str());
        html.append(" data-collapsible=\"");
        html.append(bool_to_text(self.collapsible));
        html.append("\" data-role=\"panel\">");
        html.append(content.as_str());
        html.append("</div>");
        html
    }

    /// Forward the event to the content.
    fn handle_event(&mut self, event: &Event)
        ensures
            final(self).id == old(self).id,
            final(self).collapsible == old(self).collapsible,
            final(self).scroll_mode == old(self).scroll_mode,
            final(self).title == old(self).title,
            final(self).content.widget.ident() == old(self).content.widget.ident(),
    {
        self.content.widget.handle_event(event)
    }

    fn take_commands(&mut self) -> (commands: Vec<Command>)
        ensures
            final(self).id == old(self).id,
            final(self).collapsible == old(self).collapsible,
            final(self).scroll_mode == old(self).scroll_mode,
            final(self).title == old(self).title,
            final(self).content.widget.ident() == old(self).content.widget.ident(),
    {
        self.content.widget.take_commands()
    }

    /// Forward the answer to the content.
    fn handle_reply(&mut self, reply: &Reply)
        ensures
            final(self).id == old(self).id,
            final(self).collapsible == old(self).collapsible,
            final(self).scroll_mode == old(self).scroll_mode,
            final(self).title == old(self).title,
            final(self).content.widget.ident() == old(self).content.widget.ident(),
    {
        self.content.widget.handle_reply(reply)
    }

    fn id(&self) -> (id: String) {
        self.id.clone()
    }
}

} // verus!
