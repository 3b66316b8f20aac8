//! Text input widgets.

use vstd::prelude::*;
use vstd::string::*;
use crate::command::{Command, CommandView, Reply, command_views};
use crate::component::Component;
use crate::event::{Event, EventValue};
use crate::utils::{bool_text, bool_to_text, create_id, is_component_id};

verus! {

/// The text a widget holds once `event` reached it: the event's new value
/// where the event is addressed to the widget `id` and reports a changed
/// value, the text it held before otherwise.
pub open spec fn text_after(id: Seq<char>, text: Seq<char>, event: &Event) -> Seq<char> {
    if event.id@ == id {
        match event.value {
            EventValue::ValueChanged(value) => value@,
            _ => text,
        }
    } else {
        text
    }
}

/// A text area containing multi line text.
pub struct TextArea {
    pub id: String,
    pub text: String,
}

impl TextArea {
    /// Create an empty text area.
    pub fn new() -> (area: Self)
        ensures
            is_component_id(area.id@),
            area.text@ == Seq::<char>::empty(),
    {
        TextArea { id: create_id(), text: String::new() }
    }

    /// The text the area holds at present.
    pub fn text(&self) -> (text: String)
        ensures
            text@ == self.text@,
    {
        self.text.clone()
    }
}

impl Component for TextArea {
    open spec fn ident(&self) -> Seq<char> {
        self.id@
    }

    open spec fn wf(&self) -> bool {
        true
    }

    open spec fn markup(&self) -> Seq<char> {
        "<textarea id=\""@ + self.id@ + "\" class=\"w-100 h-100\" data-default-value=\""@
            + self.text@ + "\" data-on-change=\"fire_value_changed('"@ + self.id@
            + "')\" data-on-textarea-create=\"fire_created\" data-role=\"textarea\" >"@
            + self.text@ + "</textarea>"@
    }

    open spec fn handled(&self, event: &Event) -> bool {
        event.id@ == self.id@ ==> (event.value matches EventValue::ValueChanged(value)
            ==> self.text@ == value@)
    }

    open spec fn outbox(&self) -> Seq<CommandView> {
        Seq::empty()
    }

    open spec fn answered(&self, reply: &Reply) -> bool {
        true
    }

    fn render(&mut self) -> (html: String)
        ensures
            *final(self) == *old(self),
    {
        let mut html = String::from_str("<textarea id=\"");
        html.append(self.id.as_str());
        html.append("\" class=\"w-100 h-100\" data-default-value=\"");
        html.append(self.text.as_str());
        html.append("\" data-on-change=\"fire_value_changed('");
        html.append(self.id.as_str());
        html.append("')\" data-on-textarea-create=\"fire_created\" data-role=\"textarea\" >");
        html.append(self.text.as_str());
        html.append("</textarea>");
        html
    }

    /// Take over the new value where the event is addressed to this area and
    /// reports a changed value.
    fn handle_event(&mut self, event: &Event)
        ensures
            final(self).id == old(self).id,
            final(self).text@ == text_after(old(self).id@, old(self).text@, event),
    {
        if event.id == self.id {
            match &event.value {
                EventValue::ValueChanged(new_value) => {
                    self.text = new_value.clone();
                },
                _ => {},
            }
        }
    }

    fn take_commands(&mut self) -> (commands: Vec<Command>)
        ensures
            *final(self) == *old(self),
            commands@.len() == 0,
    {
        let commands: Vec<Command> = Vec::new();
        assert(command_views(commands@) =~= Seq::<CommandView>::empty());
        commands
    }

    fn handle_reply(&mut self, reply: &Reply)
        ensures
            *final(self) == *old(self),
    {
    }

    fn id(&self) -> (id: String) {
        self.id.clone()
    }
}

/// What kind of text a text field takes.
#[derive(Clone, Copy)]
pub enum TextType {
    /// Simple text field.
    Text,
    /// Text field for password input.
    Password { allow_reveal: bool },
    /// Text field for emails.
    Email,
}

impl TextType {
    /// The attributes that select the kind of text.
    pub open spec fn attribute(self) -> Seq<char> {
        match self {
            TextType::Text => "type=\"text\""@,
            TextType::Password { allow_reveal } => "type=\"password\" data-reveal-button=\""@
                + bool_text(allow_reveal) + "\""@,
            TextType::Email => "type=\"email\""@,
        }
    }

    /// The attributes that select the kind of text.
    pub fn to_attribute(&self) -> (attribute: String)
        ensures
            attribute@ == self.attribute(),
    {
        match self {
            TextType::Text => String::from_str("type=\"text\""),
            TextType::Password { allow_reveal } => {
                let mut attribute = String::from_str("type=\"password\" data-reveal-button=\"");
                attribute.append(bool_to_text(*allow_reveal));
                attribute.append("\"");
                attribute
            },
            TextType::Email => String::from_str("type=\"email\""),
        }
    }
}

/// A single line text field.
pub struct TextField {
    pub id: String,
    pub text_type: TextType,
    pub label: String,
    pub text: String,
}

impl TextField {
    /// Create an empty field for simple text.
    pub fn new(label: &str) -> (field: Self)
        ensures
            is_component_id(field.id@),
            field.label@ == label@,
            field.text@ == Seq::<char>::empty(),
            field.text_type == TextType::Text,
    {
        TextField {
            id: create_id(),
            text_type: TextType::Text,
            label: String::from_str(label),
            text: String::new(),
        }
    }

    /// Create an empty field for the given kind of text.
    pub fn new_with_type(label: &str, text_type: TextType) -> (field: Self)
        ensures
            is_component_id(field.id@),
            field.label@ == label@,
            field.text@ == Seq::<char>::empty(),
            field.text_type == text_type,
    {
        TextField { id: create_id(), text_type, label: String::from_str(label), text: String::new() }
    }

    /// The text the field holds at present.
    pub fn text(&self) -> (text: String)
        ensures
            text@ == self.text@,
    {
        self.text.clone()
    }
}

impl Component for TextField {
    open spec fn ident(&self) -> Seq<char> {
        self.id@
    }

    open spec fn wf(&self) -> bool {
        true
    }

    open spec fn markup(&self) -> Seq<char> {
        "<input id=\""@ + self.id@ + "\" value=\""@ + self.text@
            + "\" oninput=\"fire_value_changed('"@ + self.id@
            + "')\" data-on-clear-click=\"fire_value_changed('"@ + self.id@ + "')\" "@
            + self.text_type.attribute() + " data-role=\"input\" data-prepend=\""@ + self.label@
            + "\"/>"@
    }

    open spec fn handled(&self, event: &Event) -> bool {
        event.id@ == self.id@ ==> (event.value matches EventValue::ValueChanged(value)
            ==> self.text@ == value@)
    }

    open spec fn outbox(&self) -> Seq<CommandView> {
        Seq::empty()
    }

    open spec fn answered(&self, reply: &Reply) -> bool {
        true
    }

    fn render(&mut self) -> (html: String)
        ensures
            *final(self) == *old(self),
    {
        let type_attr = self.text_type.to_attribute();
        let mut html = String::from_str("<input id=\"");
        html.append(self.id.as_str());
        html.append("\" value=\"");
        html.append(self.text.as_str());
        html.append("\" oninput=\"fire_value_changed('");
        html.append(self.id.as_str());
        html.append("')\" data-on-clear-click=\"fire_value_changed('");
        html.append(self.id.as_str());
        html.append("')\" ");
        html.append(type_attr.as_str());
        html.append(" data-role=\"input\" data-prepend=\"");
        html.append(self.label.as_str());
        html.append("\"/>");
        html
    }

    /// Take over the new value where the event is addressed to this field and
    /// reports a changed value.
    fn handle_event(&mut self, event: &Event)
        ensures
            final(self).id == old(self).id,
            final(self).label == old(self).label,
            final(self).text_type == old(self).text_type,
            final(self).text@ == text_after(old(self).id@, old(self).text@, event),
    {
        if event.id == self.id {
            match &event.value {
                EventValue::ValueChanged(new_value) => {
                    self.text = new_value.clone();
                },
                _ => {},
            }
        }
    }

    fn take_commands(&mut self) -> (commands: Vec<Command>)
        ensures
            *final(self) == *old(self),
            commands@.len() == 0,
    {
        let commands: Vec<Command> = Vec::new();
        assert(command_views(commands@) =~= Seq::<CommandView>::empty());
        commands
    }

    fn handle_reply(&mut self, reply: &Reply)
        ensures
            *final(self) == *old(self),
    {
    }

    fn id(&self) -> (id: String) {
        self.id.clone()
    }
}

} // verus!
