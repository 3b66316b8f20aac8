//! Composite widgets that lay out other components.

use vstd::prelude::*;
use vstd::std_specs::cmp::PartialEqSpecImpl;
use vstd::string::*;
use crate::command::{Command, CommandView, Reply};
use crate::component::{
    Child,
    Component,
    ComponentManager,
    children_answered,
    children_handled,
    children_outbox,
    children_wf,
    key_law,
    lemma_outbox_pointwise,
    lemma_quiet_outbox,
    notify_children,
    push_child,
    reply_children,
    same_idents,
    take_children_commands,
    wrapped_markup,
};
use crate::event::Event;
use crate::utils::{create_id, decimal_text, is_component_id, u8_to_text};

verus! {

/// The direction in which a splitter divides its area.
#[derive(Clone, Copy)]
pub enum Orientation {
    VERTICAL,
    HORIZONTAL,
}

impl Orientation {
    /// The attribute that selects the direction.
    pub open spec fn split_mode(self) -> Seq<char> {
        match self {
            Orientation::HORIZONTAL => "data-split-mode=\"horizontal\""@,
            Orientation::VERTICAL => "data-split-mode=\"vertical\""@,
        }
    }
}

/// The two places of a splitter.
pub enum SplitterPosition {
    First,
    Second,
}

impl PartialEq for SplitterPosition {
    fn eq(&self, other: &Self) -> (equal: bool) {
        match (self, other) {
            (SplitterPosition::First, SplitterPosition::First) => true,
            (SplitterPosition::Second, SplitterPosition::Second) => true,
            _ => false,
        }
    }
}

impl PartialEqSpecImpl for SplitterPosition {
    open spec fn obeys_eq_spec() -> bool {
        true
    }

    open spec fn eq_spec(&self, other: &Self) -> bool {
        *self == *other
    }
}

/// A split pane with a horizontal or vertical divider.
pub struct Splitter {
    pub id: String,
    pub orientation: Orientation,
    pub comps: ComponentManager<SplitterPosition>,
    pub gutter_size: u8,
}

impl Splitter {
    /// Create a splitter with the two given components and a gutter of 4.
    pub fn new(orientation: Orientation, first: Child, second: Child) -> (splitter: Splitter)
        requires
            first.widget.wf(),
            second.widget.wf(),
        ensures
            splitter.wf(),
            is_component_id(splitter.id@),
            splitter.orientation == orientation,
            splitter.gutter_size == 4,
            splitter.comps.slot(SplitterPosition::First) == seq![first],
            splitter.comps.slot(SplitterPosition::First).len() == 1,
            splitter.comps.slot(SplitterPosition::First)[0] == first,
            splitter.comps.slot(SplitterPosition::Second) == seq![second],
            splitter.comps.slot(SplitterPosition::Second).len() == 1,
            splitter.comps.slot(SplitterPosition::Second)[0] == second,
    {
        assert(key_law::<SplitterPosition>());
        let mut comps = ComponentManager::new();
        comps.set_component(SplitterPosition::First, first);
        comps.set_component(SplitterPosition::Second, second);
        Splitter { id: create_id(), orientation, comps, gutter_size: 4 }
    }

    /// Set the width of the divider.
    pub fn set_gutter_size(&mut self, new_size: u8)
        ensures
            final(self).gutter_size == new_size,
            final(self).id == old(self).id,
            final(self).orientation == old(self).orientation,
            final(self).comps == old(self).comps,
    {
        self.gutter_size = new_size
    }
}

impl Component for Splitter {
    open spec fn ident(&self) -> Seq<char> {
        self.id@
    }

    open spec fn wf(&self) -> bool {
        self.comps.wf()
    }

    open spec fn markup(&self) -> Seq<char> {
        "<div id=\""@ + self.id@ + "\" data-gutter-size=\""@ + decimal_text(
            self.gutter_size as nat,
        ) + "\" data-role=\"splitter\" class=\"h-100\" "@ + self.orientation.split_mode()
            + ">\n                      <div>"@ + wrapped_markup(
            self.comps.slot(SplitterPosition::First),
            Seq::empty(),
            Seq::empty(),
        ) + "</div>\n                      <div>"@ + wrapped_markup(
            self.comps.slot(SplitterPosition::Second),
            Seq::empty(),
            Seq::empty(),
        ) + "</div>\n                   </div>"@
    }

    open spec fn handled(&self, event: &Event) -> bool {
        self.comps.handled(event)
    }

    open spec fn outbox(&self) -> Seq<CommandView> {
        self.comps.outbox()
    }

    open spec fn answered(&self, reply: &Reply) -> bool {
        self.comps.answered(reply)
    }

    fn render(&mut self) -> (html: String)
        ensures
            final(self).id == old(self).id,
            final(self).orientation == old(self).orientation,
            final(self).gutter_size == old(self).gutter_size,
            old(self).comps.same_structure(&final(self).comps),
    {
        let split_mode = match self.orientation {
            Orientation::HORIZONTAL => "data-split-mode=\"horizontal\"",
            Orientation::VERTICAL => "data-split-mode=\"vertical\"",
        };
        let first = self.comps.render_component(&SplitterPosition::First);
        let ghost between = self.comps;
        let second = self.comps.render_component(&SplitterPosition::Second);
        let gutter = u8_to_text(self.gutter_size);
        let mut html = String::from_str("<div id=\"");
        html.append(self.id.as_str());
        html.append("\" data-gutter-size=\"");
        html.append(gutter.as_str());
        html.append("\" data-role=\"splitter\" class=\"h-100\" ");
        html.append(split_mode);
        html.append(">\n                      <div>");
        html.append(first.as_str());
        html.append("</div>\n                      <div>");
        html.append(second.as_str());
        html.append("</div>\n                   </div>");
        proof {
            assert(self.comps.slot(SplitterPosition::First) == between.slot(
                SplitterPosition::First,
            ));
        }
        html
    }

    /// Forward the event to both components.
    fn handle_event(&mut self, event: &Event)
        ensures
            final(self).id == old(self).id,
            final(self).orientation == old(self).orientation,
            final(self).gutter_size == old(self).gutter_size,
            old(self).comps.same_structure(&final(self).comps),
    {
        self.comps.notify_all_components(event);
    }

    fn take_commands(&mut self) -> (commands: Vec<Command>)
        ensures
            final(self).id == old(self).id,
            final(self).orientation == old(self).orientation,
            final(self).gutter_size == old(self).gutter_size,
            old(self).comps.same_structure(&final(self).comps),
    {
        let commands = self.comps.take_commands();
        proof {
            old(self).comps.lemma_same_markup(
                &self.comps,
                SplitterPosition::First,
                Seq::empty(),
                Seq::empty(),
            );
            old(self).comps.lemma_same_markup(
                &self.comps,
                SplitterPosition::Second,
                Seq::empty(),
                Seq::empty(),
            );
        }
        commands
    }

    /// Forward the answer to both components.
    fn handle_reply(&mut self, reply: &Reply)
        ensures
            final(self).id == old(self).id,
            final(self).orientation == old(self).orientation,
            final(self).gutter_size == old(self).gutter_size,
            old(self).comps.same_structure(&final(self).comps),
    {
        self.comps.forward_reply(reply);
    }

    fn id(&self) -> (id: String) {
        self.id.clone()
    }
}

/// The places of a page.
pub enum PagePosition {
    Header,
    Footer,
    Content,
}

impl PartialEq for PagePosition {
    fn eq(&self, other: &Self) -> (equal: bool) {
        match (self, other) {
            (PagePosition::Header, PagePosition::Header) => true,
            (PagePosition::Footer, PagePosition::Footer) => true,
            (PagePosition::Content, PagePosition::Content) => true,
            _ => false,
        }
    }
}

impl PartialEqSpecImpl for PagePosition {
    open spec fn obeys_eq_spec() -> bool {
        true
    }

    open spec fn eq_spec(&self, other: &Self) -> bool {
        *self == *other
    }
}

/// Simple page layout with a header, content and a footer.
pub struct Page {
    pub id: String,
    pub comps: ComponentManager<PagePosition>,
}

impl Page {
    /// Create an empty page.
    pub fn new() -> (page: Self)
        ensures
            page.wf(),
            is_component_id(page.id@),
            forall|position: PagePosition| page.comps.slot(position) == Seq::<Child>::empty(),
    {
        assert(key_law::<PagePosition>());
        Page { id: create_id(), comps: ComponentManager::new() }
    }

    /// Set the component shown between header and footer.
    pub fn set_content(&mut self, content: Child)
        requires
            old(self).wf(),
            content.widget.wf(),
        ensures
            final(self).wf(),
            final(self).id == old(self).id,
            final(self).comps.slot(PagePosition::Content) == seq![content],
            final(self).comps.slot(PagePosition::Content).len() == 1,
            final(self).comps.slot(PagePosition::Content)[0] == content,
            final(self).comps.slot(PagePosition::Header) == old(self).comps.slot(
                PagePosition::Header,
            ),
            final(self).comps.slot(PagePosition::Footer) == old(self).comps.slot(
                PagePosition::Footer,
            ),
    {
        self.comps.set_component(PagePosition::Content, content);
    }

    /// Set the component shown at the top.
    pub fn set_header(&mut self, header: Child)
        requires
            old(self).wf(),
            header.widget.wf(),
        ensures
            final(self).wf(),
            final(self).id == old(self).id,
            final(self).comps.slot(PagePosition::Header) == seq![header],
            final(self).comps.slot(PagePosition::Header).len() == 1,
            final(self).comps.slot(PagePosition::Header)[0] == header,
            final(self).comps.slot(PagePosition::Content) == old(self).comps.slot(
                PagePosition::Content,
            ),
            final(self).comps.slot(PagePosition::Footer) == old(self).comps.slot(
                PagePosition::Footer,
            ),
    {
        self.comps.set_component(PagePosition::Header, header);
    }

    /// Set the component shown at the bottom.
    pub fn set_footer(&mut self, footer: Child)
        requires
            old(self).wf(),
            footer.widget.wf(),
        ensures
            final(self).wf(),
            final(self).id == old(self).id,
            final(self).comps.slot(PagePosition::Footer) == seq![footer],
            final(self).comps.slot(PagePosition::Footer).len() == 1,
            final(self).comps.slot(PagePosition::Footer)[0] == footer,
            final(self).comps.slot(PagePosition::Content) == old(self).comps.slot(
                PagePosition::Content,
            ),
            final(self).comps.slot(PagePosition::Header) == old(self).comps.slot(
                PagePosition::Header,
            ),
    {
        self.comps.set_component(PagePosition::Footer, footer);
    }
}

impl Component for Page {
    open spec fn ident(&self) -> Seq<char> {
        self.id@
    }

    open spec fn wf(&self) -> bool {
        self.comps.wf()
    }

    open spec fn markup(&self) -> Seq<char> {
        "<div class=\"noselect h-100 container-fluid d-flex flex-column flex-align-stretch\">"@
            + wrapped_markup(self.comps.slot(PagePosition::Header), "<header>"@, "</header>"@)
            + wrapped_markup(
            self.comps.slot(PagePosition::Content),
            "<div class=\"h-100\">"@,
            "</div>"@,
        ) + wrapped_markup(self.comps.slot(PagePosition::Footer), "<footer>"@, "</footer>"@)
            + "</div>"@
    }

    open spec fn handled(&self, event: &Event) -> bool {
        self.comps.handled(event)
    }

    open spec fn outbox(&self) -> Seq<CommandView> {
        self.comps.outbox()
    }

    open spec fn answered(&self, reply: &Reply) -> bool {
        self.comps.answered(reply)
    }

    fn render(&mut self) -> (html: String)
        ensures
            final(self).id == old(self).id,
            old(self).comps.same_structure(&final(self).comps),
    {
        let mut components = String::from_str(
            "<div class=\"noselect h-100 container-fluid d-flex flex-column flex-align-stretch\">",
        );
        let header = self.comps.render_component_with(&PagePosition::Header, "<header>", "</header>");
        let ghost after_header = self.comps;
        let content = self.comps.render_component_with(
            &PagePosition::Content,
            "<div class=\"h-100\">",
            "</div>",
        );
        let ghost after_content = self.comps;
        let footer = self.comps.render_component_with(&PagePosition::Footer, "<footer>", "</footer>");
        components.append(header.as_str());
        components.append(content.as_str());
        components.append(footer.as_str());
        components.append("</div>");
        proof {
            assert(after_content.slot(PagePosition::Header) == after_header.slot(
                PagePosition::Header,
            ));
            assert(self.comps.slot(PagePosition::Header) == after_content.slot(
                PagePosition::Header,
            ));
            assert(self.comps.slot(PagePosition::Content) == after_content.slot(
                PagePosition::Content,
            ));
        }
        components
    }

    /// Forward the event to every component of the page.
    fn handle_event(&mut self, event: &Event)
        ensures
            final(self).id == old(self).id,
            old(self).comps.same_structure(&final(self).comps),
    {
        self.comps.notify_all_components(event);
    }

    fn take_commands(&mut self) -> (commands: Vec<Command>)
        ensures
            final(self).id == old(self).id,
            old(self).comps.same_structure(&final(self).comps),
    {
        let commands = self.comps.take_commands();
        proof {
            old(self).comps.lemma_same_markup(
                &self.comps,
                PagePosition::Header,
                "<header>"@,
                "</header>"@,
            );
            old(self).comps.lemma_same_markup(
                &self.comps,
                PagePosition::Content,
                "<div class=\"h-100\">"@,
                "</div>"@,
            );
            old(self).comps.lemma_same_markup(
                &self.comps,
                PagePosition::Footer,
                "<footer>"@,
                "</footer>"@,
            );
        }
        commands
    }

    /// Forward the answer to every component of the page.
    fn handle_reply(&mut self, reply: &Reply)
        ensures
            final(self).id == old(self).id,
            old(self).comps.same_structure(&final(self).comps),
    {
        self.comps.forward_reply(reply);
    }

    fn id(&self) -> (id: String) {
        self.id.clone()
    }
}

/// The one place of a form, which holds its lines.
pub enum FormPosition {
    Lines,
}

impl PartialEq for FormPosition {
    fn eq(&self, other: &Self) -> (equal: bool) {
        true
    }
}

impl PartialEqSpecImpl for FormPosition {
    open spec fn obeys_eq_spec() -> bool {
        true
    }

    open spec fn eq_spec(&self, other: &Self) -> bool {
        *self == *other
    }
}

/// A form with several lines of input fields.
pub struct Form {
    pub id: String,
    pub comps: ComponentManager<FormPosition>,
}

impl Form {
    /// The lines of the form as a mathematical value.
    pub open spec fn lines(&self) -> Seq<Child> {
        self.comps.slot(FormPosition::Lines)
    }

    /// Create a form without lines.
    pub fn new() -> (form: Self)
        ensures
            form.wf(),
            is_component_id(form.id@),
            form.lines() == Seq::<Child>::empty(),
    {
        assert(key_law::<FormPosition>());
        Form { id: create_id(), comps: ComponentManager::new() }
    }

    /// Append a line to the form.
    pub fn add_line(&mut self, component: Child)
        requires
            old(self).wf(),
            component.widget.wf(),
        ensures
            final(self).wf(),
            final(self).id == old(self).id,
            final(self).lines() == old(self).lines().push(component),
            final(self).lines().len() == old(self).lines().len() + 1,
            final(self).lines().last() == component,
            final(self).lines().drop_last() == old(self).lines(),
    {
        self.comps.add_component(FormPosition::Lines, component)
    }

    /// Render the lines in the order in which they were added, each in a
    /// group of its own.
    pub fn render_lines(&mut self) -> (html: String)
        requires
            old(self).wf(),
        ensures
            final(self).wf(),
            final(self).id == old(self).id,
            final(self).outbox() == old(self).outbox(),
            old(self).comps.same_structure(&final(self).comps),
            html@ == wrapped_markup(final(self).lines(), "<div class=\"form-group\">"@, "</div>"@),
    {
        self.comps.render_component_with(
            &FormPosition::Lines,
            "<div class=\"form-group\">",
            "</div>",
        )
    }
}

impl Component for Form {
    open spec fn ident(&self) -> Seq<char> {
        self.id@
    }

    open spec fn wf(&self) -> bool {
        self.comps.wf()
    }

    open spec fn markup(&self) -> Seq<char> {
        "<form id=\""@ + self.id@ + "\">"@ + wrapped_markup(
            self.lines(),
            "<div class=\"form-group\">"@,
            "</div>"@,
        ) + "</form>"@
    }

    open spec fn handled(&self, event: &Event) -> bool {
        self.comps.handled(event)
    }

    open spec fn outbox(&self) -> Seq<CommandView> {
        self.comps.outbox()
    }

    open spec fn answered(&self, reply: &Reply) -> bool {
        self.comps.answered(reply)
    }

    fn render(&mut self) -> (html: String)
        ensures
            final(self).id == old(self).id,
            old(self).comps.same_structure(&final(self).comps),
    {
        let lines = self.render_lines();
        let mut html = String::from_str("<form id=\"");
        html.append(self.id.as_str());
        html.append("\">");
        html.append(lines.as_str());
        html.append("</form>");
        html
    }

    /// Forward the event to every line.
    fn handle_event(&mut self, event: &Event)
        ensures
            final(self).id == old(self).id,
            old(self).comps.same_structure(&final(self).comps),
    {
        self.comps.notify_all_components(event);
    }

    fn take_commands(&mut self) -> (commands: Vec<Command>)
        ensures
            final(self).id == old(self).id,
            old(self).comps.same_structure(&final(self).comps),
    {
        let commands = self.comps.take_commands();
        proof {
            old(self).comps.lemma_same_markup(
                &self.comps,
                FormPosition::Lines,
                "<div class=\"form-group\">"@,
                "</div>"@,
            );
        }
        commands
    }

    /// Forward the answer to every line.
    fn handle_reply(&mut self, reply: &Reply)
        ensures
            final(self).id == old(self).id,
            old(self).comps.same_structure(&final(self).comps),
    {
        self.comps.forward_reply(reply);
    }

    fn id(&self) -> (id: String) {
        self.id.clone()
    }
}

/// The header of the tab at position `i`: a link to the tab's pane.
pub open spec fn tab_header(labels: Seq<String>, contents: Seq<Child>, i: int) -> Seq<char> {
    "<li><a href=\"#"@ + contents[i].widget.ident() + "tab\">"@ + labels[i]@ + "</a></li>"@
}

/// The headers of the first `n` tabs, in the order in which the tabs were
/// added.
pub open spec fn tab_headers(labels: Seq<String>, contents: Seq<Child>, n: int) -> Seq<char>
    decreases n,
{
    if n <= 0 {
        Seq::empty()
    } else {
        tab_headers(labels, contents, n - 1) + tab_header(labels, contents, n - 1)
    }
}

/// The pane of the tab at position `i`: the tab's content under the name that
/// the header links to.
pub open spec fn tab_pane(contents: Seq<Child>, i: int) -> Seq<char> {
    "<div class=\"w-100 h-100\" id=\""@ + contents[i].widget.ident() + "tab\">"@
        + contents[i].widget.markup() + "</div>"@
}

/// The panes of the first `n` tabs, in the order in which the tabs were added.
pub open spec fn tab_panes(contents: Seq<Child>, n: int) -> Seq<char>
    decreases n,
{
    if n <= 0 {
        Seq::empty()
    } else {
        tab_panes(contents, n - 1) + tab_pane(contents, n - 1)
    }
}

/// The headers depend only on the labels and the contents' identifiers.
pub proof fn lemma_tab_headers_pointwise(
    labels: Seq<String>,
    a: Seq<Child>,
    b: Seq<Child>,
    n: int,
)
    requires
        n <= a.len(),
        same_idents(a, b),
    ensures
        tab_headers(labels, a, n) == tab_headers(labels, b, n),
    decreases n,
{
    if n > 0 {
        lemma_tab_headers_pointwise(labels, a, b, n - 1);
    }
}

/// The panes depend only on the contents' identifiers and markup.
pub proof fn lemma_tab_panes_pointwise(a: Seq<Child>, b: Seq<Child>, n: int)
    requires
        n <= a.len(),
        same_idents(a, b),
        forall|i: int| 0 <= i < n ==> a[i].widget.markup() == b[i].widget.markup(),
    ensures
        tab_panes(a, n) == tab_panes(b, n),
    decreases n,
{
    if n > 0 {
        lemma_tab_panes_pointwise(a, b, n - 1);
    }
}

/// A tab pane with several tabs to switch between.
pub struct TabPane {
    pub id: String,
    /// The labels of the tabs, in the order in which the tabs were added.
    pub labels: Vec<String>,
    /// The contents of the tabs, in the same order.
    pub contents: Vec<Child>,
}

impl TabPane {
    /// Create a tab pane without tabs.
    pub fn new() -> (pane: Self)
        ensures
            pane.wf(),
            is_component_id(pane.id@),
            pane.labels@.len() == 0,
            pane.contents@.len() == 0,
    {
        TabPane { id: create_id(), labels: Vec::new(), contents: Vec::new() }
    }

    /// Append a tab with the given label and content.
    pub fn add_tab(&mut self, label: &str, content: Child)
        requires
            old(self).wf(),
            content.widget.wf(),
        ensures
            final(self).wf(),
            final(self).id == old(self).id,
            final(self).contents@ == old(self).contents@.push(content),
            final(self).contents@.len() == old(self).contents@.len() + 1,
            final(self).contents@.last() == content,
            final(self).contents@.drop_last() == old(self).contents@,
            final(self).labels@.len() == old(self).labels@.len() + 1,
            final(self).labels@.drop_last() == old(self).labels@,
            final(self).labels@.last()@ == label@,
    {
        self.labels.push(String::from_str(label));
        push_child(&mut self.contents, content);
        assert(self.labels@.drop_last() =~= old(self).labels@);
    }

    /// Render the headers of the tabs.
    pub fn render_tab_headers(&self) -> (html: String)
        requires
            self.wf(),
        ensures
            html@ == tab_headers(self.labels@, self.contents@, self.contents@.len() as int),
    {
        let mut tabs = String::new();
        let mut i: usize = 0;
        while i < self.contents.len()
            invariant
                i <= self.contents@.len(),
                self.labels@.len() == self.contents@.len(),
                tabs@ == tab_headers(self.labels@, self.contents@, i as int),
            decreases self.contents@.len() - i,
        {
            let id = self.contents[i].widget.id();
            tabs.append("<li><a href=\"#");
            tabs.append(id.as_str());
            tabs.append("tab\">");
            tabs.append(self.labels[i].as_str());
            tabs.append("</a></li>");
            assert(tabs@ =~= tab_headers(self.labels@, self.contents@, i as int) + tab_header(
                self.labels@,
                self.contents@,
                i as int,
            ));
            i = i + 1;
        }
        tabs
    }

    /// Render the panes of the tabs inside their frame.
    pub fn render_tab_content(&mut self) -> (html: String)
        requires
            old(self).wf(),
        ensures
            final(self).wf(),
            final(self).id == old(self).id,
            final(self).labels == old(self).labels,
            same_idents(old(self).contents@, final(self).contents@),
            children_outbox(final(self).contents@) == children_outbox(old(self).contents@),
            html@ == "<div class=\"border bd-default no-border-top p-2 w-100 h-100\">"@ + tab_panes(
                final(self).contents@,
                final(self).contents@.len() as int,
            ) + "</div>"@,
    {
        let mut panes = String::new();
        let mut i: usize = 0;
        while i < self.contents.len()
            invariant
                i <= self.contents@.len(),
                self.wf(),
                self.id == old(self).id,
                self.labels == old(self).labels,
                same_idents(old(self).contents@, self.contents@),
                forall|j: int|
                    0 <= j < self.contents@.len() ==> (#[trigger] self.contents@[j]).widget.outbox()
                        == old(self).contents@[j].widget.outbox(),
                forall|j: int| i <= j < self.contents@.len() ==> self.contents@[j] == old(
                    self,
                ).contents@[j],
                panes@ == tab_panes(self.contents@, i as int),
            decreases self.contents@.len() - i,
        {
            let ghost before = self.contents@;
            let id = self.contents[i].widget.id();
            let content = self.contents[i].widget.render();
            proof {
                lemma_tab_panes_pointwise(before, self.contents@, i as int);
            }
            panes.append("<div class=\"w-100 h-100\" id=\"");
            panes.append(id.as_str());
            panes.append("tab\">");
            panes.append(content.as_str());
            panes.append("</div>");
            assert(panes@ =~= tab_panes(self.contents@, i as int) + tab_pane(
                self.contents@,
                i as int,
            ));
            i = i + 1;
        }
        proof {
            lemma_outbox_pointwise(self.contents@, old(self).contents@);
        }
        let mut html = String::from_str(
            "<div class=\"border bd-default no-border-top p-2 w-100 h-100\">",
        );
        html.append(panes.as_str());
        html.append("</div>");
        html
    }
}

impl Component for TabPane {
    open spec fn ident(&self) -> Seq<char> {
        self.id@
    }

    open spec fn wf(&self) -> bool {
        self.labels@.len() == self.contents@.len() && children_wf(self.contents@)
    }

    open spec fn markup(&self) -> Seq<char> {
        "<ul data-role=\"tabs\" data-expand=\"true\">"@ + tab_headers(
            self.labels@,
            self.contents@,
            self.contents@.len() as int,
        ) + "</ul>"@ + ("<div class=\"border bd-default no-border-top p-2 w-100 h-100\">"@
            + tab_panes(self.contents@, self.contents@.len() as int) + "</div>"@)
    }

    open spec fn handled(&self, event: &Event) -> bool {
        children_handled(self.contents@, event)
    }

    open spec fn outbox(&self) -> Seq<CommandView> {
        children_outbox(self.contents@)
    }

    open spec fn answered(&self, reply: &Reply) -> bool {
        children_answered(self.contents@, reply)
    }

    fn render(&mut self) -> (html: String)
        ensures
            final(self).id == old(self).id,
            final(self).labels == old(self).labels,
            same_idents(old(self).contents@, final(self).contents@),
    {
        let tabs = self.render_tab_headers();
        let content = self.render_tab_content();
        proof {
            lemma_tab_headers_pointwise(
                self.labels@,
                old(self).contents@,
                self.contents@,
                self.contents@.len() as int,
            );
        }
        let mut html = String::from_str("<ul data-role=\"tabs\" data-expand=\"true\">");
        html.append(tabs.as_str());
        html.append("</ul>");
        html.append(content.as_str());
        html
    }

    /// Forward the event to the content of every tab.
    fn handle_event(&mut self, event: &Event)
        ensures
            final(self).id == old(self).id,
            final(self).labels == old(self).labels,
            same_idents(old(self).contents@, final(self).contents@),
    {
        notify_children(&mut self.contents, event);
    }

    fn take_commands(&mut self) -> (commands: Vec<Command>)
        ensures
            final(self).id == old(self).id,
            final(self).labels == old(self).labels,
            same_idents(old(self).contents@, final(self).contents@),
    {
        let commands = take_children_commands(&mut self.contents);
        proof {
            lemma_quiet_outbox(self.contents@);
            lemma_tab_headers_pointwise(
                self.labels@,
                old(self).contents@,
                self.contents@,
                self.contents@.len() as int,
            );
            lemma_tab_panes_pointwise(
                old(self).contents@,
                self.contents@,
                self.contents@.len() as int,
            );
        }
        commands
    }

    /// Forward the answer to the content of every tab.
    fn handle_reply(&mut self, reply: &Reply)
        ensures
            final(self).id == old(self).id,
            final(self).labels == old(self).labels,
            same_idents(old(self).contents@, final(self).contents@),
    {
        reply_children(&mut self.contents, reply);
    }

    fn id(&self) -> (id: String) {
        self.id.clone()
    }
}

} // verus!
