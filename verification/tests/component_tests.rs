use denshi::command::{Command, Reply};
use denshi::component::button::{Button, Checkbox};
use denshi::component::layout::{Form, Orientation, Page, PagePosition, Splitter, TabPane};
use denshi::component::menu::MenuBar;
use denshi::component::panel::{optional_attribute, Panel, ScrollMode};
use denshi::component::text::{TextArea, TextField, TextType};
use denshi::component::tree::{Tree, TreeModel};
use denshi::component::{Child, Component, ComponentManager};
use denshi::event::{Event, EventValue};
use std::cell::RefCell;
use std::rc::Rc;

fn child(component: impl Component + 'static) -> Child {
    Child { widget: Box::new(component) }
}

fn changed(id: &str, text: &str) -> Event {
    Event { id: id.to_string(), value: EventValue::ValueChanged(text.to_string()) }
}

fn clicked(id: &str) -> Event {
    Event { id: id.to_string(), value: EventValue::Clicked }
}

#[test]
fn button_renders_id_and_label() {
    let mut button = Button::new("Test Button");
    let id = button.id();
    assert!(id.starts_with("id-"));
    assert_eq!(
        button.render(),
        format!("<a id=\"{id}\" class=\"button\" onclick=\"fire_clicked('{id}')\">Test Button</a>", id = id)
    );
    assert_eq!(button.render(), button.render());
}

#[test]
fn button_calls_its_listener_on_exact_match_only() {
    let count = Rc::new(RefCell::new(0u32));
    let seen = count.clone();
    let mut button = Button::new("Go");
    button.set_click_event(move || *seen.borrow_mut() += 1);
    let id = button.id();
    button.handle_event(&clicked("id-somebody-else"));
    assert_eq!(*count.borrow(), 0);
    button.handle_event(&clicked(&id));
    assert_eq!(*count.borrow(), 1);
    button.handle_event(&clicked(&id));
    assert_eq!(*count.borrow(), 2);
    assert!(button.take_commands().is_empty());
}

#[test]
fn button_without_listener_drops_the_event() {
    let mut button = Button::new("Go");
    let id = button.id();
    button.handle_event(&clicked(&id));
    assert!(button.click_event.is_none());
    assert_eq!(button.label, "Go");
}

#[test]
fn checkbox_renders_its_caption() {
    let mut checkbox = Checkbox::new("Checkbox");
    let id = checkbox.id();
    assert_eq!(
        checkbox.render(),
        format!(
            "<input id=\"{}\" type=\"checkbox\" data-role=\"checkbox\" data-on-checkbox-create=\"fire_created\" data-caption=\"Checkbox\">",
            id
        )
    );
    checkbox.handle_event(&clicked(&id));
    assert_eq!(checkbox.label, "Checkbox");
}

#[test]
fn menu_bar_renders_entries_in_order() {
    let mut menu = MenuBar::new();
    assert_eq!(menu.render(), "<ul class=\"h-menu\"></ul>");
    menu.add_entry("File");
    menu.add_entry("Edit");
    menu.add_entry("Help");
    assert_eq!(
        menu.render_items(),
        "<li><a href=\"#\">File</a></li><li><a href=\"#\">Edit</a></li><li><a href=\"#\">Help</a></li>"
    );
    assert_eq!(
        menu.render(),
        "<ul class=\"h-menu\"><li><a href=\"#\">File</a></li><li><a href=\"#\">Edit</a></li><li><a href=\"#\">Help</a></li></ul>"
    );
    assert!(menu.id().starts_with("id-"));
}

#[test]
fn text_area_takes_over_changed_values() {
    let mut area = TextArea::new();
    let id = area.id();
    assert_eq!(area.text(), "");
    assert_eq!(
        area.render(),
        format!(
            "<textarea id=\"{id}\" class=\"w-100 h-100\" data-default-value=\"\" data-on-change=\"fire_value_changed('{id}')\" data-on-textarea-create=\"fire_created\" data-role=\"textarea\" ></textarea>",
            id = id
        )
    );
    area.handle_event(&changed("id-another", "ignored"));
    assert_eq!(area.text(), "");
    area.handle_event(&clicked(&id));
    assert_eq!(area.text(), "");
    area.handle_event(&changed(&id, "two\nlines"));
    assert_eq!(area.text(), "two\nlines");
    assert_eq!(
        area.render(),
        format!(
            "<textarea id=\"{id}\" class=\"w-100 h-100\" data-default-value=\"two\nlines\" data-on-change=\"fire_value_changed('{id}')\" data-on-textarea-create=\"fire_created\" data-role=\"textarea\" >two\nlines</textarea>",
            id = id
        )
    );
}

#[test]
fn text_type_attributes() {
    assert_eq!(TextType::Text.to_attribute(), "type=\"text\"");
    assert_eq!(TextType::Email.to_attribute(), "type=\"email\"");
    assert_eq!(
        TextType::Password { allow_reveal: true }.to_attribute(),
        "type=\"password\" data-reveal-button=\"true\""
    );
    assert_eq!(
        TextType::Password { allow_reveal: false }.to_attribute(),
        "type=\"password\" data-reveal-button=\"false\""
    );
}

#[test]
fn text_field_renders_and_takes_over_changed_values() {
    let mut field = TextField::new("Enter Name: ");
    let id = field.id();
    assert_eq!(
        field.render(),
        format!(
            "<input id=\"{id}\" value=\"\" oninput=\"fire_value_changed('{id}')\" data-on-clear-click=\"fire_value_changed('{id}')\" type=\"text\" data-role=\"input\" data-prepend=\"Enter Name: \"/>",
            id = id
        )
    );
    field.handle_event(&changed(&id, "Ada"));
    assert_eq!(field.text(), "Ada");
    field.handle_event(&changed("id-another", "Bob"));
    assert_eq!(field.text(), "Ada");
    field.handle_event(&Event { id: id.clone(), value: EventValue::Created });
    assert_eq!(field.text(), "Ada");

    let mut password =
        TextField::new_with_type("Enter Password: ", TextType::Password { allow_reveal: true });
    let pid = password.id();
    assert_ne!(pid, id);
    assert_eq!(
        password.render(),
        format!(
            "<input id=\"{id}\" value=\"\" oninput=\"fire_value_changed('{id}')\" data-on-clear-click=\"fire_value_changed('{id}')\" type=\"password\" data-reveal-button=\"true\" data-role=\"input\" data-prepend=\"Enter Password: \"/>",
            id = pid
        )
    );
}

#[test]
fn optional_attribute_writes_nothing_without_a_value() {
    assert_eq!(optional_attribute("data-title-caption", &None), "");
    assert_eq!(
        optional_attribute("data-title-caption", &Some("Left".to_string())),
        "data-title-caption=\"Left\""
    );
    assert_eq!(ScrollMode::Auto.style(), "auto");
    assert_eq!(ScrollMode::Always.style(), "scroll");
}

#[test]
fn panel_wraps_its_content() {
    let button = Button::new("Left");
    let button_id = button.id();
    let mut panel = Panel::new(child(button));
    let id = panel.id();
    let inner = format!(
        "<a id=\"{b}\" class=\"button\" onclick=\"fire_clicked('{b}')\">Left</a>",
        b = button_id
    );
    assert_eq!(
        panel.render(),
        format!(
            "<div style=\"overflow: auto;\" id=\"{id}\" class=\"h-100 w-100\"  data-collapsible=\"false\" data-role=\"panel\">{inner}</div>",
            id = id,
            inner = inner
        )
    );
    panel.set_title("Left");
    panel.set_collapsible(true);
    panel.set_scroll_mode(ScrollMode::Always);
    assert_eq!(
        panel.render(),
        format!(
            "<div style=\"overflow: scroll;\" id=\"{id}\" class=\"h-100 w-100\" data-title-caption=\"Left\" data-collapsible=\"true\" data-role=\"panel\">{inner}</div>",
            id = id,
            inner = inner
        )
    );
}

#[test]
fn panel_forwards_events_to_its_content() {
    let field = TextField::new("x");
    let field_id = field.id();
    let mut panel = Panel::new(child(field));
    panel.handle_event(&changed(&field_id, "through the panel"));
    assert!(panel.render().contains("value=\"through the panel\""));
}

#[test]
fn registry_renders_a_slot_in_insertion_order() {
    let mut manager: ComponentManager<u8> = ComponentManager::new();
    assert_eq!(manager.render_component(&0), "");
    let mut expected = String::new();
    for label in ["one", "two", "three"] {
        let mut button = Button::new(label);
        expected.push_str(&button.render());
        manager.add_component(0, child(button));
    }
    assert_eq!(manager.render_component(&0), expected);
    assert_eq!(manager.render_component(&0), expected);
    assert_eq!(manager.render_component(&1), "");
    assert_eq!(manager.slots.len(), 1);
    assert_eq!(manager.slots[0].components.len(), 3);
}

#[test]
fn set_replaces_the_prior_contents_of_a_slot() {
    let mut manager: ComponentManager<u8> = ComponentManager::new();
    let mut old_one = Button::new("old one");
    let mut old_two = Button::new("old two");
    let old_markup = format!("{}{}", old_one.render(), old_two.render());
    manager.add_component(3, child(old_one));
    manager.add_component(3, child(old_two));
    let mut other = Button::new("other slot");
    let other_markup = other.render();
    manager.set_component(4, child(other));
    assert_eq!(manager.render_component(&3), old_markup);

    let mut new = Button::new("new");
    let new_markup = new.render();
    manager.set_component(3, child(new));
    assert_eq!(manager.render_component(&3), new_markup);
    assert!(!manager.render_component(&3).contains("old"));
    assert_eq!(manager.render_component(&4), other_markup);
    assert_eq!(manager.position(&3), Some(0));
    assert_eq!(manager.position(&4), Some(1));
    assert_eq!(manager.position(&5), None);
}

#[test]
fn registry_wraps_each_component() {
    let mut manager: ComponentManager<bool> = ComponentManager::new();
    let mut a = Button::new("a");
    let mut b = Button::new("b");
    let expected = format!("<p>{}</p><p>{}</p>", a.render(), b.render());
    manager.add_component(true, child(a));
    manager.add_component(true, child(b));
    assert_eq!(manager.render_component_with(&true, "<p>", "</p>"), expected);
    assert_eq!(manager.render_component_with(&false, "<p>", "</p>"), "");
}

#[test]
fn registry_broadcasts_to_every_component_in_slot_then_insertion_order() {
    let order: Rc<RefCell<Vec<&'static str>>> = Rc::new(RefCell::new(Vec::new()));
    let mut manager: ComponentManager<u8> = ComponentManager::new();
    let mut ids = Vec::new();
    for (key, name) in [(9u8, "nine-a"), (2u8, "two-a"), (9u8, "nine-b"), (2u8, "two-b")] {
        let log = order.clone();
        let mut button = Button::new(name);
        button.set_click_event(move || log.borrow_mut().push(name));
        ids.push(button.id());
        manager.add_component(key, child(button));
    }
    // Every button filters by id, so each event reaches exactly one listener.
    for id in &ids {
        manager.notify_all_components(&clicked(id));
    }
    assert_eq!(*order.borrow(), vec!["nine-a", "two-a", "nine-b", "two-b"]);
    assert_eq!(manager.position(&9), Some(0));
    assert_eq!(manager.position(&2), Some(1));

    // Components that share an id are all reached, first slot first.
    order.borrow_mut().clear();
    let mut shared: ComponentManager<u8> = ComponentManager::new();
    for (key, name) in [(9u8, "nine-a"), (2u8, "two-a"), (9u8, "nine-b")] {
        let log = order.clone();
        let mut button = Button::new(name);
        button.id = "id-shared".to_string();
        button.set_click_event(move || log.borrow_mut().push(name));
        shared.add_component(key, child(button));
    }
    shared.notify_all_components(&clicked("id-shared"));
    assert_eq!(*order.borrow(), vec!["nine-a", "nine-b", "two-a"]);
}

#[test]
fn splitter_renders_both_sides() {
    let mut left = Button::new("Left");
    let mut right = Button::new("Right");
    let left_markup = left.render();
    let right_markup = right.render();
    let mut splitter = Splitter::new(Orientation::VERTICAL, child(left), child(right));
    let id = splitter.id();
    assert_eq!(
        splitter.render(),
        format!(
            "<div id=\"{id}\" data-gutter-size=\"4\" data-role=\"splitter\" class=\"h-100\" data-split-mode=\"vertical\">\n                      <div>{first}</div>\n                      <div>{second}</div>\n                   </div>",
            id = id,
            first = left_markup,
            second = right_markup
        )
    );
    splitter.set_gutter_size(123);
    splitter.orientation = Orientation::HORIZONTAL;
    let html = splitter.render();
    assert!(html.contains("data-gutter-size=\"123\""));
    assert!(html.contains("data-split-mode=\"horizontal\""));
    splitter.set_gutter_size(0);
    assert!(splitter.render().contains("data-gutter-size=\"0\""));
    splitter.set_gutter_size(255);
    assert!(splitter.render().contains("data-gutter-size=\"255\""));
    splitter.set_gutter_size(70);
    assert!(splitter.render().contains("data-gutter-size=\"70\""));
}

#[test]
fn page_renders_header_content_and_footer_in_place() {
    let mut page = Page::new();
    assert_eq!(
        page.render(),
        "<div class=\"noselect h-100 container-fluid d-flex flex-column flex-align-stretch\"></div>"
    );
    let mut content = Button::new("content");
    let mut header = Button::new("header");
    let mut footer = Button::new("footer");
    let content_markup = content.render();
    let header_markup = header.render();
    let footer_markup = footer.render();
    page.set_content(child(content));
    page.set_footer(child(footer));
    page.set_header(child(header));
    assert_eq!(
        page.render(),
        format!(
            "<div class=\"noselect h-100 container-fluid d-flex flex-column flex-align-stretch\"><header>{}</header><div class=\"h-100\">{}</div><footer>{}</footer></div>",
            header_markup, content_markup, footer_markup
        )
    );
    let mut replacement = Button::new("replacement");
    let replacement_markup = replacement.render();
    page.set_content(child(replacement));
    let html = page.render();
    assert!(html.contains(&replacement_markup));
    assert!(!html.contains(&content_markup));
    assert_eq!(page.comps.position(&PagePosition::Content), Some(0));
    assert_eq!(page.comps.position(&PagePosition::Footer), Some(1));
    assert_eq!(page.comps.position(&PagePosition::Header), Some(2));
}

#[test]
fn form_renders_each_line_in_a_group() {
    let mut form = Form::new();
    let id = form.id();
    assert_eq!(form.render(), format!("<form id=\"{}\"></form>", id));
    let mut name = TextField::new("Name");
    let mut ok = Button::new("Ok");
    let name_markup = name.render();
    let ok_markup = ok.render();
    form.add_line(child(name));
    form.add_line(child(ok));
    assert_eq!(
        form.render_lines(),
        format!(
            "<div class=\"form-group\">{}</div><div class=\"form-group\">{}</div>",
            name_markup, ok_markup
        )
    );
    assert_eq!(
        form.render(),
        format!(
            "<form id=\"{}\"><div class=\"form-group\">{}</div><div class=\"form-group\">{}</div></form>",
            id, name_markup, ok_markup
        )
    );
}

#[test]
fn tab_pane_links_headers_to_panes() {
    let mut tabs = TabPane::new();
    assert_eq!(
        tabs.render(),
        "<ul data-role=\"tabs\" data-expand=\"true\"></ul><div class=\"border bd-default no-border-top p-2 w-100 h-100\"></div>"
    );
    let mut form = Button::new("in form");
    let mut area = TextArea::new();
    let form_id = form.id();
    let area_id = area.id();
    let form_markup = form.render();
    let area_markup = area.render();
    tabs.add_tab("Form", child(form));
    tabs.add_tab("Text Area", child(area));
    assert_eq!(
        tabs.render_tab_headers(),
        format!(
            "<li><a href=\"#{}tab\">Form</a></li><li><a href=\"#{}tab\">Text Area</a></li>",
            form_id, area_id
        )
    );
    let panes = format!(
        "<div class=\"border bd-default no-border-top p-2 w-100 h-100\"><div class=\"w-100 h-100\" id=\"{}tab\">{}</div><div class=\"w-100 h-100\" id=\"{}tab\">{}</div></div>",
        form_id, form_markup, area_id, area_markup
    );
    assert_eq!(tabs.render_tab_content(), panes);
    assert_eq!(
        tabs.render(),
        format!(
            "<ul data-role=\"tabs\" data-expand=\"true\"><li><a href=\"#{}tab\">Form</a></li><li><a href=\"#{}tab\">Text Area</a></li></ul>{}",
            form_id, area_id, panes
        )
    );
    tabs.handle_event(&changed(&area_id, "typed"));
    assert!(tabs.render().contains(">typed</textarea>"));
}

struct Letters;

impl TreeModel<String> for Letters {
    fn roots(&self) -> Vec<String> {
        vec!["a".to_string(), "b".to_string()]
    }

    fn children(&self, parent: &String) -> Vec<String> {
        if parent == "a" {
            vec!["a1".to_string()]
        } else {
            Vec::new()
        }
    }

    fn caption(&self, node: &String) -> String {
        node.clone()
    }

    fn has_children(&self, node: &String) -> bool {
        node == "a"
    }
}

#[test]
fn a_tree_deep_in_the_hierarchy_is_reached_and_answered() {
    let heard: Rc<RefCell<Vec<String>>> = Rc::new(RefCell::new(Vec::new()));
    let sink = heard.clone();
    let mut tree = Tree::new(Letters);
    tree.set_click_event(move |payload: &String| sink.borrow_mut().push(payload.clone()));
    let tree_id = tree.id();

    let mut tabs = TabPane::new();
    tabs.add_tab("Tree", child(Panel::new(child(tree))));
    let mut form = Form::new();
    form.add_line(child(TextField::new("Name")));
    let splitter = Splitter::new(Orientation::HORIZONTAL, child(tabs), child(form));
    let mut page = Page::new();
    page.set_header(child(MenuBar::new()));
    page.set_content(child(splitter));

    let html = page.render();
    let row = html.find("<li id=\"").unwrap() + 8;
    let a = html[row..row + 24].to_string();
    assert!(page.take_commands().is_empty());

    page.handle_event(&Event { id: tree_id.clone(), value: EventValue::NodeExpand(a.clone()) });
    let commands = page.take_commands();
    assert_eq!(commands.len(), 2);
    assert_eq!(commands[0], Command::ClearNode { tree_id: tree_id.clone(), node_id: a.clone() });
    assert!(page.take_commands().is_empty());
    let a1 = match &commands[1] {
        Command::AddTreeNode { node_id, parent_id, caption, .. } => {
            assert_eq!(parent_id, &a);
            assert_eq!(caption, "a1");
            node_id.clone()
        },
        Command::ClearNode { .. } => panic!("an add command was expected"),
    };
    for command in commands {
        page.handle_reply(&Reply { command, succeeded: true });
    }

    page.handle_event(&Event { id: tree_id.clone(), value: EventValue::NodeExpand(a.clone()) });
    assert!(page.take_commands().is_empty());

    page.handle_event(&Event { id: tree_id.clone(), value: EventValue::ChildClicked(a1) });
    assert_eq!(*heard.borrow(), vec!["a1".to_string()]);
    page.handle_event(&Event { id: tree_id, value: EventValue::ChildClicked("id-none".into()) });
    assert_eq!(heard.borrow().len(), 1);
    assert_eq!(page.render(), html);
}
