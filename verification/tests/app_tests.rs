use denshi::command::{Command, Reply};
use denshi::component::button::Button;
use denshi::component::layout::Page;
use denshi::component::tree::{Tree, TreeModel};
use denshi::component::{Child, Component};
use denshi::event::{Event, EventValue};
use denshi::frp::{Behavior, Sink};
use denshi::listener::{FnAction, FnListener, Listener};
use denshi::{App, AppError};
use std::cell::RefCell;
use std::rc::Rc;

struct Sections;

impl TreeModel<&'static str> for Sections {
    fn roots(&self) -> Vec<&'static str> {
        vec!["Components", "Containers", "Layouts"]
    }

    fn children(&self, parent: &&'static str) -> Vec<&'static str> {
        match *parent {
            "Components" => vec!["Buttons"],
            "Containers" => vec!["Forms"],
            "Layouts" => vec!["Page Layout"],
            _ => Vec::new(),
        }
    }

    fn caption(&self, node: &&'static str) -> String {
        node.to_string()
    }

    fn has_children(&self, node: &&'static str) -> bool {
        matches!(*node, "Components" | "Containers" | "Layouts")
    }
}

#[test]
fn an_app_without_content_cannot_be_built() {
    let mut app: App<u8> = App::new("Demo");
    assert_eq!(app.title, "Demo");
    assert!(app.content.is_none());
    assert_eq!(app.build_html(), Err(AppError::NoAppContentError));
    assert_eq!(AppError::NoAppContentError.message(), "No content defined for this app.");
    app.handle_event(&Event { id: "x".into(), value: EventValue::Clicked });
    assert!(app.take_commands().is_empty());
    app.handle_reply(&Reply {
        command: Command::ClearNode { tree_id: "t".into(), node_id: "n".into() },
        succeeded: true,
    });
    assert!(app.content.is_none());
}

#[test]
fn an_app_renders_its_content_into_a_document() {
    let mut app: App<u8> = App::new("Demo");
    let mut button = Button::new("Click");
    let markup = button.render();
    app.set_content(Child { widget: Box::new(button) });
    assert_eq!(
        app.build_html().unwrap(),
        format!(
            "<!DOCTYPE html><html><head><meta charset=\"utf-8\"><title>Demo</title></head><body>{}</body></html>",
            markup
        )
    );
    let mut other = Button::new("Other");
    let other_markup = other.render();
    app.set_content(Child { widget: Box::new(other) });
    let html = app.build_html().unwrap();
    assert!(html.contains(&other_markup));
    assert!(!html.contains(&markup));
}

#[test]
fn an_app_answers_events_with_commands_and_takes_the_replies() {
    let heard: Rc<RefCell<Vec<&'static str>>> = Rc::new(RefCell::new(Vec::new()));
    let sink = heard.clone();
    let mut tree = Tree::new(Sections);
    tree.set_click_event(move |section: &&'static str| sink.borrow_mut().push(*section));
    let tree_id = tree.id();
    let mut page = Page::new();
    page.set_content(Child { widget: Box::new(tree) });
    let mut app: App<u8> = App::new("Demo");
    app.set_content(Child { widget: Box::new(page) });

    let html = app.build_html().unwrap();
    assert_eq!(html.matches("<li id=\"").count(), 3);
    let at = html.find("data-caption=\"Layouts\"").unwrap();
    let layouts = html[at - 26..at - 2].to_string();
    assert!(layouts.starts_with("id-"));

    let expand = Event { id: tree_id.clone(), value: EventValue::NodeExpand(layouts.clone()) };
    app.handle_event(&expand);
    let commands = app.take_commands();
    let scripts: Vec<String> = commands.iter().map(|c| c.script()).collect();
    assert_eq!(scripts.len(), 2);
    assert_eq!(scripts[0], format!("clear_node('{}', '{}')", tree_id, layouts));
    assert!(scripts[1].starts_with(&format!("add_tree_node('{}', '{}', 'id-", tree_id, layouts)));
    assert!(scripts[1].ends_with("', 'Page Layout', false)"));
    let child_id = match &commands[1] {
        Command::AddTreeNode { node_id, .. } => node_id.clone(),
        Command::ClearNode { .. } => panic!("an add command was expected"),
    };
    for command in commands {
        app.handle_reply(&Reply { command, succeeded: true });
    }
    assert!(app.take_commands().is_empty());
    app.handle_event(&expand);
    assert!(app.take_commands().is_empty());

    let click = Event { id: tree_id, value: EventValue::ChildClicked(child_id) };
    app.handle_event(&click);
    assert!(app.take_commands().is_empty());
    assert_eq!(*heard.borrow(), vec!["Page Layout"]);
    assert_eq!(app.build_html().unwrap(), html);
}

#[test]
fn an_app_publishes_to_its_subscribers() {
    let heard: Rc<RefCell<Vec<u8>>> = Rc::new(RefCell::new(Vec::new()));
    let mut app: App<u8> = App::new("Demo");
    assert_eq!(app.send(1, &0), 0);
    let sink = heard.clone();
    app.subscribe(1, move |event: &u8| sink.borrow_mut().push(*event));
    let sink = heard.clone();
    app.subscribe(1, move |event: &u8| sink.borrow_mut().push(*event + 100));
    assert_eq!(app.send(2, &5), 0);
    assert!(heard.borrow().is_empty());
    assert_eq!(app.send(1, &5), 2);
    assert_eq!(*heard.borrow(), vec![5, 105]);
}

#[test]
fn a_behavior_reads_its_source_each_time() {
    let counter = Rc::new(RefCell::new(0u32));
    let source = counter.clone();
    let behavior = Behavior::from_fn(move || {
        *source.borrow_mut() += 1;
        *source.borrow()
    });
    assert_eq!(behavior.value(), 1);
    assert_eq!(behavior.value(), 2);
    let constant = Behavior::from_fn(|| "text".to_string());
    assert_eq!(constant.value(), "text");
    assert_eq!(constant.value(), "text");
}

#[test]
fn a_sink_hands_values_on() {
    let heard: Rc<RefCell<Vec<i32>>> = Rc::new(RefCell::new(Vec::new()));
    let log = heard.clone();
    let sink = Sink::from_fn(move |value: &i32| log.borrow_mut().push(*value));
    sink.send(&3);
    sink.send(&-4);
    assert_eq!(*heard.borrow(), vec![3, -4]);
}

#[test]
fn an_event_stream_calls_its_observers_in_order() {
    let heard: Rc<RefCell<Vec<String>>> = Rc::new(RefCell::new(Vec::new()));
    let mut stream: denshi::frp::Event<u8> = denshi::frp::Event::new();
    stream.send(&0);
    assert!(heard.borrow().is_empty());
    for name in ["one", "two"] {
        let log = heard.clone();
        stream.observe(move |event: &u8| log.borrow_mut().push(format!("{}:{}", name, event)));
    }
    stream.send(&7);
    assert_eq!(*heard.borrow(), vec!["one:7".to_string(), "two:7".to_string()]);
    assert_eq!(stream.cbs.len(), 2);
}

#[test]
fn listeners_call_their_closures() {
    let count = Rc::new(RefCell::new(0u32));
    let seen = count.clone();
    let action = FnAction::new(move || *seen.borrow_mut() += 1);
    action.notify(&());
    action.notify(&());
    assert_eq!(*count.borrow(), 2);

    let sum = Rc::new(RefCell::new(0u32));
    let total = sum.clone();
    let listener = FnListener::new(move |value: &u32| *total.borrow_mut() += *value);
    listener.notify(&4);
    listener.notify(&5);
    assert_eq!(*sum.borrow(), 9);
}
