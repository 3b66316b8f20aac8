use denshi::event::{Event, EventBroker, EventValue};
use std::cell::RefCell;
use std::rc::Rc;

/// The wire form of an event: an object with the id and the tagged value.
fn wire(event: &Event) -> serde_json::Value {
    let tagged = |tag: &str, text: &String| {
        let mut object = serde_json::Map::new();
        object.insert(tag.to_string(), serde_json::Value::String(text.clone()));
        serde_json::Value::Object(object)
    };
    let value = match &event.value {
        EventValue::Clicked => serde_json::Value::String("Clicked".to_string()),
        EventValue::Created => serde_json::Value::String("Created".to_string()),
        EventValue::PageLoaded => serde_json::Value::String("PageLoaded".to_string()),
        EventValue::ChildClicked(id) => tagged("ChildClicked", id),
        EventValue::ValueChanged(text) => tagged("ValueChanged", text),
        EventValue::NodeExpand(id) => tagged("NodeExpand", id),
    };
    let mut object = serde_json::Map::new();
    object.insert("id".to_string(), serde_json::Value::String(event.id.clone()));
    object.insert("value".to_string(), value);
    serde_json::Value::Object(object)
}

#[test]
fn test_clicked() {
    let event = Event { id: "1234".into(), value: EventValue::Clicked };

    assert_eq!(format!("{:?}", &event), "Event { id: \"1234\", value: Clicked }");

    assert_eq!(
        serde_json::to_string(&wire(&event)).unwrap(),
        "{\"id\":\"1234\",\"value\":\"Clicked\"}"
    );
}

#[test]
fn test_value_changed() {
    let event = Event { id: "1234".into(), value: EventValue::ValueChanged("Test".to_string()) };

    assert_eq!(
        format!("{:?}", &event),
        "Event { id: \"1234\", value: ValueChanged(\"Test\") }"
    );

    assert_eq!(
        serde_json::to_string(&wire(&event)).unwrap(),
        "{\"id\":\"1234\",\"value\":{\"ValueChanged\":\"Test\"}}"
    );
}

#[test]
fn test_value_created() {
    let event = Event { id: "1234".into(), value: EventValue::Created };

    assert_eq!(format!("{:?}", &event), "Event { id: \"1234\", value: Created }");

    assert_eq!(
        serde_json::to_string(&wire(&event)).unwrap(),
        "{\"id\":\"1234\",\"value\":\"Created\"}"
    );
}

#[derive(Debug)]
enum TestEventEnum {
    Event1,
    Event2,
}

#[test]
fn test_event_broker() {
    let mut event_broker = EventBroker::new();
    event_broker.subscribe(1, |event: &TestEventEnum| {
        assert!(matches!(event, TestEventEnum::Event1 | TestEventEnum::Event2));
    });

    assert_eq!(event_broker.send(1, &TestEventEnum::Event1), 1);
    assert_eq!(event_broker.send(1, &TestEventEnum::Event2), 1);
}

#[test]
fn payload_variants_carry_their_ids() {
    let expand = Event { id: "tree".into(), value: EventValue::NodeExpand("row".into()) };
    let click = Event { id: "tree".into(), value: EventValue::ChildClicked("row".into()) };
    assert_eq!(expand.id, click.id);
    assert_ne!(expand, click);
    assert_eq!(
        serde_json::to_string(&wire(&expand)).unwrap(),
        "{\"id\":\"tree\",\"value\":{\"NodeExpand\":\"row\"}}"
    );
    assert_eq!(
        serde_json::to_string(&wire(&click)).unwrap(),
        "{\"id\":\"tree\",\"value\":{\"ChildClicked\":\"row\"}}"
    );
    let loaded = Event { id: "page".into(), value: EventValue::PageLoaded };
    assert_eq!(
        serde_json::to_string(&wire(&loaded)).unwrap(),
        "{\"id\":\"page\",\"value\":\"PageLoaded\"}"
    );
}

#[test]
fn publishing_without_subscribers_is_a_no_op() {
    let broker: EventBroker<String> = EventBroker::new();
    assert_eq!(broker.send(7, &"nobody listens".to_string()), 0);
}

#[test]
fn an_event_reaches_only_the_subscribers_of_its_topic() {
    let heard: Rc<RefCell<Vec<String>>> = Rc::new(RefCell::new(Vec::new()));
    let mut broker: EventBroker<String> = EventBroker::new();
    let a = heard.clone();
    broker.subscribe(1, move |event: &String| a.borrow_mut().push(format!("a:{}", event)));

    assert_eq!(broker.send(2, &"other".to_string()), 0);
    assert!(heard.borrow().is_empty());

    assert_eq!(broker.send(1, &"mine".to_string()), 1);
    assert_eq!(*heard.borrow(), vec!["a:mine".to_string()]);
}

#[test]
fn subscribers_of_one_topic_are_called_in_order_of_subscription() {
    let heard: Rc<RefCell<Vec<String>>> = Rc::new(RefCell::new(Vec::new()));
    let mut broker: EventBroker<u32> = EventBroker::new();
    for name in ["first", "second", "third"] {
        let log = heard.clone();
        broker.subscribe(5, move |event: &u32| log.borrow_mut().push(format!("{}:{}", name, event)));
    }
    let log = heard.clone();
    broker.subscribe(6, move |event: &u32| log.borrow_mut().push(format!("six:{}", event)));
    assert_eq!(broker.listeners.len(), 4);

    assert_eq!(broker.send(5, &9), 3);
    assert_eq!(
        *heard.borrow(),
        vec!["first:9".to_string(), "second:9".to_string(), "third:9".to_string()]
    );
    assert_eq!(broker.send(6, &1), 1);
    assert_eq!(heard.borrow().last().unwrap(), "six:1");
    assert_eq!(broker.send(5, &2), 3);
    assert_eq!(heard.borrow().len(), 7);
}
