use br_llm_graph::run::inbox::{absorb_message, absorb_messages};
use br_llm_graph::{Key, Message};

fn key(name: &str) -> Key {
    Key::new(name).unwrap()
}

fn input(name: &str, text: &str) -> Message<String> {
    Message::Input {
        key: key(name),
        input: text.to_owned(),
    }
}

fn names(held: &[(Key, String)]) -> Vec<(String, String)> {
    held.iter()
        .map(|(k, text)| (k.as_str().to_owned(), text.clone()))
        .collect()
}

#[test]
fn given_messages_before_a_cancel_when_drained_then_taken_and_rest_kept() {
    let mut held = vec![(key("chat"), "earlier".to_owned())];
    let mut pause = false;
    let messages = vec![
        input("chat", "one"),
        Message::Pause,
        Message::Resume,
        input("notes", "two"),
        Message::Cancel,
        input("chat", "after"),
        Message::Cancel,
    ];
    let (cancelled, rest) = absorb_messages(messages, &mut held, &mut pause);
    assert!(cancelled);
    assert!(pause);
    assert_eq!(
        names(&held),
        vec![
            ("chat".to_owned(), "earlier".to_owned()),
            ("chat".to_owned(), "one".to_owned()),
            ("notes".to_owned(), "two".to_owned()),
        ]
    );
    assert_eq!(rest.len(), 2);
    assert!(matches!(&rest[0], Message::Input { input, .. } if input == "after"));
    assert!(matches!(rest[1], Message::Cancel));
}

#[test]
fn given_no_cancel_when_drained_then_all_taken_and_nothing_left() {
    let mut held = Vec::new();
    let mut pause = false;
    let messages = vec![input("chat", "one"), Message::Resume, input("chat", "two")];
    let (cancelled, rest) = absorb_messages(messages, &mut held, &mut pause);
    assert!(!cancelled);
    assert!(!pause);
    assert!(rest.is_empty());
    assert_eq!(
        names(&held),
        vec![
            ("chat".to_owned(), "one".to_owned()),
            ("chat".to_owned(), "two".to_owned()),
        ]
    );
}

#[test]
fn given_cancel_first_when_drained_then_nothing_taken() {
    let mut held: Vec<(Key, String)> = Vec::new();
    let mut pause = false;
    let messages = vec![Message::Cancel, Message::Pause, input("chat", "late")];
    let (cancelled, rest) = absorb_messages(messages, &mut held, &mut pause);
    assert!(cancelled);
    assert!(!pause);
    assert!(held.is_empty());
    assert_eq!(rest.len(), 2);
}

#[test]
fn given_each_message_when_absorbed_then_only_cancel_reports() {
    let mut held = Vec::new();
    let mut pause = false;
    assert!(!absorb_message(input("chat", "hi"), &mut held, &mut pause));
    assert!(!absorb_message(Message::Resume, &mut held, &mut pause));
    assert!(!pause);
    assert!(!absorb_message(Message::Pause, &mut held, &mut pause));
    assert!(pause);
    assert!(absorb_message(Message::Cancel, &mut held, &mut pause));
    assert_eq!(names(&held), vec![("chat".to_owned(), "hi".to_owned())]);
}
