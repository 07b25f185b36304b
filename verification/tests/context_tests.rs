use std::collections::HashMap;

use lambda_runtime_core::Context;
use lambda_runtime_core::LexBot;
use lambda_runtime_core::LexCurrentIntent;
use lambda_runtime_core::LexDialogAction;
use lambda_runtime_core::LexEvent;
use lambda_runtime_core::ScopeStack;

#[test]
fn context_holds_its_fields() {
    let c = Context::new(5000, 77);
    assert_eq!(c.deadline, 5000);
    assert_eq!(c.trace_id, 77);
}

#[test]
fn scopes_nest_and_restore() {
    let mut scopes = ScopeStack::new();
    assert!(scopes.current().is_none());

    let outer = Context::new(100, 1);
    let inner = Context::new(200, 2);

    scopes.enter(outer);
    assert_eq!(scopes.current(), Some(outer));

    // An interleaved invocation installs its own scope; while it runs, only
    // its own ambient data is visible.
    scopes.enter(inner);
    assert_eq!(scopes.current(), Some(inner));

    // Exiting restores exactly the previously visible scope.
    assert_eq!(scopes.exit(), Some(inner));
    assert_eq!(scopes.current(), Some(outer));
    assert_eq!(scopes.exit(), Some(outer));
    assert!(scopes.current().is_none());
    assert!(scopes.exit().is_none());
}

#[test]
fn lex_event_holds_its_fields() {
    let mut attributes: HashMap<String, String> = HashMap::new();
    attributes.insert(String::from("channel"), String::from("text"));

    let mut slots: HashMap<String, String> = HashMap::new();
    slots.insert(String::from("city"), String::from("Ulm"));

    let event = LexEvent {
        message_version: Some(String::from("1.0")),
        invocation_source: Some(String::from("FulfillmentCodeHook")),
        user_id: Some(String::from("user-1")),
        input_transcript: Some(String::from("book a room")),
        session_attributes: Some(attributes),
        request_attributes: None,
        bot: Some(LexBot {
            name: Some(String::from("concierge")),
            alias: Some(String::from("prod")),
            version: Some(String::from("3")),
        }),
        output_dialog_mode: Some(String::from("Text")),
        current_intent: Some(LexCurrentIntent {
            name: Some(String::from("BookRoom")),
            slots: Some(slots),
            slot_details: None,
            confirmation_status: Some(String::from("None")),
        }),
        dialog_action: None::<LexDialogAction>,
    };

    assert_eq!(event.message_version.as_deref(), Some("1.0"));
    assert_eq!(event.bot.as_ref().unwrap().name.as_deref(), Some("concierge"));
    let intent = event.current_intent.as_ref().unwrap();
    assert_eq!(intent.slots.as_ref().unwrap().get("city").map(|s| s.as_str()), Some("Ulm"));
    assert_eq!(
        event.session_attributes.as_ref().unwrap().get("channel").map(|s| s.as_str()),
        Some("text"),
    );
}
