use chat_turn::history::{ConversationHistory, StructureError};
use chat_turn::message::{Message, Role, ToolCall, ToolCallFunction};

fn call(id: &str, name: &str) -> ToolCall {
    ToolCall {
        id: id.to_string(),
        kind: "function".to_string(),
        function: ToolCallFunction { name: name.to_string(), arguments: "{}".to_string() },
    }
}

fn result_for(id: &str) -> Message {
    Message::tool_result(&call(id, "tool"), format!("result of {}", id))
}

#[test]
fn messages_have_the_shape_of_their_role() {
    let user = Message::user("hi".to_string());
    assert_eq!(user.role, Role::User);
    assert_eq!(user.content.as_deref(), Some("hi"));
    assert!(user.tool_calls.is_none() && user.tool_call_id.is_none() && user.name.is_none());

    let system = Message::system("Error: x".to_string());
    assert_eq!(system.role, Role::System);
    assert_eq!(system.content.as_deref(), Some("Error: x"));

    let plain = Message::assistant(String::new(), Vec::new());
    assert_eq!(plain.role, Role::Assistant);
    assert_eq!(plain.content.as_deref(), Some(""));
    assert!(plain.tool_calls.is_none());

    let silent = Message::assistant(String::new(), vec![call("a", "read")]);
    assert!(silent.content.is_none());
    assert_eq!(silent.tool_calls.as_ref().unwrap().len(), 1);

    let both = Message::assistant("Let me look.".to_string(), vec![call("a", "read")]);
    assert_eq!(both.content.as_deref(), Some("Let me look."));
    assert_eq!(both.tool_calls.as_ref().unwrap()[0].id, "a");

    let tool = Message::tool_result(&call("a", "read"), "text".to_string());
    assert_eq!(tool.role, Role::Tool);
    assert_eq!(tool.content.as_deref(), Some("text"));
    assert_eq!(tool.tool_call_id.as_deref(), Some("a"));
    assert_eq!(tool.name.as_deref(), Some("read"));
    assert!(tool.tool_calls.is_none());
}

#[test]
fn clone_keeps_every_field() {
    let first = Message::assistant("t".to_string(), vec![call("a", "read"), call("b", "write")]);
    let copy = first.clone();
    assert_eq!(copy.role, first.role);
    assert_eq!(copy.content, first.content);
    let (left, right) = (copy.tool_calls.unwrap(), first.tool_calls.unwrap());
    assert_eq!(left.len(), 2);
    for (l, r) in left.iter().zip(right.iter()) {
        assert_eq!(l.id, r.id);
        assert_eq!(l.kind, r.kind);
        assert_eq!(l.function.name, r.function.name);
        assert_eq!(l.function.arguments, r.function.arguments);
    }
}

#[test]
fn tool_message_on_empty_history_is_refused() {
    let mut history = ConversationHistory::new();
    assert_eq!(history.append(result_for("a")), Err(StructureError::NoPendingCall));
    assert_eq!(history.len(), 0);
}

#[test]
fn tool_message_after_plain_assistant_is_refused() {
    let mut history = ConversationHistory::new();
    assert_eq!(history.append(Message::user("q".to_string())), Ok(()));
    assert_eq!(history.append(Message::assistant("a".to_string(), Vec::new())), Ok(()));
    assert_eq!(history.append(result_for("a")), Err(StructureError::NoPendingCall));
    assert_eq!(history.len(), 2);
}

#[test]
fn results_must_come_in_call_order() {
    let mut history = ConversationHistory::new();
    history.append(Message::user("q".to_string())).unwrap();
    history
        .append(Message::assistant(String::new(), vec![call("a", "x"), call("b", "y")]))
        .unwrap();
    assert_eq!(history.pending_results(), 2);
    assert_eq!(history.append(result_for("b")), Err(StructureError::CallMismatch));
    assert_eq!(history.append(result_for("zzz")), Err(StructureError::CallMismatch));
    assert_eq!(history.len(), 2);
    assert_eq!(history.append(result_for("a")), Ok(()));
    assert_eq!(history.pending_results(), 1);
    assert_eq!(history.append(result_for("a")), Err(StructureError::CallMismatch));
    assert_eq!(history.append(result_for("b")), Ok(()));
    assert_eq!(history.pending_results(), 0);
    assert_eq!(history.append(result_for("b")), Err(StructureError::NoPendingCall));
    assert_eq!(history.len(), 4);
    assert_eq!(history.get(2).unwrap().tool_call_id.as_deref(), Some("a"));
    assert_eq!(history.get(3).unwrap().tool_call_id.as_deref(), Some("b"));
}

#[test]
fn tool_message_without_an_id_is_a_mismatch() {
    let mut history = ConversationHistory::new();
    history.append(Message::assistant(String::new(), vec![call("a", "x")])).unwrap();
    let nameless = Message {
        role: Role::Tool,
        content: Some("x".to_string()),
        tool_calls: None,
        tool_call_id: None,
        name: None,
    };
    assert_eq!(history.append(nameless), Err(StructureError::CallMismatch));
}

#[test]
fn another_message_closes_the_round() {
    let mut history = ConversationHistory::new();
    history.append(Message::assistant(String::new(), vec![call("a", "x")])).unwrap();
    history.append(Message::user("never mind".to_string())).unwrap();
    assert_eq!(history.pending_results(), 0);
    assert_eq!(history.append(result_for("a")), Err(StructureError::NoPendingCall));
}

#[test]
fn equal_ids_are_answered_one_by_one() {
    let mut history = ConversationHistory::new();
    history.append(Message::assistant(String::new(), vec![call("", "x"), call("", "y")])).unwrap();
    assert_eq!(history.append(result_for("")), Ok(()));
    assert_eq!(history.append(result_for("")), Ok(()));
    assert_eq!(history.append(result_for("")), Err(StructureError::NoPendingCall));
}

#[test]
fn snapshot_is_a_copy() {
    let mut history = ConversationHistory::new();
    history.append(Message::user("one".to_string())).unwrap();
    let mut snapshot = history.snapshot();
    history.append(Message::user("two".to_string())).unwrap();
    assert_eq!(snapshot.len(), 1);
    snapshot[0].content = Some("changed".to_string());
    snapshot.clear();
    assert_eq!(history.len(), 2);
    assert_eq!(history.get(0).unwrap().content.as_deref(), Some("one"));
    assert_eq!(history.snapshot()[1].content.as_deref(), Some("two"));
}

#[test]
fn errors_say_what_went_wrong() {
    assert_eq!(
        StructureError::NoPendingCall.describe(),
        "tool message without a pending tool call"
    );
    assert_eq!(
        StructureError::CallMismatch.describe(),
        "tool message does not answer the next pending tool call"
    );
}

#[test]
fn get_reaches_only_what_is_there() {
    let mut history = ConversationHistory::new();
    assert!(history.get(0).is_none());
    history.append(Message::user("one".to_string())).unwrap();
    assert_eq!(history.get(0).unwrap().content.as_deref(), Some("one"));
    assert!(history.get(1).is_none());
}
