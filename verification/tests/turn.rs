use chat_turn::delta::{
    ChatCompletionChoice, ChatCompletionChunk, ChatCompletionDelta, Fragment, ToolCallChunk,
    ToolCallFragment, ToolCallFunctionChunk,
};
use chat_turn::gateway::{ExecutionError, JsonKind};
use chat_turn::history::ConversationHistory;
use chat_turn::message::Role;
use chat_turn::orchestrator::{TurnAction, TurnError, TurnEvent, TurnOrchestrator, TurnState};
use chat_turn::ui::UiUpdate;

fn content_chunk(text: &str) -> ChatCompletionChunk {
    ChatCompletionChunk {
        choices: vec![ChatCompletionChoice {
            delta: ChatCompletionDelta { content: Some(text.to_string()), tool_calls: None },
        }],
    }
}

fn call_chunk(
    content: Option<&str>,
    index: i32,
    id: Option<&str>,
    name: Option<&str>,
    arguments: Option<&str>,
) -> ChatCompletionChunk {
    ChatCompletionChunk {
        choices: vec![ChatCompletionChoice {
            delta: ChatCompletionDelta {
                content: content.map(|c| c.to_string()),
                tool_calls: Some(vec![ToolCallChunk {
                    index,
                    id: id.map(|s| s.to_string()),
                    kind: None,
                    function: Some(ToolCallFunctionChunk {
                        name: name.map(|s| s.to_string()),
                        arguments: arguments.map(|s| s.to_string()),
                    }),
                }]),
            },
        }],
    }
}

#[test]
fn scenario_list_files_turn() {
    let (mut turn, first) = TurnOrchestrator::begin_turn(
        ConversationHistory::new(),
        Vec::new(),
        true,
        None,
        "list files in /tmp".to_string(),
    );
    assert!(first.updates.is_empty());
    match first.action {
        TurnAction::RequestCompletion(request) => {
            assert_eq!(request.model, "gpt-3.5-turbo");
            assert!(request.stream);
            assert!(request.tools.is_none());
            assert_eq!(request.messages.len(), 1);
            assert_eq!(request.messages[0].role, Role::User);
            assert_eq!(request.messages[0].content.as_deref(), Some("list files in /tmp"));
        }
        other => panic!("unexpected action {:?}", other),
    }
    assert_eq!(turn.state(), TurnState::AwaitingResponse);

    let opened = turn.handle(TurnEvent::ResponseOpened).unwrap();
    assert!(matches!(opened.action, TurnAction::ReadStream));
    assert_eq!(opened.updates.len(), 1);

    let step = turn
        .handle(TurnEvent::Payload(Some(call_chunk(
            Some(""),
            0,
            Some("call_1"),
            Some("list_directory"),
            Some("{\"path\":\"/tmp\"}"),
        ))))
        .unwrap();
    assert!(matches!(step.action, TurnAction::ReadStream));
    assert!(step.updates.is_empty());

    let step = turn.handle(TurnEvent::StreamEnd).unwrap();
    assert_eq!(turn.state(), TurnState::ExecutingTools);
    match &step.action {
        TurnAction::ExecuteTool { name, arguments } => {
            assert_eq!(name, "list_directory");
            assert_eq!(arguments.json(), "{\"path\":\"/tmp\"}");
            assert_eq!(arguments.kind(), JsonKind::Object);
        }
        other => panic!("unexpected action {:?}", other),
    }
    assert_eq!(step.updates.len(), 1);
    match &step.updates[0] {
        UiUpdate::Status(Some(status)) => assert_eq!(status, "Executing list_directory..."),
        other => panic!("unexpected update {:?}", other),
    }

    let step = turn.handle(TurnEvent::ToolFinished(Ok("a.txt\nb.txt".to_string()))).unwrap();
    assert_eq!(turn.state(), TurnState::AwaitingResponse);
    match &step.action {
        TurnAction::RequestCompletion(request) => {
            assert_eq!(request.messages.len(), 3);
            assert_eq!(request.messages[1].role, Role::Assistant);
            assert!(request.messages[1].content.is_none());
            let calls = request.messages[1].tool_calls.as_ref().unwrap();
            assert_eq!(calls.len(), 1);
            assert_eq!(calls[0].id, "call_1");
            assert_eq!(calls[0].kind, "function");
            assert_eq!(calls[0].function.name, "list_directory");
            assert_eq!(calls[0].function.arguments, "{\"path\":\"/tmp\"}");
            assert_eq!(request.messages[2].role, Role::Tool);
            assert_eq!(request.messages[2].tool_call_id.as_deref(), Some("call_1"));
            assert_eq!(request.messages[2].name.as_deref(), Some("list_directory"));
            assert_eq!(request.messages[2].content.as_deref(), Some("a.txt\nb.txt"));
        }
        other => panic!("unexpected action {:?}", other),
    }
    assert_eq!(step.updates.len(), 2);
    match &step.updates[0] {
        UiUpdate::Append(entry) => {
            assert_eq!(entry.role, Role::Tool);
            assert_eq!(entry.content, "output: a.txt\nb.txt");
        }
        other => panic!("unexpected update {:?}", other),
    }
    match &step.updates[1] {
        UiUpdate::Status(Some(status)) => assert_eq!(status, "Thinking..."),
        other => panic!("unexpected update {:?}", other),
    }

    turn.handle(TurnEvent::ResponseOpened).unwrap();
    let step = turn.handle(TurnEvent::Payload(Some(content_chunk("There are two files.")))).unwrap();
    assert_eq!(step.updates.len(), 1);
    match &step.updates[0] {
        UiUpdate::ExtendLast(text) => assert_eq!(text, "There are two files."),
        other => panic!("unexpected update {:?}", other),
    }
    let step = turn.handle(TurnEvent::StreamEnd).unwrap();
    assert!(matches!(step.action, TurnAction::Finish));
    assert_eq!(turn.state(), TurnState::Done);
    assert_eq!(step.updates.len(), 1);
    assert!(matches!(step.updates[0], UiUpdate::Status(None)));

    let history = turn.into_history();
    let messages = history.snapshot();
    assert_eq!(messages.len(), 4);
    assert_eq!(messages[0].role, Role::User);
    assert_eq!(messages[1].role, Role::Assistant);
    assert_eq!(messages[1].tool_calls.as_ref().unwrap()[0].id, "call_1");
    assert_eq!(messages[2].role, Role::Tool);
    assert_eq!(messages[2].tool_call_id.as_deref(), Some("call_1"));
    assert_eq!(messages[3].role, Role::Assistant);
    assert_eq!(messages[3].content.as_deref(), Some("There are two files."));
    assert!(messages[3].tool_calls.is_none());
    assert_eq!(history.pending_results(), 0);
}

#[test]
fn scenario_tool_failure_is_the_tool_output() {
    let (mut turn, _) = TurnOrchestrator::begin_turn(
        ConversationHistory::new(),
        Vec::new(),
        true,
        None,
        "read it".to_string(),
    );
    turn.handle(TurnEvent::ResponseOpened).unwrap();
    turn.handle(TurnEvent::Payload(Some(call_chunk(
        None,
        0,
        Some("call_9"),
        Some("read_file"),
        Some("{\"path\":\"/root/x\"}"),
    ))))
    .unwrap();
    let step = turn.handle(TurnEvent::StreamEnd).unwrap();
    assert!(matches!(step.action, TurnAction::ExecuteTool { .. }));
    let step = turn
        .handle(TurnEvent::ToolFinished(Err(ExecutionError {
            message: "permission denied".to_string(),
        })))
        .unwrap();
    assert_eq!(turn.state(), TurnState::AwaitingResponse);
    assert!(matches!(step.action, TurnAction::RequestCompletion(_)));
    let messages = turn.history().snapshot();
    assert_eq!(messages.len(), 3);
    assert_eq!(messages[2].role, Role::Tool);
    assert_eq!(messages[2].content.as_deref(), Some("permission denied"));
    assert_eq!(messages[2].tool_call_id.as_deref(), Some("call_9"));
}

#[test]
fn events_out_of_place_are_refused() {
    let (mut turn, _) = TurnOrchestrator::begin_turn(
        ConversationHistory::new(),
        Vec::new(),
        true,
        None,
        "hi".to_string(),
    );
    assert_eq!(
        turn.handle(TurnEvent::ToolFinished(Ok("x".to_string()))).err(),
        Some(TurnError::UnexpectedEvent)
    );
    assert_eq!(turn.history().len(), 1);
    turn.handle(TurnEvent::StreamEnd).unwrap();
    assert_eq!(turn.state(), TurnState::Done);
    assert_eq!(turn.handle(TurnEvent::StreamEnd).err(), Some(TurnError::UnexpectedEvent));
    assert_eq!(turn.handle(TurnEvent::ResponseOpened).err(), Some(TurnError::UnexpectedEvent));
    let messages = turn.history().snapshot();
    assert_eq!(messages.len(), 2);
    assert_eq!(messages[1].content.as_deref(), Some(""));
}

fn two_calls_chunk() -> ChatCompletionChunk {
    ChatCompletionChunk {
        choices: vec![ChatCompletionChoice {
            delta: ChatCompletionDelta {
                content: None,
                tool_calls: Some(vec![
                    ToolCallChunk {
                        index: 1,
                        id: Some("call_b".to_string()),
                        kind: Some("function".to_string()),
                        function: Some(ToolCallFunctionChunk {
                            name: Some("second".to_string()),
                            arguments: Some("[1]".to_string()),
                        }),
                    },
                    ToolCallChunk {
                        index: 0,
                        id: Some("call_a".to_string()),
                        kind: None,
                        function: Some(ToolCallFunctionChunk {
                            name: Some("first".to_string()),
                            arguments: Some("{not json".to_string()),
                        }),
                    },
                ]),
            },
        }],
    }
}

fn statuses(updates: &[UiUpdate]) -> Vec<Option<String>> {
    updates
        .iter()
        .filter_map(|u| match u {
            UiUpdate::Status(s) => Some(s.clone()),
            _ => None,
        })
        .collect()
}

#[test]
fn calls_are_executed_in_index_order() {
    let (mut turn, _) = TurnOrchestrator::begin_turn(
        ConversationHistory::new(),
        Vec::new(),
        true,
        None,
        "do both".to_string(),
    );
    turn.handle(TurnEvent::ResponseOpened).unwrap();
    turn.handle(TurnEvent::Payload(Some(content_chunk("On ")))).unwrap();
    turn.handle(TurnEvent::Payload(Some(two_calls_chunk()))).unwrap();
    turn.handle(TurnEvent::Payload(Some(content_chunk("it.")))).unwrap();
    let step = turn.handle(TurnEvent::StreamEnd).unwrap();
    match &step.action {
        TurnAction::ExecuteTool { name, arguments } => {
            assert_eq!(name, "first");
            assert_eq!(arguments.json(), "null");
            assert_eq!(arguments.kind(), JsonKind::Null);
        }
        other => panic!("unexpected action {:?}", other),
    }
    assert_eq!(statuses(&step.updates), vec![Some("Executing first...".to_string())]);
    assert_eq!(turn.history().pending_results(), 2);
    assert_eq!(
        turn.handle(TurnEvent::StreamEnd).err(),
        Some(TurnError::UnexpectedEvent)
    );

    let step = turn.handle(TurnEvent::ToolFinished(Ok("one".to_string()))).unwrap();
    match &step.action {
        TurnAction::ExecuteTool { name, arguments } => {
            assert_eq!(name, "second");
            assert_eq!(arguments.json(), "[1]");
            assert_eq!(arguments.kind(), JsonKind::Array);
        }
        other => panic!("unexpected action {:?}", other),
    }
    assert_eq!(statuses(&step.updates), vec![Some("Executing second...".to_string())]);
    assert_eq!(turn.state(), TurnState::ExecutingTools);
    assert_eq!(turn.history().pending_results(), 1);

    let step = turn.handle(TurnEvent::ToolFinished(Ok("two".to_string()))).unwrap();
    assert!(matches!(step.action, TurnAction::RequestCompletion(_)));
    assert_eq!(statuses(&step.updates), vec![Some("Thinking...".to_string())]);
    assert_eq!(turn.history().pending_results(), 0);

    let messages = turn.history().snapshot();
    assert_eq!(messages.len(), 4);
    assert_eq!(messages[1].content.as_deref(), Some("On it."));
    let calls = messages[1].tool_calls.as_ref().unwrap();
    assert_eq!(calls.len(), 2);
    assert_eq!((calls[0].id.as_str(), calls[0].function.name.as_str()), ("call_a", "first"));
    assert_eq!((calls[1].id.as_str(), calls[1].function.name.as_str()), ("call_b", "second"));
    assert_eq!(calls[0].kind, "function");
    assert_eq!(messages[2].tool_call_id.as_deref(), Some("call_a"));
    assert_eq!(messages[2].name.as_deref(), Some("first"));
    assert_eq!(messages[2].content.as_deref(), Some("one"));
    assert_eq!(messages[3].tool_call_id.as_deref(), Some("call_b"));
    assert_eq!(messages[3].name.as_deref(), Some("second"));
    assert_eq!(messages[3].content.as_deref(), Some("two"));
}

#[test]
fn without_a_tool_service_every_call_says_so() {
    let (mut turn, _) = TurnOrchestrator::begin_turn(
        ConversationHistory::new(),
        Vec::new(),
        false,
        None,
        "do both".to_string(),
    );
    turn.handle(TurnEvent::Payload(Some(two_calls_chunk()))).unwrap();
    let step = turn.handle(TurnEvent::StreamEnd).unwrap();
    assert_eq!(turn.state(), TurnState::AwaitingResponse);
    match &step.action {
        TurnAction::RequestCompletion(request) => assert_eq!(request.messages.len(), 4),
        other => panic!("unexpected action {:?}", other),
    }
    assert_eq!(step.updates.len(), 5);
    assert_eq!(
        statuses(&step.updates),
        vec![
            Some("Executing first...".to_string()),
            Some("Executing second...".to_string()),
            Some("Thinking...".to_string()),
        ]
    );
    match &step.updates[1] {
        UiUpdate::Append(entry) => {
            assert_eq!(entry.role, Role::Tool);
            assert_eq!(entry.content, "output: MCP Server not available");
        }
        other => panic!("unexpected update {:?}", other),
    }
    let messages = turn.history().snapshot();
    assert_eq!(messages[2].content.as_deref(), Some("MCP Server not available"));
    assert_eq!(messages[2].tool_call_id.as_deref(), Some("call_a"));
    assert_eq!(messages[3].content.as_deref(), Some("MCP Server not available"));
    assert_eq!(messages[3].tool_call_id.as_deref(), Some("call_b"));
}

#[test]
fn transport_failure_ends_the_turn() {
    let (mut turn, _) = TurnOrchestrator::begin_turn(
        ConversationHistory::new(),
        Vec::new(),
        true,
        None,
        "hi".to_string(),
    );
    turn.handle(TurnEvent::ResponseOpened).unwrap();
    turn.handle(TurnEvent::Payload(Some(content_chunk("par")))).unwrap();
    let step = turn.handle(TurnEvent::TransportFailed("connection reset".to_string())).unwrap();
    assert!(matches!(step.action, TurnAction::Finish));
    assert_eq!(turn.state(), TurnState::Failed);
    assert_eq!(step.updates.len(), 2);
    match &step.updates[0] {
        UiUpdate::Append(entry) => {
            assert_eq!(entry.role, Role::System);
            assert_eq!(entry.content, "Error: connection reset");
        }
        other => panic!("unexpected update {:?}", other),
    }
    assert!(matches!(step.updates[1], UiUpdate::Status(None)));
    let messages = turn.history().snapshot();
    assert_eq!(messages.len(), 2);
    assert_eq!(messages[1].role, Role::System);
    assert_eq!(messages[1].content.as_deref(), Some("Error: connection reset"));
    assert_eq!(
        turn.handle(TurnEvent::Payload(None)).err(),
        Some(TurnError::UnexpectedEvent)
    );
}

#[test]
fn payloads_without_data_change_nothing() {
    let (mut turn, _) = TurnOrchestrator::begin_turn(
        ConversationHistory::new(),
        Vec::new(),
        true,
        None,
        "hi".to_string(),
    );
    turn.handle(TurnEvent::Payload(Some(content_chunk("A")))).unwrap();
    let empties = vec![
        TurnEvent::Payload(None),
        TurnEvent::Payload(Some(ChatCompletionChunk { choices: Vec::new() })),
        TurnEvent::Payload(Some(content_chunk(""))),
        TurnEvent::Payload(Some(ChatCompletionChunk {
            choices: vec![ChatCompletionChoice {
                delta: ChatCompletionDelta { content: None, tool_calls: Some(Vec::new()) },
            }],
        })),
    ];
    for event in empties {
        let step = turn.handle(event).unwrap();
        assert!(step.updates.is_empty());
        assert!(matches!(step.action, TurnAction::ReadStream));
        assert_eq!(turn.state(), TurnState::AwaitingResponse);
        assert_eq!(turn.history().len(), 1);
    }
    turn.handle(TurnEvent::Payload(Some(content_chunk("B")))).unwrap();
    turn.handle(TurnEvent::StreamEnd).unwrap();
    let messages = turn.history().snapshot();
    assert_eq!(messages[1].content.as_deref(), Some("AB"));
    assert!(messages[1].tool_calls.is_none());
}

#[test]
fn content_is_the_concatenation_of_the_fragments() {
    let (mut turn, _) = TurnOrchestrator::begin_turn(
        ConversationHistory::new(),
        Vec::new(),
        true,
        None,
        "hi".to_string(),
    );
    let mut shown = String::new();
    for text in ["There ", "are", "", " two", " files."] {
        let step = turn.handle(TurnEvent::Payload(Some(content_chunk(text)))).unwrap();
        for update in step.updates {
            match update {
                UiUpdate::ExtendLast(t) => shown.push_str(&t),
                other => panic!("unexpected update {:?}", other),
            }
        }
    }
    turn.handle(TurnEvent::StreamEnd).unwrap();
    assert_eq!(shown, "There are two files.");
    assert_eq!(turn.history().get(1).unwrap().content.as_deref(), Some("There are two files."));
}

#[test]
fn round_limit_stops_a_turn_that_keeps_asking() {
    let (mut turn, _) = TurnOrchestrator::begin_turn(
        ConversationHistory::new(),
        Vec::new(),
        true,
        Some(2),
        "loop".to_string(),
    );
    turn.handle(TurnEvent::Payload(Some(call_chunk(None, 0, Some("a"), Some("t"), Some("{}")))))
        .unwrap();
    turn.handle(TurnEvent::StreamEnd).unwrap();
    let step = turn.handle(TurnEvent::ToolFinished(Ok("1".to_string()))).unwrap();
    assert!(matches!(step.action, TurnAction::RequestCompletion(_)));
    turn.handle(TurnEvent::Payload(Some(call_chunk(None, 0, Some("b"), Some("t"), Some("{}")))))
        .unwrap();
    turn.handle(TurnEvent::StreamEnd).unwrap();
    let step = turn.handle(TurnEvent::ToolFinished(Ok("2".to_string()))).unwrap();
    assert!(matches!(step.action, TurnAction::Finish));
    assert_eq!(turn.state(), TurnState::Failed);
    match &step.updates[1] {
        UiUpdate::Append(entry) => {
            assert_eq!(entry.role, Role::System);
            assert_eq!(entry.content, "Error: tool round limit reached");
        }
        other => panic!("unexpected update {:?}", other),
    }
    let messages = turn.into_history().snapshot();
    assert_eq!(messages.len(), 6);
    assert_eq!(messages[4].tool_call_id.as_deref(), Some("b"));
    assert_eq!(messages[5].role, Role::System);
    assert_eq!(messages[5].content.as_deref(), Some("Error: tool round limit reached"));
}

#[test]
fn a_second_turn_goes_on_with_the_history_of_the_first() {
    let (mut turn, _) = TurnOrchestrator::begin_turn(
        ConversationHistory::new(),
        Vec::new(),
        true,
        None,
        "one".to_string(),
    );
    turn.handle(TurnEvent::Payload(Some(content_chunk("first answer")))).unwrap();
    turn.handle(TurnEvent::StreamEnd).unwrap();
    let (next, step) =
        TurnOrchestrator::begin_turn(turn.into_history(), Vec::new(), true, None, "two".to_string());
    match step.action {
        TurnAction::RequestCompletion(request) => {
            let roles: Vec<Role> = request.messages.iter().map(|m| m.role).collect();
            assert_eq!(roles, vec![Role::User, Role::Assistant, Role::User]);
            assert_eq!(request.messages[2].content.as_deref(), Some("two"));
        }
        other => panic!("unexpected action {:?}", other),
    }
    assert_eq!(next.state(), TurnState::AwaitingResponse);
}

#[test]
fn every_call_is_answered_before_the_next_assistant_message() {
    let (mut turn, _) = TurnOrchestrator::begin_turn(
        ConversationHistory::new(),
        Vec::new(),
        true,
        None,
        "go".to_string(),
    );
    turn.handle(TurnEvent::Payload(Some(two_calls_chunk()))).unwrap();
    turn.handle(TurnEvent::StreamEnd).unwrap();
    turn.handle(TurnEvent::ToolFinished(Ok("1".to_string()))).unwrap();
    turn.handle(TurnEvent::ToolFinished(Err(ExecutionError { message: "2".to_string() }))).unwrap();
    turn.handle(TurnEvent::Payload(Some(call_chunk(None, 5, Some("call_c"), Some("third"), None))))
        .unwrap();
    turn.handle(TurnEvent::StreamEnd).unwrap();
    turn.handle(TurnEvent::ToolFinished(Ok("3".to_string()))).unwrap();
    turn.handle(TurnEvent::Payload(Some(content_chunk("done")))).unwrap();
    turn.handle(TurnEvent::StreamEnd).unwrap();
    assert_eq!(turn.state(), TurnState::Done);

    let messages = turn.into_history().snapshot();
    let mut at = 0;
    let mut rounds = 0;
    while at < messages.len() {
        let message = &messages[at];
        at += 1;
        if message.role != Role::Assistant {
            continue;
        }
        if let Some(calls) = &message.tool_calls {
            rounds += 1;
            for call in calls {
                assert_eq!(messages[at].role, Role::Tool);
                assert_eq!(messages[at].tool_call_id.as_deref(), Some(call.id.as_str()));
                at += 1;
            }
            assert_ne!(messages[at].role, Role::Tool);
        }
    }
    assert_eq!(rounds, 2);
    assert_eq!(messages.len(), 7);
}

#[test]
fn fragments_after_the_end_of_the_response_are_dropped() {
    let (mut turn, _) = TurnOrchestrator::begin_turn(
        ConversationHistory::new(),
        Vec::new(),
        true,
        None,
        "hi".to_string(),
    );
    let step = turn
        .handle(TurnEvent::Fragments(vec![
            Fragment::Content("Look".to_string()),
            Fragment::ToolCall(ToolCallFragment {
                index: 0,
                id: Some("c".to_string()),
                kind: None,
                name: Some("peek".to_string()),
                arguments: Some("{}".to_string()),
            }),
            Fragment::Content("ing.".to_string()),
            Fragment::StreamEnd,
            Fragment::Content(" late".to_string()),
            Fragment::StreamEnd,
        ]))
        .unwrap();
    assert_eq!(turn.state(), TurnState::ExecutingTools);
    assert!(matches!(step.action, TurnAction::ExecuteTool { .. }));
    assert_eq!(step.updates.len(), 3);
    let messages = turn.history().snapshot();
    assert_eq!(messages.len(), 2);
    assert_eq!(messages[1].content.as_deref(), Some("Looking."));
    assert_eq!(messages[1].tool_calls.as_ref().unwrap()[0].function.name, "peek");
}

#[test]
fn fragments_without_an_end_keep_the_stream_open() {
    let (mut turn, _) = TurnOrchestrator::begin_turn(
        ConversationHistory::new(),
        Vec::new(),
        true,
        None,
        "hi".to_string(),
    );
    let step = turn
        .handle(TurnEvent::Fragments(vec![
            Fragment::Content("a".to_string()),
            Fragment::Content("b".to_string()),
        ]))
        .unwrap();
    assert!(matches!(step.action, TurnAction::ReadStream));
    assert_eq!(step.updates.len(), 2);
    let step = turn.handle(TurnEvent::Fragments(Vec::new())).unwrap();
    assert!(matches!(step.action, TurnAction::ReadStream));
    assert!(step.updates.is_empty());
    let step = turn.handle(TurnEvent::Fragments(vec![Fragment::StreamEnd])).unwrap();
    assert!(matches!(step.action, TurnAction::Finish));
    assert_eq!(turn.state(), TurnState::Done);
    assert_eq!(turn.history().get(1).unwrap().content.as_deref(), Some("ab"));
}
