use chat_turn::assembler::ToolCallAssembler;
use chat_turn::delta::{
    ChatCompletionChoice, ChatCompletionChunk, ChatCompletionDelta, Fragment, ToolCallChunk,
    ToolCallFragment, ToolCallFunctionChunk,
};

fn piece(
    index: i32,
    id: Option<&str>,
    kind: Option<&str>,
    name: Option<&str>,
    arguments: Option<&str>,
) -> ToolCallFragment {
    ToolCallFragment {
        index,
        id: id.map(|s| s.to_string()),
        kind: kind.map(|s| s.to_string()),
        name: name.map(|s| s.to_string()),
        arguments: arguments.map(|s| s.to_string()),
    }
}

fn summary(assembler: ToolCallAssembler) -> Vec<(String, String, String, String)> {
    assembler
        .finalize()
        .into_iter()
        .map(|c| (c.id, c.kind, c.function.name, c.function.arguments))
        .collect()
}

fn row(id: &str, kind: &str, name: &str, arguments: &str) -> (String, String, String, String) {
    (id.to_string(), kind.to_string(), name.to_string(), arguments.to_string())
}

#[test]
fn new_assembler_finalizes_to_nothing() {
    let assembler = ToolCallAssembler::new();
    assert_eq!(assembler.len(), 0);
    assert!(assembler.finalize().is_empty());
}

#[test]
fn first_piece_starts_from_blank_record() {
    let mut assembler = ToolCallAssembler::new();
    assembler.push(&piece(0, None, None, None, None));
    assert_eq!(summary(assembler), vec![row("", "function", "", "")]);
}

#[test]
fn id_and_kind_replace_name_and_arguments_append() {
    let mut assembler = ToolCallAssembler::new();
    assembler.push(&piece(0, Some("call_a"), Some("function"), Some("list_"), Some("{\"pa")));
    assembler.push(&piece(0, Some("call_b"), Some("custom"), Some("directory"), Some("th\":1}")));
    assert_eq!(
        summary(assembler),
        vec![row("call_b", "custom", "list_directory", "{\"path\":1}")]
    );
}

#[test]
fn empty_id_in_a_piece_still_replaces() {
    let mut assembler = ToolCallAssembler::new();
    assembler.push(&piece(0, Some("call_a"), None, None, None));
    assembler.push(&piece(0, Some(""), None, None, None));
    assert_eq!(summary(assembler), vec![row("", "function", "", "")]);
}

#[test]
fn calls_come_out_in_ascending_index_order() {
    let mut assembler = ToolCallAssembler::new();
    assembler.push(&piece(2, Some("c"), None, Some("third"), None));
    assembler.push(&piece(0, Some("a"), None, Some("first"), None));
    assembler.push(&piece(1, Some("b"), None, Some("second"), None));
    assembler.push(&piece(-4, Some("z"), None, Some("below"), None));
    assert_eq!(assembler.len(), 4);
    assert_eq!(
        summary(assembler),
        vec![
            row("z", "function", "below", ""),
            row("a", "function", "first", ""),
            row("b", "function", "second", ""),
            row("c", "function", "third", ""),
        ]
    );
}

#[test]
fn interleaving_does_not_change_the_result() {
    let zero = [
        piece(0, Some("a"), None, Some("re"), Some("{")),
        piece(0, None, None, Some("ad"), Some("}")),
    ];
    let one = [
        piece(1, Some("b"), None, Some("wr"), Some("[")),
        piece(1, None, None, Some("ite"), Some("]")),
    ];
    let expected = vec![row("a", "function", "read", "{}"), row("b", "function", "write", "[]")];

    let mut in_turn = ToolCallAssembler::new();
    in_turn.push(&zero[0]);
    in_turn.push(&zero[1]);
    in_turn.push(&one[0]);
    in_turn.push(&one[1]);
    assert_eq!(summary(in_turn), expected);

    let mut mixed = ToolCallAssembler::new();
    mixed.push(&one[0]);
    mixed.push(&zero[0]);
    mixed.push(&one[1]);
    mixed.push(&zero[1]);
    assert_eq!(mixed.len(), 2);
    assert_eq!(summary(mixed), expected);

    let mut reversed = ToolCallAssembler::new();
    reversed.push(&one[0]);
    reversed.push(&one[1]);
    reversed.push(&zero[0]);
    reversed.push(&zero[1]);
    assert_eq!(summary(reversed), expected);
}

#[test]
fn splitting_a_piece_gives_the_same_text() {
    let mut whole = ToolCallAssembler::new();
    whole.push(&piece(3, Some("id"), None, Some("list_directory"), Some("{\"path\":\"/tmp\"}")));

    let mut split = ToolCallAssembler::new();
    split.push(&piece(3, Some("id"), None, Some("list_"), Some("{\"pa")));
    split.push(&piece(3, None, None, Some("dir"), Some("th\":")));
    split.push(&piece(3, None, None, Some("ectory"), Some("\"/tmp\"}")));

    assert_eq!(summary(whole), summary(split));
}

#[test]
fn blank_piece_for_a_seen_index_changes_nothing() {
    let mut assembler = ToolCallAssembler::new();
    assembler.push(&piece(0, Some("a"), None, Some("read"), Some("{}")));
    assembler.push(&piece(0, None, None, None, None));
    assert_eq!(assembler.len(), 1);
    assert_eq!(summary(assembler), vec![row("a", "function", "read", "{}")]);
}

#[test]
fn payload_without_choices_has_no_fragments() {
    let chunk = ChatCompletionChunk { choices: Vec::new() };
    assert!(chunk.fragments().is_empty());
}

#[test]
fn empty_delta_has_no_fragments() {
    let chunk = ChatCompletionChunk {
        choices: vec![ChatCompletionChoice {
            delta: ChatCompletionDelta { content: Some(String::new()), tool_calls: Some(Vec::new()) },
        }],
    };
    assert!(chunk.fragments().is_empty());
    let chunk = ChatCompletionChunk {
        choices: vec![ChatCompletionChoice {
            delta: ChatCompletionDelta { content: None, tool_calls: None },
        }],
    };
    assert!(chunk.fragments().is_empty());
}

#[test]
fn fragments_keep_the_order_of_the_payload() {
    let chunk = ChatCompletionChunk {
        choices: vec![
            ChatCompletionChoice {
                delta: ChatCompletionDelta {
                    content: Some("Hello".to_string()),
                    tool_calls: Some(vec![
                        ToolCallChunk {
                            index: 1,
                            id: Some("b".to_string()),
                            kind: Some("function".to_string()),
                            function: Some(ToolCallFunctionChunk {
                                name: Some("second".to_string()),
                                arguments: None,
                            }),
                        },
                        ToolCallChunk { index: 0, id: None, kind: None, function: None },
                    ]),
                },
            },
            ChatCompletionChoice {
                delta: ChatCompletionDelta { content: Some("ignored".to_string()), tool_calls: None },
            },
        ],
    };
    let fragments = chunk.fragments();
    assert_eq!(fragments.len(), 3);
    match &fragments[0] {
        Fragment::Content(text) => assert_eq!(text, "Hello"),
        other => panic!("unexpected fragment {:?}", other),
    }
    match &fragments[1] {
        Fragment::ToolCall(p) => {
            assert_eq!(p.index, 1);
            assert_eq!(p.id.as_deref(), Some("b"));
            assert_eq!(p.kind.as_deref(), Some("function"));
            assert_eq!(p.name.as_deref(), Some("second"));
            assert_eq!(p.arguments, None);
        }
        other => panic!("unexpected fragment {:?}", other),
    }
    match &fragments[2] {
        Fragment::ToolCall(p) => {
            assert_eq!(p.index, 0);
            assert_eq!(p.id, None);
            assert_eq!(p.kind, None);
            assert_eq!(p.name, None);
            assert_eq!(p.arguments, None);
        }
        other => panic!("unexpected fragment {:?}", other),
    }
}
