use chat_turn::delta::{
    ChatCompletionChoice, ChatCompletionChunk, ChatCompletionDelta, ToolCallChunk,
    ToolCallFunctionChunk,
};
use chat_turn::history::ConversationHistory;
use chat_turn::orchestrator::{TurnAction, TurnEvent, TurnOrchestrator, TurnState};
use chat_turn::parser::{Frame, StreamingDeltaParser};

fn payloads(frames: &[Frame]) -> Vec<String> {
    frames
        .iter()
        .map(|f| match f {
            Frame::Payload(bytes) => String::from_utf8_lossy(bytes).into_owned(),
            Frame::End => "<end>".to_string(),
        })
        .collect()
}

fn text_field(value: &serde_json::Value, key: &str) -> Result<Option<String>, ()> {
    match value.get(key) {
        None | Some(serde_json::Value::Null) => Ok(None),
        Some(serde_json::Value::String(s)) => Ok(Some(s.clone())),
        Some(_) => Err(()),
    }
}

fn decode_call(value: &serde_json::Value) -> Result<ToolCallChunk, ()> {
    let index = value.get("index").and_then(|i| i.as_i64()).ok_or(())?;
    let function = match value.get("function") {
        None | Some(serde_json::Value::Null) => None,
        Some(f) if f.is_object() => Some(ToolCallFunctionChunk {
            name: text_field(f, "name")?,
            arguments: text_field(f, "arguments")?,
        }),
        Some(_) => return Err(()),
    };
    Ok(ToolCallChunk {
        index: i32::try_from(index).map_err(|_| ())?,
        id: text_field(value, "id")?,
        kind: text_field(value, "type")?,
        function,
    })
}

fn decode(payload: &[u8]) -> Option<ChatCompletionChunk> {
    let text = String::from_utf8_lossy(payload);
    let value: serde_json::Value = serde_json::from_str(&text).ok()?;
    let mut choices = Vec::new();
    for choice in value.get("choices")?.as_array()? {
        let delta = choice.get("delta")?;
        let tool_calls = match delta.get("tool_calls") {
            None | Some(serde_json::Value::Null) => None,
            Some(list) => {
                let mut calls = Vec::new();
                for call in list.as_array()? {
                    calls.push(decode_call(call).ok()?);
                }
                Some(calls)
            }
        };
        choices.push(ChatCompletionChoice {
            delta: ChatCompletionDelta { content: text_field(delta, "content").ok()?, tool_calls },
        });
    }
    Some(ChatCompletionChunk { choices })
}

#[test]
fn one_chunk_with_many_lines() {
    let mut parser = StreamingDeltaParser::new();
    let frames = parser.push_chunk(b"data: {\"a\":1}\n\ndata: {\"b\":2}\n");
    assert_eq!(payloads(&frames), vec!["{\"a\":1}", "{\"b\":2}"]);
    assert!(!parser.ended());
}

#[test]
fn a_line_split_across_chunks_is_joined() {
    let mut parser = StreamingDeltaParser::new();
    assert!(parser.push_chunk(b"da").is_empty());
    assert!(parser.push_chunk(b"ta: {\"con").is_empty());
    let frames = parser.push_chunk(b"tent\":\"x\"}\ndata: par");
    assert_eq!(payloads(&frames), vec!["{\"content\":\"x\"}"]);
    let frames = parser.push_chunk(b"tial\n");
    assert_eq!(payloads(&frames), vec!["partial"]);
}

#[test]
fn chunking_does_not_change_the_frames() {
    let stream: &[u8] =
        b": comment\r\ndata: one\r\nevent: x\ndata:two\ndata: three\n\ndata: [DONE]\ndata: late\n";
    let mut whole = StreamingDeltaParser::new();
    let expected = payloads(&whole.push_chunk(stream));
    assert_eq!(expected, vec!["one", "three", "<end>"]);
    for cut in 0..=stream.len() {
        let mut parser = StreamingDeltaParser::new();
        let mut got = payloads(&parser.push_chunk(&stream[..cut]));
        got.extend(payloads(&parser.push_chunk(&stream[cut..])));
        assert_eq!(got, expected, "cut at {}", cut);
        assert!(parser.ended());
    }
    let mut bytewise = StreamingDeltaParser::new();
    let mut got = Vec::new();
    for byte in stream {
        got.extend(payloads(&bytewise.push_chunk(&[*byte])));
    }
    assert_eq!(got, expected);
}

#[test]
fn only_the_exact_prefix_marks_a_payload() {
    let mut parser = StreamingDeltaParser::new();
    let frames = parser.push_chunk(b"data:x\nDATA: x\n data: x\ndata: \ndata\nid: 7\n");
    assert_eq!(payloads(&frames), vec![""]);
}

#[test]
fn carriage_return_before_line_feed_is_dropped() {
    let mut parser = StreamingDeltaParser::new();
    let frames = parser.push_chunk(b"data: a\r\ndata: b\r\r\n");
    assert_eq!(payloads(&frames), vec!["a", "b\r"]);
    let mut parser = StreamingDeltaParser::new();
    assert!(parser.push_chunk(b"data: [DONE]\r").is_empty());
    let frames = parser.push_chunk(b"\n");
    assert_eq!(payloads(&frames), vec!["<end>"]);
}

#[test]
fn nothing_comes_after_the_end() {
    let mut parser = StreamingDeltaParser::new();
    let frames = parser.push_chunk(b"data: [DONE]\ndata: more\n");
    assert_eq!(payloads(&frames), vec!["<end>"]);
    assert!(parser.ended());
    assert!(parser.push_chunk(b"data: again\n").is_empty());
    assert!(parser.finish().is_empty());
}

#[test]
fn done_must_be_the_whole_payload() {
    let mut parser = StreamingDeltaParser::new();
    let frames = parser.push_chunk(b"data: [DONE] \ndata:  [DONE]\ndata: [done]\n");
    assert_eq!(payloads(&frames), vec!["[DONE] ", " [DONE]", "[done]"]);
    assert!(!parser.ended());
}

#[test]
fn finish_hands_out_the_last_unterminated_line() {
    let mut parser = StreamingDeltaParser::new();
    assert!(parser.push_chunk(b"data: tail\r").is_empty());
    let frames = parser.finish();
    assert_eq!(payloads(&frames), vec!["tail\r"]);
    assert!(parser.ended());
    assert!(parser.finish().is_empty());

    let mut parser = StreamingDeltaParser::new();
    parser.push_chunk(b"data: x\n");
    assert!(parser.finish().is_empty());

    let mut parser = StreamingDeltaParser::new();
    parser.push_chunk(b"data: [DONE]");
    assert_eq!(payloads(&parser.finish()), vec!["<end>"]);
}

#[test]
fn scenario_malformed_line_is_skipped() {
    let stream: &[u8] = b"data: {\"choices\":[{\"delta\":{\"content\":\"Hel\"}}]}\n\
data: {not json\n\
data: {\"choices\":[{\"delta\":{\"content\":\"lo\",\"tool_calls\":[{\"index\":0,\"id\":\"c\",\"type\":\"function\",\"function\":{\"name\":\"f\",\"arguments\":\"{}\"}}]}}]}\n\
data: {\"choices\":[]}\n\
data: [DONE]\n";
    let (mut turn, _) = TurnOrchestrator::begin_turn(
        ConversationHistory::new(),
        Vec::new(),
        true,
        None,
        "hello?".to_string(),
    );
    turn.handle(TurnEvent::ResponseOpened).unwrap();
    let mut parser = StreamingDeltaParser::new();
    let mut skipped = 0;
    let mut last = None;
    for piece in stream.chunks(7) {
        for frame in parser.push_chunk(piece) {
            let event = match frame {
                Frame::Payload(bytes) => {
                    let decoded = decode(&bytes);
                    if decoded.is_none() {
                        skipped += 1;
                    }
                    TurnEvent::Payload(decoded)
                }
                Frame::End => TurnEvent::StreamEnd,
            };
            last = Some(turn.handle(event).unwrap());
        }
    }
    assert_eq!(skipped, 1);
    assert_eq!(turn.state(), TurnState::ExecutingTools);
    match last.unwrap().action {
        TurnAction::ExecuteTool { name, arguments } => {
            assert_eq!(name, "f");
            assert_eq!(arguments.json(), "{}");
        }
        other => panic!("unexpected action {:?}", other),
    }
    let messages = turn.history().snapshot();
    assert_eq!(messages.len(), 2);
    assert_eq!(messages[1].content.as_deref(), Some("Hello"));
    let calls = messages[1].tool_calls.as_ref().unwrap();
    assert_eq!(calls.len(), 1);
    assert_eq!(calls[0].id, "c");
}
