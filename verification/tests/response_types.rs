use llm_agent::{FunctionCall, Part, Response, ToolCall, Usage};

fn make_tool_call(id: &str, name: &str, args: &str) -> ToolCall {
    ToolCall {
        id: id.into(),
        call_type: "function".into(),
        function: FunctionCall {
            name: name.into(),
            arguments: args.into(),
        },
    }
}

fn text_response(text: &str) -> Response {
    Response {
        parts: vec![Part::Text(text.into())],
        finish_reason: "stop".into(),
    }
}

fn tool_response(calls: Vec<ToolCall>) -> Response {
    let parts = calls.into_iter().map(Part::ToolUse).collect();
    Response {
        parts,
        finish_reason: "tool_calls".into(),
    }
}

#[test]
fn text_concatenates_text_parts() {
    let r = Response {
        parts: vec![Part::Text("hello ".into()), Part::Text("world".into())],
        finish_reason: "stop".into(),
    };
    assert_eq!(r.text().unwrap(), "hello world");
}

#[test]
fn text_none_when_no_text_parts() {
    let r = Response {
        parts: vec![Part::Reasoning("thinking...".into())],
        finish_reason: "stop".into(),
    };
    assert!(r.text().is_none());
}

#[test]
fn reasoning_concatenates() {
    let r = Response {
        parts: vec![
            Part::Reasoning("step 1. ".into()),
            Part::Text("answer".into()),
            Part::Reasoning("step 2.".into()),
        ],
        finish_reason: "stop".into(),
    };
    assert_eq!(r.reasoning().unwrap(), "step 1. step 2.");
}

#[test]
fn reasoning_none_when_absent() {
    assert!(text_response("hello").reasoning().is_none());
}

#[test]
fn tool_calls_extracts_all() {
    let r = tool_response(vec![
        make_tool_call("1", "Read", "{}"),
        make_tool_call("2", "Write", "{}"),
    ]);
    let calls = r.tool_calls();
    assert_eq!(calls.len(), 2);
    assert_eq!(calls[0].function.name, "Read");
    assert_eq!(calls[1].function.name, "Write");
}

#[test]
fn has_tool_calls_true() {
    assert!(tool_response(vec![make_tool_call("1", "Bash", "{}")]).has_tool_calls());
}

#[test]
fn has_tool_calls_false() {
    assert!(!text_response("done").has_tool_calls());
}

#[test]
fn mixed_parts() {
    let r = Response {
        parts: vec![
            Part::Reasoning("let me think".into()),
            Part::Text("I'll check".into()),
            Part::ToolUse(make_tool_call("1", "Read", r#"{"path":"f"}"#)),
        ],
        finish_reason: "tool_calls".into(),
    };
    assert_eq!(r.text().unwrap(), "I'll check");
    assert_eq!(r.reasoning().unwrap(), "let me think");
    assert_eq!(r.tool_calls().len(), 1);
    assert!(r.has_tool_calls());
}

#[test]
fn usage_accumulate() {
    let mut u = Usage {
        input_tokens: 10,
        output_tokens: 5,
        reasoning_tokens: 2,
    };
    u.accumulate(&Usage {
        input_tokens: 20,
        output_tokens: 10,
        reasoning_tokens: 3,
    });
    assert_eq!(u.input_tokens, 30);
    assert_eq!(u.output_tokens, 15);
    assert_eq!(u.reasoning_tokens, 5);
}

#[test]
fn usage_default_is_zero() {
    let u = Usage::default();
    assert_eq!(u.input_tokens, 0);
    assert_eq!(u.output_tokens, 0);
    assert_eq!(u.reasoning_tokens, 0);
}

#[test]
fn text_and_reasoning_of_empty_response() {
    let r = Response { parts: vec![], finish_reason: "stop".into() };
    assert!(r.text().is_none());
    assert!(r.reasoning().is_none());
    assert!(r.tool_calls().is_empty());
    assert!(!r.has_tool_calls());
}

#[test]
fn empty_text_part_still_counts_as_text() {
    let r = Response { parts: vec![Part::Text(String::new())], finish_reason: "stop".into() };
    assert_eq!(r.text(), Some(String::new()));
}

#[test]
fn tool_calls_keep_order_among_other_parts() {
    let r = Response {
        parts: vec![
            Part::ToolUse(make_tool_call("a", "Read", "{}")),
            Part::Text("between".into()),
            Part::ToolUse(make_tool_call("b", "Glob", "{}")),
            Part::Reasoning("r".into()),
        ],
        finish_reason: "tool_calls".into(),
    };
    let calls = r.tool_calls();
    assert_eq!(calls.len(), 2);
    assert_eq!(calls[0].id, "a");
    assert_eq!(calls[1].id, "b");
    assert_eq!(calls[1].call_type, "function");
}

#[test]
fn has_tool_calls_agrees_with_tool_calls() {
    for r in [
        text_response("x"),
        tool_response(vec![make_tool_call("1", "Bash", "{}")]),
        Response { parts: vec![Part::Reasoning("r".into())], finish_reason: "stop".into() },
    ] {
        assert_eq!(r.has_tool_calls(), !r.tool_calls().is_empty());
    }
}

#[test]
fn accumulate_default_leaves_usage_unchanged() {
    let mut u = Usage { input_tokens: 7, output_tokens: 8, reasoning_tokens: 9 };
    u.accumulate(&Usage::default());
    assert_eq!((u.input_tokens, u.output_tokens, u.reasoning_tokens), (7, 8, 9));
}
