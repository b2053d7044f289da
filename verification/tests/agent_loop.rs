use llm_agent::agent::decimal_string;
use llm_agent::hook::denial;
use llm_agent::{
    append_turn, build_messages, Action, AgentOutput, AgentRun, AllowAll, ChatMessage, Event,
    FunctionCall, HookContext, HookDecision, LoopError, NoObserver, Part, Response, ToolCall,
    ToolResult, TurnObserver, Usage, DEFAULT_MAX_TURNS,
};
use std::sync::Mutex;

fn make_tool_call(id: &str, name: &str, args: &str) -> ToolCall {
    ToolCall {
        id: id.into(),
        call_type: "function".into(),
        function: FunctionCall { name: name.into(), arguments: args.into() },
    }
}

fn text_response(text: &str) -> Response {
    Response { parts: vec![Part::Text(text.into())], finish_reason: "stop".into() }
}

fn tool_response(calls: Vec<ToolCall>) -> Response {
    Response {
        parts: calls.into_iter().map(Part::ToolUse).collect(),
        finish_reason: "tool_calls".into(),
    }
}

fn tool_response_with_text(text: &str, calls: Vec<ToolCall>) -> Response {
    let mut parts: Vec<Part> = vec![Part::Text(text.into())];
    parts.extend(calls.into_iter().map(Part::ToolUse));
    Response { parts, finish_reason: "tool_calls".into() }
}

fn reasoning_then_text(reasoning: &str, text: &str) -> Response {
    Response {
        parts: vec![Part::Reasoning(reasoning.into()), Part::Text(text.into())],
        finish_reason: "stop".into(),
    }
}

fn usage(i: u64, o: u64) -> Usage {
    Usage { input_tokens: i, output_tokens: o, reasoning_tokens: 0 }
}

/// What a scripted run saw.
struct Trace {
    result: Result<AgentOutput, LoopError>,
    /// The conversation sent on each chat.
    chats: Vec<Vec<ChatMessage>>,
    /// (name, arguments) of each tool run.
    executed: Vec<(String, String)>,
    /// (name, arguments, turn) of each hook check.
    hooked: Vec<(String, String, u32)>,
}

/// Plays the client, the hook and the executor from a script and runs the loop.
fn drive(
    system_prompt: Option<&str>,
    prompt: &str,
    max_turns: u32,
    replies: Vec<(Response, Usage)>,
    hook: &dyn Fn(&HookContext<'_>) -> HookDecision,
    executor: &dyn Fn(&str, &str) -> String,
    observer: &dyn TurnObserver,
) -> Trace {
    let mut replies = replies.into_iter();
    let (mut run, mut action) = AgentRun::start(system_prompt, prompt, max_turns);
    let mut trace = Trace {
        result: Err(LoopError::MaxTurnsExceeded(u32::MAX)),
        chats: Vec::new(),
        executed: Vec::new(),
        hooked: Vec::new(),
    };
    loop {
        let event = match action {
            Action::Chat => {
                trace.chats.push(run.messages().clone());
                let (r, u) = replies.next().expect("script ran out of replies");
                Event::Replied(r, u)
            }
            Action::CheckHook { tool_name, arguments, turn } => {
                trace.hooked.push((tool_name.clone(), arguments.clone(), turn));
                let ctx = HookContext { tool_name: &tool_name, arguments: &arguments, turn };
                Event::Decided(hook(&ctx))
            }
            Action::Execute { tool_name, arguments } => {
                let out = executor(&tool_name, &arguments);
                trace.executed.push((tool_name, arguments));
                Event::Executed(out)
            }
            Action::Finish(out) => {
                trace.result = Ok(out);
                return trace;
            }
            Action::Fail(e) => {
                trace.result = Err(e);
                return trace;
            }
        };
        assert!(run.accepts(&event));
        let (next, report) = run.on_event(event);
        if let Some(report) = report {
            observer.on_turn(report.turn, &report.response, &report.usage);
        }
        action = next;
    }
}

fn allow_all(ctx: &HookContext<'_>) -> HookDecision {
    AllowAll.decide(ctx)
}

fn block_bash(ctx: &HookContext<'_>) -> HookDecision {
    if ctx.tool_name == "Bash" {
        HookDecision::Block("Bash is not allowed".into())
    } else {
        HookDecision::Allow
    }
}

fn ask_for_write(ctx: &HookContext<'_>) -> HookDecision {
    if ctx.tool_name == "Write" {
        HookDecision::Ask { reason: "Write requires confirmation".into(), suggestion: None }
    } else {
        HookDecision::Allow
    }
}

fn suggest(_ctx: &HookContext<'_>) -> HookDecision {
    HookDecision::Ask {
        reason: "dangerous command".into(),
        suggestion: Some("use ls instead".into()),
    }
}

fn fixed(output: &'static str) -> impl Fn(&str, &str) -> String {
    move |_: &str, _: &str| output.to_string()
}

fn mock(responses: Vec<Response>) -> Vec<(Response, Usage)> {
    responses.into_iter().map(|r| (r, usage(10, 5))).collect()
}

fn capturing(responses: Vec<Response>) -> Vec<(Response, Usage)> {
    responses.into_iter().map(|r| (r, Usage::default())).collect()
}

#[test]
fn single_turn_text_response() {
    let t = drive(None, "hi", 20, mock(vec![text_response("hello world")]), &allow_all, &fixed(""), &NoObserver);
    let output = t.result.unwrap();
    assert_eq!(output.text(), "hello world");
    assert_eq!(output.usage.input_tokens, 10);
    assert_eq!(t.chats.len(), 1);
}

#[test]
fn tool_call_then_text() {
    let t = drive(
        None,
        "list files",
        20,
        mock(vec![
            tool_response(vec![make_tool_call("c1", "Bash", r#"{"command":"ls"}"#)]),
            text_response("found 3 files"),
        ]),
        &allow_all,
        &fixed("file1\nfile2\nfile3"),
        &NoObserver,
    );
    assert_eq!(t.result.unwrap().text(), "found 3 files");
    assert_eq!(t.chats.len(), 2);
    assert_eq!(t.executed.len(), 1);
    assert_eq!(t.executed[0].0, "Bash");
}

#[test]
fn multiple_tool_calls_in_one_turn() {
    let t = drive(
        None,
        "read both",
        20,
        mock(vec![
            tool_response(vec![
                make_tool_call("c1", "Read", r#"{"path":"a.txt"}"#),
                make_tool_call("c2", "Read", r#"{"path":"b.txt"}"#),
            ]),
            text_response("both read"),
        ]),
        &allow_all,
        &fixed("content"),
        &NoObserver,
    );
    assert!(t.result.is_ok());
    assert_eq!(t.executed.len(), 2);
    assert_eq!(t.executed[0].1, r#"{"path":"a.txt"}"#);
    assert_eq!(t.executed[1].1, r#"{"path":"b.txt"}"#);
}

#[test]
fn parallel_safe_tool_calls_execute_in_one_turn() {
    let t = drive(
        None,
        "read both",
        20,
        mock(vec![
            tool_response(vec![
                make_tool_call("c1", "Read", r#"{"path":"a.txt"}"#),
                make_tool_call("c2", "Glob", r#"{"pattern":"*.rs"}"#),
            ]),
            text_response("done"),
        ]),
        &allow_all,
        &fixed("ok"),
        &NoObserver,
    );
    assert!(t.result.is_ok());
    let calls: Vec<String> = t.executed.iter().map(|(n, a)| format!("{n}:{a}")).collect();
    assert_eq!(calls.len(), 2);
    assert!(calls.contains(&r#"Read:{"path":"a.txt"}"#.to_string()));
    assert!(calls.contains(&r#"Glob:{"pattern":"*.rs"}"#.to_string()));
}

#[test]
fn multi_turn_tool_calls() {
    let t = drive(
        None,
        "do stuff",
        20,
        mock(vec![
            tool_response(vec![make_tool_call("c1", "Read", "{}")]),
            tool_response(vec![make_tool_call("c2", "Write", "{}")]),
            text_response("done"),
        ]),
        &allow_all,
        &fixed("ok"),
        &NoObserver,
    );
    assert_eq!(t.result.unwrap().text(), "done");
    assert_eq!(t.chats.len(), 3);
}

#[test]
fn max_turns_exceeded() {
    let t = drive(
        None,
        "loop",
        2,
        mock(vec![
            tool_response(vec![make_tool_call("c1", "Bash", "{}")]),
            tool_response(vec![make_tool_call("c2", "Bash", "{}")]),
            tool_response(vec![make_tool_call("c3", "Bash", "{}")]),
        ]),
        &allow_all,
        &fixed("ok"),
        &NoObserver,
    );
    let err = t.result.err().unwrap();
    assert!(err.message().contains("exceeded max turns (2)"));
    assert_eq!(t.chats.len(), 2);
}

#[test]
fn usage_accumulated_across_turns() {
    let t = drive(
        None,
        "go",
        20,
        mock(vec![tool_response(vec![make_tool_call("c1", "Bash", "{}")]), text_response("done")]),
        &allow_all,
        &fixed("ok"),
        &NoObserver,
    );
    let output = t.result.unwrap();
    assert_eq!(output.usage.input_tokens, 20);
    assert_eq!(output.usage.output_tokens, 10);
}

struct RecordingObserver {
    turns: Mutex<Vec<(u32, String, u64)>>,
}

impl TurnObserver for RecordingObserver {
    fn on_turn(&self, turn: u32, response: &Response, usage: &Usage) {
        self.turns.lock().unwrap().push((turn, response.finish_reason.clone(), usage.input_tokens));
    }
}

#[test]
fn observer_receives_each_turn_with_accumulated_usage() {
    let observer = RecordingObserver { turns: Mutex::new(Vec::new()) };
    let t = drive(
        None,
        "watch",
        20,
        mock(vec![tool_response(vec![make_tool_call("c1", "Read", "{}")]), text_response("done")]),
        &allow_all,
        &fixed("ok"),
        &observer,
    );
    assert!(t.result.is_ok());
    let turns = observer.turns.lock().unwrap();
    assert_eq!(
        turns.as_slice(),
        &[(0, "tool_calls".to_string(), 10), (1, "stop".to_string(), 20)]
    );
}

#[test]
fn reasoning_parts_collected() {
    let t = drive(
        None,
        "meaning of life",
        20,
        mock(vec![reasoning_then_text("let me think", "the answer is 42")]),
        &allow_all,
        &fixed(""),
        &NoObserver,
    );
    let output = t.result.unwrap();
    assert_eq!(output.text(), "the answer is 42");
    assert!(output.parts.iter().any(|p| matches!(p, Part::Reasoning(_))));
}

#[test]
fn all_parts_collected_across_turns() {
    let t = drive(
        None,
        "read it",
        20,
        mock(vec![
            tool_response_with_text("reading", vec![make_tool_call("c1", "Read", "{}")]),
            text_response("file says hello"),
        ]),
        &allow_all,
        &fixed("hello"),
        &NoObserver,
    );
    let output = t.result.unwrap();
    assert_eq!(output.parts.len(), 3);
    assert!(matches!(&output.parts[0], Part::Text(t) if t == "reading"));
    assert!(matches!(&output.parts[1], Part::ToolUse(_)));
    assert!(matches!(&output.parts[2], Part::Text(t) if t == "file says hello"));
}

#[test]
fn agent_output_text_returns_last_text() {
    let t = drive(
        None,
        "go",
        20,
        mock(vec![
            tool_response_with_text("thinking", vec![make_tool_call("c1", "Bash", "{}")]),
            text_response("final answer"),
        ]),
        &allow_all,
        &fixed("ok"),
        &NoObserver,
    );
    assert_eq!(t.result.unwrap().text(), "final answer");
}

#[test]
fn blocked_tool_feeds_message_as_result() {
    let t = drive(
        None,
        "delete everything",
        20,
        capturing(vec![
            tool_response(vec![make_tool_call("c1", "Bash", r#"{"command":"rm -rf /"}"#)]),
            text_response("ok I won't do that"),
        ]),
        &block_bash,
        &fixed("should not run"),
        &NoObserver,
    );
    assert_eq!(t.result.unwrap().text(), "ok I won't do that");
    assert!(t.executed.is_empty());
    assert_eq!(t.chats[1][2].content.as_deref(), Some("Bash is not allowed"));
}

#[test]
fn allowed_tool_executes_normally() {
    let t = drive(
        None,
        "read it",
        20,
        capturing(vec![tool_response(vec![make_tool_call("c1", "Read", "{}")]), text_response("done")]),
        &block_bash,
        &fixed("file content"),
        &NoObserver,
    );
    assert!(t.result.is_ok());
    assert_eq!(t.executed.len(), 1);
    assert_eq!(t.executed[0].0, "Read");
}

#[test]
fn ask_denied_in_headless_mode() {
    let t = drive(
        None,
        "write file",
        20,
        capturing(vec![tool_response(vec![make_tool_call("c1", "Write", "{}")]), text_response("understood")]),
        &ask_for_write,
        &fixed("should not run"),
        &NoObserver,
    );
    assert!(t.result.is_ok());
    assert!(t.executed.is_empty());
    let result = t.chats[1][2].content.as_deref().unwrap();
    assert!(result.contains("denied"));
    assert!(result.contains("Write requires confirmation"));
}

#[test]
fn ask_with_suggestion() {
    let t = drive(
        None,
        "go",
        20,
        capturing(vec![tool_response(vec![make_tool_call("c1", "Bash", "{}")]), text_response("ok")]),
        &suggest,
        &fixed(""),
        &NoObserver,
    );
    assert!(t.result.is_ok());
    let result = t.chats[1][2].content.as_deref().unwrap();
    assert!(result.contains("dangerous command"));
    assert_eq!(result, "denied: dangerous command (suggestion: use ls instead)");
}

#[test]
fn mixed_decisions_in_one_turn() {
    let t = drive(
        None,
        "do both",
        20,
        capturing(vec![
            tool_response(vec![make_tool_call("c1", "Read", "{}"), make_tool_call("c2", "Bash", "{}")]),
            text_response("done"),
        ]),
        &block_bash,
        &fixed("content"),
        &NoObserver,
    );
    assert!(t.result.is_ok());
    assert_eq!(t.executed.len(), 1);
    assert_eq!(t.executed[0].0, "Read");
    let tool_msgs: Vec<_> = t.chats[1].iter().filter(|m| m.role == "tool").collect();
    assert_eq!(tool_msgs.len(), 2);
    assert_eq!(tool_msgs[0].content.as_deref(), Some("content"));
    assert_eq!(tool_msgs[1].content.as_deref(), Some("Bash is not allowed"));
}

#[test]
fn no_hook_allows_everything() {
    let t = drive(
        None,
        "go",
        20,
        mock(vec![tool_response(vec![make_tool_call("c1", "Bash", "{}")]), text_response("done")]),
        &allow_all,
        &fixed("ok"),
        &NoObserver,
    );
    assert!(t.result.is_ok());
    assert_eq!(t.executed.len(), 1);
}

#[test]
fn hook_receives_context() {
    let t = drive(
        None,
        "go",
        20,
        mock(vec![tool_response(vec![make_tool_call("c1", "Bash", r#"{"cmd":"ls"}"#)]), text_response("done")]),
        &allow_all,
        &fixed(""),
        &NoObserver,
    );
    assert!(t.result.is_ok());
    assert_eq!(t.hooked.len(), 1);
    assert_eq!(t.hooked[0].0, "Bash");
    assert_eq!(t.hooked[0].1, r#"{"cmd":"ls"}"#);
    assert_eq!(t.hooked[0].2, 0);
}

#[test]
fn system_prompt_included() {
    let t = drive(Some("be helpful"), "hello", 20, capturing(vec![text_response("ok")]), &allow_all, &fixed(""), &NoObserver);
    assert_eq!(t.chats[0][0].role, "system");
    assert_eq!(t.chats[0][0].content.as_deref(), Some("be helpful"));
    assert_eq!(t.chats[0][1].role, "user");
    assert_eq!(t.chats[0][1].content.as_deref(), Some("hello"));
}

#[test]
fn no_system_prompt_starts_with_user() {
    let t = drive(None, "hello", 20, capturing(vec![text_response("ok")]), &allow_all, &fixed(""), &NoObserver);
    assert_eq!(t.chats[0].len(), 1);
    assert_eq!(t.chats[0][0].role, "user");
}

#[test]
fn tool_results_fed_back_correctly() {
    let t = drive(
        None,
        "read x",
        20,
        capturing(vec![
            tool_response(vec![make_tool_call("call_1", "Read", r#"{"p":"x"}"#)]),
            text_response("done"),
        ]),
        &allow_all,
        &fixed("file content here"),
        &NoObserver,
    );
    assert!(t.result.is_ok());
    let second_call = &t.chats[1];
    assert_eq!(second_call.len(), 3);
    assert_eq!(second_call[1].role, "assistant");
    assert!(second_call[1].tool_calls.is_some());
    assert_eq!(second_call[2].role, "tool");
    assert_eq!(second_call[2].content.as_deref(), Some("file content here"));
    assert_eq!(second_call[2].tool_call_id.as_deref(), Some("call_1"));
}

// ---------------------------------------------------------------------------
// Further cases.

#[test]
fn zero_max_turns_fails_without_asking() {
    let t = drive(None, "hi", 0, vec![], &allow_all, &fixed(""), &NoObserver);
    assert!(t.chats.is_empty());
    assert_eq!(t.result.err().unwrap().message(), "exceeded max turns (0)");
}

#[test]
fn each_call_gets_one_result_with_its_id_in_order() {
    let t = drive(
        None,
        "go",
        20,
        capturing(vec![
            tool_response_with_text(
                "checking",
                vec![make_tool_call("a", "Read", "{}"), make_tool_call("b", "Bash", "{}"), make_tool_call("c", "Write", "{}")],
            ),
            text_response("done"),
        ]),
        &block_bash,
        &|name: &str, _: &str| format!("ran {name}"),
        &NoObserver,
    );
    assert!(t.result.is_ok());
    let msgs = &t.chats[1];
    assert_eq!(msgs.len(), 5);
    assert_eq!(msgs[1].role, "assistant");
    assert_eq!(msgs[1].content.as_deref(), Some("checking"));
    assert_eq!(msgs[1].tool_calls.as_ref().unwrap().len(), 3);
    let ids: Vec<_> = msgs[2..].iter().map(|m| m.tool_call_id.clone().unwrap()).collect();
    assert_eq!(ids, vec!["a", "b", "c"]);
    let outs: Vec<_> = msgs[2..].iter().map(|m| m.content.clone().unwrap()).collect();
    assert_eq!(outs, vec!["ran Read", "Bash is not allowed", "ran Write"]);
}

#[test]
fn turn_number_reaches_hook_on_later_turns() {
    let t = drive(
        None,
        "go",
        20,
        mock(vec![
            tool_response(vec![make_tool_call("c1", "Read", "{}")]),
            tool_response(vec![make_tool_call("c2", "Read", "{}")]),
            text_response("done"),
        ]),
        &allow_all,
        &fixed("ok"),
        &NoObserver,
    );
    assert!(t.result.is_ok());
    let turns: Vec<u32> = t.hooked.iter().map(|h| h.2).collect();
    assert_eq!(turns, vec![0, 1]);
}

#[test]
fn output_usage_is_sum_of_replies() {
    let t = drive(
        None,
        "go",
        20,
        vec![
            (tool_response(vec![make_tool_call("c1", "Read", "{}")]), Usage { input_tokens: 3, output_tokens: 4, reasoning_tokens: 5 }),
            (text_response("done"), Usage { input_tokens: 30, output_tokens: 40, reasoning_tokens: 50 }),
        ],
        &allow_all,
        &fixed("ok"),
        &NoObserver,
    );
    let u = t.result.unwrap().usage;
    assert_eq!((u.input_tokens, u.output_tokens, u.reasoning_tokens), (33, 44, 55));
}

#[test]
fn accepts_only_the_awaited_event() {
    let (mut run, action) = AgentRun::start(None, "hi", 3);
    assert!(matches!(action, Action::Chat));
    assert!(!run.accepts(&Event::Executed("x".into())));
    assert!(!run.accepts(&Event::Decided(HookDecision::Allow)));
    assert!(run.accepts(&Event::Replied(text_response("a"), usage(1, 1))));
    let big = Usage { input_tokens: u64::MAX, output_tokens: 0, reasoning_tokens: 0 };
    let ev = Event::Replied(tool_response(vec![make_tool_call("c", "Read", "{}")]), usage(1, 0));
    let (action, report) = run.on_event(ev);
    assert!(matches!(action, Action::CheckHook { .. }));
    let report = report.unwrap();
    assert_eq!((report.turn, report.usage.input_tokens), (0, 1));
    assert!(!run.accepts(&Event::Replied(text_response("a"), big)));
    assert!(run.accepts(&Event::Decided(HookDecision::Allow)));
    assert!(!run.accepts(&Event::Executed("x".into())));
    let (action, report) = run.on_event(Event::Decided(HookDecision::Allow));
    assert!(matches!(action, Action::Execute { .. }));
    assert!(report.is_none());
    assert!(run.accepts(&Event::Executed("x".into())));
}

#[test]
fn output_text_after_last_tool_call_only() {
    let out = AgentOutput {
        parts: vec![
            Part::Text("a".into()),
            Part::ToolUse(make_tool_call("1", "Read", "{}")),
            Part::Text("b".into()),
            Part::Reasoning("r".into()),
            Part::Text("c".into()),
        ],
        usage: Usage::default(),
    };
    assert_eq!(out.text(), "bc");
    let none = AgentOutput { parts: vec![Part::ToolUse(make_tool_call("1", "Read", "{}"))], usage: Usage::default() };
    assert_eq!(none.text(), "");
    let plain = AgentOutput { parts: vec![Part::Text("x".into()), Part::Text("y".into())], usage: Usage::default() };
    assert_eq!(plain.text(), "xy");
}

#[test]
fn output_text_equals_text_of_final_reply() {
    let first = tool_response_with_text("thinking", vec![make_tool_call("1", "Bash", "{}")]);
    let last = Response {
        parts: vec![Part::Reasoning("hmm".into()), Part::Text("A".into()), Part::Text("B".into())],
        finish_reason: "stop".into(),
    };
    let mut parts = first.parts.clone();
    parts.extend(last.parts.clone());
    let out = AgentOutput { parts, usage: Usage::default() };
    assert_eq!(out.text(), last.text().unwrap());
}

#[test]
fn build_messages_shapes() {
    let m = build_messages(Some("sys"), "ask");
    assert_eq!(m.len(), 2);
    assert_eq!((m[0].role.as_str(), m[0].content.as_deref()), ("system", Some("sys")));
    assert_eq!((m[1].role.as_str(), m[1].content.as_deref()), ("user", Some("ask")));
    assert!(m[1].tool_calls.is_none() && m[1].tool_call_id.is_none());
    let m = build_messages(None, "ask");
    assert_eq!(m.len(), 1);
    assert_eq!(m[0].role, "user");
}

#[test]
fn append_turn_feeds_back_text_calls_and_results() {
    let mut messages = build_messages(None, "q");
    let response = Response {
        parts: vec![
            Part::Text("let me ".into()),
            Part::ToolUse(make_tool_call("x", "Read", "{}")),
            Part::Text("look".into()),
        ],
        finish_reason: "tool_calls".into(),
    };
    let results = vec![ToolResult { tool_call_id: "x".into(), output: "data".into() }];
    append_turn(&mut messages, &response, results);
    assert_eq!(messages.len(), 3);
    assert_eq!(messages[1].role, "assistant");
    assert_eq!(messages[1].content.as_deref(), Some("let me look"));
    assert_eq!(messages[1].tool_calls.as_ref().unwrap()[0].id, "x");
    assert!(messages[1].tool_call_id.is_none());
    assert_eq!(messages[2].role, "tool");
    assert_eq!(messages[2].content.as_deref(), Some("data"));
    assert_eq!(messages[2].tool_call_id.as_deref(), Some("x"));
    assert!(messages[2].tool_calls.is_none());

    let mut messages = Vec::new();
    let silent = Response { parts: vec![Part::ToolUse(make_tool_call("y", "Glob", "{}"))], finish_reason: "tool_calls".into() };
    append_turn(&mut messages, &silent, vec![]);
    assert_eq!(messages.len(), 1);
    assert!(messages[0].content.is_none());
}

#[test]
fn decimal_and_error_messages() {
    assert_eq!(decimal_string(0), "0");
    assert_eq!(decimal_string(7), "7");
    assert_eq!(decimal_string(20), "20");
    assert_eq!(decimal_string(4294967295), "4294967295");
    assert_eq!(LoopError::MaxTurnsExceeded(20).message(), "exceeded max turns (20)");
}

#[test]
fn denial_texts() {
    assert_eq!(denial("why", None), "denied: why");
    assert_eq!(denial("why", Some("try this")), "denied: why (suggestion: try this)");
}

#[test]
fn allow_all_allows() {
    let ctx = HookContext { tool_name: "Bash", arguments: "{}", turn: 3 };
    assert!(matches!(AllowAll.decide(&ctx), HookDecision::Allow));
}

#[test]
fn default_turn_limit_is_twenty() {
    assert_eq!(DEFAULT_MAX_TURNS, 20);
}

#[test]
fn report_carries_turn_reply_and_running_usage() {
    let (mut run, _) = AgentRun::start(None, "go", 5);
    let first = tool_response(vec![make_tool_call("c1", "Read", "{}")]);
    let (_, rep) = run.on_event(Event::Replied(first, usage(4, 2)));
    let rep = rep.unwrap();
    assert_eq!(rep.turn, 0);
    assert_eq!(rep.response.finish_reason, "tool_calls");
    assert_eq!(rep.response.tool_calls()[0].id, "c1");
    assert_eq!((rep.usage.input_tokens, rep.usage.output_tokens), (4, 2));
    let (_, rep) = run.on_event(Event::Decided(HookDecision::Block("no".into())));
    assert!(rep.is_none());
    let (action, rep) = run.on_event(Event::Replied(text_response("done"), usage(6, 1)));
    assert!(matches!(action, Action::Finish(_)));
    let rep = rep.unwrap();
    assert_eq!(rep.turn, 1);
    assert_eq!(rep.response.text().unwrap(), "done");
    assert_eq!((rep.usage.input_tokens, rep.usage.output_tokens), (10, 3));
}
