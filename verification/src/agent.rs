use vstd::prelude::*;
use crate::hook::{decision_output, denial, DecisionView, HookDecision};
use crate::types::{
    calls_in, calls_view, copy_tool_call, messages_view, parts_view, results_view, text_of, joined_text,
    ChatMessage, ChatMessageView, Part, PartView, Response, ResponseView, ToolCall, ToolResult,
    ToolResultView, Usage, ToolCallView, usage_sum, usage_sum_fits, usage_zero, has_tool_use_part,
    extend_parts, owned_calls, copy_response,
};

verus! {

// ---------------------------------------------------------------------------
// The conversation that the loop sends to the client.

pub open spec fn plain_message(role: Seq<char>, content: Seq<char>) -> ChatMessageView {
    ChatMessageView { role, content: Some(content), tool_calls: None, tool_call_id: None }
}

pub open spec fn opt_strref_view(o: Option<&str>) -> Option<Seq<char>> {
    match o {
        Some(s) => Some(s@),
        None => None,
    }
}

/// The conversation a run starts with: the system prompt, if any, then the user's prompt.
pub open spec fn initial_messages(system_prompt: Option<Seq<char>>, prompt: Seq<char>) -> Seq<
    ChatMessageView,
> {
    match system_prompt {
        Some(sp) => seq![plain_message("system"@, sp), plain_message("user"@, prompt)],
        None => seq![plain_message("user"@, prompt)],
    }
}

/// The assistant's turn as fed back: its text and all its tool calls.
pub open spec fn assistant_message(response: ResponseView) -> ChatMessageView {
    ChatMessageView {
        role: "assistant"@,
        content: text_of(response.parts),
        tool_calls: Some(calls_in(response.parts)),
        tool_call_id: None,
    }
}

/// One tool's result as fed back, tied to its call by the call's id.
pub open spec fn tool_message(result: ToolResultView) -> ChatMessageView {
    ChatMessageView {
        role: "tool"@,
        content: Some(result.output),
        tool_calls: None,
        tool_call_id: Some(result.tool_call_id),
    }
}

/// What a completed turn adds to the conversation.
pub open spec fn turn_messages(response: ResponseView, results: Seq<ToolResultView>) -> Seq<
    ChatMessageView,
> {
    seq![assistant_message(response)] + results.map_values(|r: ToolResultView| tool_message(r))
}

fn plain(role: &str, content: &str) -> (m: ChatMessage)
    ensures
        m@ == plain_message(role@, content@),
{
    ChatMessage {
        role: String::from_str(role),
        content: Some(String::from_str(content)),
        tool_calls: None,
        tool_call_id: None,
    }
}

/// The opening conversation: the system prompt, if any, then the user's prompt.
pub fn build_messages(system_prompt: Option<&str>, user_prompt: &str) -> (r: Vec<ChatMessage>)
    ensures
        messages_view(r@) == initial_messages(opt_strref_view(system_prompt), user_prompt@),
{
    let mut messages: Vec<ChatMessage> = Vec::new();
    if let Some(sp) = system_prompt {
        messages.push(plain("system", sp));
    }
    messages.push(plain("user", user_prompt));
    assert(messages_view(messages@) =~= initial_messages(
        opt_strref_view(system_prompt),
        user_prompt@,
    ));
    messages
}

/// Feeds a turn back: the assistant's message with its text and tool calls, then
/// one tool message per result, in order.
pub fn append_turn(messages: &mut Vec<ChatMessage>, response: &Response, results: Vec<ToolResult>)
    ensures
        messages_view(final(messages)@) == messages_view(old(messages)@) + turn_messages(
            response@,
            results_view(results@),
        ),
{
    let text = response.text();
    let calls = owned_calls(response);
    let ghost start = messages@;
    messages.push(
        ChatMessage {
            role: String::from_str("assistant"),
            content: text,
            tool_calls: Some(calls),
            tool_call_id: None,
        },
    );
    let ghost rv = results_view(results@);
    let mut j: usize = 0;
    while j < results.len()
        invariant
            j <= results.len(),
            rv == results_view(results@),
            messages_view(messages@) == messages_view(start) + seq![assistant_message(response@)]
                + rv.take(j as int).map_values(|r: ToolResultView| tool_message(r)),
        decreases results.len() - j,
    {
        let ghost before = messages@;
        let r = &results[j];
        messages.push(
            ChatMessage {
                role: String::from_str("tool"),
                content: Some(r.output.clone()),
                tool_calls: None,
                tool_call_id: Some(r.tool_call_id.clone()),
            },
        );
        assert(messages_view(messages@) =~= messages_view(before).push(tool_message(rv[j as int])));
        assert(rv.take(j + 1).map_values(|r: ToolResultView| tool_message(r)) =~= rv.take(
            j as int,
        ).map_values(|r: ToolResultView| tool_message(r)).push(tool_message(rv[j as int])));
        j = j + 1;
    }
    assert(rv.take(j as int) =~= rv);
    assert(messages_view(messages@) =~= messages_view(start) + turn_messages(response@, rv));
}

// ---------------------------------------------------------------------------
// The result of a run.

/// Output of a completed agent loop.
pub struct AgentOutput {
    /// All parts from every turn, in order.
    pub parts: Vec<Part>,
    pub usage: Usage,
}

/// The text parts that come after the last tool call, concatenated in order
/// (reasoning parts are skipped).
pub open spec fn final_text(parts: Seq<PartView>) -> Seq<char>
    decreases parts.len(),
{
    if parts.len() == 0 {
        Seq::empty()
    } else {
        match parts.last() {
            PartView::Text(t) => final_text(parts.drop_last()) + t,
            PartView::Reasoning(_) => final_text(parts.drop_last()),
            PartView::ToolUse(_) => Seq::empty(),
        }
    }
}

impl AgentOutput {
    /// Final text output: the text parts after the last tool call, concatenated.
    pub fn text(&self) -> (r: String)
        ensures
            r@ == final_text(parts_view(self.parts@)),
    {
        let ghost pv = parts_view(self.parts@);
        let mut out = String::new();
        let mut i: usize = 0;
        while i < self.parts.len()
            invariant
                i <= self.parts.len(),
                pv == parts_view(self.parts@),
                out@ == final_text(pv.take(i as int)),
            decreases self.parts.len() - i,
        {
            assert(pv.take(i + 1).drop_last() =~= pv.take(i as int));
            match &self.parts[i] {
                Part::Text(t) => {
                    out.append(t.as_str());
                },
                Part::ToolUse(_) => {
                    out = String::new();
                },
                Part::Reasoning(_) => {},
            }
            i = i + 1;
        }
        assert(pv.take(i as int) =~= pv);
        out
    }
}

// ---------------------------------------------------------------------------
// Why a run fails.

/// An error of the loop itself (errors of the client or of a hook are passed on as they are).
#[derive(Clone, Copy, Debug)]
pub enum LoopError {
    /// The model still asked for tools after this many turns.
    MaxTurnsExceeded(u32),
}

/// The decimal digits of `n`, most significant first.
pub open spec fn decimal(n: nat) -> Seq<char>
    decreases n,
{
    if n < 10 {
        seq![digit_char(n)]
    } else {
        decimal(n / 10).push(digit_char(n % 10))
    }
}

pub open spec fn digit_char(d: nat) -> char {
    ((48 + d) as u8) as char
}

pub open spec fn error_message(e: LoopError) -> Seq<char> {
    match e {
        LoopError::MaxTurnsExceeded(n) => "exceeded max turns ("@ + decimal(n as nat) + ")"@,
    }
}

fn digit(d: u32) -> (s: &'static str)
    requires
        d < 10,
    ensures
        s@ == seq![digit_char(d as nat)],
{
    proof {
        reveal_strlit("0");
        reveal_strlit("1");
        reveal_strlit("2");
        reveal_strlit("3");
        reveal_strlit("4");
        reveal_strlit("5");
        reveal_strlit("6");
        reveal_strlit("7");
        reveal_strlit("8");
        reveal_strlit("9");
    }
    match d {
        0 => "0",
        1 => "1",
        2 => "2",
        3 => "3",
        4 => "4",
        5 => "5",
        6 => "6",
        7 => "7",
        8 => "8",
        _ => "9",
    }
}

/// `n` written in decimal.
pub fn decimal_string(n: u32) -> (s: String)
    ensures
        s@ == decimal(n as nat),
    decreases n,
{
    if n < 10 {
        String::from_str(digit(n))
    } else {
        let mut s = decimal_string(n / 10);
        s.append(digit(n % 10));
        s
    }
}

impl LoopError {
    /// The error's message, e.g. "exceeded max turns (20)".
    pub fn message(&self) -> (s: String)
        ensures
            s@ == error_message(*self),
    {
        match self {
            LoopError::MaxTurnsExceeded(n) => {
                let mut s = String::from_str("exceeded max turns (");
                s.append(decimal_string(*n).as_str());
                s.append(")");
                s
            },
        }
    }
}

// ---------------------------------------------------------------------------
// The loop as a state machine. A run alternates between outside work (asking
// the client, asking the hook, running a tool) and the decisions below: the
// driver performs each `Action` and hands back what came of it as an `Event`.

/// Where a run stands.
#[derive(Clone, Copy, Debug, PartialEq, Eq, Structural)]
pub enum Stage {
    /// Waiting for the client's reply to the conversation so far.
    AwaitReply,
    /// Waiting for the hook's decision on the current tool call.
    AwaitDecision,
    /// Waiting for the output of the current tool call.
    AwaitOutput,
    /// Done: the run has finished or failed.
    Finished,
}

/// What the driver has to do next.
pub enum Action {
    /// Send the conversation (`AgentRun::messages`) to the client.
    Chat,
    /// Ask the hook about a tool call.
    CheckHook { tool_name: String, arguments: String, turn: u32 },
    /// Run a tool.
    Execute { tool_name: String, arguments: String },
    /// The run is complete.
    Finish(AgentOutput),
    /// The run failed.
    Fail(LoopError),
}

/// What came of the driver's work.
pub enum Event {
    /// The client's reply and what it cost.
    Replied(Response, Usage),
    /// The hook's decision on the current tool call.
    Decided(HookDecision),
    /// The output of the current tool call.
    Executed(String),
}

pub enum ActionView {
    Chat,
    CheckHook { tool_name: Seq<char>, arguments: Seq<char>, turn: nat },
    Execute { tool_name: Seq<char>, arguments: Seq<char> },
    Finish { parts: Seq<PartView>, usage: Usage },
    Fail(LoopError),
}

pub enum EventView {
    Replied(ResponseView, Usage),
    Decided(DecisionView),
    Executed(Seq<char>),
}

impl View for Action {
    type V = ActionView;

    open spec fn view(&self) -> ActionView {
        match self {
            Action::Chat => ActionView::Chat,
            Action::CheckHook { tool_name, arguments, turn } => ActionView::CheckHook {
                tool_name: tool_name@,
                arguments: arguments@,
                turn: *turn as nat,
            },
            Action::Execute { tool_name, arguments } => ActionView::Execute {
                tool_name: tool_name@,
                arguments: arguments@,
            },
            Action::Finish(out) => ActionView::Finish {
                parts: parts_view(out.parts@),
                usage: out.usage,
            },
            Action::Fail(e) => ActionView::Fail(*e),
        }
    }
}

impl View for Event {
    type V = EventView;

    open spec fn view(&self) -> EventView {
        match self {
            Event::Replied(r, u) => EventView::Replied(r@, *u),
            Event::Decided(d) => EventView::Decided(d@),
            Event::Executed(o) => EventView::Executed(o@),
        }
    }
}

/// What the turn observer is told of a turn: its index, the reply, and the
/// usage accumulated so far (this reply included).
pub struct TurnReport {
    pub turn: u32,
    pub response: Response,
    pub usage: Usage,
}

pub struct TurnReportView {
    pub turn: nat,
    pub response: ResponseView,
    pub usage: Usage,
}

impl View for TurnReport {
    type V = TurnReportView;

    open spec fn view(&self) -> TurnReportView {
        TurnReportView { turn: self.turn as nat, response: self.response@, usage: self.usage }
    }
}

pub open spec fn report_view(r: Option<TurnReport>) -> Option<TurnReportView> {
    match r {
        Some(t) => Some(t@),
        None => None,
    }
}

/// The report a step gives the turn observer: one for each reply, none otherwise.
pub open spec fn turn_report(s: AgentRunView, e: EventView) -> Option<TurnReportView> {
    match e {
        EventView::Replied(r, u) => Some(
            TurnReportView { turn: s.turn, response: r, usage: usage_sum(s.usage, u) },
        ),
        _ => None,
    }
}

/// The number of turns a run may take unless it is told otherwise.
pub const DEFAULT_MAX_TURNS: u32 = 20;

/// The state of one run of the loop.
pub struct AgentRun {
    messages: Vec<ChatMessage>,
    usage: Usage,
    parts: Vec<Part>,
    turn: u32,
    max_turns: u32,
    stage: Stage,
    response: Response,
    calls: Vec<ToolCall>,
    results: Vec<ToolResult>,
    replies: Ghost<Seq<(ResponseView, Usage)>>,
}

pub struct AgentRunView {
    /// The conversation sent to the client on the next `Chat`.
    pub messages: Seq<ChatMessageView>,
    /// Usage accumulated over all replies so far.
    pub usage: Usage,
    /// All parts of all replies so far, in order.
    pub parts: Seq<PartView>,
    /// The current turn (0-based).
    pub turn: nat,
    pub max_turns: nat,
    pub stage: Stage,
    /// The reply whose tool calls are being handled.
    pub response: ResponseView,
    /// Its tool calls.
    pub calls: Seq<ToolCallView>,
    /// The results of the calls handled so far.
    pub results: Seq<ToolResultView>,
    /// Every reply received, with its usage, in order.
    pub replies: Seq<(ResponseView, Usage)>,
}

impl View for AgentRun {
    type V = AgentRunView;

    closed spec fn view(&self) -> AgentRunView {
        AgentRunView {
            messages: messages_view(self.messages@),
            usage: self.usage,
            parts: parts_view(self.parts@),
            turn: self.turn as nat,
            max_turns: self.max_turns as nat,
            stage: self.stage,
            response: self.response@,
            calls: calls_view(self.calls@),
            results: results_view(self.results@),
            replies: self.replies@,
        }
    }
}

/// All parts of the given replies, in order.
pub open spec fn replied_parts(replies: Seq<(ResponseView, Usage)>) -> Seq<PartView>
    decreases replies.len(),
{
    if replies.len() == 0 {
        Seq::empty()
    } else {
        replied_parts(replies.drop_last()) + replies.last().0.parts
    }
}

/// The input, output and reasoning tokens of the given replies, summed.
pub open spec fn replied_tokens(replies: Seq<(ResponseView, Usage)>) -> (int, int, int)
    decreases replies.len(),
{
    if replies.len() == 0 {
        (0, 0, 0)
    } else {
        let (i, o, r) = replied_tokens(replies.drop_last());
        let u = replies.last().1;
        (i + u.input_tokens, o + u.output_tokens, r + u.reasoning_tokens)
    }
}

/// What holds of a run at every step.
pub open spec fn run_inv(s: AgentRunView) -> bool {
    &&& s.max_turns <= u32::MAX
    &&& s.turn <= s.max_turns
    &&& s.replies.len() <= s.max_turns
    &&& s.parts == replied_parts(s.replies)
    &&& replied_tokens(s.replies) == (
        s.usage.input_tokens as int,
        s.usage.output_tokens as int,
        s.usage.reasoning_tokens as int,
    )
    &&& match s.stage {
        Stage::AwaitReply => {
            &&& s.turn < s.max_turns
            &&& s.replies.len() == s.turn
        },
        Stage::AwaitDecision | Stage::AwaitOutput => {
            &&& s.turn < s.max_turns
            &&& s.replies.len() == s.turn + 1
            &&& s.response == s.replies.last().0
            &&& s.calls == calls_in(s.response.parts)
            &&& s.results.len() < s.calls.len()
            &&& forall|i: int|
                0 <= i < s.results.len() ==> (#[trigger] s.results[i]).tool_call_id
                    == s.calls[i].id
        },
        Stage::Finished => true,
    }
}

/// Which events a run can take where it stands.
pub open spec fn accepts(s: AgentRunView, e: EventView) -> bool {
    match e {
        EventView::Replied(_, u) => s.stage == Stage::AwaitReply && usage_sum_fits(s.usage, u),
        EventView::Decided(_) => s.stage == Stage::AwaitDecision,
        EventView::Executed(_) => s.stage == Stage::AwaitOutput,
    }
}

/// The tool call being handled.
pub open spec fn current_call(s: AgentRunView) -> ToolCallView {
    s.calls[s.results.len() as int]
}

pub open spec fn check_current(s: AgentRunView) -> ActionView {
    ActionView::CheckHook {
        tool_name: current_call(s).function.name,
        arguments: current_call(s).function.arguments,
        turn: s.turn,
    }
}

pub open spec fn empty_response() -> ResponseView {
    ResponseView { parts: Seq::empty(), finish_reason: Seq::empty() }
}

/// A run before its first step.
pub open spec fn initial_run(system_prompt: Option<Seq<char>>, prompt: Seq<char>, max_turns: nat) -> AgentRunView {
    AgentRunView {
        messages: initial_messages(system_prompt, prompt),
        usage: usage_zero(),
        parts: Seq::empty(),
        turn: 0,
        max_turns,
        stage: if max_turns > 0 { Stage::AwaitReply } else { Stage::Finished },
        response: empty_response(),
        calls: Seq::empty(),
        results: Seq::empty(),
        replies: Seq::empty(),
    }
}

/// The first action of a run: ask the client, or fail at once when no turn is allowed.
pub open spec fn initial_action(max_turns: nat) -> ActionView {
    if max_turns > 0 {
        ActionView::Chat
    } else {
        ActionView::Fail(LoopError::MaxTurnsExceeded(0))
    }
}

/// The current call has produced `output`: record it, then go on to the next call,
/// or, after the turn's last call, feed the turn back and start the next turn.
pub open spec fn record_result(s: AgentRunView, output: Seq<char>) -> (AgentRunView, ActionView) {
    let results = s.results.push(ToolResultView { tool_call_id: current_call(s).id, output });
    if results.len() < s.calls.len() {
        let s2 = AgentRunView { results, stage: Stage::AwaitDecision, ..s };
        (s2, check_current(s2))
    } else {
        let messages = s.messages + turn_messages(s.response, results);
        let turn = s.turn + 1;
        if turn < s.max_turns {
            (
                AgentRunView { messages, turn, results: Seq::empty(), stage: Stage::AwaitReply, ..s },
                ActionView::Chat,
            )
        } else {
            (
                AgentRunView { messages, turn, results: Seq::empty(), stage: Stage::Finished, ..s },
                ActionView::Fail(LoopError::MaxTurnsExceeded(s.max_turns as u32)),
            )
        }
    }
}

/// One step of a run.
pub open spec fn transition(s: AgentRunView, e: EventView) -> (AgentRunView, ActionView) {
    match e {
        EventView::Replied(r, u) => {
            let usage = usage_sum(s.usage, u);
            let parts = s.parts + r.parts;
            let replies = s.replies.push((r, u));
            if !has_tool_use_part(r.parts) {
                (
                    AgentRunView { usage, parts, replies, stage: Stage::Finished, ..s },
                    ActionView::Finish { parts, usage },
                )
            } else {
                let s2 = AgentRunView {
                    usage,
                    parts,
                    replies,
                    stage: Stage::AwaitDecision,
                    response: r,
                    calls: calls_in(r.parts),
                    results: Seq::empty(),
                    ..s
                };
                (s2, check_current(s2))
            }
        },
        EventView::Decided(d) => match decision_output(d) {
            None => (
                AgentRunView { stage: Stage::AwaitOutput, ..s },
                ActionView::Execute {
                    tool_name: current_call(s).function.name,
                    arguments: current_call(s).function.arguments,
                },
            ),
            Some(output) => record_result(s, output),
        },
        EventView::Executed(output) => record_result(s, output),
    }
}

proof fn lemma_record_keeps_inv(s: AgentRunView, output: Seq<char>)
    requires
        run_inv(s),
        s.stage == Stage::AwaitDecision || s.stage == Stage::AwaitOutput,
    ensures
        run_inv(record_result(s, output).0),
{
    let results = s.results.push(ToolResultView { tool_call_id: current_call(s).id, output });
    assert forall|i: int| 0 <= i < results.len() implies (#[trigger] results[i]).tool_call_id
        == s.calls[i].id by {
        if i < s.results.len() {
            assert(results[i] == s.results[i]);
        }
    }
}

/// Every step keeps the run's invariant: a run never asks the client more than
/// `max_turns` times, its parts are all the replies' parts in order, its usage is
/// the sum of the replies' usages, and the results of a turn's calls carry the
/// calls' ids in order.
pub proof fn lemma_step_keeps_inv(s: AgentRunView, e: EventView)
    requires
        run_inv(s),
        accepts(s, e),
    ensures
        run_inv(transition(s, e).0),
{
    match e {
        EventView::Replied(r, u) => {
            let replies = s.replies.push((r, u));
            assert(replies.drop_last() =~= s.replies);
            if has_tool_use_part(r.parts) {
                crate::types::lemma_has_tool_calls_iff_calls(r.parts);
            }
        },
        EventView::Decided(d) => {
            if decision_output(d) is Some {
                lemma_record_keeps_inv(s, decision_output(d).unwrap());
            }
        },
        EventView::Executed(output) => {
            lemma_record_keeps_inv(s, output);
        },
    }
}

fn copy_parts(v: &Vec<Part>) -> (r: Vec<Part>)
    ensures
        parts_view(r@) == parts_view(v@),
{
    let mut r: Vec<Part> = Vec::new();
    extend_parts(&mut r, v);
    assert(parts_view(r@) =~= parts_view(v@));
    r
}

impl AgentRun {
    /// Starts a run: the conversation opens with the system prompt, if any, and
    /// the user's prompt; the first action asks the client, unless no turn is
    /// allowed, in which case the run fails at once.
    pub fn start(system_prompt: Option<&str>, prompt: &str, max_turns: u32) -> (r: (
        AgentRun,
        Action,
    ))
        ensures
            r.0@ == initial_run(opt_strref_view(system_prompt), prompt@, max_turns as nat),
            r.1@ == initial_action(max_turns as nat),
            run_inv(r.0@),
    {
        let run = AgentRun {
            messages: build_messages(system_prompt, prompt),
            usage: Usage { input_tokens: 0, output_tokens: 0, reasoning_tokens: 0 },
            parts: Vec::new(),
            turn: 0,
            max_turns,
            stage: if max_turns > 0 {
                Stage::AwaitReply
            } else {
                Stage::Finished
            },
            response: Response { parts: Vec::new(), finish_reason: String::new() },
            calls: Vec::new(),
            results: Vec::new(),
            replies: Ghost(Seq::empty()),
        };
        assert(run@.parts =~= Seq::<PartView>::empty());
        assert(run@.calls =~= Seq::<ToolCallView>::empty());
        assert(run@.results =~= Seq::<ToolResultView>::empty());
        assert(run@.response.parts =~= Seq::<PartView>::empty());
        let action = if max_turns > 0 {
            Action::Chat
        } else {
            Action::Fail(LoopError::MaxTurnsExceeded(0))
        };
        (run, action)
    }

    /// The conversation to send to the client.
    pub fn messages(&self) -> (r: &Vec<ChatMessage>)
        ensures
            messages_view(r@) == self@.messages,
    {
        &self.messages
    }

    /// Whether the run can take `event` where it stands (see `accepts`).
    pub fn accepts(&self, event: &Event) -> (b: bool)
        ensures
            b == accepts(self@, event@),
    {
        match event {
            Event::Replied(_, u) => {
                self.stage == Stage::AwaitReply && u.input_tokens <= u64::MAX - self.usage.input_tokens
                    && u.output_tokens <= u64::MAX - self.usage.output_tokens
                    && u.reasoning_tokens <= u64::MAX - self.usage.reasoning_tokens
            },
            Event::Decided(_) => self.stage == Stage::AwaitDecision,
            Event::Executed(_) => self.stage == Stage::AwaitOutput,
        }
    }

    fn check_current(&self) -> (a: Action)
        requires
            self.results@.len() < self.calls@.len(),
        ensures
            a@ == check_current(self@),
    {
        let c = &self.calls[self.results.len()];
        Action::CheckHook {
            tool_name: c.function.name.clone(),
            arguments: c.function.arguments.clone(),
            turn: self.turn,
        }
    }

    fn record(&mut self, output: String) -> (a: Action)
        requires
            run_inv(old(self)@),
            old(self)@.stage == Stage::AwaitDecision || old(self)@.stage == Stage::AwaitOutput,
        ensures
            (final(self)@, a@) == record_result(old(self)@, output@),
    {
        let ghost s = self@;
        let id = self.calls[self.results.len()].id.clone();
        self.results.push(ToolResult { tool_call_id: id, output });
        assert(results_view(self.results@) =~= s.results.push(
            ToolResultView { tool_call_id: current_call(s).id, output: output@ },
        ));
        if self.results.len() < self.calls.len() {
            self.stage = Stage::AwaitDecision;
            self.check_current()
        } else {
            let mut results: Vec<ToolResult> = Vec::new();
            std::mem::swap(&mut results, &mut self.results);
            append_turn(&mut self.messages, &self.response, results);
            self.turn = self.turn + 1;
            assert(results_view(self.results@) =~= Seq::<ToolResultView>::empty());
            if self.turn < self.max_turns {
                self.stage = Stage::AwaitReply;
                Action::Chat
            } else {
                self.stage = Stage::Finished;
                Action::Fail(LoopError::MaxTurnsExceeded(self.max_turns))
            }
        }
    }

    /// Takes what came of the last action and decides the next one.
    ///
    /// On a reply, its usage is added to the total, its parts are collected, and
    /// a report for the turn observer comes back beside the action: the turn's
    /// index, the reply, and the usage accumulated so far. A
    /// reply without tool calls completes the run. Otherwise each call in turn
    /// goes to the hook: an allowed call is run; a blocked call gets the block's
    /// message as its result; a call that asks for confirmation is denied, with
    /// the reason (and suggestion) as its result. When every call has a result,
    /// the turn is fed back and the next turn asks the client, unless `max_turns`
    /// turns have been used, in which case the run fails.
    pub fn on_event(&mut self, event: Event) -> (r: (Action, Option<TurnReport>))
        requires
            run_inv(old(self)@),
            accepts(old(self)@, event@),
        ensures
            (final(self)@, r.0@) == transition(old(self)@, event@),
            report_view(r.1) == turn_report(old(self)@, event@),
            run_inv(final(self)@),
    {
        proof {
            lemma_step_keeps_inv(self@, event@);
        }
        let ghost s = self@;
        match event {
            Event::Replied(response, usage) => {
                self.usage.accumulate(&usage);
                extend_parts(&mut self.parts, &response.parts);
                self.replies = Ghost(self.replies@.push((response@, usage)));
                let report = TurnReport {
                    turn: self.turn,
                    response: copy_response(&response),
                    usage: Usage {
                        input_tokens: self.usage.input_tokens,
                        output_tokens: self.usage.output_tokens,
                        reasoning_tokens: self.usage.reasoning_tokens,
                    },
                };
                if !response.has_tool_calls() {
                    self.stage = Stage::Finished;
                    let out = AgentOutput {
                        parts: copy_parts(&self.parts),
                        usage: Usage {
                            input_tokens: self.usage.input_tokens,
                            output_tokens: self.usage.output_tokens,
                            reasoning_tokens: self.usage.reasoning_tokens,
                        },
                    };
                    (Action::Finish(out), Some(report))
                } else {
                    let calls = owned_calls(&response);
                    self.calls = calls;
                    self.results = Vec::new();
                    self.response = response;
                    self.stage = Stage::AwaitDecision;
                    assert(results_view(self.results@) =~= Seq::<ToolResultView>::empty());
                    proof {
                        crate::types::lemma_has_tool_calls_iff_calls(self.response@.parts);
                    }
                    (self.check_current(), Some(report))
                }
            },
            Event::Decided(decision) => match decision {
                HookDecision::Allow => {
                    self.stage = Stage::AwaitOutput;
                    let c = &self.calls[self.results.len()];
                    (
                        Action::Execute {
                            tool_name: c.function.name.clone(),
                            arguments: c.function.arguments.clone(),
                        },
                        None,
                    )
                },
                HookDecision::Block(message) => (self.record(message), None),
                HookDecision::Ask { reason, suggestion } => {
                    let s: Option<&str> = match &suggestion {
                        Some(t) => Some(t.as_str()),
                        None => None,
                    };
                    let output = denial(reason.as_str(), s);
                    (self.record(output), None)
                },
            },
            Event::Executed(output) => (self.record(output), None),
        }
    }
}

// ---------------------------------------------------------------------------
// Laws of the loop.

/// The final text of an output is decided by what follows the last tool call:
/// parts without tool calls appended to an output add their text to its final
/// text; in particular, after a turn that ended with a tool call, the final text
/// is exactly the text of the replies that followed.
pub proof fn lemma_final_text_of_appended(p: Seq<PartView>, q: Seq<PartView>)
    requires
        !has_tool_use_part(q),
    ensures
        final_text(p + q) == final_text(p) + joined_text(q),
        p.len() > 0 && p.last() is ToolUse ==> final_text(p + q) == joined_text(q),
    decreases q.len(),
{
    if q.len() == 0 {
        assert(p + q =~= p);
    } else {
        let q1 = q.drop_last();
        assert(!has_tool_use_part(q1)) by {
            if has_tool_use_part(q1) {
                let j = choose|j: int| 0 <= j < q1.len() && #[trigger] q1[j] is ToolUse;
                assert(q[j] is ToolUse);
            }
        }
        assert(!(q.last() is ToolUse)) by {
            if q.last() is ToolUse {
                assert(q[q.len() - 1] is ToolUse);
            }
        }
        lemma_final_text_of_appended(p, q1);
        assert((p + q).drop_last() =~= p + q1);
        assert((p + q).last() == q.last());
        match q.last() {
            PartView::Text(t) => {
                assert(final_text(p) + joined_text(q1) + t =~= final_text(p) + (joined_text(q1)
                    + t));
            },
            _ => {},
        }
    }
    if p.len() > 0 && p.last() is ToolUse {
        assert(final_text(p) =~= Seq::<char>::empty());
        assert(final_text(p) + joined_text(q) =~= joined_text(q));
    }
}

/// When the last call of a turn gets its result, the turn is fed back: the
/// conversation keeps what it had and gains the assistant's message, then one
/// tool message per call of the turn, in the calls' order, each carrying its
/// call's id.
pub proof fn lemma_turn_feeds_back_every_call(s: AgentRunView, output: Seq<char>)
    requires
        run_inv(s),
        s.stage == Stage::AwaitDecision || s.stage == Stage::AwaitOutput,
        s.results.len() + 1 == s.calls.len(),
    ensures
        ({
            let m = record_result(s, output).0.messages;
            let calls = calls_in(s.response.parts);
            &&& m.len() == s.messages.len() + 1 + calls.len()
            &&& m.subrange(0, s.messages.len() as int) == s.messages
            &&& m[s.messages.len() as int] == assistant_message(s.response)
            &&& forall|i: int|
                0 <= i < calls.len() ==> {
                    &&& (#[trigger] m[s.messages.len() + 1 + i]).role == "tool"@
                    &&& m[s.messages.len() + 1 + i].tool_call_id == Some(calls[i].id)
                }
        }),
{
    let results = s.results.push(ToolResultView { tool_call_id: current_call(s).id, output });
    let m = record_result(s, output).0.messages;
    assert(m == s.messages + turn_messages(s.response, results));
    assert(m.subrange(0, s.messages.len() as int) =~= s.messages);
    assert forall|i: int| 0 <= i < s.calls.len() implies {
        &&& (#[trigger] m[s.messages.len() + 1 + i]).role == "tool"@
        &&& m[s.messages.len() + 1 + i].tool_call_id == Some(s.calls[i].id)
    } by {
        assert(m[s.messages.len() + 1 + i] == tool_message(results[i]));
        if i < s.results.len() {
            assert(results[i] == s.results[i]);
        }
    }
}

/// A call that the hook does not allow is never run: its result is the block's
/// message, or the denial, recorded as the call's result (or, when it was the
/// turn's last call, fed back as the turn's last tool message).
pub proof fn lemma_refused_call_not_run(s: AgentRunView, d: DecisionView)
    requires
        run_inv(s),
        s.stage == Stage::AwaitDecision,
        !(d is Allow),
    ensures
        ({
            let (s2, a) = transition(s, EventView::Decided(d));
            let result = ToolResultView {
                tool_call_id: current_call(s).id,
                output: decision_output(d).unwrap(),
            };
            &&& !(a is Execute)
            &&& s.results.len() + 1 < s.calls.len() ==> s2.results.last() == result
            &&& s.results.len() + 1 == s.calls.len() ==> s2.messages.last() == tool_message(
                result,
            )
        }),
{
}

/// A run asks the client at most `max_turns` times: it asks only while fewer
/// replies than that have come, and it fails, with the number of turns in the
/// error, only once all of them were used.
pub proof fn lemma_turn_budget(s: AgentRunView, e: EventView)
    requires
        run_inv(s),
        accepts(s, e),
    ensures
        transition(s, e).1 is Chat ==> transition(s, e).0.replies.len() < s.max_turns,
        transition(s, e).1 is Fail ==> {
            &&& transition(s, e).1 == ActionView::Fail(
                LoopError::MaxTurnsExceeded(s.max_turns as u32),
            )
            &&& transition(s, e).0.replies.len() == s.max_turns
            &&& transition(s, e).0.stage == Stage::Finished
        },
{
}

/// A completed run's output holds every part of every reply, in order, and the
/// sum of every reply's usage.
pub proof fn lemma_output_collects_all_replies(s: AgentRunView, e: EventView)
    requires
        run_inv(s),
        accepts(s, e),
    ensures
        transition(s, e).1 matches ActionView::Finish { parts, usage } ==> {
            let replies = transition(s, e).0.replies;
            &&& parts == replied_parts(replies)
            &&& replied_tokens(replies) == (
                usage.input_tokens as int,
                usage.output_tokens as int,
                usage.reasoning_tokens as int,
            )
        },
{
    lemma_step_keeps_inv(s, e);
}

/// The conversation only grows: what was sent to the client stays as it was.
pub proof fn lemma_conversation_only_grows(s: AgentRunView, e: EventView)
    requires
        run_inv(s),
        accepts(s, e),
    ensures
        s.messages.len() <= transition(s, e).0.messages.len(),
        transition(s, e).0.messages.subrange(0, s.messages.len() as int) == s.messages,
{
    let m = transition(s, e).0.messages;
    assert(m.subrange(0, s.messages.len() as int) =~= s.messages);
}

/// The turn observer is told of every reply and of nothing else: the report
/// carries the reply, its turn's index (the number of replies before it), and
/// the usage summed over all replies so far, this one included.
pub proof fn lemma_report_per_reply(s: AgentRunView, e: EventView)
    requires
        run_inv(s),
        accepts(s, e),
    ensures
        turn_report(s, e) is Some <==> e is Replied,
        turn_report(s, e) matches Some(rep) ==> {
            let replies = transition(s, e).0.replies;
            &&& rep.turn == s.replies.len()
            &&& rep.turn + 1 == replies.len()
            &&& rep.response == replies.last().0
            &&& replied_tokens(replies) == (
                rep.usage.input_tokens as int,
                rep.usage.output_tokens as int,
                rep.usage.reasoning_tokens as int,
            )
        },
{
    lemma_step_keeps_inv(s, e);
}

/// A reply finishes the run exactly when none of its parts is a tool call,
/// whatever its finish reason; a reply with tool calls sends its first call,
/// with the current turn, to the hook.
pub proof fn lemma_reply_finishes_iff_no_calls(s: AgentRunView, r: ResponseView, u: Usage)
    requires
        run_inv(s),
        accepts(s, EventView::Replied(r, u)),
    ensures
        (transition(s, EventView::Replied(r, u)).1 is Finish) == (forall|i: int|
            0 <= i < r.parts.len() ==> !(#[trigger] r.parts[i] is ToolUse)),
        (forall|k: int|
            0 <= k < r.parts.len() && #[trigger] r.parts[k] is ToolUse && (forall|j: int|
                0 <= j < k ==> !(#[trigger] r.parts[j] is ToolUse)) ==> transition(
                s,
                EventView::Replied(r, u),
            ).1 == (ActionView::CheckHook {
                tool_name: r.parts[k]->ToolUse_0.function.name,
                arguments: r.parts[k]->ToolUse_0.function.arguments,
                turn: s.turn,
            })),
{
    assert forall|k: int|
        0 <= k < r.parts.len() && #[trigger] r.parts[k] is ToolUse && (forall|j: int|
            0 <= j < k ==> !(#[trigger] r.parts[j] is ToolUse)) implies transition(
        s,
        EventView::Replied(r, u),
    ).1 == (ActionView::CheckHook {
        tool_name: r.parts[k]->ToolUse_0.function.name,
        arguments: r.parts[k]->ToolUse_0.function.arguments,
        turn: s.turn,
    }) by {
        crate::types::lemma_first_call(r.parts, k);
    }
}

/// The assistant message a turn feeds back carries the reply's text, every text
/// part's characters in order and never a reasoning part's, or no content when
/// the reply has no text part, and every one of the reply's tool calls in order;
/// one tool message per result follows it.
pub proof fn lemma_feedback_assistant_message(response: ResponseView, results: Seq<ToolResultView>)
    ensures
        ({
            let m = turn_messages(response, results)[0];
            &&& turn_messages(response, results).len() == results.len() + 1
            &&& m.role == "assistant"@
            &&& m.tool_call_id is None
            &&& (m.content is None <==> (forall|i: int|
                0 <= i < response.parts.len() ==> !(#[trigger] response.parts[i] is Text)))
            &&& (m.content is Some ==> m.content->0 == response.parts.filter(
                crate::types::is_text(),
            ).map_values(crate::types::chars_of()).flatten())
            &&& m.tool_calls == Some(
                response.parts.filter(crate::types::is_tool_use()).map_values(
                    crate::types::call_of(),
                ),
            )
            &&& forall|i: int|
                0 <= i < results.len() ==> {
                    let t = #[trigger] turn_messages(response, results)[i + 1];
                    &&& t.role == "tool"@
                    &&& t.content == Some(results[i].output)
                    &&& t.tool_call_id == Some(results[i].tool_call_id)
                    &&& t.tool_calls is None
                }
        }),
{
    crate::types::lemma_text_gathers_every_text_part(response.parts);
    crate::types::lemma_calls_are_every_tool_use_part(response.parts);
}

/// The final text of an output is the text of the parts after its last tool
/// call (all its text parts when it has no tool call), in order, reasoning
/// parts left out.
pub proof fn lemma_final_text_is_text_after_last_call(parts: Seq<PartView>)
    ensures
        (forall|i: int| 0 <= i < parts.len() ==> !(#[trigger] parts[i] is ToolUse)) ==> final_text(
            parts,
        ) == parts.filter(crate::types::is_text()).map_values(crate::types::chars_of()).flatten(),
        forall|k: int|
            0 <= k < parts.len() && #[trigger] parts[k] is ToolUse && (forall|j: int|
                k < j < parts.len() ==> !(#[trigger] parts[j] is ToolUse)) ==> final_text(parts)
                == parts.skip(k + 1).filter(crate::types::is_text()).map_values(
                crate::types::chars_of(),
            ).flatten(),
{
    if forall|i: int| 0 <= i < parts.len() ==> !(#[trigger] parts[i] is ToolUse) {
        assert(!has_tool_use_part(parts));
        lemma_final_text_of_appended(Seq::empty(), parts);
        assert(Seq::<PartView>::empty() + parts =~= parts);
        assert(final_text(Seq::<PartView>::empty()) == Seq::<char>::empty());
        assert(Seq::<char>::empty() + joined_text(parts) =~= joined_text(parts));
        crate::types::lemma_text_gathers_every_text_part(parts);
    }
    assert forall|k: int|
        0 <= k < parts.len() && #[trigger] parts[k] is ToolUse && (forall|j: int|
            k < j < parts.len() ==> !(#[trigger] parts[j] is ToolUse)) implies final_text(parts)
        == parts.skip(k + 1).filter(crate::types::is_text()).map_values(
        crate::types::chars_of(),
    ).flatten() by {
        let p = parts.take(k + 1);
        let q = parts.skip(k + 1);
        assert(p + q =~= parts);
        assert(!has_tool_use_part(q)) by {
            if has_tool_use_part(q) {
                let j = choose|j: int| 0 <= j < q.len() && #[trigger] q[j] is ToolUse;
                assert(q[j] == parts[k + 1 + j]);
                assert(parts[k + 1 + j] is ToolUse);
            }
        }
        assert(p.last() == parts[k]);
        lemma_final_text_of_appended(p, q);
        crate::types::lemma_text_gathers_every_text_part(q);
    }
}

/// Every hook check and every tool run that a step asks for concerns the call
/// of the reply being handled whose position is the number of results already
/// recorded (the calls being the reply's tool-call parts in order), and a hook
/// check carries the turn of that reply.
pub proof fn lemma_tool_work_follows_reply_calls(s: AgentRunView, e: EventView)
    requires
        run_inv(s),
        accepts(s, e),
    ensures
        ({
            let (s2, a) = transition(s, e);
            let calls = s2.replies.last().0.parts.filter(crate::types::is_tool_use()).map_values(
                crate::types::call_of(),
            );
            &&& (a is CheckHook ==> {
                &&& s2.stage == Stage::AwaitDecision
                &&& s2.results.len() < calls.len()
                &&& a->CheckHook_tool_name == calls[s2.results.len() as int].function.name
                &&& a->CheckHook_arguments == calls[s2.results.len() as int].function.arguments
                &&& a->CheckHook_turn + 1 == s2.replies.len()
            })
            &&& (a is Execute ==> {
                &&& s2.stage == Stage::AwaitOutput
                &&& s2.results.len() < calls.len()
                &&& a->Execute_tool_name == calls[s2.results.len() as int].function.name
                &&& a->Execute_arguments == calls[s2.results.len() as int].function.arguments
            })
        }),
{
    lemma_step_keeps_inv(s, e);
    let s2 = transition(s, e).0;
    crate::types::lemma_calls_are_every_tool_use_part(s2.replies.last().0.parts);
}

/// A tool's output is recorded as the result of the call being handled, under
/// that call's id (or, when it was the turn's last call, fed back as the
/// turn's last tool message).
pub proof fn lemma_output_recorded_for_current_call(s: AgentRunView, output: Seq<char>)
    requires
        run_inv(s),
        s.stage == Stage::AwaitOutput,
    ensures
        ({
            let (s2, a) = transition(s, EventView::Executed(output));
            let result = ToolResultView { tool_call_id: s.calls[s.results.len() as int].id, output };
            &&& s.results.len() + 1 < s.calls.len() ==> s2.results.last() == result
            &&& s.results.len() + 1 == s.calls.len() ==> s2.messages.last() == tool_message(
                result,
            )
        }),
{
}

/// The value of a sequence of decimal digits.
pub open spec fn digits_value(ds: Seq<char>) -> int
    decreases ds.len(),
{
    if ds.len() == 0 {
        0
    } else {
        digits_value(ds.drop_last()) * 10 + (ds.last() as int - 48)
    }
}

/// `decimal(n)` is `n` written in decimal: only digits, no leading zero, and
/// their value is `n`.
pub proof fn lemma_decimal_reads_back(n: nat)
    ensures
        decimal(n).len() > 0,
        forall|i: int| 0 <= i < decimal(n).len() ==> '0' <= #[trigger] decimal(n)[i] <= '9',
        decimal(n)[0] != '0' || n == 0,
        digits_value(decimal(n)) == n,
    decreases n,
{
    if n < 10 {
        assert(digits_value(decimal(n)) == digits_value(decimal(n).drop_last()) * 10 + (
        decimal(n).last() as int - 48));
        assert(decimal(n).drop_last() =~= Seq::<char>::empty());
    } else {
        lemma_decimal_reads_back(n / 10);
        let d = decimal(n / 10);
        assert(decimal(n).drop_last() =~= d);
        assert forall|i: int| 0 <= i < decimal(n).len() implies '0' <= #[trigger] decimal(n)[i]
            <= '9' by {
            if i < d.len() {
                assert(decimal(n)[i] == d[i]);
            }
        }
        assert(decimal(n)[0] == d[0]);
    }
}

/// The opening conversation is the user's prompt, preceded by the system
/// prompt when there is one; neither carries tool calls or a call id.
pub proof fn lemma_opening_conversation(system_prompt: Option<Seq<char>>, prompt: Seq<char>)
    ensures
        ({
            let m = initial_messages(system_prompt, prompt);
            &&& m.len() == if system_prompt is Some { 2int } else { 1int }
            &&& m.last().role == "user"@
            &&& m.last().content == Some(prompt)
            &&& (system_prompt matches Some(sp) ==> m[0].role == "system"@ && m[0].content == Some(
                sp,
            ))
            &&& forall|i: int|
                0 <= i < m.len() ==> (#[trigger] m[i]).tool_calls is None && m[i].tool_call_id is None
        }),
{
}

} // verus!
