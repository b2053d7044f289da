use vstd::prelude::*;

verus! {

/// A chat message in the conversation.
#[derive(Clone, Debug)]
pub struct ChatMessage {
    pub role: String,
    pub content: Option<String>,
    pub tool_calls: Option<Vec<ToolCall>>,
    pub tool_call_id: Option<String>,
}

/// A tool call requested by the model.
#[derive(Clone, Debug)]
pub struct ToolCall {
    pub id: String,
    /// The call's kind; it goes over the wire under the name `type`.
    pub call_type: String,
    pub function: FunctionCall,
}

/// The function that a tool call names, with its arguments as the model wrote them.
#[derive(Clone, Debug)]
pub struct FunctionCall {
    pub name: String,
    pub arguments: String,
}

/// Result of executing a tool, ready to feed back to the model.
#[derive(Clone, Debug)]
pub struct ToolResult {
    pub tool_call_id: String,
    pub output: String,
}

/// A typed part of a model response.
#[derive(Clone, Debug)]
pub enum Part {
    /// Text output from the model.
    Text(String),
    /// Extended thinking / reasoning.
    Reasoning(String),
    /// Tool call request.
    ToolUse(ToolCall),
}

/// What the model returned for a single turn: a list of parts.
#[derive(Clone, Debug)]
pub struct Response {
    pub parts: Vec<Part>,
    /// Why the model stopped: "stop", "tool_calls", "length", etc.
    pub finish_reason: String,
}

// ---------------------------------------------------------------------------
// Mathematical models of the message types: every string is its sequence of
// characters.

pub struct FunctionCallView {
    pub name: Seq<char>,
    pub arguments: Seq<char>,
}

pub struct ToolCallView {
    pub id: Seq<char>,
    pub call_type: Seq<char>,
    pub function: FunctionCallView,
}

pub enum PartView {
    Text(Seq<char>),
    Reasoning(Seq<char>),
    ToolUse(ToolCallView),
}

pub struct ResponseView {
    pub parts: Seq<PartView>,
    pub finish_reason: Seq<char>,
}

pub struct ChatMessageView {
    pub role: Seq<char>,
    pub content: Option<Seq<char>>,
    pub tool_calls: Option<Seq<ToolCallView>>,
    pub tool_call_id: Option<Seq<char>>,
}

pub struct ToolResultView {
    pub tool_call_id: Seq<char>,
    pub output: Seq<char>,
}

impl View for FunctionCall {
    type V = FunctionCallView;

    open spec fn view(&self) -> FunctionCallView {
        FunctionCallView { name: self.name@, arguments: self.arguments@ }
    }
}

impl View for ToolCall {
    type V = ToolCallView;

    open spec fn view(&self) -> ToolCallView {
        ToolCallView { id: self.id@, call_type: self.call_type@, function: self.function@ }
    }
}

impl View for Part {
    type V = PartView;

    open spec fn view(&self) -> PartView {
        match self {
            Part::Text(t) => PartView::Text(t@),
            Part::Reasoning(t) => PartView::Reasoning(t@),
            Part::ToolUse(c) => PartView::ToolUse(c@),
        }
    }
}

impl View for Response {
    type V = ResponseView;

    open spec fn view(&self) -> ResponseView {
        ResponseView { parts: parts_view(self.parts@), finish_reason: self.finish_reason@ }
    }
}

impl View for ChatMessage {
    type V = ChatMessageView;

    open spec fn view(&self) -> ChatMessageView {
        ChatMessageView {
            role: self.role@,
            content: opt_str_view(self.content),
            tool_calls: match self.tool_calls {
                Some(v) => Some(calls_view(v@)),
                None => None,
            },
            tool_call_id: opt_str_view(self.tool_call_id),
        }
    }
}

impl View for ToolResult {
    type V = ToolResultView;

    open spec fn view(&self) -> ToolResultView {
        ToolResultView { tool_call_id: self.tool_call_id@, output: self.output@ }
    }
}

pub open spec fn opt_str_view(o: Option<String>) -> Option<Seq<char>> {
    match o {
        Some(s) => Some(s@),
        None => None,
    }
}

pub open spec fn parts_view(parts: Seq<Part>) -> Seq<PartView> {
    parts.map_values(|p: Part| p@)
}

pub open spec fn calls_view(calls: Seq<ToolCall>) -> Seq<ToolCallView> {
    calls.map_values(|c: ToolCall| c@)
}

pub open spec fn messages_view(messages: Seq<ChatMessage>) -> Seq<ChatMessageView> {
    messages.map_values(|m: ChatMessage| m@)
}

pub open spec fn results_view(results: Seq<ToolResult>) -> Seq<ToolResultView> {
    results.map_values(|r: ToolResult| r@)
}

// ---------------------------------------------------------------------------
// What a response says, read off its parts.

/// The text parts, concatenated in order.
pub open spec fn joined_text(parts: Seq<PartView>) -> Seq<char>
    decreases parts.len(),
{
    if parts.len() == 0 {
        Seq::empty()
    } else {
        let rest = joined_text(parts.drop_last());
        match parts.last() {
            PartView::Text(t) => rest + t,
            _ => rest,
        }
    }
}

/// The reasoning parts, concatenated in order.
pub open spec fn joined_reasoning(parts: Seq<PartView>) -> Seq<char>
    decreases parts.len(),
{
    if parts.len() == 0 {
        Seq::empty()
    } else {
        let rest = joined_reasoning(parts.drop_last());
        match parts.last() {
            PartView::Reasoning(t) => rest + t,
            _ => rest,
        }
    }
}

/// The tool calls, in order.
pub open spec fn calls_in(parts: Seq<PartView>) -> Seq<ToolCallView>
    decreases parts.len(),
{
    if parts.len() == 0 {
        Seq::empty()
    } else {
        let rest = calls_in(parts.drop_last());
        match parts.last() {
            PartView::ToolUse(c) => rest.push(c),
            _ => rest,
        }
    }
}

pub open spec fn has_text_part(parts: Seq<PartView>) -> bool {
    exists|i: int| 0 <= i < parts.len() && #[trigger] parts[i] is Text
}

pub open spec fn has_reasoning_part(parts: Seq<PartView>) -> bool {
    exists|i: int| 0 <= i < parts.len() && #[trigger] parts[i] is Reasoning
}

pub open spec fn has_tool_use_part(parts: Seq<PartView>) -> bool {
    exists|i: int| 0 <= i < parts.len() && #[trigger] parts[i] is ToolUse
}

/// `Response::text` as a value: the concatenated text parts, or `None` when there are none.
pub open spec fn text_of(parts: Seq<PartView>) -> Option<Seq<char>> {
    if has_text_part(parts) {
        Some(joined_text(parts))
    } else {
        None
    }
}

/// `Response::reasoning` as a value.
pub open spec fn reasoning_of(parts: Seq<PartView>) -> Option<Seq<char>> {
    if has_reasoning_part(parts) {
        Some(joined_reasoning(parts))
    } else {
        None
    }
}

/// Token usage for a single API call.
#[derive(Debug, Clone)]
pub struct Usage {
    pub input_tokens: u64,
    pub output_tokens: u64,
    pub reasoning_tokens: u64,
}

/// Whether adding `b` to `a` field by field stays within `u64`.
pub open spec fn usage_sum_fits(a: Usage, b: Usage) -> bool {
    &&& a.input_tokens + b.input_tokens <= u64::MAX
    &&& a.output_tokens + b.output_tokens <= u64::MAX
    &&& a.reasoning_tokens + b.reasoning_tokens <= u64::MAX
}

/// The field-by-field sum of two usages (meaningful when `usage_sum_fits(a, b)`).
pub open spec fn usage_sum(a: Usage, b: Usage) -> Usage {
    Usage {
        input_tokens: (a.input_tokens + b.input_tokens) as u64,
        output_tokens: (a.output_tokens + b.output_tokens) as u64,
        reasoning_tokens: (a.reasoning_tokens + b.reasoning_tokens) as u64,
    }
}

pub open spec fn usage_zero() -> Usage {
    Usage { input_tokens: 0, output_tokens: 0, reasoning_tokens: 0 }
}

impl Default for Usage {
    fn default() -> (u: Usage)
        ensures
            u == usage_zero(),
    {
        Usage { input_tokens: 0, output_tokens: 0, reasoning_tokens: 0 }
    }
}

impl Usage {
    /// Adds the counts of `other` to `self`, field by field.
    pub fn accumulate(&mut self, other: &Usage)
        requires
            usage_sum_fits(*old(self), *other),
        ensures
            *final(self) == usage_sum(*old(self), *other),
    {
        self.input_tokens = self.input_tokens + other.input_tokens;
        self.output_tokens = self.output_tokens + other.output_tokens;
        self.reasoning_tokens = self.reasoning_tokens + other.reasoning_tokens;
    }
}

impl Response {
    /// Extract all text parts concatenated.
    pub fn text(&self) -> (r: Option<String>)
        ensures
            opt_str_view(r) == text_of(self@.parts),
    {
        let ghost pv = self@.parts;
        let mut out = String::new();
        let mut found = false;
        let mut i: usize = 0;
        while i < self.parts.len()
            invariant
                i <= self.parts.len(),
                pv == parts_view(self.parts@),
                out@ == joined_text(pv.take(i as int)),
                found == has_text_part(pv.take(i as int)),
            decreases self.parts.len() - i,
        {
            let ghost prev = pv.take(i as int);
            let ghost next = pv.take(i + 1);
            assert(next.drop_last() =~= prev);
            match &self.parts[i] {
                Part::Text(t) => {
                    out.append(t.as_str());
                    found = true;
                    assert(next[i as int] is Text);
                },
                _ => {
                    assert(has_text_part(next) ==> has_text_part(prev)) by {
                        if has_text_part(next) {
                            let j = choose|j: int| 0 <= j < next.len() && #[trigger] next[j] is Text;
                            assert(prev[j] is Text);
                        }
                    }
                },
            }
            i = i + 1;
        }
        assert(pv.take(i as int) =~= pv);
        if found {
            Some(out)
        } else {
            None
        }
    }

    /// Extract all reasoning parts concatenated.
    pub fn reasoning(&self) -> (r: Option<String>)
        ensures
            opt_str_view(r) == reasoning_of(self@.parts),
    {
        let ghost pv = self@.parts;
        let mut out = String::new();
        let mut found = false;
        let mut i: usize = 0;
        while i < self.parts.len()
            invariant
                i <= self.parts.len(),
                pv == parts_view(self.parts@),
                out@ == joined_reasoning(pv.take(i as int)),
                found == has_reasoning_part(pv.take(i as int)),
            decreases self.parts.len() - i,
        {
            let ghost prev = pv.take(i as int);
            let ghost next = pv.take(i + 1);
            assert(next.drop_last() =~= prev);
            match &self.parts[i] {
                Part::Reasoning(t) => {
                    out.append(t.as_str());
                    found = true;
                    assert(next[i as int] is Reasoning);
                },
                _ => {
                    assert(has_reasoning_part(next) ==> has_reasoning_part(prev)) by {
                        if has_reasoning_part(next) {
                            let j = choose|j: int|
                                0 <= j < next.len() && #[trigger] next[j] is Reasoning;
                            assert(prev[j] is Reasoning);
                        }
                    }
                },
            }
            i = i + 1;
        }
        assert(pv.take(i as int) =~= pv);
        if found {
            Some(out)
        } else {
            None
        }
    }

    /// Extract all tool calls, in order.
    pub fn tool_calls(&self) -> (r: Vec<&ToolCall>)
        ensures
            r@.map_values(|c: &ToolCall| c@) == calls_in(self@.parts),
    {
        let ghost pv = self@.parts;
        let mut out: Vec<&ToolCall> = Vec::new();
        let mut i: usize = 0;
        while i < self.parts.len()
            invariant
                i <= self.parts.len(),
                pv == parts_view(self.parts@),
                out@.map_values(|c: &ToolCall| c@) == calls_in(pv.take(i as int)),
            decreases self.parts.len() - i,
        {
            let ghost prev = pv.take(i as int);
            let ghost next = pv.take(i + 1);
            assert(next.drop_last() =~= prev);
            match &self.parts[i] {
                Part::ToolUse(c) => {
                    let ghost before = out@;
                    out.push(c);
                    assert(out@.map_values(|c: &ToolCall| c@) =~= before.map_values(
                        |c: &ToolCall| c@,
                    ).push(c@));
                },
                _ => {},
            }
            i = i + 1;
        }
        assert(pv.take(i as int) =~= pv);
        out
    }

    /// Whether the model wants to continue (has tool calls).
    pub fn has_tool_calls(&self) -> (r: bool)
        ensures
            r == has_tool_use_part(self@.parts),
    {
        let ghost pv = self@.parts;
        let mut i: usize = 0;
        while i < self.parts.len()
            invariant
                i <= self.parts.len(),
                pv == parts_view(self.parts@),
                forall|j: int| 0 <= j < i ==> !(#[trigger] pv[j] is ToolUse),
            decreases self.parts.len() - i,
        {
            if let Part::ToolUse(_) = &self.parts[i] {
                assert(pv[i as int] is ToolUse);
                return true;
            }
            i = i + 1;
        }
        false
    }
}

// ---------------------------------------------------------------------------
// Copies whose contents are known to equal the original.

pub(crate) fn copy_tool_call(c: &ToolCall) -> (r: ToolCall)
    ensures
        r@ == c@,
{
    ToolCall {
        id: c.id.clone(),
        call_type: c.call_type.clone(),
        function: FunctionCall {
            name: c.function.name.clone(),
            arguments: c.function.arguments.clone(),
        },
    }
}

pub(crate) fn copy_part(p: &Part) -> (r: Part)
    ensures
        r@ == p@,
{
    match p {
        Part::Text(t) => Part::Text(t.clone()),
        Part::Reasoning(t) => Part::Reasoning(t.clone()),
        Part::ToolUse(c) => Part::ToolUse(copy_tool_call(c)),
    }
}

/// Appends copies of `src`'s parts to `dst`, in order.
pub(crate) fn extend_parts(dst: &mut Vec<Part>, src: &Vec<Part>)
    ensures
        parts_view(final(dst)@) == parts_view(old(dst)@) + parts_view(src@),
{
    let mut i: usize = 0;
    while i < src.len()
        invariant
            i <= src.len(),
            parts_view(dst@) == parts_view(old(dst)@) + parts_view(src@).take(i as int),
        decreases src.len() - i,
    {
        let ghost before = dst@;
        dst.push(copy_part(&src[i]));
        assert(parts_view(dst@) =~= parts_view(before).push(src@[i as int]@));
        assert(parts_view(src@).take(i + 1) =~= parts_view(src@).take(i as int).push(
            src@[i as int]@,
        ));
        i = i + 1;
    }
    assert(parts_view(src@).take(i as int) =~= parts_view(src@));
}

/// Owned copies of a response's tool calls, in order.
pub(crate) fn owned_calls(response: &Response) -> (r: Vec<ToolCall>)
    ensures
        calls_view(r@) == calls_in(response@.parts),
{
    let refs = response.tool_calls();
    let mut calls: Vec<ToolCall> = Vec::new();
    let mut i: usize = 0;
    while i < refs.len()
        invariant
            i <= refs.len(),
            calls_view(calls@) == refs@.map_values(|c: &ToolCall| c@).take(i as int),
        decreases refs.len() - i,
    {
        let ghost before = calls@;
        calls.push(copy_tool_call(refs[i]));
        assert(calls_view(calls@) =~= calls_view(before).push(refs@[i as int]@));
        assert(refs@.map_values(|c: &ToolCall| c@).take(i + 1) =~= refs@.map_values(
            |c: &ToolCall| c@,
        ).take(i as int).push(refs@[i as int]@));
        i = i + 1;
    }
    assert(refs@.map_values(|c: &ToolCall| c@).take(i as int) =~= refs@.map_values(
        |c: &ToolCall| c@,
    ));
    calls
}

/// A copy of a response whose contents are known to equal the original's.
pub(crate) fn copy_response(r: &Response) -> (c: Response)
    ensures
        c@ == r@,
{
    let mut parts: Vec<Part> = Vec::new();
    extend_parts(&mut parts, &r.parts);
    assert(parts_view(parts@) =~= parts_view(r.parts@));
    Response { parts, finish_reason: r.finish_reason.clone() }
}

/// Whether a response asks for a tool call exactly when it lists one.
pub proof fn lemma_has_tool_calls_iff_calls(parts: Seq<PartView>)
    ensures
        has_tool_use_part(parts) <==> calls_in(parts).len() > 0,
    decreases parts.len(),
{
    if parts.len() > 0 {
        let rest = parts.drop_last();
        lemma_has_tool_calls_iff_calls(rest);
        if has_tool_use_part(rest) {
            let j = choose|j: int| 0 <= j < rest.len() && #[trigger] rest[j] is ToolUse;
            assert(parts[j] is ToolUse);
        }
        if has_tool_use_part(parts) && !(parts.last() is ToolUse) {
            let j = choose|j: int| 0 <= j < parts.len() && #[trigger] parts[j] is ToolUse;
            assert(rest[j] is ToolUse);
        }
        if parts.last() is ToolUse {
            assert(parts[parts.len() - 1] is ToolUse);
        }
    }
}

// ---------------------------------------------------------------------------
// Laws: what a response's text, reasoning and tool calls are, said by filtering
// its parts.

/// Which parts are text.
pub open spec fn is_text() -> spec_fn(PartView) -> bool {
    |p: PartView| p is Text
}

/// Which parts are reasoning.
pub open spec fn is_reasoning() -> spec_fn(PartView) -> bool {
    |p: PartView| p is Reasoning
}

/// Which parts are tool calls.
pub open spec fn is_tool_use() -> spec_fn(PartView) -> bool {
    |p: PartView| p is ToolUse
}

/// The characters a text or reasoning part carries.
pub open spec fn chars_of() -> spec_fn(PartView) -> Seq<char> {
    |p: PartView|
        match p {
            PartView::Text(t) => t,
            PartView::Reasoning(t) => t,
            PartView::ToolUse(_) => Seq::empty(),
        }
}

/// The call a tool-call part carries.
pub open spec fn call_of() -> spec_fn(PartView) -> ToolCallView {
    |p: PartView|
        match p {
            PartView::ToolUse(c) => c,
            _ => ToolCallView {
                id: Seq::empty(),
                call_type: Seq::empty(),
                function: FunctionCallView { name: Seq::empty(), arguments: Seq::empty() },
            },
        }
}

proof fn lemma_filter_last(parts: Seq<PartView>, pred: spec_fn(PartView) -> bool)
    requires
        parts.len() > 0,
    ensures
        parts.filter(pred) == if pred(parts.last()) {
            parts.drop_last().filter(pred).push(parts.last())
        } else {
            parts.drop_last().filter(pred)
        },
{
    assert(parts == parts.drop_last().push(parts.last()));
    parts.drop_last().lemma_filter_push(parts.last(), pred);
}

proof fn lemma_chars_push(kept: Seq<PartView>, x: PartView)
    ensures
        kept.push(x).map_values(chars_of()).flatten() == kept.map_values(chars_of()).flatten()
            + chars_of()(x),
{
    assert(kept.push(x).map_values(chars_of()) =~= kept.map_values(chars_of()).push(
        chars_of()(x),
    ));
    kept.map_values(chars_of()).lemma_flatten_push(chars_of()(x));
}

proof fn lemma_filter_empty(parts: Seq<PartView>, pred: spec_fn(PartView) -> bool)
    requires
        parts.len() == 0,
    ensures
        parts.filter(pred).len() == 0,
{
    reveal(Seq::filter);
}

/// A response's text is every text part's characters, in order, wherever the
/// reasoning and tool-call parts stand; it is `None` exactly when no part is text.
pub proof fn lemma_text_gathers_every_text_part(parts: Seq<PartView>)
    ensures
        text_of(parts) is None <==> (forall|i: int| 0 <= i < parts.len() ==> !(#[trigger] parts[i] is Text)),
        text_of(parts) is Some ==> text_of(parts)->0 == parts.filter(is_text()).map_values(
            chars_of(),
        ).flatten(),
        joined_text(parts) == parts.filter(is_text()).map_values(chars_of()).flatten(),
    decreases parts.len(),
{
    if parts.len() == 0 {
        lemma_filter_empty(parts, is_text());
        assert(parts.filter(is_text()).map_values(chars_of()) =~= Seq::<Seq<char>>::empty());
    } else {
        let d = parts.drop_last();
        lemma_text_gathers_every_text_part(d);
        lemma_filter_last(parts, is_text());
        lemma_chars_push(d.filter(is_text()), parts.last());
        if has_text_part(d) {
            let j = choose|j: int| 0 <= j < d.len() && #[trigger] d[j] is Text;
            assert(parts[j] is Text);
        } else {
            lemma_filter_empty_when_none(d, is_text());
            assert(d.filter(is_text()).map_values(chars_of()) =~= Seq::<Seq<char>>::empty());
        }
        if parts.last() is Text {
            assert(parts[parts.len() - 1] is Text);
        }
        if has_text_part(parts) && !(parts.last() is Text) {
            let j = choose|j: int| 0 <= j < parts.len() && #[trigger] parts[j] is Text;
            assert(d[j] is Text);
        }
    }
}

proof fn lemma_filter_empty_when_none(parts: Seq<PartView>, pred: spec_fn(PartView) -> bool)
    requires
        forall|i: int| 0 <= i < parts.len() ==> !pred(#[trigger] parts[i]),
    ensures
        parts.filter(pred).len() == 0,
    decreases parts.len(),
{
    if parts.len() == 0 {
        lemma_filter_empty(parts, pred);
    } else {
        let d = parts.drop_last();
        assert forall|i: int| 0 <= i < d.len() implies !pred(#[trigger] d[i]) by {
            assert(d[i] == parts[i]);
        }
        lemma_filter_empty_when_none(d, pred);
        lemma_filter_last(parts, pred);
        assert(!pred(parts[parts.len() - 1]));
    }
}

/// A response's reasoning is every reasoning part's characters, in order,
/// wherever the text and tool-call parts stand; it is `None` exactly when no
/// part is reasoning.
pub proof fn lemma_reasoning_gathers_every_reasoning_part(parts: Seq<PartView>)
    ensures
        reasoning_of(parts) is None <==> (forall|i: int|
            0 <= i < parts.len() ==> !(#[trigger] parts[i] is Reasoning)),
        reasoning_of(parts) is Some ==> reasoning_of(parts)->0 == parts.filter(
            is_reasoning(),
        ).map_values(chars_of()).flatten(),
        joined_reasoning(parts) == parts.filter(is_reasoning()).map_values(chars_of()).flatten(),
    decreases parts.len(),
{
    if parts.len() == 0 {
        lemma_filter_empty(parts, is_reasoning());
        assert(parts.filter(is_reasoning()).map_values(chars_of()) =~= Seq::<Seq<char>>::empty());
    } else {
        let d = parts.drop_last();
        lemma_reasoning_gathers_every_reasoning_part(d);
        lemma_filter_last(parts, is_reasoning());
        lemma_chars_push(d.filter(is_reasoning()), parts.last());
        if has_reasoning_part(d) {
            let j = choose|j: int| 0 <= j < d.len() && #[trigger] d[j] is Reasoning;
            assert(parts[j] is Reasoning);
        }
        if parts.last() is Reasoning {
            assert(parts[parts.len() - 1] is Reasoning);
        }
        if has_reasoning_part(parts) && !(parts.last() is Reasoning) {
            let j = choose|j: int| 0 <= j < parts.len() && #[trigger] parts[j] is Reasoning;
            assert(d[j] is Reasoning);
        }
    }
}

/// A response's tool calls are every tool-call part's call, in order: as many
/// calls as tool-call parts, the i-th call being the i-th such part's.
pub proof fn lemma_calls_are_every_tool_use_part(parts: Seq<PartView>)
    ensures
        calls_in(parts) == parts.filter(is_tool_use()).map_values(call_of()),
        calls_in(parts).len() == parts.filter(is_tool_use()).len(),
    decreases parts.len(),
{
    if parts.len() == 0 {
        lemma_filter_empty(parts, is_tool_use());
        assert(parts.filter(is_tool_use()).map_values(call_of()) =~= Seq::<ToolCallView>::empty());
    } else {
        let d = parts.drop_last();
        lemma_calls_are_every_tool_use_part(d);
        lemma_filter_last(parts, is_tool_use());
        let kept = d.filter(is_tool_use());
        assert(kept.push(parts.last()).map_values(call_of()) =~= kept.map_values(call_of()).push(
            call_of()(parts.last()),
        ));
    }
}

/// The first of a response's tool calls is its first tool-call part's call.
pub proof fn lemma_first_call(parts: Seq<PartView>, k: int)
    requires
        0 <= k < parts.len(),
        parts[k] is ToolUse,
        forall|j: int| 0 <= j < k ==> !(#[trigger] parts[j] is ToolUse),
    ensures
        calls_in(parts).len() > 0,
        calls_in(parts)[0] == parts[k]->ToolUse_0,
    decreases parts.len(),
{
    let d = parts.drop_last();
    if k == parts.len() - 1 {
        lemma_has_tool_calls_iff_calls(d);
        if has_tool_use_part(d) {
            let j = choose|j: int| 0 <= j < d.len() && #[trigger] d[j] is ToolUse;
            assert(parts[j] is ToolUse);
        }
    } else {
        assert(d[k] == parts[k]);
        assert forall|j: int| 0 <= j < k implies !(#[trigger] d[j] is ToolUse) by {
            assert(d[j] == parts[j]);
        }
        lemma_first_call(d, k);
    }
}

/// Accumulating adds each count to the same count: input to input, output to
/// output, reasoning to reasoning; and the order of the two usages does not matter.
pub proof fn lemma_usage_sum_adds_fieldwise(a: Usage, b: Usage)
    requires
        usage_sum_fits(a, b),
    ensures
        usage_sum(a, b).input_tokens == a.input_tokens + b.input_tokens,
        usage_sum(a, b).output_tokens == a.output_tokens + b.output_tokens,
        usage_sum(a, b).reasoning_tokens == a.reasoning_tokens + b.reasoning_tokens,
        usage_sum_fits(b, a),
        usage_sum(a, b) == usage_sum(b, a),
        usage_sum(a, usage_zero()) == a,
{
}

} // verus!
