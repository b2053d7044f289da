use vstd::prelude::*;
use crate::types::{Response, Usage};

verus! {

/// Decision from a pre-execution hook.
#[derive(Clone, Debug)]
pub enum HookDecision {
    /// Allow the tool to execute.
    Allow,
    /// Block execution. The message is fed back as the tool result.
    Block(String),
    /// Ask for user confirmation with a reason, and an optional suggestion
    /// (e.g. a safer alternative command). With no one to confirm, the call is
    /// denied, and the reason and suggestion are fed back as the tool result.
    Ask { reason: String, suggestion: Option<String> },
}

pub enum DecisionView {
    Allow,
    Block(Seq<char>),
    Ask { reason: Seq<char>, suggestion: Option<Seq<char>> },
}

impl View for HookDecision {
    type V = DecisionView;

    open spec fn view(&self) -> DecisionView {
        match self {
            HookDecision::Allow => DecisionView::Allow,
            HookDecision::Block(m) => DecisionView::Block(m@),
            HookDecision::Ask { reason, suggestion } => DecisionView::Ask {
                reason: reason@,
                suggestion: match suggestion {
                    Some(s) => Some(s@),
                    None => None,
                },
            },
        }
    }
}

/// Context passed to hooks for each tool call.
pub struct HookContext<'a> {
    pub tool_name: &'a str,
    pub arguments: &'a str,
    pub turn: u32,
}

/// Observer called after each turn in the agent loop, with the turn's index,
/// its response and the usage accumulated so far.
pub trait TurnObserver: Send + Sync {
    fn on_turn(&self, turn: u32, response: &Response, usage: &Usage);
}

/// No-op observer that does nothing.
pub struct NoObserver;

impl TurnObserver for NoObserver {
    fn on_turn(&self, _turn: u32, _response: &Response, _usage: &Usage) {
    }
}

/// No-op hook that allows everything.
pub struct AllowAll;

impl AllowAll {
    /// The decision of this hook on any call: allow it.
    pub fn decide(&self, _ctx: &HookContext<'_>) -> (d: HookDecision)
        ensures
            d is Allow,
    {
        HookDecision::Allow
    }
}

/// The tool result fed back for a call that asked for confirmation and got none.
pub open spec fn denial_message(reason: Seq<char>, suggestion: Option<Seq<char>>) -> Seq<char> {
    match suggestion {
        Some(s) => "denied: "@ + reason + " (suggestion: "@ + s + ")"@,
        None => "denied: "@ + reason,
    }
}

/// What a decision feeds back in place of running the tool (`None`: run it).
pub open spec fn decision_output(d: DecisionView) -> Option<Seq<char>> {
    match d {
        DecisionView::Allow => None,
        DecisionView::Block(m) => Some(m),
        DecisionView::Ask { reason, suggestion } => Some(denial_message(reason, suggestion)),
    }
}

/// Builds the tool result for a call that asked for confirmation and got none.
pub fn denial(reason: &str, suggestion: Option<&str>) -> (r: String)
    ensures
        r@ == denial_message(
            reason@,
            match suggestion {
                Some(s) => Some(s@),
                None => None,
            },
        ),
{
    let mut out = String::from_str("denied: ");
    out.append(reason);
    match suggestion {
        Some(s) => {
            out.append(" (suggestion: ");
            out.append(s);
            out.append(")");
        },
        None => {},
    }
    out
}

/// A denial names itself as one and carries the reason right after its opening
/// words, followed by the suggestion when there is one.
pub proof fn lemma_denial_carries_reason(reason: Seq<char>, suggestion: Option<Seq<char>>)
    ensures
        ({
            let m = denial_message(reason, suggestion);
            let n: int = "denied: "@.len() as int;
            &&& m.subrange(0, n) == "denied: "@
            &&& m.subrange(n, n + reason.len()) == reason
            &&& suggestion is None ==> m.len() == n + reason.len()
            &&& (suggestion matches Some(s) ==> m.subrange(
                n + reason.len() + 14,
                n + reason.len() + 14 + s.len(),
            ) == s)
        }),
{
    reveal_strlit("denied: ");
    reveal_strlit(" (suggestion: ");
    let n: int = "denied: "@.len() as int;
    let m = denial_message(reason, suggestion);
    assert(m.subrange(0, n) =~= "denied: "@);
    assert(m.subrange(n, n + reason.len()) =~= reason);
    if let Some(s) = suggestion {
        let k: int = n + reason.len() + 14;
        assert(m.subrange(k, k + s.len()) =~= s);
    }
}

} // verus!
