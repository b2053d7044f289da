# llm_agent

The decision logic of a multi-turn LLM agent loop, verified with Verus.

- `src/types.rs`: messages, tool calls, response parts and token usage, their
  models (every string as its sequence of characters), and what a response
  says: its text, its reasoning, its tool calls.
- `src/hook.rs`: hook decisions and the text fed back for a denied call; the
  turn observer.
- `src/agent.rs`: the opening conversation, how a turn is fed back, the final
  text of a run, and the loop itself as a state machine (`AgentRun`): each
  step takes what came of the last action (a reply, a hook decision, a tool
  output) and returns the next action, with a report for the turn observer
  after each reply. The laws of the loop are proved there.
- `app/lib.rs`: the asynchronous traits that users implement (client, tool
  executor, hook), `AgentLoop`, which awaits them and feeds the state machine,
  and the JSON forms of the message types.
