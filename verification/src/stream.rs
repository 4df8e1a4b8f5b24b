//! The streaming transcoder: Chat-API delta chunks in, Responses-API named
//! events out.
//!
//! A translator owns the per-request state: the SSE parser, the assistant
//! text gathered so far, the partial tool calls keyed by their integer index
//! (kept in ascending order), the last usage record, and whether the
//! assistant output item has been announced.  A ghost history of every event
//! handed out backs the envelope laws: one `response.created` first, one
//! terminal event last, the item announcement before any text delta, and the
//! final message text equal to the concatenation of the deltas.

use vstd::prelude::*;
use vstd::string::*;

use crate::json::{json_text, jview_entries, jview_list, obj_field, Json, JsonV};

verus! {

/// A usage record from the upstream: token counts.
#[derive(Clone, Copy, PartialEq, Eq, Structural, Debug)]
pub struct Usage {
    pub prompt_tokens: i64,
    pub completion_tokens: i64,
    pub total_tokens: i64,
}

/// The model of one emitted event.
pub enum EventV {
    Created { id: Seq<char> },
    ItemAdded,
    TextDelta { delta: Seq<char> },
    MessageDone { text: Seq<char> },
    FunctionCallDone { name: Seq<char>, args: Seq<char>, call_id: Seq<char> },
    Completed { id: Seq<char>, usage: Option<Usage> },
    Failed { resp: Option<Seq<char>>, code: Seq<char>, message: Seq<char> },
}

/// One event of the outgoing Responses stream.
#[derive(Debug, PartialEq)]
pub enum StreamEvent {
    /// `response.created`, opening every translated stream.
    Created { id: String },
    /// `response.output_item.added` for the assistant message.
    ItemAdded,
    /// `response.output_text.delta` carrying one text fragment.
    TextDelta { delta: String },
    /// `response.output_item.done` carrying the whole assistant message.
    MessageDone { text: String },
    /// `response.output_item.done` carrying one finished tool call.
    FunctionCallDone { name: String, args: String, call_id: String },
    /// `response.completed`, the successful terminal event.
    Completed { id: String, usage: Option<Usage> },
    /// `response.failed`, the failing terminal event.
    Failed { resp: Option<String>, code: String, message: String },
}

impl View for StreamEvent {
    type V = EventV;

    open spec fn view(&self) -> EventV {
        match self {
            StreamEvent::Created { id } => EventV::Created { id: id@ },
            StreamEvent::ItemAdded => EventV::ItemAdded,
            StreamEvent::TextDelta { delta } => EventV::TextDelta { delta: delta@ },
            StreamEvent::MessageDone { text } => EventV::MessageDone { text: text@ },
            StreamEvent::FunctionCallDone { name, args, call_id } => EventV::FunctionCallDone {
                name: name@,
                args: args@,
                call_id: call_id@,
            },
            StreamEvent::Completed { id, usage } => EventV::Completed { id: id@, usage: *usage },
            StreamEvent::Failed { resp, code, message } => EventV::Failed {
                resp: match resp {
                    Some(s) => Some(s@),
                    None => None,
                },
                code: code@,
                message: message@,
            },
        }
    }
}

/// The models of a list of events.
pub open spec fn event_views(evs: Seq<StreamEvent>) -> Seq<EventV>
    decreases evs,
{
    if evs.len() == 0 {
        Seq::empty()
    } else {
        event_views(evs.drop_last()).push(evs.last()@)
    }
}

/// The name under which an event goes on the wire.
pub open spec fn event_name_of(e: EventV) -> Seq<char> {
    match e {
        EventV::Created { .. } => "response.created"@,
        EventV::ItemAdded => "response.output_item.added"@,
        EventV::TextDelta { .. } => "response.output_text.delta"@,
        EventV::MessageDone { .. } => "response.output_item.done"@,
        EventV::FunctionCallDone { .. } => "response.output_item.done"@,
        EventV::Completed { .. } => "response.completed"@,
        EventV::Failed { .. } => "response.failed"@,
    }
}

/// The usage object of a `response.completed` payload.
pub open spec fn usage_payload(u: Usage) -> JsonV {
    JsonV::Obj(
        seq![
            ("input_tokens"@, JsonV::Int(u.prompt_tokens as int)),
            ("input_tokens_details"@, JsonV::Null),
            ("output_tokens"@, JsonV::Int(u.completion_tokens as int)),
            ("output_tokens_details"@, JsonV::Null),
            ("total_tokens"@, JsonV::Int(u.total_tokens as int)),
        ],
    )
}

/// A message item with one `output_text` part carrying `text`.
pub open spec fn message_item_payload(text: Seq<char>) -> JsonV {
    JsonV::Obj(
        seq![
            ("type"@, JsonV::Str("message"@)),
            ("role"@, JsonV::Str("assistant"@)),
            (
                "content"@,
                JsonV::Arr(
                    seq![
                        JsonV::Obj(
                            seq![
                                ("type"@, JsonV::Str("output_text"@)),
                                ("text"@, JsonV::Str(text)),
                            ],
                        ),
                    ],
                ),
            ),
        ],
    )
}

/// The error object of a `response.failed` payload.
pub open spec fn error_payload(code: Seq<char>, message: Seq<char>) -> JsonV {
    JsonV::Obj(seq![("code"@, JsonV::Str(code)), ("message"@, JsonV::Str(message))])
}

/// The JSON payload of one event.
pub open spec fn event_payload_of(e: EventV) -> JsonV {
    match e {
        EventV::Created { id } => JsonV::Obj(
            seq![
                ("type"@, JsonV::Str("response.created"@)),
                ("response"@, JsonV::Obj(seq![("id"@, JsonV::Str(id))])),
            ],
        ),
        EventV::ItemAdded => JsonV::Obj(
            seq![
                ("type"@, JsonV::Str("response.output_item.added"@)),
                ("item"@, message_item_payload(Seq::empty())),
            ],
        ),
        EventV::TextDelta { delta } => JsonV::Obj(
            seq![
                ("type"@, JsonV::Str("response.output_text.delta"@)),
                ("delta"@, JsonV::Str(delta)),
            ],
        ),
        EventV::MessageDone { text } => JsonV::Obj(
            seq![
                ("type"@, JsonV::Str("response.output_item.done"@)),
                ("item"@, message_item_payload(text)),
            ],
        ),
        EventV::FunctionCallDone { name, args, call_id } => JsonV::Obj(
            seq![
                ("type"@, JsonV::Str("response.output_item.done"@)),
                (
                    "item"@,
                    JsonV::Obj(
                        seq![
                            ("type"@, JsonV::Str("function_call"@)),
                            ("name"@, JsonV::Str(name)),
                            ("arguments"@, JsonV::Str(args)),
                            ("call_id"@, JsonV::Str(call_id)),
                        ],
                    ),
                ),
            ],
        ),
        EventV::Completed { id, usage } => JsonV::Obj(
            seq![
                ("type"@, JsonV::Str("response.completed"@)),
                (
                    "response"@,
                    JsonV::Obj(
                        seq![
                            ("id"@, JsonV::Str(id)),
                            (
                                "usage"@,
                                match usage {
                                    Some(u) => usage_payload(u),
                                    None => JsonV::Null,
                                },
                            ),
                        ],
                    ),
                ),
            ],
        ),
        EventV::Failed { resp, code, message } => JsonV::Obj(
            seq![
                ("type"@, JsonV::Str("response.failed"@)),
                (
                    "response"@,
                    JsonV::Obj(
                        match resp {
                            Some(s) => seq![
                                ("id"@, JsonV::Str(s)),
                                ("error"@, error_payload(code, message)),
                            ],
                            None => seq![("error"@, error_payload(code, message))],
                        },
                    ),
                ),
            ],
        ),
    }
}

/// The wire form of one event: `event: <name>\ndata: <json>\n\n`.
pub open spec fn event_frame_of(e: EventV) -> Seq<char> {
    "event: "@ + event_name_of(e) + "\ndata: "@ + json_text(event_payload_of(e)) + "\n\n"@
}

/// The model of one partially assembled tool call.
pub struct ToolV {
    pub id: Option<Seq<char>>,
    pub name: Option<Seq<char>>,
    pub args: Seq<char>,
}

/// The model of the whole accumulator.
pub struct AccV {
    pub text: Seq<char>,
    pub tools: Seq<(int, ToolV)>,
    pub usage: Option<Usage>,
    pub added: bool,
}

/// The accumulator before any chunk.
pub open spec fn acc_init() -> AccV {
    AccV { text: Seq::empty(), tools: Seq::empty(), usage: None, added: false }
}

/// Tool-call entries sorted strictly ascending by index.
pub open spec fn sorted_tools(ts: Seq<(int, ToolV)>) -> bool {
    forall|i: int, j: int| 0 <= i < j < ts.len() ==> ts[i].0 < ts[j].0
}

/// The entry at `idx`, if any.
pub open spec fn tools_find(ts: Seq<(int, ToolV)>, idx: int) -> Option<ToolV>
    decreases ts,
{
    if ts.len() == 0 {
        None
    } else if ts.last().0 == idx {
        Some(ts.last().1)
    } else {
        tools_find(ts.drop_last(), idx)
    }
}

/// Bind `idx` to `t`, keeping the entries sorted by index.
pub open spec fn tools_upsert(ts: Seq<(int, ToolV)>, idx: int, t: ToolV) -> Seq<(int, ToolV)>
    decreases ts,
{
    if ts.len() == 0 {
        seq![(idx, t)]
    } else if ts.last().0 < idx {
        ts.push((idx, t))
    } else if ts.last().0 == idx {
        ts.drop_last().push((idx, t))
    } else {
        tools_upsert(ts.drop_last(), idx, t).push(ts.last())
    }
}

/// A field that is absent, null, or a string — as an optional string field
/// decodes.
pub open spec fn opt_str_field(o: JsonV, key: Seq<char>) -> bool {
    match crate::json::jv_get(o, key) {
        None => true,
        Some(JsonV::Null) => true,
        Some(JsonV::Str(_)) => true,
        _ => false,
    }
}

/// A well-formed `function` fragment of a tool-call delta.
pub open spec fn frag_function_valid(g: JsonV) -> bool {
    g is Obj && opt_str_field(g, "name"@) && opt_str_field(g, "arguments"@)
}

/// A well-formed tool-call fragment.
pub open spec fn frag_valid(f: JsonV) -> bool {
    &&& f is Obj
    &&& match crate::json::jv_get(f, "index"@) {
        None => true,
        Some(JsonV::Null) => true,
        Some(JsonV::Int(i)) => 0 <= i,
        _ => false,
    }
    &&& opt_str_field(f, "id"@)
    &&& match crate::json::jv_get(f, "function"@) {
        None => true,
        Some(JsonV::Null) => true,
        Some(g) => frag_function_valid(g),
    }
}

/// All fragments of a list well formed.
pub open spec fn frags_valid(fs: Seq<JsonV>) -> bool
    decreases fs,
{
    if fs.len() == 0 {
        true
    } else {
        frags_valid(fs.drop_last()) && frag_valid(fs.last())
    }
}

/// A well-formed `delta` object.
pub open spec fn delta_valid(d: JsonV) -> bool {
    &&& d is Obj
    &&& opt_str_field(d, "content"@)
    &&& match crate::json::jv_get(d, "tool_calls"@) {
        None => true,
        Some(JsonV::Null) => true,
        Some(JsonV::Arr(fs)) => frags_valid(fs),
        _ => false,
    }
}

/// A well-formed choice.
pub open spec fn choice_valid(c: JsonV) -> bool {
    &&& c is Obj
    &&& match crate::json::jv_get(c, "delta"@) {
        None => true,
        Some(JsonV::Null) => true,
        Some(d) => delta_valid(d),
    }
    &&& opt_str_field(c, "finish_reason"@)
}

/// All choices of a list well formed.
pub open spec fn choices_valid(cs: Seq<JsonV>) -> bool
    decreases cs,
{
    if cs.len() == 0 {
        true
    } else {
        choices_valid(cs.drop_last()) && choice_valid(cs.last())
    }
}

/// A token-count field: absent (zero) or an integer.
pub open spec fn tok_field_valid(u: JsonV, key: Seq<char>) -> bool {
    match crate::json::jv_get(u, key) {
        None => true,
        Some(JsonV::Int(i)) => i64::MIN <= i <= i64::MAX,
        _ => false,
    }
}

/// A well-formed usage object.
pub open spec fn usage_valid(u: JsonV) -> bool {
    &&& u is Obj
    &&& tok_field_valid(u, "prompt_tokens"@)
    &&& tok_field_valid(u, "completion_tokens"@)
    &&& tok_field_valid(u, "total_tokens"@)
}

/// A payload that decodes as a Chat streaming chunk.  When any part of it
/// fails this schema, the whole payload is skipped and the stream goes on.
pub open spec fn chunk_valid(c: JsonV) -> bool {
    &&& c is Obj
    &&& opt_str_field(c, "id"@)
    &&& match crate::json::jv_get(c, "choices"@) {
        None => true,
        Some(JsonV::Arr(cs)) => choices_valid(cs),
        _ => false,
    }
    &&& match crate::json::jv_get(c, "usage"@) {
        None => true,
        Some(JsonV::Null) => true,
        Some(u) => usage_valid(u),
    }
}

/// The value of one token-count field, zero when absent.
pub open spec fn tok_of(u: JsonV, key: Seq<char>) -> int {
    match crate::json::jv_get(u, key) {
        Some(JsonV::Int(i)) => i,
        _ => 0,
    }
}

/// The usage record a usage object decodes to.
pub open spec fn usage_of(u: JsonV) -> Usage {
    Usage {
        prompt_tokens: tok_of(u, "prompt_tokens"@) as i64,
        completion_tokens: tok_of(u, "completion_tokens"@) as i64,
        total_tokens: tok_of(u, "total_tokens"@) as i64,
    }
}

/// The index a fragment addresses: its own, or the next free slot.
pub open spec fn frag_index_of(ts: Seq<(int, ToolV)>, f: JsonV) -> int {
    match crate::json::jv_get(f, "index"@) {
        Some(JsonV::Int(i)) => i,
        _ => ts.len() as int,
    }
}

/// What one tool-call fragment does to the tool entries.
pub open spec fn frag_apply(ts: Seq<(int, ToolV)>, f: JsonV) -> Seq<(int, ToolV)> {
    let idx = frag_index_of(ts, f);
    let entry = match tools_find(ts, idx) {
        Some(t) => t,
        None => ToolV { id: None, name: None, args: Seq::empty() },
    };
    tools_upsert(ts, idx, frag_entry_of(f, entry))
}

/// What a list of fragments does, left to right.
pub open spec fn frags_apply(ts: Seq<(int, ToolV)>, fs: Seq<JsonV>) -> Seq<(int, ToolV)>
    decreases fs,
{
    if fs.len() == 0 {
        ts
    } else {
        frag_apply(frags_apply(ts, fs.drop_last()), fs.last())
    }
}

/// What one delta does to the accumulator, and what it emits.
pub open spec fn delta_apply(acc: AccV, d: JsonV) -> (AccV, Seq<EventV>) {
    let step = match crate::json::jv_get(d, "content"@) {
        Some(JsonV::Str(c)) => if c.len() > 0 {
            (
                AccV { text: acc.text + c, tools: acc.tools, usage: acc.usage, added: true },
                if acc.added {
                    seq![EventV::TextDelta { delta: c }]
                } else {
                    seq![EventV::ItemAdded, EventV::TextDelta { delta: c }]
                },
            )
        } else {
            (acc, Seq::empty())
        },
        _ => (acc, Seq::empty()),
    };
    let acc1 = step.0;
    match crate::json::jv_get(d, "tool_calls"@) {
        Some(JsonV::Arr(fs)) => (
            AccV {
                text: acc1.text,
                tools: frags_apply(acc1.tools, fs),
                usage: acc1.usage,
                added: acc1.added,
            },
            step.1,
        ),
        _ => (acc1, step.1),
    }
}

/// What one choice does: its delta, if it has one.
pub open spec fn choice_apply(acc: AccV, c: JsonV) -> (AccV, Seq<EventV>) {
    match crate::json::jv_get(c, "delta"@) {
        Some(d) => if d is Obj {
            delta_apply(acc, d)
        } else {
            (acc, Seq::empty())
        },
        None => (acc, Seq::empty()),
    }
}

/// What a list of choices does, left to right.
pub open spec fn choices_apply(acc: AccV, cs: Seq<JsonV>) -> (AccV, Seq<EventV>)
    decreases cs,
{
    if cs.len() == 0 {
        (acc, Seq::empty())
    } else {
        let first = choices_apply(acc, cs.drop_last());
        let last = choice_apply(first.0, cs.last());
        (last.0, first.1 + last.1)
    }
}

/// What one decoded chunk does: take its usage, then walk its choices.
pub open spec fn chunk_apply(acc: AccV, c: JsonV) -> (AccV, Seq<EventV>) {
    let with_usage = match crate::json::jv_get(c, "usage"@) {
        Some(u) => if u is Obj {
            AccV { text: acc.text, tools: acc.tools, usage: Some(usage_of(u)), added: acc.added }
        } else {
            acc
        },
        _ => acc,
    };
    match crate::json::jv_get(c, "choices"@) {
        Some(JsonV::Arr(cs)) => choices_apply(with_usage, cs),
        _ => (with_usage, Seq::empty()),
    }
}

/// What one completed SSE payload does: `[DONE]` and payloads that do not
/// decode as a valid chunk leave the accumulator alone and emit nothing;
/// every other payload is applied as a chunk.
pub open spec fn payload_step(acc: AccV, p: Seq<char>) -> (AccV, Seq<EventV>) {
    if p == "[DONE]"@ {
        (acc, Seq::empty())
    } else {
        match crate::outside::json_of(p) {
            Some(j) => if chunk_valid(j) {
                chunk_apply(acc, j)
            } else {
                (acc, Seq::empty())
            },
            None => (acc, Seq::empty()),
        }
    }
}

/// What a list of completed payloads does, left to right.
pub open spec fn payloads_apply(acc: AccV, ps: Seq<Seq<char>>) -> (AccV, Seq<EventV>)
    decreases ps,
{
    if ps.len() == 0 {
        (acc, Seq::empty())
    } else {
        let first = payloads_apply(acc, ps.drop_last());
        let last = payload_step(first.0, ps.last());
        (last.0, first.1 + last.1)
    }
}

/// Only text deltas.
pub open spec fn all_deltas(evs: Seq<EventV>) -> bool {
    forall|i: int| 0 <= i < evs.len() ==> (#[trigger] evs[i]) is TextDelta
}

/// The concatenation of the delta texts of a run of events.
pub open spec fn concat_deltas(evs: Seq<EventV>) -> Seq<char>
    decreases evs,
{
    if evs.len() == 0 {
        Seq::empty()
    } else {
        concat_deltas(evs.drop_last()) + match evs.last() {
            EventV::TextDelta { delta } => delta,
            _ => Seq::empty(),
        }
    }
}

/// The shape of the events one step may add in the middle of a stream:
/// deltas only once the item is announced, else one announcement first.
pub open spec fn mid_shape(added_before: bool, evs: Seq<EventV>, added_after: bool) -> bool {
    if added_before {
        all_deltas(evs) && added_after
    } else if added_after {
        evs.len() >= 1 && evs[0] == EventV::ItemAdded && all_deltas(evs.skip(1))
    } else {
        evs.len() == 0
    }
}

/// An upsert keeps the entries sorted; every key is an old one or the new
/// one.
proof fn lemma_upsert_sorted(ts: Seq<(int, ToolV)>, idx: int, t: ToolV)
    requires
        sorted_tools(ts),
    ensures
        sorted_tools(tools_upsert(ts, idx, t)),
        forall|j: int|
            0 <= j < tools_upsert(ts, idx, t).len() ==> ((#[trigger] tools_upsert(ts, idx, t)[j]).0
                == idx || exists|k: int| 0 <= k < ts.len() && ts[k].0 == tools_upsert(ts, idx, t)[j].0),
    decreases ts,
{
    let r = tools_upsert(ts, idx, t);
    if ts.len() == 0 {
    } else if ts.last().0 < idx {
        assert forall|j: int| 0 <= j < r.len() implies (r[j].0 == idx || exists|k: int|
            0 <= k < ts.len() && ts[k].0 == r[j].0) by {
            if j < ts.len() {
                assert(ts[j].0 == r[j].0);
            }
        }
    } else if ts.last().0 == idx {
        assert forall|j: int| 0 <= j < r.len() implies (r[j].0 == idx || exists|k: int|
            0 <= k < ts.len() && ts[k].0 == r[j].0) by {
            if j < ts.len() - 1 {
                assert(ts[j].0 == r[j].0);
            }
        }
    } else {
        lemma_upsert_sorted(ts.drop_last(), idx, t);
        let inner = tools_upsert(ts.drop_last(), idx, t);
        assert forall|j: int| 0 <= j < r.len() implies (r[j].0 == idx || exists|k: int|
            0 <= k < ts.len() && ts[k].0 == r[j].0) by {
            if j < inner.len() {
                assert(r[j] == inner[j]);
                if inner[j].0 != idx {
                    let k = choose|k: int| 0 <= k < ts.drop_last().len() && ts.drop_last()[k].0
                        == inner[j].0;
                    assert(ts[k].0 == inner[j].0);
                }
            } else {
                assert(r[j] == ts.last());
                assert(ts[ts.len() - 1].0 == r[j].0);
            }
        }
        assert forall|i: int, j: int| 0 <= i < j < r.len() implies r[i].0 < r[j].0 by {
            if j < inner.len() {
            } else {
                assert(r[j] == ts.last());
                if r[i].0 == idx {
                    assert(idx < ts.last().0);
                } else {
                    let k = choose|k: int| 0 <= k < ts.drop_last().len() && ts.drop_last()[k].0
                        == r[i].0;
                    assert(ts[k].0 < ts.last().0);
                }
            }
        }
    }
}

/// The closed form of an upsert at the insertion position `p`.
proof fn lemma_upsert_at(ts: Seq<(int, ToolV)>, idx: int, t: ToolV, p: int)
    requires
        sorted_tools(ts),
        0 <= p <= ts.len(),
        forall|j: int| 0 <= j < p ==> (#[trigger] ts[j]).0 < idx,
        p < ts.len() ==> ts[p].0 >= idx,
    ensures
        tools_upsert(ts, idx, t) =~= if p < ts.len() && ts[p].0 == idx {
            ts.take(p) + seq![(idx, t)] + ts.skip(p + 1)
        } else {
            ts.take(p) + seq![(idx, t)] + ts.skip(p)
        },
    decreases ts,
{
    if ts.len() == 0 {
    } else if ts.last().0 < idx {
        assert(p == ts.len());
        assert(ts.take(p) =~= ts);
        assert(ts.skip(p) =~= Seq::empty());
    } else if ts.last().0 == idx {
        assert(p == ts.len() - 1);
        assert(ts.take(p) =~= ts.drop_last());
        assert(ts.skip(p + 1) =~= Seq::empty());
    } else {
        lemma_upsert_at(ts.drop_last(), idx, t, p);
        assert(ts.drop_last().take(p) =~= ts.take(p));
        if p < ts.len() - 1 && ts[p].0 == idx {
            assert(ts.drop_last().skip(p + 1).push(ts.last()) =~= ts.skip(p + 1));
        } else {
            assert(p < ts.len());
            assert(!(ts[p].0 == idx));
            assert(ts.drop_last().skip(p).push(ts.last()) =~= ts.skip(p));
        }
    }
}

/// Applying fragments keeps the entries sorted.
proof fn lemma_frags_sorted(ts: Seq<(int, ToolV)>, fs: Seq<JsonV>)
    requires
        sorted_tools(ts),
    ensures
        sorted_tools(frags_apply(ts, fs)),
    decreases fs,
{
    if fs.len() > 0 {
        lemma_frags_sorted(ts, fs.drop_last());
        let mid = frags_apply(ts, fs.drop_last());
        let f = fs.last();
        let idx = frag_index_of(mid, f);
        let entry = match tools_find(mid, idx) {
            Some(t) => t,
            None => ToolV { id: None, name: None, args: Seq::empty() },
        };
        lemma_upsert_sorted(mid, idx, frag_entry_of(f, entry));
    }
}

/// The entry a fragment writes, starting from `entry`.
pub open spec fn frag_entry_of(f: JsonV, entry: ToolV) -> ToolV {
    let with_id = match crate::json::jv_get(f, "id"@) {
        Some(JsonV::Str(s)) => ToolV { id: Some(s), name: entry.name, args: entry.args },
        _ => entry,
    };
    match crate::json::jv_get(f, "function"@) {
        Some(g) => {
            let with_name = match crate::json::jv_get(g, "name"@) {
                Some(JsonV::Str(n)) => ToolV { id: with_id.id, name: Some(n), args: with_id.args },
                _ => with_id,
            };
            match crate::json::jv_get(g, "arguments"@) {
                Some(JsonV::Str(a)) => ToolV {
                    id: with_name.id,
                    name: with_name.name,
                    args: with_name.args + a,
                },
                _ => with_name,
            }
        },
        _ => with_id,
    }
}

/// Delta texts concatenate over event concatenation.
proof fn lemma_concat_deltas_add(a: Seq<EventV>, b: Seq<EventV>)
    ensures
        concat_deltas(a + b) == concat_deltas(a) + concat_deltas(b),
    decreases b,
{
    if b.len() == 0 {
        assert(a + b =~= a);
        assert(concat_deltas(a) + concat_deltas(b) =~= concat_deltas(a));
    } else {
        lemma_concat_deltas_add(a, b.drop_last());
        assert((a + b).drop_last() =~= a + b.drop_last());
        assert((a + b).last() == b.last());
        assert(concat_deltas(a + b) =~= concat_deltas(a) + concat_deltas(b));
    }
}

/// Two well-shaped runs of middle events compose.
proof fn lemma_mid_shape_compose(
    a: bool,
    e1: Seq<EventV>,
    b: bool,
    e2: Seq<EventV>,
    c: bool,
)
    requires
        mid_shape(a, e1, b),
        mid_shape(b, e2, c),
    ensures
        mid_shape(a, e1 + e2, c),
{
    if a {
        assert forall|i: int| 0 <= i < (e1 + e2).len() implies ((e1 + e2)[i]) is TextDelta by {
            if i < e1.len() {
                assert((e1 + e2)[i] == e1[i]);
            } else {
                assert((e1 + e2)[i] == e2[i - e1.len()]);
            }
        }
    } else if b {
        assert((e1 + e2)[0] == e1[0]);
        assert forall|i: int| 0 <= i < (e1 + e2).skip(1).len() implies ((e1 + e2).skip(
            1,
        )[i]) is TextDelta by {
            if i < e1.len() - 1 {
                assert((e1 + e2).skip(1)[i] == e1.skip(1)[i]);
            } else {
                assert((e1 + e2).skip(1)[i] == e2[i - (e1.len() - 1)]);
            }
        }
    } else {
        assert(e1 + e2 =~= e2);
    }
}

/// One chunk keeps the accumulator well formed: the tool entries stay
/// sorted, the text grows by exactly the emitted deltas, and the emitted
/// events have the middle-of-stream shape.
proof fn lemma_chunk_apply_wf(acc: AccV, c: JsonV)
    requires
        sorted_tools(acc.tools),
    ensures
        sorted_tools(chunk_apply(acc, c).0.tools),
        chunk_apply(acc, c).0.text == acc.text + concat_deltas(chunk_apply(acc, c).1),
        mid_shape(acc.added, chunk_apply(acc, c).1, chunk_apply(acc, c).0.added),
        chunk_apply(acc, c).0.usage == acc.usage || (crate::json::jv_get(c, "usage"@) matches Some(
            u,
        ) && chunk_apply(acc, c).0.usage == Some(usage_of(u))),
{
    let with_usage = match crate::json::jv_get(c, "usage"@) {
        Some(u) => if u is Obj {
            AccV { text: acc.text, tools: acc.tools, usage: Some(usage_of(u)), added: acc.added }
        } else {
            acc
        },
        _ => acc,
    };
    match crate::json::jv_get(c, "choices"@) {
        Some(JsonV::Arr(cs)) => {
            lemma_choices_apply_wf(with_usage, cs);
        },
        _ => {
            assert(acc.text + concat_deltas(Seq::<EventV>::empty()) =~= acc.text);
        },
    }
}

/// The choice fold keeps the accumulator well formed.
proof fn lemma_choices_apply_wf(acc: AccV, cs: Seq<JsonV>)
    requires
        sorted_tools(acc.tools),
    ensures
        sorted_tools(choices_apply(acc, cs).0.tools),
        choices_apply(acc, cs).0.text == acc.text + concat_deltas(choices_apply(acc, cs).1),
        mid_shape(acc.added, choices_apply(acc, cs).1, choices_apply(acc, cs).0.added),
        choices_apply(acc, cs).0.usage == acc.usage,
    decreases cs,
{
    if cs.len() == 0 {
        assert(acc.text + concat_deltas(Seq::<EventV>::empty()) =~= acc.text);
    } else {
        lemma_choices_apply_wf(acc, cs.drop_last());
        let mid = choices_apply(acc, cs.drop_last());
        lemma_choice_apply_wf(mid.0, cs.last());
        let last = choice_apply(mid.0, cs.last());
        lemma_concat_deltas_add(mid.1, last.1);
        lemma_mid_shape_compose(acc.added, mid.1, mid.0.added, last.1, last.0.added);
        assert(acc.text + concat_deltas(mid.1 + last.1) =~= (acc.text + concat_deltas(mid.1))
            + concat_deltas(last.1));
    }
}

/// One choice keeps the accumulator well formed.
proof fn lemma_choice_apply_wf(acc: AccV, c: JsonV)
    requires
        sorted_tools(acc.tools),
    ensures
        sorted_tools(choice_apply(acc, c).0.tools),
        choice_apply(acc, c).0.text == acc.text + concat_deltas(choice_apply(acc, c).1),
        mid_shape(acc.added, choice_apply(acc, c).1, choice_apply(acc, c).0.added),
        choice_apply(acc, c).0.usage == acc.usage,
{
    match crate::json::jv_get(c, "delta"@) {
        Some(d) => {
            if d is Obj {
                let step = match crate::json::jv_get(d, "content"@) {
                    Some(JsonV::Str(txt)) => if txt.len() > 0 {
                        (
                            AccV {
                                text: acc.text + txt,
                                tools: acc.tools,
                                usage: acc.usage,
                                added: true,
                            },
                            if acc.added {
                                seq![EventV::TextDelta { delta: txt }]
                            } else {
                                seq![EventV::ItemAdded, EventV::TextDelta { delta: txt }]
                            },
                        )
                    } else {
                        (acc, Seq::<EventV>::empty())
                    },
                    _ => (acc, Seq::<EventV>::empty()),
                };
                match crate::json::jv_get(d, "content"@) {
                    Some(JsonV::Str(txt)) => {
                        if txt.len() > 0 {
                            assert(concat_deltas(Seq::<EventV>::empty()) == Seq::<
                                char,
                            >::empty());
                            if acc.added {
                                let e = seq![EventV::TextDelta { delta: txt }];
                                assert(e.drop_last() =~= Seq::<EventV>::empty());
                                assert(e.last() == EventV::TextDelta { delta: txt });
                                assert(concat_deltas(e) =~= txt);
                            } else {
                                let e = seq![
                                    EventV::ItemAdded,
                                    EventV::TextDelta { delta: txt },
                                ];
                                assert(e.drop_last() =~= seq![EventV::ItemAdded]);
                                assert(seq![EventV::ItemAdded].drop_last() =~= Seq::<
                                    EventV,
                                >::empty());
                                assert(concat_deltas(seq![EventV::ItemAdded]) =~= Seq::<
                                    char,
                                >::empty());
                                assert(concat_deltas(e) =~= txt);
                                assert(e.skip(1).len() == 1);
                                assert(e.skip(1)[0] == e[1]);
                            }
                            assert(step.0.text =~= acc.text + concat_deltas(step.1));
                        } else {
                            assert(acc.text + concat_deltas(step.1) =~= acc.text);
                        }
                    },
                    _ => {
                        assert(acc.text + concat_deltas(step.1) =~= acc.text);
                    },
                }
                assert(mid_shape(acc.added, step.1, step.0.added));
                match crate::json::jv_get(d, "tool_calls"@) {
                    Some(JsonV::Arr(fs)) => {
                        lemma_frags_sorted(step.0.tools, fs);
                    },
                    _ => {},
                }
            } else {
                assert(acc.text + concat_deltas(Seq::<EventV>::empty()) =~= acc.text);
            }
        },
        None => {
            assert(acc.text + concat_deltas(Seq::<EventV>::empty()) =~= acc.text);
        },
    }
}

/// One partially assembled tool call.
pub struct ToolCall {
    pub id: Option<String>,
    pub name: Option<String>,
    pub arguments: String,
}

impl View for ToolCall {
    type V = ToolV;

    open spec fn view(&self) -> ToolV {
        ToolV {
            id: match self.id {
                Some(ref s) => Some(s@),
                None => None,
            },
            name: match self.name {
                Some(ref s) => Some(s@),
                None => None,
            },
            args: self.arguments@,
        }
    }
}

/// The models of the tool-call entries.
pub open spec fn tool_views(ts: Seq<(u64, ToolCall)>) -> Seq<(int, ToolV)>
    decreases ts,
{
    if ts.len() == 0 {
        Seq::empty()
    } else {
        tool_views(ts.drop_last()).push((ts.last().0 as int, ts.last().1@))
    }
}

broadcast proof fn lemma_tool_views_index(ts: Seq<(u64, ToolCall)>)
    ensures
        (#[trigger] tool_views(ts)).len() == ts.len(),
        forall|i: int| 0 <= i < ts.len() ==> tool_views(ts)[i] == ((#[trigger] ts[i]).0 as int,
            ts[i].1@),
    decreases ts,
{
    if ts.len() > 0 {
        lemma_tool_views_index(ts.drop_last());
        assert forall|i: int| 0 <= i < ts.len() implies tool_views(ts)[i] == (
            ts[i].0 as int,
            ts[i].1@,
        ) by {
            if i < ts.len() - 1 {
                assert(ts.drop_last()[i] == ts[i]);
                assert(tool_views(ts.drop_last())[i] == (
                    ts.drop_last()[i].0 as int,
                    ts.drop_last()[i].1@,
                ));
            }
        }
    }
}

/// The model of a whole translator.
pub struct TransSnap {
    pub acc: AccV,
    pub parser: crate::sse::SseSnap,
    pub response_id: Seq<char>,
    pub history: Seq<EventV>,
}

/// What always holds of a live translator: the history opens with its
/// `response.created`, holds no terminal event, announces the assistant item
/// exactly once and before any text delta, and carries in `acc.text` exactly
/// the concatenation of the deltas handed out; the tool entries are sorted
/// strictly ascending by index.
pub open spec fn translator_wf(s: TransSnap) -> bool {
    &&& s.history.len() >= 1
    &&& s.history[0] == EventV::Created { id: s.response_id }
    &&& mid_shape(false, s.history.skip(1), s.acc.added)
    &&& concat_deltas(s.history.skip(1)) == s.acc.text
    &&& sorted_tools(s.acc.tools)
}

/// The streaming transcoder for one request with a Chat upstream.
pub struct ChatStreamTranslator {
    parser: crate::sse::SseParser,
    text: String,
    tools: Vec<(u64, ToolCall)>,
    usage: Option<Usage>,
    added: bool,
    response_id: String,
    history: Ghost<Seq<EventV>>,
}

impl View for ChatStreamTranslator {
    type V = TransSnap;

    closed spec fn view(&self) -> TransSnap {
        TransSnap {
            acc: AccV {
                text: self.text@,
                tools: tool_views(self.tools@),
                usage: self.usage,
                added: self.added,
            },
            parser: self.parser@,
            response_id: self.response_id@,
            history: self.history@,
        }
    }
}

/// Whether a field decodes as an optional string.
fn check_opt_str(o: &Json, key: &str) -> (r: bool)
    ensures
        r == opt_str_field(o@, key@),
{
    match o.get(key) {
        None => true,
        Some(v) => match v {
            Json::Null => true,
            Json::Str(_) => true,
            _ => false,
        },
    }
}

/// Whether a fragment's `function` object decodes.
fn check_frag_function(g: &Json) -> (r: bool)
    ensures
        r == frag_function_valid(g@),
{
    g.is_obj() && check_opt_str(g, "name") && check_opt_str(g, "arguments")
}

/// Whether one tool-call fragment decodes.
fn check_frag(f: &Json) -> (r: bool)
    ensures
        r == frag_valid(f@),
{
    if !f.is_obj() {
        return false;
    }
    let index_ok = match f.get("index") {
        None => true,
        Some(v) => match v {
            Json::Null => true,
            Json::Int(i) => *i >= 0,
            _ => false,
        },
    };
    if !index_ok {
        return false;
    }
    if !check_opt_str(f, "id") {
        return false;
    }
    match f.get("function") {
        None => true,
        Some(g) => match g {
            Json::Null => true,
            other => check_frag_function(other),
        },
    }
}

/// Whether a list of fragments decodes.
fn check_frags(fs: &Vec<Json>) -> (r: bool)
    ensures
        r == frags_valid(jview_list(fs@)),
{
    let n = fs.len();
    let mut i: usize = 0;
    proof {
        crate::json::lemma_jview_list_index(fs@);
    }
    while i < n
        invariant
            0 <= i <= n,
            n == fs@.len(),
            jview_list(fs@).len() == n,
            forall|j: int| 0 <= j < n ==> jview_list(fs@)[j] == crate::json::jview(
                #[trigger] fs@[j],
            ),
            frags_valid(jview_list(fs@).take(i as int)),
        decreases n - i,
    {
        let ok = check_frag(&fs[i]);
        proof {
            let taken = jview_list(fs@).take(i + 1 as int);
            assert(taken.drop_last() =~= jview_list(fs@).take(i as int));
            assert(taken.last() == jview_list(fs@)[i as int]);
        }
        if !ok {
            proof {
                lemma_frags_valid_prefix(jview_list(fs@), i as int);
            }
            return false;
        }
        i = i + 1;
    }
    proof {
        assert(jview_list(fs@).take(n as int) =~= jview_list(fs@));
    }
    true
}

/// A list with an ill-formed member is ill formed.
proof fn lemma_frags_valid_prefix(fs: Seq<JsonV>, i: int)
    requires
        0 <= i < fs.len(),
        !frag_valid(fs[i]),
    ensures
        !frags_valid(fs),
    decreases fs,
{
    if fs.len() > 0 {
        if i < fs.len() - 1 {
            lemma_frags_valid_prefix(fs.drop_last(), i);
        }
    }
}

/// Whether one delta object decodes.
fn check_delta(d: &Json) -> (r: bool)
    ensures
        r == delta_valid(d@),
{
    if !d.is_obj() {
        return false;
    }
    if !check_opt_str(d, "content") {
        return false;
    }
    match d.get("tool_calls") {
        None => true,
        Some(v) => match v {
            Json::Null => true,
            Json::Arr(fs) => check_frags(fs),
            _ => false,
        },
    }
}

/// Whether one choice decodes.
fn check_choice(c: &Json) -> (r: bool)
    ensures
        r == choice_valid(c@),
{
    if !c.is_obj() {
        return false;
    }
    let delta_ok = match c.get("delta") {
        None => true,
        Some(v) => match v {
            Json::Null => true,
            other => check_delta(other),
        },
    };
    delta_ok && check_opt_str(c, "finish_reason")
}

/// A list with an ill-formed choice is ill formed.
proof fn lemma_choices_valid_prefix(cs: Seq<JsonV>, i: int)
    requires
        0 <= i < cs.len(),
        !choice_valid(cs[i]),
    ensures
        !choices_valid(cs),
    decreases cs,
{
    if cs.len() > 0 {
        if i < cs.len() - 1 {
            lemma_choices_valid_prefix(cs.drop_last(), i);
        }
    }
}

/// Whether a list of choices decodes.
fn check_choices(cs: &Vec<Json>) -> (r: bool)
    ensures
        r == choices_valid(jview_list(cs@)),
{
    let n = cs.len();
    let mut i: usize = 0;
    proof {
        crate::json::lemma_jview_list_index(cs@);
    }
    while i < n
        invariant
            0 <= i <= n,
            n == cs@.len(),
            jview_list(cs@).len() == n,
            forall|j: int| 0 <= j < n ==> jview_list(cs@)[j] == crate::json::jview(
                #[trigger] cs@[j],
            ),
            choices_valid(jview_list(cs@).take(i as int)),
        decreases n - i,
    {
        let ok = check_choice(&cs[i]);
        proof {
            let taken = jview_list(cs@).take(i + 1 as int);
            assert(taken.drop_last() =~= jview_list(cs@).take(i as int));
            assert(taken.last() == jview_list(cs@)[i as int]);
        }
        if !ok {
            proof {
                lemma_choices_valid_prefix(jview_list(cs@), i as int);
            }
            return false;
        }
        i = i + 1;
    }
    proof {
        assert(jview_list(cs@).take(n as int) =~= jview_list(cs@));
    }
    true
}

/// Whether a token-count field decodes.
fn check_tok_field(u: &Json, key: &str) -> (r: bool)
    ensures
        r == tok_field_valid(u@, key@),
{
    match u.get(key) {
        None => true,
        Some(v) => match v {
            Json::Int(_) => true,
            _ => false,
        },
    }
}

/// Whether a usage object decodes.
fn check_usage(u: &Json) -> (r: bool)
    ensures
        r == usage_valid(u@),
{
    u.is_obj() && check_tok_field(u, "prompt_tokens") && check_tok_field(u, "completion_tokens")
        && check_tok_field(u, "total_tokens")
}

/// Whether a payload decodes as a Chat streaming chunk.
pub fn check_chunk(c: &Json) -> (r: bool)
    ensures
        r == chunk_valid(c@),
{
    if !c.is_obj() {
        return false;
    }
    if !check_opt_str(c, "id") {
        return false;
    }
    let choices_ok = match c.get("choices") {
        None => true,
        Some(v) => match v {
            Json::Arr(cs) => check_choices(cs),
            _ => false,
        },
    };
    if !choices_ok {
        return false;
    }
    match c.get("usage") {
        None => true,
        Some(v) => match v {
            Json::Null => true,
            other => check_usage(other),
        },
    }
}

/// A sorted entry list holds `idx` where the scan finds it.
proof fn lemma_tools_find_at(ts: Seq<(int, ToolV)>, idx: int, j: int)
    requires
        sorted_tools(ts),
        0 <= j < ts.len(),
        ts[j].0 == idx,
    ensures
        tools_find(ts, idx) == Some(ts[j].1),
    decreases ts,
{
    if j < ts.len() - 1 {
        assert(ts[j].0 < ts[ts.len() - 1].0);
        lemma_tools_find_at(ts.drop_last(), idx, j);
        assert(ts.drop_last()[j] == ts[j]);
    }
}

/// A sorted entry list without `idx` yields nothing.
proof fn lemma_tools_find_absent(ts: Seq<(int, ToolV)>, idx: int)
    requires
        forall|j: int| 0 <= j < ts.len() ==> (#[trigger] ts[j]).0 != idx,
    ensures
        tools_find(ts, idx) is None,
    decreases ts,
{
    if ts.len() > 0 {
        lemma_tools_find_absent(ts.drop_last(), idx);
    }
}

/// The position of `idx` among the sorted entries, if it is there.
fn find_tool_pos(tools: &Vec<(u64, ToolCall)>, idx: u64) -> (r: Option<usize>)
    ensures
        match r {
            Some(p) => p < tools@.len() && tools@[p as int].0 == idx,
            None => forall|j: int| 0 <= j < tools@.len() ==> (#[trigger] tools@[j]).0 != idx,
        },
{
    let n = tools.len();
    let mut i: usize = 0;
    while i < n
        invariant
            0 <= i <= n,
            n == tools@.len(),
            forall|j: int| 0 <= j < i ==> (#[trigger] tools@[j]).0 != idx,
        decreases n - i,
    {
        if tools[i].0 == idx {
            return Some(i);
        }
        i = i + 1;
    }
    None
}

/// Bind `idx` to `t` among the sorted entries.
fn upsert_tool(tools: &mut Vec<(u64, ToolCall)>, idx: u64, t: ToolCall)
    requires
        sorted_tools(tool_views(old(tools)@)),
    ensures
        tool_views(final(tools)@) == tools_upsert(tool_views(old(tools)@), idx as int, t@),
{
    let ghost orig = tool_views(old(tools)@);
    proof {
        lemma_tool_views_index(old(tools)@);
    }
    let n = tools.len();
    let mut p: usize = 0;
    while p < n && tools[p].0 < idx
        invariant
            0 <= p <= n,
            n == tools@.len(),
            tools@ == old(tools)@,
            forall|j: int| 0 <= j < p ==> (#[trigger] tools@[j]).0 < idx,
        decreases n - p,
    {
        p = p + 1;
    }
    proof {
        assert forall|j: int| 0 <= j < p implies (#[trigger] orig[j]).0 < idx as int by {
            assert(orig[j] == (tools@[j].0 as int, tools@[j].1@));
        }
        assert(p < n ==> orig[p as int].0 >= idx as int);
        lemma_upsert_at(orig, idx as int, t@, p as int);
    }
    let replace = p < n && tools[p].0 == idx;
    if replace {
        tools.remove(p);
        tools.insert(p, (idx, t));
        proof {
            lemma_tool_views_index(tools@);
            assert(tools@ =~= old(tools)@.remove(p as int).insert(p as int, (idx, t)));
            assert forall|j: int| 0 <= j < tools@.len() implies tool_views(tools@)[j]
                == tools_upsert(orig, idx as int, t@)[j] by {
                if j < p {
                    assert(tools@[j] == old(tools)@[j]);
                    assert(orig.take(p as int)[j] == orig[j]);
                } else if j > p {
                    assert(tools@[j] == old(tools)@[j]);
                    assert(orig.skip(p + 1 as int)[j - p - 1] == orig[j]);
                }
            }
            assert(tool_views(tools@) =~= tools_upsert(orig, idx as int, t@));
        }
    } else {
        tools.insert(p, (idx, t));
        proof {
            lemma_tool_views_index(tools@);
            assert(tools@ =~= old(tools)@.insert(p as int, (idx, t)));
            assert forall|j: int| 0 <= j < tools@.len() implies tool_views(tools@)[j]
                == tools_upsert(orig, idx as int, t@)[j] by {
                if j < p {
                    assert(tools@[j] == old(tools)@[j]);
                    assert(orig.take(p as int)[j] == orig[j]);
                } else if j > p {
                    assert(tools@[j] == old(tools)@[j - 1]);
                    assert(orig.skip(p as int)[j - p - 1] == orig[j - 1]);
                }
            }
            assert(tool_views(tools@) =~= tools_upsert(orig, idx as int, t@));
        }
    }
}

/// Apply one tool-call fragment to the sorted entries.
fn frag_step(tools: &mut Vec<(u64, ToolCall)>, f: &Json)
    requires
        frag_valid(f@),
        sorted_tools(tool_views(old(tools)@)),
    ensures
        tool_views(final(tools)@) == frag_apply(tool_views(old(tools)@), f@),
        sorted_tools(tool_views(final(tools)@)),
{
    let ghost orig = tool_views(old(tools)@);
    proof {
        lemma_tool_views_index(old(tools)@);
    }
    let idx: u64 = match f.get("index") {
        Some(v) => match v.as_int() {
            Some(i) => i as u64,
            None => tools.len() as u64,
        },
        None => tools.len() as u64,
    };
    proof {
        assert(idx as int == frag_index_of(orig, f@));
    }
    let pos = find_tool_pos(tools, idx);
    let entry: ToolCall = match pos {
        Some(p) => {
            proof {
                lemma_tools_find_at(orig, idx as int, p as int);
            }
            let e = &tools[p].1;
            ToolCall {
                id: match &e.id {
                    Some(s) => Some(s.clone()),
                    None => None,
                },
                name: match &e.name {
                    Some(s) => Some(s.clone()),
                    None => None,
                },
                arguments: e.arguments.clone(),
            }
        },
        None => {
            proof {
                assert forall|j: int| 0 <= j < orig.len() implies (#[trigger] orig[j]).0 != idx
                    as int by {
                    assert(orig[j] == (tools@[j].0 as int, tools@[j].1@));
                }
                lemma_tools_find_absent(orig, idx as int);
            }
            ToolCall { id: None, name: None, arguments: String::new() }
        },
    };
    let with_id: ToolCall = match f.get_str("id") {
        Some(s) => ToolCall { id: Some(s.clone()), name: entry.name, arguments: entry.arguments },
        None => entry,
    };
    let done: ToolCall = match f.get("function") {
        Some(g) => {
            let with_name: ToolCall = match g.get_str("name") {
                Some(n) => ToolCall {
                    id: with_id.id,
                    name: Some(n.clone()),
                    arguments: with_id.arguments,
                },
                None => with_id,
            };
            match g.get_str("arguments") {
                Some(a) => {
                    let mut args = with_name.arguments;
                    args.append(a.as_str());
                    ToolCall { id: with_name.id, name: with_name.name, arguments: args }
                },
                None => with_name,
            }
        },
        None => with_id,
    };
    proof {
        assert(done@ == frag_entry_of(f@, match tools_find(orig, idx as int) {
            Some(t) => t,
            None => ToolV { id: None, name: None, args: Seq::empty() },
        }));
        lemma_upsert_sorted(orig, idx as int, done@);
    }
    upsert_tool(tools, idx, done);
}

proof fn lemma_event_views_add(a: Seq<StreamEvent>, b: Seq<StreamEvent>)
    ensures
        event_views(a + b) == event_views(a) + event_views(b),
    decreases b,
{
    if b.len() == 0 {
        assert(a + b =~= a);
        assert(event_views(a) + event_views(b) =~= event_views(a));
    } else {
        lemma_event_views_add(a, b.drop_last());
        assert((a + b).drop_last() =~= a + b.drop_last());
        assert((a + b).last() == b.last());
        assert(event_views(a + b) =~= event_views(a) + event_views(b));
    }
}

/// A complete emitted stream: it opens with `response.created`, closes with
/// exactly one terminal event, has no other `created` or terminal event, and
/// announces the assistant item before any text delta.
pub open spec fn envelope_ok(s: Seq<EventV>) -> bool {
    &&& s.len() >= 2
    &&& s[0] is Created
    &&& (s.last() is Completed || s.last() is Failed)
    &&& forall|i: int|
        0 < i < s.len() - 1 ==> !((#[trigger] s[i]) is Created || s[i] is Completed
            || s[i] is Failed)
    &&& forall|i: int|
        0 <= i < s.len() && (#[trigger] s[i]) is TextDelta ==> exists|j: int|
            0 <= j < i && (#[trigger] s[j]) is ItemAdded
}

/// A synthesized tool call id: `call_`, a fresh 36-character identifier, an
/// underscore, and the decimal index.
pub open spec fn synth_call_id_ok(s: Seq<char>, idx: int) -> bool {
    exists|u: Seq<char>|
        (#[trigger] u.len()) == 36 && s == "call_"@ + u + "_"@ + crate::text::dec_digits(idx)
}

impl ChatStreamTranslator {
    /// A translator for one request, together with its opening
    /// `response.created` event.
    pub fn new(response_id: String) -> (r: (ChatStreamTranslator, StreamEvent))
        ensures
            translator_wf(r.0@),
            r.0@.acc == acc_init(),
            r.0@.parser == crate::sse::sse_init(),
            r.0@.response_id == response_id@,
            r.0@.history == (seq![EventV::Created { id: response_id@ }]),
            r.1@ == (EventV::Created { id: response_id@ }),
    {
        let ghost rid = response_id@;
        let ghost h: Seq<EventV> = seq![EventV::Created { id: rid }];
        let ev = StreamEvent::Created { id: response_id.clone() };
        let t = ChatStreamTranslator {
            parser: crate::sse::SseParser::new(),
            text: String::new(),
            tools: Vec::new(),
            usage: None,
            added: false,
            response_id,
            history: Ghost(h),
        };
        proof {
            assert(t@.history.skip(1) =~= Seq::<EventV>::empty());
            assert(concat_deltas(Seq::<EventV>::empty()) == Seq::<char>::empty());
        }
        (t, ev)
    }

    /// The response identifier this translator stamps on its events.
    pub fn response_id(&self) -> (r: &String)
        ensures
            r@ == self@.response_id,
    {
        &self.response_id
    }

    /// Apply one decoded chunk: record its usage, then walk its choices,
    /// emitting the announcement and text-delta events they call for.
    pub fn apply_chunk(&mut self, chunk: &Json) -> (events: Vec<StreamEvent>)
        requires
            translator_wf(old(self)@),
            chunk_valid(chunk@),
        ensures
            translator_wf(final(self)@),
            final(self)@.response_id == old(self)@.response_id,
            final(self)@.parser == old(self)@.parser,
            final(self)@.acc == chunk_apply(old(self)@.acc, chunk@).0,
            event_views(events@) == chunk_apply(old(self)@.acc, chunk@).1,
            final(self)@.history == old(self)@.history + event_views(events@),
    {
        let ghost acc0 = old(self)@.acc;
        match chunk.get("usage") {
            Some(u) => {
                if u.is_obj() {
                    let prompt_tokens: i64 = match u.get("prompt_tokens") {
                        Some(v) => match v.as_int() {
                            Some(i) => i,
                            None => 0,
                        },
                        None => 0,
                    };
                    let completion_tokens: i64 = match u.get("completion_tokens") {
                        Some(v) => match v.as_int() {
                            Some(i) => i,
                            None => 0,
                        },
                        None => 0,
                    };
                    let total_tokens: i64 = match u.get("total_tokens") {
                        Some(v) => match v.as_int() {
                            Some(i) => i,
                            None => 0,
                        },
                        None => 0,
                    };
                    self.usage = Some(Usage { prompt_tokens, completion_tokens, total_tokens });
                    proof {
                        assert(self@.acc.usage == Some(usage_of(crate::json::jv_get(
                            chunk@,
                            "usage"@,
                        )->0)));
                    }
                }
            },
            None => {},
        }
        let ghost acc1 = self@.acc;
        proof {
            assert(acc1 == match crate::json::jv_get(chunk@, "usage"@) {
                Some(u) => if u is Obj {
                    AccV {
                        text: acc0.text,
                        tools: acc0.tools,
                        usage: Some(usage_of(u)),
                        added: acc0.added,
                    }
                } else {
                    acc0
                },
                _ => acc0,
            });
        }
        let mut events: Vec<StreamEvent> = Vec::new();
        match chunk.get("choices") {
            Some(cv) => match cv {
                Json::Arr(cs) => {
                    let n = cs.len();
                    let mut i: usize = 0;
                    proof {
                        crate::json::lemma_jview_list_index(cs@);
                        assert(event_views(events@) =~= Seq::<EventV>::empty());
                        assert(jview_list(cs@).take(0) =~= Seq::<JsonV>::empty());
                    }
                    while i < n
                        invariant
                            0 <= i <= n,
                            n == cs@.len(),
                            jview_list(cs@).len() == n,
                            forall|j: int| 0 <= j < n ==> jview_list(cs@)[j] == crate::json::jview(
                                #[trigger] cs@[j],
                            ),
                            choices_valid(jview_list(cs@)),
                            sorted_tools(self@.acc.tools),
                            self@.acc == choices_apply(acc1, jview_list(cs@).take(i as int)).0,
                            event_views(events@) == choices_apply(
                                acc1,
                                jview_list(cs@).take(i as int),
                            ).1,
                            self@.response_id == old(self)@.response_id,
                            self@.parser == old(self)@.parser,
                            self@.history == old(self)@.history,
                        decreases n - i,
                    {
                        proof {
                            lemma_choices_valid_take(jview_list(cs@), i + 1 as int);
                            let taken = jview_list(cs@).take(i + 1 as int);
                            assert(taken.drop_last() =~= jview_list(cs@).take(i as int));
                            assert(taken.last() == jview_list(cs@)[i as int]);
                        }
                        let mut evs = self.apply_choice(&cs[i]);
                        proof {
                            lemma_event_views_add(events@, evs@);
                        }
                        events.append(&mut evs);
                        i = i + 1;
                    }
                    proof {
                        assert(jview_list(cs@).take(n as int) =~= jview_list(cs@));
                    }
                },
                _ => {
                    proof {
                        assert(event_views(events@) =~= Seq::<EventV>::empty());
                    }
                },
            },
            None => {
                proof {
                    assert(event_views(events@) =~= Seq::<EventV>::empty());
                }
            },
        }
        proof {
            self.history@ = old(self)@.history + event_views(events@);
        }
        proof {
            lemma_chunk_apply_wf(acc0, chunk@);
            let mid_old = old(self)@.history.skip(1);
            let emitted = event_views(events@);
            lemma_concat_deltas_add(mid_old, emitted);
            lemma_mid_shape_compose(
                false,
                mid_old,
                acc0.added,
                emitted,
                self@.acc.added,
            );
            assert((old(self)@.history + emitted).skip(1) =~= mid_old + emitted);
            assert((old(self)@.history + emitted)[0] == old(self)@.history[0]);
        }
        events
    }

    /// Apply one choice's delta.
    fn apply_choice(&mut self, c: &Json) -> (events: Vec<StreamEvent>)
        requires
            choice_valid(c@),
            sorted_tools(old(self)@.acc.tools),
        ensures
            final(self)@.acc == choice_apply(old(self)@.acc, c@).0,
            event_views(events@) == choice_apply(old(self)@.acc, c@).1,
            sorted_tools(final(self)@.acc.tools),
            final(self)@.response_id == old(self)@.response_id,
            final(self)@.parser == old(self)@.parser,
            final(self)@.history == old(self)@.history,
    {
        let ghost acc0 = old(self)@.acc;
        let mut events: Vec<StreamEvent> = Vec::new();
        proof {
            assert(event_views(events@) =~= Seq::<EventV>::empty());
        }
        match c.get("delta") {
            Some(d) => {
                if d.is_obj() {
                    match d.get_str("content") {
                        Some(content) => {
                            if !content.as_str().is_empty() {
                                if !self.added {
                                    events.push(StreamEvent::ItemAdded);
                                    proof {
                                        assert(events@.drop_last() =~= Seq::<
                                            StreamEvent,
                                        >::empty());
                                    }
                                    self.added = true;
                                }
                                let delta = content.clone();
                                self.text.append(content.as_str());
                                let ghost before = events@;
                                events.push(StreamEvent::TextDelta { delta });
                                proof {
                                    assert(events@.drop_last() =~= before);
                                    assert(events@.last()@ == EventV::TextDelta {
                                        delta: content@,
                                    });
                                    assert(event_views(events@) == event_views(before).push(
                                        EventV::TextDelta { delta: content@ },
                                    ));
                                }
                            }
                        },
                        None => {},
                    }
                    let ghost acc_mid = self@.acc;
                    let ghost step = match crate::json::jv_get(d@, "content"@) {
                        Some(JsonV::Str(txt)) => if txt.len() > 0 {
                            (
                                AccV {
                                    text: acc0.text + txt,
                                    tools: acc0.tools,
                                    usage: acc0.usage,
                                    added: true,
                                },
                                if acc0.added {
                                    seq![EventV::TextDelta { delta: txt }]
                                } else {
                                    seq![EventV::ItemAdded, EventV::TextDelta { delta: txt }]
                                },
                            )
                        } else {
                            (acc0, Seq::<EventV>::empty())
                        },
                        _ => (acc0, Seq::<EventV>::empty()),
                    };
                    proof {
                        assert(acc_mid == step.0);
                        assert(event_views(events@) =~= step.1);
                    }
                    match d.get("tool_calls") {
                        Some(tv) => match tv {
                            Json::Arr(fs) => {
                                let n = fs.len();
                                let mut k: usize = 0;
                                let ghost evs_frozen = events@;
                                proof {
                                    crate::json::lemma_jview_list_index(fs@);
                                    assert(jview_list(fs@).take(0) =~= Seq::<JsonV>::empty());
                                }
                                while k < n
                                    invariant
                                        0 <= k <= n,
                                        n == fs@.len(),
                                        jview_list(fs@).len() == n,
                                        forall|j: int| 0 <= j < n ==> jview_list(fs@)[j]
                                            == crate::json::jview(#[trigger] fs@[j]),
                                        frags_valid(jview_list(fs@)),
                                        sorted_tools(tool_views(self.tools@)),
                                        tool_views(self.tools@) == frags_apply(
                                            acc_mid.tools,
                                            jview_list(fs@).take(k as int),
                                        ),
                                        self.text@ == acc_mid.text,
                                        self.usage == acc_mid.usage,
                                        self.added == acc_mid.added,
                                        self.parser@ == old(self)@.parser,
                                        self.response_id@ == old(self)@.response_id,
                                        self.history@ == old(self)@.history,
                                        events@ == evs_frozen,
                                    decreases n - k,
                                {
                                    proof {
                                        lemma_frags_valid_take(jview_list(fs@), k + 1 as int);
                                        let taken = jview_list(fs@).take(k + 1 as int);
                                        assert(taken.drop_last() =~= jview_list(fs@).take(
                                            k as int,
                                        ));
                                        assert(taken.last() == jview_list(fs@)[k as int]);
                                    }
                                    frag_step(&mut self.tools, &fs[k]);
                                    k = k + 1;
                                }
                                proof {
                                    assert(jview_list(fs@).take(n as int) =~= jview_list(fs@));
                                }
                            },
                            _ => {},
                        },
                        None => {},
                    }
                }
            },
            None => {},
        }
        events
    }
}

broadcast proof fn lemma_event_views_index(evs: Seq<StreamEvent>)
    ensures
        (#[trigger] event_views(evs)).len() == evs.len(),
        forall|i: int| 0 <= i < evs.len() ==> event_views(evs)[i] == (#[trigger] evs[i])@,
    decreases evs,
{
    if evs.len() > 0 {
        lemma_event_views_index(evs.drop_last());
        assert forall|i: int| 0 <= i < evs.len() implies event_views(evs)[i] == evs[i]@ by {
            if i < evs.len() - 1 {
                assert(evs.drop_last()[i] == evs[i]);
                assert(event_views(evs.drop_last())[i] == evs.drop_last()[i]@);
            }
        }
    }
}

impl ChatStreamTranslator {
    /// Feed one upstream chunk: the accumulator and the returned events are
    /// exactly the fold of [`payload_step`] over the payloads this chunk
    /// completes, in order — `[DONE]` and payloads that do not decode as a
    /// valid chunk contribute nothing, and the stream goes on.
    pub fn on_chunk(&mut self, chunk: &str) -> (events: Vec<StreamEvent>)
        requires
            translator_wf(old(self)@),
        ensures
            translator_wf(final(self)@),
            final(self)@.response_id == old(self)@.response_id,
            final(self)@.parser == crate::sse::sse_run(old(self)@.parser, chunk@).0,
            final(self)@.acc == payloads_apply(
                old(self)@.acc,
                crate::sse::sse_run(old(self)@.parser, chunk@).1,
            ).0,
            event_views(events@) == payloads_apply(
                old(self)@.acc,
                crate::sse::sse_run(old(self)@.parser, chunk@).1,
            ).1,
            final(self)@.history == old(self)@.history + event_views(events@),
    {
        let ghost acc0 = old(self)@.acc;
        let payloads = self.parser.feed(chunk);
        let ghost ps = crate::text::text_views(payloads@);
        let mut events: Vec<StreamEvent> = Vec::new();
        proof {
            crate::tools::lemma_text_views_index(payloads@);
            assert(ps == crate::sse::sse_run(old(self)@.parser, chunk@).1);
            assert(ps.take(0) =~= Seq::<Seq<char>>::empty());
            assert(event_views(events@) =~= Seq::<EventV>::empty());
            assert(old(self)@.history + event_views(events@) =~= old(self)@.history);
        }
        let n = payloads.len();
        let mut i: usize = 0;
        while i < n
            invariant
                0 <= i <= n,
                n == payloads@.len(),
                ps == crate::text::text_views(payloads@),
                ps.len() == n,
                forall|j: int| 0 <= j < n ==> ps[j] == (#[trigger] payloads@[j])@,
                translator_wf(self@),
                self@.response_id == old(self)@.response_id,
                self@.parser == crate::sse::sse_run(old(self)@.parser, chunk@).0,
                self@.acc == payloads_apply(acc0, ps.take(i as int)).0,
                event_views(events@) == payloads_apply(acc0, ps.take(i as int)).1,
                self@.history == old(self)@.history + event_views(events@),
            decreases n - i,
        {
            let p = &payloads[i];
            let ghost pv = ps[i as int];
            let ghost acc_before = self@.acc;
            let ghost evs_before = event_views(events@);
            if !crate::text::str_eq(p.as_str(), "[DONE]") {
                match crate::outside::parse_json(p.as_str()) {
                    Some(j) => {
                        let ok = check_chunk(&j);
                        if ok {
                            proof {
                                assert(payload_step(acc_before, pv) == chunk_apply(
                                    acc_before,
                                    j@,
                                ));
                            }
                            let ghost before = events@;
                            let mut evs = self.apply_chunk(&j);
                            let ghost evsv = evs@;
                            proof {
                                lemma_event_views_add(before, evsv);
                            }
                            events.append(&mut evs);
                            proof {
                                assert(self@.history =~= old(self)@.history + event_views(
                                    events@,
                                ));
                            }
                        } else {
                            proof {
                                assert(payload_step(acc_before, pv) == (
                                    acc_before,
                                    Seq::<EventV>::empty(),
                                ));
                            }
                        }
                    },
                    None => {
                        proof {
                            assert(payload_step(acc_before, pv) == (
                                acc_before,
                                Seq::<EventV>::empty(),
                            ));
                        }
                    },
                }
            } else {
                proof {
                    assert(payload_step(acc_before, pv) == (
                        acc_before,
                        Seq::<EventV>::empty(),
                    ));
                }
            }
            proof {
                assert(ps.take(i + 1 as int).drop_last() =~= ps.take(i as int));
                assert(ps.take(i + 1 as int).last() == pv);
                assert(self@.acc == payload_step(acc_before, pv).0);
                assert(event_views(events@) =~= evs_before + payload_step(acc_before, pv).1);
                assert(event_views(events@) == payloads_apply(acc0, ps.take(i + 1 as int)).1);
            }
            i = i + 1;
        }
        proof {
            assert(ps.take(n as int) =~= ps);
        }
        events
    }

    /// Close the stream after the upstream ended: the gathered assistant
    /// message (if any text arrived), each tool call in ascending index
    /// order, and the one `response.completed`.  A pending partial payload
    /// is discarded: an unterminated trailing payload is not an event.
    pub fn finish(self) -> (events: Vec<StreamEvent>)
        requires
            translator_wf(self@),
        ensures
            ({
                let off: int = if self@.acc.text.len() > 0 {
                    1
                } else {
                    0
                };
                let tsv = self@.acc.tools;
                let evs = event_views(events@);
                &&& evs.len() == off + tsv.len() + 1
                &&& self@.acc.text.len() > 0 ==> evs[0] == (EventV::MessageDone {
                    text: self@.acc.text,
                })
                &&& forall|k: int|
                    0 <= k < tsv.len() ==> ((#[trigger] evs[off + k]) matches
                        EventV::FunctionCallDone { name, args, call_id } && name == (
                        match tsv[k].1.name {
                            Some(n) => n,
                            None => "unknown_function"@,
                        }) && args == tsv[k].1.args && (match tsv[k].1.id {
                        Some(c) => call_id == c,
                        None => synth_call_id_ok(call_id, tsv[k].0),
                    }))
                &&& evs.last() == (EventV::Completed {
                    id: self@.response_id,
                    usage: self@.acc.usage,
                })
                &&& self@.acc.text == concat_deltas(self@.history.skip(1))
                &&& sorted_tools(tsv)
                &&& envelope_ok(self@.history + evs)
            }),
    {
        let ghost snap = self@;
        let mut events: Vec<StreamEvent> = Vec::new();
        let ghost off: int = if snap.acc.text.len() > 0 {
            1int
        } else {
            0int
        };
        if !self.text.as_str().is_empty() {
            events.push(StreamEvent::MessageDone { text: self.text });
            proof {
                assert(events@.drop_last() =~= Seq::<StreamEvent>::empty());
            }
        }
        let n = self.tools.len();
        let tools = self.tools;
        let mut k: usize = 0;
        proof {
            lemma_tool_views_index(tools@);
            lemma_event_views_index(events@);
        }
        while k < n
            invariant
                0 <= k <= n,
                n == tools@.len(),
                tool_views(tools@) == snap.acc.tools,
                tool_views(tools@).len() == n,
                forall|j: int| 0 <= j < n ==> tool_views(tools@)[j] == ((#[trigger] tools@[j]).0
                    as int, tools@[j].1@),
                off == (if snap.acc.text.len() > 0 { 1int } else { 0int }),
                events@.len() == off + k,
                off == 1 ==> event_views(events@)[0] == (EventV::MessageDone {
                    text: snap.acc.text,
                }),
                forall|j: int|
                    0 <= j < k ==> ((#[trigger] event_views(events@)[off + j]) matches
                        EventV::FunctionCallDone { name, args, call_id } && name == (
                        match snap.acc.tools[j].1.name {
                            Some(nm) => nm,
                            None => "unknown_function"@,
                        }) && args == snap.acc.tools[j].1.args && (match snap.acc.tools[j].1.id {
                        Some(c) => call_id == c,
                        None => synth_call_id_ok(call_id, snap.acc.tools[j].0),
                    })),
            decreases n - k,
        {
            let entry = &tools[k];
            let idx = entry.0;
            let tc = &entry.1;
            let name: String = match &tc.name {
                Some(nm) => nm.clone(),
                None => "unknown_function".to_owned(),
            };
            let call_id: String = match &tc.id {
                Some(c) => c.clone(),
                None => {
                    let uuid = crate::outside::fresh_uuid();
                    let mut cid: String = "call_".to_owned();
                    cid.append(uuid.as_str());
                    cid.append("_");
                    let num = crate::text::u64_to_string(idx);
                    cid.append(num.as_str());
                    proof {
                        assert(cid@ == "call_"@ + uuid@ + "_"@ + crate::text::dec_digits(
                            idx as int,
                        ));
                        assert(synth_call_id_ok(cid@, idx as int));
                    }
                    cid
                },
            };
            let args = tc.arguments.clone();
            let ghost before = events@;
            let ghost namev = name@;
            let ghost cidv = call_id@;
            events.push(StreamEvent::FunctionCallDone { name, args, call_id });
            proof {
                assert(events@.drop_last() =~= before);
                assert(events@.last()@ == (EventV::FunctionCallDone {
                    name: namev,
                    args: tc.arguments@,
                    call_id: cidv,
                }));
                lemma_event_views_index(before);
                lemma_event_views_index(events@);
                assert(event_views(events@) == event_views(before).push(events@.last()@));
                assert forall|j: int| 0 <= j < k + 1 implies ((
                #[trigger] event_views(events@)[off + j]) matches EventV::FunctionCallDone {
                    name,
                    args,
                    call_id,
                } && name == (match snap.acc.tools[j].1.name {
                    Some(nm) => nm,
                    None => "unknown_function"@,
                }) && args == snap.acc.tools[j].1.args && (match snap.acc.tools[j].1.id {
                    Some(c) => call_id == c,
                    None => synth_call_id_ok(call_id, snap.acc.tools[j].0),
                })) by {
                    if j < k {
                        assert(event_views(before).len() == off + k);
                        assert(0 <= off + j < off + k);
                        assert((event_views(before).push(events@.last()@))[off + j]
                            == event_views(before)[off + j]);
                        assert(event_views(events@)[off + j] == event_views(before)[off + j]);
                    } else {
                        assert(event_views(events@)[off + j] == events@.last()@);
                        assert(snap.acc.tools[j] == (tools@[j].0 as int, tools@[j].1@));
                    }
                }
            }
            k = k + 1;
        }
        let ghost before_completed = events@;
        events.push(StreamEvent::Completed { id: self.response_id, usage: self.usage });
        proof {
            assert(events@.drop_last() =~= before_completed);
            lemma_event_views_index(events@);
            lemma_finish_envelope(snap, event_views(events@), off);
        }
        events
    }

    /// Fail the stream after a transport error while reading the upstream:
    /// the one terminal `response.failed` event.
    pub fn on_error(self, message: &str) -> (ev: StreamEvent)
        requires
            translator_wf(self@),
        ensures
            ev@ == (EventV::Failed {
                resp: Some(self@.response_id),
                code: "upstream_stream_error"@,
                message: message@,
            }),
            envelope_ok(self@.history + seq![ev@]),
    {
        let ghost snap = self@;
        let ev = StreamEvent::Failed {
            resp: Some(self.response_id),
            code: "upstream_stream_error".to_owned(),
            message: message.to_owned(),
        };
        proof {
            lemma_terminal_envelope(snap, ev@);
        }
        ev
    }
}

/// A well-formed history closed by any terminal event is a whole envelope.
proof fn lemma_terminal_envelope(snap: TransSnap, terminal: EventV)
    requires
        translator_wf(snap),
        terminal is Completed || terminal is Failed,
    ensures
        envelope_ok(snap.history + seq![terminal]),
{
    let total = snap.history + seq![terminal];
    let mid = snap.history.skip(1);
    assert(total[0] == snap.history[0]);
    assert(total.last() == terminal);
    assert forall|i: int|
        0 < i < total.len() - 1 implies !((#[trigger] total[i]) is Created || total[i] is Completed
        || total[i] is Failed) by {
        assert(total[i] == snap.history[i]);
        assert(snap.history[i] == mid[i - 1]);
        if snap.acc.added {
            if i - 1 == 0 {
            } else {
                assert(mid.skip(1)[i - 2] == mid[i - 1]);
            }
        }
    }
    assert forall|i: int|
        0 <= i < total.len() && (#[trigger] total[i]) is TextDelta implies exists|j: int|
        0 <= j < i && (#[trigger] total[j]) is ItemAdded by {
        assert(total[i] == snap.history[i]);
        assert(snap.history[i] == mid[i - 1]);
        assert(snap.acc.added);
        assert(total[1] == mid[0]);
        assert(0 <= 1 < i && total[1] is ItemAdded);
    }
}

/// The whole emitted sequence of a successful run is a well-formed
/// envelope.
proof fn lemma_finish_envelope(snap: TransSnap, fin: Seq<EventV>, off: int)
    requires
        translator_wf(snap),
        off == if snap.acc.text.len() > 0 {
            1int
        } else {
            0int
        },
        fin.len() == off + snap.acc.tools.len() + 1,
        off == 1 ==> fin[0] is MessageDone,
        forall|k: int| 0 <= k < snap.acc.tools.len() ==> (#[trigger] fin[off
            + k]) is FunctionCallDone,
        fin.last() is Completed,
    ensures
        envelope_ok(snap.history + fin),
{
    let total = snap.history + fin;
    let mid = snap.history.skip(1);
    assert(total[0] == snap.history[0]);
    assert(total.last() == fin.last());
    assert forall|i: int|
        0 < i < total.len() - 1 implies !((#[trigger] total[i]) is Created || total[i] is Completed
        || total[i] is Failed) by {
        if i < snap.history.len() {
            assert(total[i] == snap.history[i]);
            assert(snap.history[i] == mid[i - 1]);
            if snap.acc.added {
                if i - 1 == 0 {
                } else {
                    assert(mid.skip(1)[i - 2] == mid[i - 1]);
                }
            }
        } else {
            let k = i - snap.history.len();
            assert(total[i] == fin[k]);
            if off == 1 && k == 0 {
            } else {
                assert(0 <= k - off < snap.acc.tools.len());
                assert(fin[off + (k - off)] is FunctionCallDone);
            }
        }
    }
    assert forall|i: int|
        0 <= i < total.len() && (#[trigger] total[i]) is TextDelta implies exists|j: int|
        0 <= j < i && (#[trigger] total[j]) is ItemAdded by {
        if i < snap.history.len() {
            assert(total[i] == snap.history[i]);
            assert(snap.history[i] == mid[i - 1]);
            assert(snap.acc.added);
            assert(total[1] == mid[0]);
            assert(0 <= 1 < i && total[1] is ItemAdded);
        } else {
            let k = i - snap.history.len();
            assert(total[i] == fin[k]);
            if off == 1 && k == 0 {
            } else if k == fin.len() - 1 {
            } else {
                assert(0 <= k - off < snap.acc.tools.len());
                assert(fin[off + (k - off)] is FunctionCallDone);
            }
        }
    }
}

/// A prefix of a well-formed choice list is well formed.
proof fn lemma_choices_valid_take(cs: Seq<JsonV>, n: int)
    requires
        choices_valid(cs),
        0 <= n <= cs.len(),
    ensures
        choices_valid(cs.take(n)),
    decreases cs.len() - n,
{
    if n < cs.len() {
        lemma_choices_valid_take(cs, n + 1);
        assert(cs.take(n + 1).drop_last() =~= cs.take(n));
        assert(cs.take(n + 1).last() == cs[n]);
    } else {
        assert(cs.take(n) =~= cs);
    }
}

/// A prefix of a well-formed fragment list is well formed.
proof fn lemma_frags_valid_take(fs: Seq<JsonV>, n: int)
    requires
        frags_valid(fs),
        0 <= n <= fs.len(),
    ensures
        frags_valid(fs.take(n)),
    decreases fs.len() - n,
{
    if n < fs.len() {
        lemma_frags_valid_take(fs, n + 1);
        assert(fs.take(n + 1).drop_last() =~= fs.take(n));
        assert(fs.take(n + 1).last() == fs[n]);
    } else {
        assert(fs.take(n) =~= fs);
    }
}

/// Build the message item for `text`.
pub(crate) fn make_message_item(text: &str) -> (r: Json)
    ensures
        r@ == message_item_payload(text@),
{
    let mut part: Vec<(String, Json)> = Vec::new();
    obj_field(&mut part, "type", Json::of_str("output_text"));
    obj_field(&mut part, "text", Json::of_str(text));
    proof {
        assert(jview_entries(part@) =~= seq![
            ("type"@, JsonV::Str("output_text"@)),
            ("text"@, JsonV::Str(text@)),
        ]);
    }
    let mut content: Vec<Json> = Vec::new();
    crate::json::arr_item(&mut content, Json::Obj(part));
    proof {
        assert(jview_list(content@) =~= seq![
            JsonV::Obj(
                seq![("type"@, JsonV::Str("output_text"@)), ("text"@, JsonV::Str(text@))],
            ),
        ]);
    }
    let mut item: Vec<(String, Json)> = Vec::new();
    obj_field(&mut item, "type", Json::of_str("message"));
    obj_field(&mut item, "role", Json::of_str("assistant"));
    obj_field(&mut item, "content", Json::Arr(content));
    proof {
        assert(jview_entries(item@) =~= message_item_payload(text@)->Obj_0);
    }
    Json::Obj(item)
}

impl StreamEvent {
    /// The JSON payload of this event.
    pub fn payload(&self) -> (r: Json)
        ensures
            r@ == event_payload_of(self@),
    {
        match self {
            StreamEvent::Created { id } => {
                let mut resp: Vec<(String, Json)> = Vec::new();
                obj_field(&mut resp, "id", Json::Str(id.clone()));
                let mut o: Vec<(String, Json)> = Vec::new();
                obj_field(&mut o, "type", Json::of_str("response.created"));
                obj_field(&mut o, "response", Json::Obj(resp));
                proof {
                    assert(jview_entries(o@) =~~= event_payload_of(self@)->Obj_0);
                }
                Json::Obj(o)
            },
            StreamEvent::ItemAdded => {
                let mut o: Vec<(String, Json)> = Vec::new();
                obj_field(&mut o, "type", Json::of_str("response.output_item.added"));
                obj_field(&mut o, "item", make_message_item(""));
                proof {
                    reveal_strlit("");
                    assert(""@ =~= Seq::<char>::empty());
                    assert(jview_entries(o@) =~~= event_payload_of(self@)->Obj_0);
                }
                Json::Obj(o)
            },
            StreamEvent::TextDelta { delta } => {
                let mut o: Vec<(String, Json)> = Vec::new();
                obj_field(&mut o, "type", Json::of_str("response.output_text.delta"));
                obj_field(&mut o, "delta", Json::Str(delta.clone()));
                proof {
                    assert(jview_entries(o@) =~~= event_payload_of(self@)->Obj_0);
                }
                Json::Obj(o)
            },
            StreamEvent::MessageDone { text } => {
                let mut o: Vec<(String, Json)> = Vec::new();
                obj_field(&mut o, "type", Json::of_str("response.output_item.done"));
                obj_field(&mut o, "item", make_message_item(text.as_str()));
                proof {
                    assert(jview_entries(o@) =~~= event_payload_of(self@)->Obj_0);
                }
                Json::Obj(o)
            },
            StreamEvent::FunctionCallDone { name, args, call_id } => {
                let mut item: Vec<(String, Json)> = Vec::new();
                obj_field(&mut item, "type", Json::of_str("function_call"));
                obj_field(&mut item, "name", Json::Str(name.clone()));
                obj_field(&mut item, "arguments", Json::Str(args.clone()));
                obj_field(&mut item, "call_id", Json::Str(call_id.clone()));
                proof {
                    assert(jview_entries(item@) =~= seq![
                        ("type"@, JsonV::Str("function_call"@)),
                        ("name"@, JsonV::Str(name@)),
                        ("arguments"@, JsonV::Str(args@)),
                        ("call_id"@, JsonV::Str(call_id@)),
                    ]);
                }
                let mut o: Vec<(String, Json)> = Vec::new();
                obj_field(&mut o, "type", Json::of_str("response.output_item.done"));
                obj_field(&mut o, "item", Json::Obj(item));
                proof {
                    assert(jview_entries(o@) =~= event_payload_of(self@)->Obj_0);
                }
                Json::Obj(o)
            },
            StreamEvent::Completed { id, usage } => {
                let usage_json: Json = match usage {
                    Some(u) => {
                        let mut uo: Vec<(String, Json)> = Vec::new();
                        obj_field(&mut uo, "input_tokens", Json::Int(u.prompt_tokens));
                        obj_field(&mut uo, "input_tokens_details", Json::Null);
                        obj_field(&mut uo, "output_tokens", Json::Int(u.completion_tokens));
                        obj_field(&mut uo, "output_tokens_details", Json::Null);
                        obj_field(&mut uo, "total_tokens", Json::Int(u.total_tokens));
                        proof {
                            assert(jview_entries(uo@) =~~= usage_payload(*u)->Obj_0);
                        }
                        Json::Obj(uo)
                    },
                    None => Json::Null,
                };
                let mut resp: Vec<(String, Json)> = Vec::new();
                obj_field(&mut resp, "id", Json::Str(id.clone()));
                obj_field(&mut resp, "usage", usage_json);
                proof {
                    assert(jview_entries(resp@) =~= seq![
                        ("id"@, JsonV::Str(id@)),
                        (
                            "usage"@,
                            match usage {
                                Some(u) => usage_payload(*u),
                                None => JsonV::Null,
                            },
                        ),
                    ]);
                }
                let mut o: Vec<(String, Json)> = Vec::new();
                obj_field(&mut o, "type", Json::of_str("response.completed"));
                obj_field(&mut o, "response", Json::Obj(resp));
                proof {
                    assert(jview_entries(o@) =~= event_payload_of(self@)->Obj_0);
                }
                Json::Obj(o)
            },
            StreamEvent::Failed { resp, code, message } => {
                let mut err: Vec<(String, Json)> = Vec::new();
                obj_field(&mut err, "code", Json::Str(code.clone()));
                obj_field(&mut err, "message", Json::Str(message.clone()));
                proof {
                    assert(jview_entries(err@) =~= error_payload(code@, message@)->Obj_0);
                }
                let mut ro: Vec<(String, Json)> = Vec::new();
                match resp {
                    Some(s) => {
                        obj_field(&mut ro, "id", Json::Str(s.clone()));
                    },
                    None => {},
                }
                obj_field(&mut ro, "error", Json::Obj(err));
                proof {
                    assert(jview_entries(ro@) =~= match self@->Failed_resp {
                        Some(s) => seq![
                            ("id"@, JsonV::Str(s)),
                            ("error"@, error_payload(code@, message@)),
                        ],
                        None => seq![("error"@, error_payload(code@, message@))],
                    });
                }
                let mut o: Vec<(String, Json)> = Vec::new();
                obj_field(&mut o, "type", Json::of_str("response.failed"));
                obj_field(&mut o, "response", Json::Obj(ro));
                proof {
                    assert(jview_entries(o@) =~= event_payload_of(self@)->Obj_0);
                }
                Json::Obj(o)
            },
        }
    }

    /// The wire name of this event.
    pub fn wire_name(&self) -> (r: &'static str)
        ensures
            r@ == event_name_of(self@),
    {
        match self {
            StreamEvent::Created { .. } => "response.created",
            StreamEvent::ItemAdded => "response.output_item.added",
            StreamEvent::TextDelta { .. } => "response.output_text.delta",
            StreamEvent::MessageDone { .. } => "response.output_item.done",
            StreamEvent::FunctionCallDone { .. } => "response.output_item.done",
            StreamEvent::Completed { .. } => "response.completed",
            StreamEvent::Failed { .. } => "response.failed",
        }
    }

    /// The wire form of this event.
    pub fn to_sse(&self) -> (r: String)
        ensures
            r@ == event_frame_of(self@),
    {
        let payload = self.payload();
        let mut out = String::new();
        out.append("event: ");
        out.append(self.wire_name());
        out.append("\ndata: ");
        let body = payload.to_text();
        out.append(body.as_str());
        out.append("\n\n");
        out
    }
}

} // verus!
