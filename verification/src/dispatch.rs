//! The dispatcher's pure decisions: stream-mode selection, tool filtering,
//! building the upstream payload, error framing, and the log-safe views of
//! headers and messages.  The network itself stays outside the library.

use vstd::prelude::*;
use vstd::string::*;

use crate::errors::BridgeError;
use crate::json::{
    arr_item, jview, jview_entries, jview_list, jv_get, jv_remove, jv_set, obj_field, json_text,
    Json, JsonV,
};
use crate::stream::{event_frame_of, EventV, StreamEvent};
use crate::text::text_views;
use crate::to_chat::{maps_to_chat, map_responses_to_chat_request_with_stream};
use crate::to_responses::{maps_to_responses, map_chat_to_responses_request};
use crate::tools::tool_dropped;

verus! {

/// Which schema an incoming request speaks.
#[derive(Clone, Copy, Debug, PartialEq, Eq, Structural)]
pub enum IncomingApi {
    Responses,
    Chat,
}

/// Which schema the upstream speaks.
#[derive(Clone, Copy, Debug, PartialEq, Eq, Structural)]
pub enum WireApi {
    Chat,
    Responses,
}

/// The stream mode a schema defaults to: Responses callers stream, Chat
/// callers do not.
pub open spec fn stream_default_of(api: IncomingApi) -> bool {
    api is Responses
}

/// The per-schema default stream mode.
pub fn stream_default_for_api(incoming_api: IncomingApi) -> (r: bool)
    ensures
        r == stream_default_of(incoming_api),
{
    match incoming_api {
        IncomingApi::Responses => true,
        IncomingApi::Chat => false,
    }
}

/// The stream mode a request asks for: its boolean `stream` field, or the
/// schema default.
pub open spec fn stream_flag_of(api: IncomingApi, req: JsonV) -> bool {
    match jv_get(req, "stream"@) {
        Some(JsonV::Bool(b)) => b,
        _ => stream_default_of(api),
    }
}

/// Read the request's stream mode.
pub fn stream_flag_for_request(incoming_api: IncomingApi, request: &Json) -> (r: bool)
    ensures
        r == stream_flag_of(incoming_api, request@),
{
    match request.get("stream") {
        Some(v) => match v.as_bool() {
            Some(b) => b,
            None => stream_default_for_api(incoming_api),
        },
        None => stream_default_for_api(incoming_api),
    }
}

/// The tools that survive the drop set, in order.
pub open spec fn retained_tools(ts: Seq<JsonV>, drop: Seq<Seq<char>>) -> Seq<JsonV>
    decreases ts,
{
    if ts.len() == 0 {
        Seq::empty()
    } else {
        let rest = retained_tools(ts.drop_last(), drop);
        if tool_dropped(ts.last(), drop) {
            rest
        } else {
            rest.push(ts.last())
        }
    }
}

/// A request after tool filtering: dropped tools gone; if none survive,
/// `tools` and `tool_choice` leave with them.
pub open spec fn filtered_request(req: JsonV, drop: Seq<Seq<char>>) -> JsonV {
    match jv_get(req, "tools"@) {
        Some(JsonV::Arr(ts)) => {
            let kept = retained_tools(ts, drop);
            if kept.len() == 0 {
                jv_remove(jv_remove(req, "tools"@), "tool_choice"@)
            } else {
                jv_set(req, "tools"@, JsonV::Arr(kept))
            }
        },
        _ => req,
    }
}

/// Drop the configured tool types from the request's `tools`.  The incoming
/// schema reads the type from the same place in both, so it only names the
/// caller.
pub fn apply_request_filters(
    incoming_api: IncomingApi,
    request: Json,
    drop_tool_types: &Vec<String>,
) -> (r: Json)
    ensures
        r@ == filtered_request(request@, text_views(drop_tool_types@)),
{
    let _ = incoming_api;
    let tools_arr: Option<&Vec<Json>> = match request.get("tools") {
        Some(v) => v.as_arr(),
        None => None,
    };
    match tools_arr {
        Some(ts) => {
            let ghost tsv = jview_list(ts@);
            let mut kept: Vec<Json> = Vec::new();
            let n = ts.len();
            let mut i: usize = 0;
            proof {
                crate::json::lemma_jview_list_index(ts@);
                assert(tsv.take(0) =~= Seq::<JsonV>::empty());
            }
            while i < n
                invariant
                    0 <= i <= n,
                    n == ts@.len(),
                    tsv == jview_list(ts@),
                    tsv.len() == n,
                    forall|j: int| 0 <= j < n ==> tsv[j] == jview(#[trigger] ts@[j]),
                    jview_list(kept@) == retained_tools(tsv.take(i as int), text_views(
                        drop_tool_types@,
                    )),
                decreases n - i,
            {
                let tool = &ts[i];
                let ghost tv = tsv[i as int];
                let dropped: bool = match tool.get_str("type") {
                    Some(t) => crate::tools::in_drop_list(drop_tool_types, t.as_str()),
                    None => false,
                };
                if !dropped {
                    arr_item(&mut kept, tool.duplicate());
                }
                proof {
                    assert(dropped == tool_dropped(tv, text_views(drop_tool_types@)));
                    assert(tsv.take(i + 1 as int).drop_last() =~= tsv.take(i as int));
                    assert(tsv.take(i + 1 as int).last() == tv);
                }
                i = i + 1;
            }
            proof {
                assert(tsv.take(n as int) =~= tsv);
            }
            if kept.len() == 0 {
                request.without_field("tools").without_field("tool_choice")
            } else {
                request.with_field("tools", Json::Arr(kept))
            }
        },
        None => request,
    }
}

/// Overwrite the payload's `stream` flag (an object; anything else is left
/// alone, as it will be rejected upstream anyway).
pub fn set_stream_flag(payload: Json, stream: bool) -> (r: Json)
    ensures
        r@ == jv_set(payload@, "stream"@, JsonV::Bool(stream)),
{
    payload.with_field("stream", Json::Bool(stream))
}

/// The payload sent upstream for a request: transcoded when the schemas
/// differ, cloned when they agree, and always stamped with the chosen
/// stream mode.  Whatever the route, an object payload carries `stream`
/// equal to the chosen mode.
pub fn build_upstream_payload(
    request: &Json,
    incoming_api: IncomingApi,
    upstream_wire: WireApi,
    stream: bool,
) -> (r: Result<Json, BridgeError>)
    ensures
        match r {
            Ok(p) => {
                &&& (p@ is Obj ==> jv_get(p@, "stream"@) == Some(JsonV::Bool(stream)))
                &&& match (incoming_api, upstream_wire) {
                    (IncomingApi::Responses, WireApi::Chat) => exists|chat: JsonV|
                        #![trigger jv_set(chat, "stream"@, JsonV::Bool(stream))]
                        maps_to_chat(request@, Seq::empty(), stream, chat) && p@ == jv_set(
                            chat,
                            "stream"@,
                            JsonV::Bool(stream),
                        ),
                    (IncomingApi::Chat, WireApi::Responses) => exists|out: JsonV|
                        #![trigger jv_set(out, "stream"@, JsonV::Bool(stream))]
                        maps_to_responses(request@, stream, out) && p@ == jv_set(
                            out,
                            "stream"@,
                            JsonV::Bool(stream),
                        ),
                    _ => p@ == jv_set(request@, "stream"@, JsonV::Bool(stream)),
                }
            },
            Err(e) => match (incoming_api, upstream_wire) {
                (IncomingApi::Responses, WireApi::Chat) => if e == BridgeError::MissingModel {
                    !(jv_get(request@, "model"@) matches Some(JsonV::Str(_)))
                } else {
                    e == BridgeError::MissingInput && (jv_get(request@, "model"@) matches Some(
                        JsonV::Str(_),
                    )) && !(jv_get(request@, "input"@) matches Some(JsonV::Arr(_)))
                },
                (IncomingApi::Chat, WireApi::Responses) => if e == BridgeError::MissingModel {
                    !(jv_get(request@, "model"@) matches Some(JsonV::Str(_)))
                } else {
                    e == BridgeError::MissingMessages && (jv_get(request@, "model"@) matches Some(
                        JsonV::Str(_),
                    )) && !(jv_get(request@, "messages"@) matches Some(JsonV::Arr(_)))
                },
                _ => false,
            },
        },
{
    let payload: Json = match (incoming_api, upstream_wire) {
        (IncomingApi::Responses, WireApi::Chat) => {
            let empty_drop: Vec<String> = Vec::new();
            proof {
                assert(text_views(empty_drop@) =~= Seq::<Seq<char>>::empty());
            }
            match map_responses_to_chat_request_with_stream(request, &empty_drop, stream) {
                Ok(br) => br.chat_request,
                Err(e) => {
                    return Err(e);
                },
            }
        },
        (IncomingApi::Chat, WireApi::Responses) => {
            match map_chat_to_responses_request(request, stream) {
                Ok(out) => out,
                Err(e) => {
                    return Err(e);
                },
            }
        },
        _ => request.duplicate(),
    };
    let ghost pv = payload@;
    let stamped = set_stream_flag(payload, stream);
    proof {
        if stamped@ is Obj {
            crate::json::lemma_set_then_get(pv->Obj_0, "stream"@, JsonV::Bool(stream));
        }
    }
    Ok(stamped)
}

/// The `tools` and `tool_choice` fields stand or fall together: after a
/// transcoding to either schema, one is present exactly when the other is.
pub proof fn lemma_tools_choice_paired(req: JsonV, drop: Seq<Seq<char>>, stream: bool, out: JsonV)
    requires
        maps_to_chat(req, drop, stream, out) || maps_to_responses(req, stream, out),
    ensures
        crate::json::jv_has(out, "tools"@) <==> crate::json::jv_has(out, "tool_choice"@),
{
    lemma_request_keys();
    if maps_to_chat(req, drop, stream, out) {
        let model = jv_get(req, "model"@)->0->Str_0;
        let items = jv_get(req, "input"@)->0->Arr_0;
        let msgs = choose|msgs: Seq<JsonV>|
            #![trigger crate::to_chat::chat_msgs_of_items(items, msgs)]
            crate::to_chat::chat_msgs_of_items(items, msgs) && out
                == crate::to_chat::chat_request_of(
                model,
                crate::to_chat::sys_prefix_of(req) + msgs,
                crate::tools::chat_tools_of(crate::to_chat::req_tools_of(req), drop),
                crate::tools::chat_tool_choice_of(crate::to_chat::req_choice_of(req)),
                crate::to_chat::req_ptc_of(req),
                stream,
            );
        let tools = crate::tools::chat_tools_of(crate::to_chat::req_tools_of(req), drop);
        let es = out->Obj_0;
        if tools.len() > 0 {
            let base: int = if stream {
                4
            } else {
                3
            };
            assert(es[base].0 == "tools"@);
            assert(es[base + 1].0 == "tool_choice"@);
            crate::json::lemma_entries_get_found(es, "tools"@, base);
            crate::json::lemma_entries_get_found(es, "tool_choice"@, base + 1);
        } else {
            assert forall|j: int| 0 <= j < es.len() implies (#[trigger] es[j]).0 != "tools"@
                && es[j].0 != "tool_choice"@ by {}
            crate::json::lemma_entries_get_absent(es, "tools"@);
            crate::json::lemma_entries_get_absent(es, "tool_choice"@);
        }
    } else {
        let tools = crate::tools::responses_tools_of(crate::to_chat::req_tools_of(req));
        let es = out->Obj_0;
        if tools.len() > 0 {
            assert(es[3].0 == "tools"@);
            assert(es[4].0 == "tool_choice"@);
            crate::json::lemma_entries_get_found(es, "tools"@, 3);
            crate::json::lemma_entries_get_found(es, "tool_choice"@, 4);
        } else {
            assert forall|j: int| 0 <= j < es.len() implies (#[trigger] es[j]).0 != "tools"@
                && es[j].0 != "tool_choice"@ by {}
            crate::json::lemma_entries_get_absent(es, "tools"@);
            crate::json::lemma_entries_get_absent(es, "tool_choice"@);
        }
    }
}

/// The field names of the assembled requests, told apart.
proof fn lemma_request_keys()
    ensures
        "model"@.len() == 5,
        "messages"@.len() == 8,
        "input"@.len() == 5,
        "stream"@.len() == 6,
        "stream_options"@.len() == 14,
        "tools"@.len() == 5,
        "tool_choice"@.len() == 11,
        "parallel_tool_calls"@.len() == 19,
        "model"@[0] == 'm',
        "tools"@[0] == 't',
        "input"@[0] == 'i',
{
    reveal_strlit("model");
    reveal_strlit("messages");
    reveal_strlit("input");
    reveal_strlit("stream");
    reveal_strlit("stream_options");
    reveal_strlit("tools");
    reveal_strlit("tool_choice");
    reveal_strlit("parallel_tool_calls");
}

/// A fresh response identifier: `resp_bridge_` and a 36-character unique
/// part.
pub open spec fn response_id_ok(s: Seq<char>) -> bool {
    exists|u: Seq<char>| (#[trigger] u.len()) == 36 && s == "resp_bridge_"@ + u
}

/// Mint the response identifier for one request.
pub fn new_response_id() -> (r: String)
    ensures
        response_id_ok(r@),
{
    let u = crate::outside::fresh_uuid();
    let mut rid: String = "resp_bridge_".to_owned();
    rid.append(u.as_str());
    proof {
        assert(u@.len() == 36 && rid@ == "resp_bridge_"@ + u@);
    }
    rid
}

/// Frame one event for the wire: `event: <name>\ndata: <json>\n\n`.
pub fn sse_event(event_name: &str, payload: &Json) -> (r: String)
    ensures
        r@ == "event: "@ + event_name@ + "\ndata: "@ + json_text(payload@) + "\n\n"@,
{
    let mut out = String::new();
    out.append("event: ");
    out.append(event_name);
    out.append("\ndata: ");
    let body = payload.to_text();
    out.append(body.as_str());
    out.append("\n\n");
    out
}

/// The whole SSE body of a failure that precedes any upstream stream: a
/// `response.created` for `rid`, then one `response.failed` carrying the
/// error.
pub open spec fn failure_body_of(rid: Seq<char>, code: Seq<char>, message: Seq<char>) -> Seq<
    char,
> {
    event_frame_of(EventV::Created { id: rid }) + event_frame_of(
        EventV::Failed { resp: Some(rid), code, message },
    )
}

/// The SSE body of a request that failed before any upstream stream began:
/// a fresh `response.created`, then one `response.failed`.
pub fn sse_error_body(code: &str, message: &str) -> (r: String)
    ensures
        exists|rid: Seq<char>|
            #![trigger failure_body_of(rid, code@, message@)]
            response_id_ok(rid) && r@ == failure_body_of(rid, code@, message@),
{
    let rid = new_response_id();
    let ghost ridv = rid@;
    let created = StreamEvent::Created { id: rid.clone() };
    let failed = StreamEvent::Failed {
        resp: Some(rid),
        code: code.to_owned(),
        message: message.to_owned(),
    };
    let mut out = created.to_sse();
    let second = failed.to_sse();
    out.append(second.as_str());
    proof {
        assert(out@ == failure_body_of(ridv, code@, message@));
    }
    out
}

/// The error body in the caller's framing: an SSE stream for a streaming
/// caller, a JSON document for a unary one.
pub fn error_body_for_stream(stream: bool, code: &str, message: &str) -> (r: String)
    ensures
        if stream {
            exists|rid: Seq<char>|
                #![trigger failure_body_of(rid, code@, message@)]
                response_id_ok(rid) && r@ == failure_body_of(rid, code@, message@)
        } else {
            r@ == json_text(error_doc_of(code@, message@))
        },
{
    if stream {
        sse_error_body(code, message)
    } else {
        let doc = json_error_body(code, message);
        doc.to_text()
    }
}

/// The JSON error document of a unary failure.
pub open spec fn error_doc_of(code: Seq<char>, message: Seq<char>) -> JsonV {
    JsonV::Obj(
        seq![
            (
                "error"@,
                JsonV::Obj(
                    seq![("type"@, JsonV::Str(code)), ("message"@, JsonV::Str(message))],
                ),
            ),
        ],
    )
}

/// Build the unary error document.
pub fn json_error_body(code: &str, message: &str) -> (r: Json)
    ensures
        r@ == error_doc_of(code@, message@),
{
    let mut inner: Vec<(String, Json)> = Vec::new();
    obj_field(&mut inner, "type", Json::of_str(code));
    obj_field(&mut inner, "message", Json::of_str(message));
    proof {
        assert(jview_entries(inner@) =~= seq![
            ("type"@, JsonV::Str(code@)),
            ("message"@, JsonV::Str(message@)),
        ]);
    }
    let mut o: Vec<(String, Json)> = Vec::new();
    obj_field(&mut o, "error", Json::Obj(inner));
    proof {
        assert(jview_entries(o@) =~= error_doc_of(code@, message@)->Obj_0);
    }
    Json::Obj(o)
}

/// The frame a passthrough stream emits when the upstream transport fails
/// mid-stream; the upstream already sent its own `response.created`.
pub fn passthrough_failure_frame(message: &str) -> (r: String)
    ensures
        r@ == event_frame_of(
            EventV::Failed { resp: None, code: "upstream_stream_error"@, message: message@ },
        ),
{
    let ev = StreamEvent::Failed {
        resp: None,
        code: "upstream_stream_error".to_owned(),
        message: message.to_owned(),
    };
    ev.to_sse()
}

/// The message of an `upstream_error`: the status line and the raw body.
pub fn upstream_error_message(status: u16, status_text: &str, body: &str) -> (r: String)
    ensures
        r@ == "upstream returned "@ + crate::text::dec_digits(status as int) + " "@ + status_text@
            + ": "@ + body@,
{
    let mut out: String = "upstream returned ".to_owned();
    let num = crate::text::u64_to_string(status as u64);
    out.append(num.as_str());
    out.append(" ");
    out.append(status_text);
    out.append(": ");
    out.append(body);
    out
}

/// What the log shows in place of the bearer token.
pub fn redact_for_logging(secret: &str) -> (r: &'static str)
    ensures
        r@ == if secret@.len() == 0 {
            "<empty>"@
        } else {
            "<redacted>"@
        },
{
    if secret.is_empty() {
        "<empty>"
    } else {
        "<redacted>"
    }
}

/// The headers the bridge forwards to the upstream verbatim.
pub fn forwarded_upstream_headers() -> (r: Vec<String>)
    ensures
        text_views(r@) =~= seq![
            "openai-organization"@,
            "openai-project"@,
            "x-openai-subagent"@,
            "x-codex-turn-state"@,
            "x-codex-turn-metadata"@,
        ],
{
    let mut v: Vec<String> = Vec::new();
    v.push("openai-organization".to_owned());
    v.push("openai-project".to_owned());
    v.push("x-openai-subagent".to_owned());
    v.push("x-codex-turn-state".to_owned());
    v.push("x-codex-turn-metadata".to_owned());
    proof {
        crate::tools::lemma_text_views_index(v@);
        assert(v@.len() == 5);
        assert(v@[0]@ == "openai-organization"@ && v@[1]@ == "openai-project"@ && v@[2]@
            == "x-openai-subagent"@ && v@[3]@ == "x-codex-turn-state"@ && v@[4]@
            == "x-codex-turn-metadata"@);
        assert(text_views(v@) =~= seq![
            "openai-organization"@,
            "openai-project"@,
            "x-openai-subagent"@,
            "x-codex-turn-state"@,
            "x-codex-turn-metadata"@,
        ]);
    }
    v
}

/// The unary response body handed back to the caller: transcoded when the
/// upstream's schema differs from the caller's (a Chat upstream document
/// becomes a Responses document), passed through unchanged when they agree.
pub fn unary_response_body(
    incoming_api: IncomingApi,
    upstream_wire: WireApi,
    upstream_json: Json,
    response_id: String,
) -> (r: Json)
    ensures
        if upstream_wire is Chat && incoming_api is Responses {
            crate::unary::unary_response_ok(upstream_json@, response_id@, r@)
        } else {
            r@ == upstream_json@
        },
{
    match (incoming_api, upstream_wire) {
        (IncomingApi::Responses, WireApi::Chat) => crate::unary::chat_json_to_responses_json(
            &upstream_json,
            response_id,
        ),
        _ => upstream_json,
    }
}

/// After a filtering that leaves no tools, both tool fields are gone,
/// whatever the request held.
pub proof fn lemma_filtered_request_empty(req: JsonV, drop: Seq<Seq<char>>)
    requires
        jv_get(req, "tools"@) matches Some(JsonV::Arr(ts)) && retained_tools(ts, drop).len() == 0,
    ensures
        jv_get(filtered_request(req, drop), "tools"@) is None,
        jv_get(filtered_request(req, drop), "tool_choice"@) is None,
{
    lemma_request_keys();
    let o = req->Obj_0;
    let x = crate::json::entries_remove(o, "tools"@);
    let y = crate::json::entries_remove(x, "tool_choice"@);
    crate::json::lemma_remove_then_get(x, "tool_choice"@);
    crate::json::lemma_entries_remove_keys(o, "tools"@);
    lemma_remove_keeps_missing_key(x, "tool_choice"@, "tools"@);
    crate::json::lemma_entries_get_absent(y, "tools"@);
}

/// Removing one key cannot bring a missing key back.
proof fn lemma_remove_keeps_missing_key(
    o: Seq<(Seq<char>, JsonV)>,
    removed: Seq<char>,
    key: Seq<char>,
)
    requires
        forall|j: int| 0 <= j < o.len() ==> (#[trigger] o[j]).0 != key,
    ensures
        forall|j: int|
            0 <= j < crate::json::entries_remove(o, removed).len() ==> (
            #[trigger] crate::json::entries_remove(o, removed)[j]).0 != key,
    decreases o,
{
    if o.len() > 0 {
        lemma_remove_keeps_missing_key(o.drop_last(), removed, key);
        let r = crate::json::entries_remove(o, removed);
        let rest = crate::json::entries_remove(o.drop_last(), removed);
        assert forall|j: int| 0 <= j < r.len() implies r[j].0 != key by {
            if o.last().0 != removed && j == rest.len() {
                assert(r[j] == o.last());
                assert(o.last() == o[o.len() - 1]);
            } else {
                assert(r[j] == rest[j]);
            }
        }
    }
}

/// The `message`-typed items of a Responses payload's `input`.
pub open spec fn message_items_only(items: Seq<JsonV>) -> Seq<JsonV>
    decreases items,
{
    if items.len() == 0 {
        Seq::empty()
    } else {
        let rest = message_items_only(items.drop_last());
        if jv_get(items.last(), "type"@) == Some(JsonV::Str("message"@)) {
            rest.push(items.last())
        } else {
            rest
        }
    }
}

/// The messages of an upstream payload, for the verbose log: a Chat
/// payload's `messages` verbatim; a Responses payload's `message`-typed
/// input items.
pub fn upstream_messages_for_logging(upstream_wire: WireApi, payload: &Json) -> (r: Option<Json>)
    ensures
        match upstream_wire {
            WireApi::Chat => match r {
                Some(v) => jv_get(payload@, "messages"@) == Some(v@),
                None => jv_get(payload@, "messages"@) is None,
            },
            WireApi::Responses => match r {
                Some(v) => (jv_get(payload@, "input"@) matches Some(JsonV::Arr(items))
                    && v@ == JsonV::Arr(message_items_only(items))),
                None => !(jv_get(payload@, "input"@) matches Some(JsonV::Arr(_))),
            },
        },
{
    match upstream_wire {
        WireApi::Chat => match payload.get("messages") {
            Some(v) => Some(v.duplicate()),
            None => None,
        },
        WireApi::Responses => {
            let items: Option<&Vec<Json>> = match payload.get("input") {
                Some(v) => v.as_arr(),
                None => None,
            };
            match items {
                Some(its) => {
                    let ghost itsv = jview_list(its@);
                    let mut msgs: Vec<Json> = Vec::new();
                    let n = its.len();
                    let mut i: usize = 0;
                    proof {
                        crate::json::lemma_jview_list_index(its@);
                        assert(itsv.take(0) =~= Seq::<JsonV>::empty());
                    }
                    while i < n
                        invariant
                            0 <= i <= n,
                            n == its@.len(),
                            itsv == jview_list(its@),
                            itsv.len() == n,
                            forall|j: int| 0 <= j < n ==> itsv[j] == jview(#[trigger] its@[j]),
                            jview_list(msgs@) == message_items_only(itsv.take(i as int)),
                        decreases n - i,
                    {
                        let item = &its[i];
                        let ghost iv = itsv[i as int];
                        let is_message: bool = match item.get_str("type") {
                            Some(t) => crate::text::str_eq(t.as_str(), "message"),
                            None => false,
                        };
                        if is_message {
                            arr_item(&mut msgs, item.duplicate());
                        }
                        proof {
                            assert(itsv.take(i + 1 as int).drop_last() =~= itsv.take(i as int));
                            assert(itsv.take(i + 1 as int).last() == iv);
                        }
                        i = i + 1;
                    }
                    proof {
                        assert(itsv.take(n as int) =~= itsv);
                    }
                    Some(Json::Arr(msgs))
                },
                None => None,
            }
        },
    }
}

/// The authorization line of the header log.
pub open spec fn auth_log_of(key: Seq<char>) -> Seq<char> {
    "Bearer "@ + (if key.len() == 0 {
        "<empty>"@
    } else {
        "<redacted>"@
    })
}

/// The header object of the verbose log: the redacted authorization, the
/// content type, and each forwarded header that the caller sent.
pub open spec fn headers_log_of(pairs: Seq<(Seq<char>, Seq<char>)>, key: Seq<char>) -> JsonV {
    JsonV::Obj(
        seq![
            ("authorization"@, JsonV::Str(auth_log_of(key))),
            ("content-type"@, JsonV::Str("application/json"@)),
        ] + str_pairs_entries(pairs),
    )
}

/// Header pairs as object fields.
pub open spec fn str_pairs_entries(pairs: Seq<(Seq<char>, Seq<char>)>) -> Seq<(Seq<char>, JsonV)>
    decreases pairs,
{
    if pairs.len() == 0 {
        Seq::empty()
    } else {
        str_pairs_entries(pairs.drop_last()).push(
            (pairs.last().0, JsonV::Str(pairs.last().1)),
        )
    }
}

/// The models of a list of header pairs.
pub open spec fn pair_views(pairs: Seq<(String, String)>) -> Seq<(Seq<char>, Seq<char>)>
    decreases pairs,
{
    if pairs.len() == 0 {
        Seq::empty()
    } else {
        pair_views(pairs.drop_last()).push((pairs.last().0@, pairs.last().1@))
    }
}

/// Build the log-safe view of the upstream headers: the caller passes the
/// forwarded headers it found on the request, in order.
pub fn upstream_headers_for_logging(forwarded: &Vec<(String, String)>, api_key: &str) -> (r: Json)
    ensures
        r@ == headers_log_of(pair_views(forwarded@), api_key@),
{
    let mut o: Vec<(String, Json)> = Vec::new();
    let mut auth: String = "Bearer ".to_owned();
    auth.append(redact_for_logging(api_key));
    obj_field(&mut o, "authorization", Json::Str(auth));
    obj_field(&mut o, "content-type", Json::of_str("application/json"));
    let ghost base = jview_entries(o@);
    proof {
        assert(base =~= seq![
            ("authorization"@, JsonV::Str(auth_log_of(api_key@))),
            ("content-type"@, JsonV::Str("application/json"@)),
        ]);
    }
    let n = forwarded.len();
    let mut i: usize = 0;
    proof {
        assert(pair_views(forwarded@).take(0) =~= Seq::<(Seq<char>, Seq<char>)>::empty());
        assert(jview_entries(o@) =~= base + str_pairs_entries(pair_views(forwarded@).take(0)));
        lemma_pair_views_index(forwarded@);
    }
    while i < n
        invariant
            0 <= i <= n,
            n == forwarded@.len(),
            pair_views(forwarded@).len() == n,
            forall|j: int| 0 <= j < n ==> pair_views(forwarded@)[j] == ((
                #[trigger] forwarded@[j]).0@, forwarded@[j].1@),
            jview_entries(o@) == base + str_pairs_entries(pair_views(forwarded@).take(i as int)),
            base == seq![
                ("authorization"@, JsonV::Str(auth_log_of(api_key@))),
                ("content-type"@, JsonV::Str("application/json"@)),
            ],
        decreases n - i,
    {
        let pair = &forwarded[i];
        obj_field(&mut o, pair.0.as_str(), Json::Str(pair.1.clone()));
        proof {
            let pv = pair_views(forwarded@);
            assert(pv.take(i + 1 as int).drop_last() =~= pv.take(i as int));
            assert(pv.take(i + 1 as int).last() == pv[i as int]);
            assert(str_pairs_entries(pv.take(i + 1 as int)) == str_pairs_entries(
                pv.take(i as int),
            ).push((pv[i as int].0, JsonV::Str(pv[i as int].1))));
            assert(jview_entries(o@) =~= base + str_pairs_entries(pv.take(i + 1 as int)));
        }
        i = i + 1;
    }
    proof {
        assert(pair_views(forwarded@).take(n as int) =~= pair_views(forwarded@));
        assert(jview_entries(o@) =~= headers_log_of(pair_views(forwarded@), api_key@)->Obj_0);
    }
    Json::Obj(o)
}

proof fn lemma_pair_views_index(pairs: Seq<(String, String)>)
    ensures
        pair_views(pairs).len() == pairs.len(),
        forall|j: int| 0 <= j < pairs.len() ==> pair_views(pairs)[j] == ((
            #[trigger] pairs[j]).0@, pairs[j].1@),
    decreases pairs,
{
    if pairs.len() > 0 {
        lemma_pair_views_index(pairs.drop_last());
        assert forall|j: int| 0 <= j < pairs.len() implies pair_views(pairs)[j] == (
            pairs[j].0@,
            pairs[j].1@,
        ) by {
            if j < pairs.len() - 1 {
                assert(pairs.drop_last()[j] == pairs[j]);
                assert(pair_views(pairs.drop_last())[j] == (
                    pairs.drop_last()[j].0@,
                    pairs.drop_last()[j].1@,
                ));
            }
        }
    }
}

} // verus!
