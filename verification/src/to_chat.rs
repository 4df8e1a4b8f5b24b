//! The request transcoder from the Responses API to the Chat API.
//!
//! Typed input items become role-tagged chat messages: a `message` item's
//! parts are flattened to one text, a `function_call` becomes an assistant
//! message carrying one tool call, and the three tool-output item kinds
//! become `tool` messages.  A synthesized call id is the one thing not
//! pinned to a single value: it is fresh, and the contract says only its
//! shape.

use vstd::prelude::*;
use vstd::string::*;

use crate::content::{flatten_content_items, flatten_text, function_arguments_to_text, function_output_to_text, output_text_of, arguments_text_of};
use crate::errors::BridgeError;
use crate::json::{
    arr_item, jview, jview_entries, jview_list, jv_get, obj_field, json_text, Json,
    JsonV,
};
use crate::text::{is_blank, str_eq, str_is_blank, text_views};
use crate::tools::{chat_tool_choice_of, chat_tools_of, normalize_chat_tools, normalize_tool_choice};

verus! {

/// The `type` of an input item, empty when absent or not a string.
pub open spec fn item_type_of(item: JsonV) -> Seq<char> {
    match jv_get(item, "type"@) {
        Some(JsonV::Str(t)) => t,
        _ => Seq::empty(),
    }
}

/// The `role` of a message item, `user` when absent.
pub open spec fn item_role_of(item: JsonV) -> Seq<char> {
    match jv_get(item, "role"@) {
        Some(JsonV::Str(r)) => r,
        _ => "user"@,
    }
}

/// The flattened text of a message item's content list.
pub open spec fn item_content_text(item: JsonV) -> Seq<char> {
    match jv_get(item, "content"@) {
        Some(JsonV::Arr(parts)) => flatten_text(parts),
        _ => Seq::empty(),
    }
}

/// The `call_id` of an item, empty when absent or not a string.
pub open spec fn item_call_id_of(item: JsonV) -> Seq<char> {
    match jv_get(item, "call_id"@) {
        Some(JsonV::Str(s)) => s,
        _ => Seq::empty(),
    }
}

/// A chat message with a plain text content.
pub open spec fn text_message(role: Seq<char>, text: Seq<char>) -> JsonV {
    JsonV::Obj(seq![("role"@, JsonV::Str(role)), ("content"@, JsonV::Str(text))])
}

/// A `tool` chat message answering `call_id` with `content`.
pub open spec fn tool_output_message(call_id: Seq<char>, content: Seq<char>) -> JsonV {
    JsonV::Obj(
        seq![
            ("role"@, JsonV::Str("tool"@)),
            ("tool_call_id"@, JsonV::Str(call_id)),
            ("content"@, JsonV::Str(content)),
        ],
    )
}

/// An assistant chat message carrying one tool call.
pub open spec fn function_call_message(
    call_id: Seq<char>,
    name: Seq<char>,
    args: Seq<char>,
) -> JsonV {
    JsonV::Obj(
        seq![
            ("role"@, JsonV::Str("assistant"@)),
            ("content"@, JsonV::Str(Seq::empty())),
            (
                "tool_calls"@,
                JsonV::Arr(
                    seq![
                        JsonV::Obj(
                            seq![
                                ("id"@, JsonV::Str(call_id)),
                                ("type"@, JsonV::Str("function"@)),
                                (
                                    "function"@,
                                    JsonV::Obj(
                                        seq![
                                            ("name"@, JsonV::Str(name)),
                                            ("arguments"@, JsonV::Str(args)),
                                        ],
                                    ),
                                ),
                            ],
                        ),
                    ],
                ),
            ),
        ],
    )
}

/// Whether an input item yields a chat message at all.
pub open spec fn item_kept(item: JsonV) -> bool {
    let t = item_type_of(item);
    if t == "message"@ {
        !is_blank(item_content_text(item))
    } else if t == "function_call"@ {
        match jv_get(item, "name"@) {
            Some(JsonV::Str(n)) => n.len() > 0,
            _ => false,
        }
    } else {
        t == "function_call_output"@ || t == "custom_tool_call_output"@
            || t == "mcp_tool_call_output"@
    }
}

/// The call id a `function_call` item's message may carry: the item's own
/// when it is a non-blank string, else any fresh `call_<id>` value.
pub open spec fn fc_call_id_ok(item: JsonV, cid: Seq<char>) -> bool {
    match jv_get(item, "call_id"@) {
        Some(JsonV::Str(s)) => if !is_blank(s) {
            cid == s
        } else {
            synth_plain_call_id_ok(cid)
        },
        _ => synth_plain_call_id_ok(cid),
    }
}

/// A synthesized call id: `call_` and a fresh 36-character identifier.
pub open spec fn synth_plain_call_id_ok(s: Seq<char>) -> bool {
    exists|u: Seq<char>| (#[trigger] u.len()) == 36 && s == "call_"@ + u
}

/// The arguments text of a `function_call` item, `{}` when absent.
pub open spec fn fc_arguments_of(item: JsonV) -> Seq<char> {
    match jv_get(item, "arguments"@) {
        Some(v) => arguments_text_of(v),
        None => "{}"@,
    }
}

/// The message a kept input item becomes.  Everything is a function of the
/// item except a synthesized call id, whose shape alone is fixed.
pub open spec fn chat_msg_of_item(item: JsonV, m: JsonV) -> bool {
    let t = item_type_of(item);
    if t == "message"@ {
        m == text_message(item_role_of(item), item_content_text(item))
    } else if t == "function_call"@ {
        match jv_get(item, "name"@) {
            Some(JsonV::Str(n)) => exists|cid: Seq<char>|
                #![trigger fc_call_id_ok(item, cid)]
                fc_call_id_ok(item, cid) && m == function_call_message(
                    cid,
                    n,
                    fc_arguments_of(item),
                ),
            _ => false,
        }
    } else if t == "function_call_output"@ {
        m == tool_output_message(item_call_id_of(item), match jv_get(item, "output"@) {
            Some(v) => output_text_of(v),
            None => Seq::empty(),
        })
    } else if t == "custom_tool_call_output"@ {
        m == tool_output_message(item_call_id_of(item), match jv_get(item, "output"@) {
            Some(JsonV::Str(s)) => s,
            _ => Seq::empty(),
        })
    } else if t == "mcp_tool_call_output"@ {
        m == tool_output_message(item_call_id_of(item), match jv_get(item, "result"@) {
            Some(v) => json_text(v),
            None => Seq::empty(),
        })
    } else {
        false
    }
}

/// `msgs` are exactly the messages of the kept items, in order.
pub open spec fn chat_msgs_of_items(items: Seq<JsonV>, msgs: Seq<JsonV>) -> bool
    decreases items,
{
    if items.len() == 0 {
        msgs.len() == 0
    } else if item_kept(items.last()) {
        msgs.len() >= 1 && chat_msg_of_item(items.last(), msgs.last()) && chat_msgs_of_items(
            items.drop_last(),
            msgs.drop_last(),
        )
    } else {
        chat_msgs_of_items(items.drop_last(), msgs)
    }
}

/// The system message a request's `instructions` field prepends, if any.
pub open spec fn sys_prefix_of(req: JsonV) -> Seq<JsonV> {
    match jv_get(req, "instructions"@) {
        Some(JsonV::Str(s)) => if !is_blank(s) {
            seq![text_message("system"@, s)]
        } else {
            Seq::empty()
        },
        _ => Seq::empty(),
    }
}

/// The source tool list of a request, empty when absent.
pub open spec fn req_tools_of(req: JsonV) -> Seq<JsonV> {
    match jv_get(req, "tools"@) {
        Some(JsonV::Arr(ts)) => ts,
        _ => Seq::empty(),
    }
}

/// The source tool choice of a request, `"auto"` when absent.
pub open spec fn req_choice_of(req: JsonV) -> JsonV {
    match jv_get(req, "tool_choice"@) {
        Some(v) => v,
        None => JsonV::Str("auto"@),
    }
}

/// The `parallel_tool_calls` flag of a request, true when absent.
pub open spec fn req_ptc_of(req: JsonV) -> bool {
    match jv_get(req, "parallel_tool_calls"@) {
        Some(JsonV::Bool(b)) => b,
        _ => true,
    }
}

/// The assembled Chat request.  `tools` and `tool_choice` stand in it only
/// when the tool list is non-empty; `stream_options` only when streaming.
pub open spec fn chat_request_of(
    model: Seq<char>,
    msgs: Seq<JsonV>,
    tools: Seq<JsonV>,
    choice: JsonV,
    ptc: bool,
    stream: bool,
) -> JsonV {
    JsonV::Obj(
        seq![
            ("model"@, JsonV::Str(model)),
            ("messages"@, JsonV::Arr(msgs)),
            ("stream"@, JsonV::Bool(stream)),
        ] + (if stream {
            seq![
                (
                    "stream_options"@,
                    JsonV::Obj(seq![("include_usage"@, JsonV::Bool(true))]),
                ),
            ]
        } else {
            Seq::empty()
        }) + (if tools.len() > 0 {
            seq![("tools"@, JsonV::Arr(tools)), ("tool_choice"@, choice)]
        } else {
            Seq::empty()
        }) + seq![("parallel_tool_calls"@, JsonV::Bool(ptc))],
    )
}

/// The `model` of a request that has one.
pub open spec fn sys_model_of(req: JsonV) -> Seq<char> {
    match jv_get(req, "model"@) {
        Some(JsonV::Str(m)) => m,
        _ => Seq::empty(),
    }
}

/// The whole mapping, stated over the request's model: success exactly when
/// `model` is a string and `input` an array.
pub open spec fn maps_to_chat(req: JsonV, drop: Seq<Seq<char>>, stream: bool, chat: JsonV) -> bool {
    match jv_get(req, "model"@) {
        Some(JsonV::Str(model)) => match jv_get(req, "input"@) {
            Some(JsonV::Arr(items)) => exists|msgs: Seq<JsonV>|
                #![trigger chat_msgs_of_items(items, msgs)]
                chat_msgs_of_items(items, msgs) && chat == chat_request_of(
                    model,
                    sys_prefix_of(req) + msgs,
                    chat_tools_of(req_tools_of(req), drop),
                    chat_tool_choice_of(req_choice_of(req)),
                    req_ptc_of(req),
                    stream,
                ),
            _ => false,
        },
        _ => false,
    }
}

/// The item type tags told apart by their lengths.
proof fn lemma_type_tags()
    ensures
        "message"@.len() == 7,
        "function_call"@.len() == 13,
        "function_call_output"@.len() == 20,
        "custom_tool_call_output"@.len() == 23,
        "mcp_tool_call_output"@.len() == 20,
        "function_call_output"@[0] == 'f',
        "mcp_tool_call_output"@[0] == 'm',
{
    reveal_strlit("message");
    reveal_strlit("function_call");
    reveal_strlit("function_call_output");
    reveal_strlit("custom_tool_call_output");
    reveal_strlit("mcp_tool_call_output");
}

/// A transcoded Chat request, ready to send upstream.
#[derive(Debug)]
pub struct BridgeRequest {
    pub chat_request: Json,
}

/// Build a `{role, content}` message.
fn make_text_message(role: &str, text: String) -> (r: Json)
    ensures
        r@ == text_message(role@, text@),
{
    let mut o: Vec<(String, Json)> = Vec::new();
    obj_field(&mut o, "role", Json::of_str(role));
    obj_field(&mut o, "content", Json::Str(text));
    proof {
        assert(jview_entries(o@) =~= text_message(role@, text@)->Obj_0);
    }
    Json::Obj(o)
}

/// Build a `tool` message answering `call_id`.
fn make_tool_output_message(call_id: String, content: String) -> (r: Json)
    ensures
        r@ == tool_output_message(call_id@, content@),
{
    let mut o: Vec<(String, Json)> = Vec::new();
    obj_field(&mut o, "role", Json::of_str("tool"));
    obj_field(&mut o, "tool_call_id", Json::Str(call_id));
    obj_field(&mut o, "content", Json::Str(content));
    proof {
        assert(jview_entries(o@) =~= tool_output_message(call_id@, content@)->Obj_0);
    }
    Json::Obj(o)
}

/// Build an assistant message carrying one tool call.
fn make_function_call_message(call_id: String, name: &String, args: String) -> (r: Json)
    ensures
        r@ == function_call_message(call_id@, name@, args@),
{
    let ghost cidv = call_id@;
    let ghost argsv = args@;
    let mut f: Vec<(String, Json)> = Vec::new();
    obj_field(&mut f, "name", Json::Str(name.clone()));
    obj_field(&mut f, "arguments", Json::Str(args));
    proof {
        assert(jview_entries(f@) =~= seq![
            ("name"@, JsonV::Str(name@)),
            ("arguments"@, JsonV::Str(argsv)),
        ]);
    }
    let mut tc: Vec<(String, Json)> = Vec::new();
    obj_field(&mut tc, "id", Json::Str(call_id));
    obj_field(&mut tc, "type", Json::of_str("function"));
    obj_field(&mut tc, "function", Json::Obj(f));
    proof {
        assert(jview_entries(tc@) =~= seq![
            ("id"@, JsonV::Str(cidv)),
            ("type"@, JsonV::Str("function"@)),
            (
                "function"@,
                JsonV::Obj(
                    seq![("name"@, JsonV::Str(name@)), ("arguments"@, JsonV::Str(argsv))],
                ),
            ),
        ]);
    }
    let mut calls: Vec<Json> = Vec::new();
    arr_item(&mut calls, Json::Obj(tc));
    proof {
        assert(jview_list(calls@) =~= function_call_message(cidv, name@, argsv)->Obj_0[2].1->Arr_0);
    }
    let mut o: Vec<(String, Json)> = Vec::new();
    obj_field(&mut o, "role", Json::of_str("assistant"));
    obj_field(&mut o, "content", Json::of_str(""));
    obj_field(&mut o, "tool_calls", Json::Arr(calls));
    proof {
        reveal_strlit("");
        assert(""@ =~= Seq::<char>::empty());
        assert(jview_entries(o@) =~= function_call_message(cidv, name@, argsv)->Obj_0);
    }
    Json::Obj(o)
}

/// A fresh `call_<id>` value.
pub(crate) fn make_plain_call_id() -> (r: String)
    ensures
        synth_plain_call_id_ok(r@),
{
    let u = crate::outside::fresh_uuid();
    let mut cid: String = "call_".to_owned();
    cid.append(u.as_str());
    proof {
        assert(u@.len() == 36 && cid@ == "call_"@ + u@);
    }
    cid
}

/// Map a Responses-API request to a Chat request with the given stream
/// mode.  Fails exactly when `model` is not a string or `input` not an
/// array; the error says which.
pub fn map_responses_to_chat_request_with_stream(
    request: &Json,
    drop_tool_types: &Vec<String>,
    stream: bool,
) -> (r: Result<BridgeRequest, BridgeError>)
    ensures
        match r {
            Ok(br) => maps_to_chat(request@, text_views(drop_tool_types@), stream, br.chat_request@),
            Err(e) => if e == BridgeError::MissingModel {
                !(jv_get(request@, "model"@) matches Some(JsonV::Str(_)))
            } else {
                e == BridgeError::MissingInput && (jv_get(request@, "model"@) matches Some(
                    JsonV::Str(_),
                )) && !(jv_get(request@, "input"@) matches Some(JsonV::Arr(_)))
            },
        },
{
    let model: &String = match request.get_str("model") {
        Some(m) => m,
        None => {
            return Err(BridgeError::MissingModel);
        },
    };
    let items: &Vec<Json> = match request.get("input") {
        Some(v) => match v.as_arr() {
            Some(a) => a,
            None => {
                return Err(BridgeError::MissingInput);
            },
        },
        None => {
            return Err(BridgeError::MissingInput);
        },
    };
    let ghost itemsv = jview_list(items@);
    let mut messages: Vec<Json> = Vec::new();
    match request.get_str("instructions") {
        Some(instr) => {
            if !str_is_blank(instr.as_str()) {
                arr_item(&mut messages, make_text_message("system", instr.clone()));
            }
        },
        None => {},
    }
    let ghost sys = jview_list(messages@);
    proof {
        assert(sys =~= sys_prefix_of(request@));
    }
    let ghost mut msgs_w: Seq<JsonV> = Seq::empty();
    let n = items.len();
    let mut i: usize = 0;
    proof {
        crate::json::lemma_jview_list_index(items@);
        assert(jview_list(messages@) =~= sys + msgs_w);
        assert(itemsv.take(0) =~= Seq::<JsonV>::empty());
        assert(chat_msgs_of_items(itemsv.take(0), msgs_w));
    }
    while i < n
        invariant
            0 <= i <= n,
            n == items@.len(),
            itemsv == jview_list(items@),
            itemsv.len() == n,
            forall|j: int| 0 <= j < n ==> itemsv[j] == jview(#[trigger] items@[j]),
            sys == sys_prefix_of(request@),
            chat_msgs_of_items(itemsv.take(i as int), msgs_w),
            jview_list(messages@) == sys + msgs_w,
        decreases n - i,
    {
        let item = &items[i];
        let ghost iv = itemsv[i as int];
        let mut produced: Option<Json> = None;
        let item_type: Option<&String> = item.get_str("type");
        match item_type {
            Some(t) => {
                if str_eq(t.as_str(), "message") {
                    let content_text: String = match item.get("content") {
                        Some(c) => match c.as_arr() {
                            Some(parts) => flatten_content_items(parts),
                            None => String::new(),
                        },
                        None => String::new(),
                    };
                    proof {
                        assert(content_text@ == item_content_text(iv));
                    }
                    if !str_is_blank(content_text.as_str()) {
                        let role: String = match item.get_str("role") {
                            Some(ro) => ro.clone(),
                            None => "user".to_owned(),
                        };
                        let m = make_text_message(role.as_str(), content_text);
                        proof {
                            assert(role@ == item_role_of(iv));
                            assert(chat_msg_of_item(iv, m@));
                        }
                        produced = Some(m);
                    } else {
                        proof {
                            assert(!item_kept(iv));
                        }
                    }
                } else if str_eq(t.as_str(), "function_call") {
                    let name_ok: Option<&String> = match item.get_str("name") {
                        Some(nm) => {
                            if !nm.as_str().is_empty() {
                                Some(nm)
                            } else {
                                None
                            }
                        },
                        None => None,
                    };
                    match name_ok {
                        Some(nm) => {
                            let call_id: String = match item.get_str("call_id") {
                                Some(c) => {
                                    if !str_is_blank(c.as_str()) {
                                        c.clone()
                                    } else {
                                        make_plain_call_id()
                                    }
                                },
                                None => make_plain_call_id(),
                            };
                            let args: String = match item.get("arguments") {
                                Some(a) => function_arguments_to_text(a),
                                None => "{}".to_owned(),
                            };
                            proof {
                                assert(fc_call_id_ok(iv, call_id@));
                                assert(args@ == fc_arguments_of(iv));
                            }
                            let m = make_function_call_message(call_id, nm, args);
                            proof {
                                assert(chat_msg_of_item(iv, m@));
                            }
                            produced = Some(m);
                        },
                        None => {
                            proof {
                                assert(!item_kept(iv));
                            }
                        },
                    }
                } else if str_eq(t.as_str(), "function_call_output") {
                    let call_id: String = match item.get_str("call_id") {
                        Some(c) => c.clone(),
                        None => String::new(),
                    };
                    let output: String = match item.get("output") {
                        Some(v) => function_output_to_text(v),
                        None => String::new(),
                    };
                    let m = make_tool_output_message(call_id, output);
                    proof {
                        assert(chat_msg_of_item(iv, m@));
                    }
                    produced = Some(m);
                } else if str_eq(t.as_str(), "custom_tool_call_output") {
                    let call_id: String = match item.get_str("call_id") {
                        Some(c) => c.clone(),
                        None => String::new(),
                    };
                    let output: String = match item.get_str("output") {
                        Some(s) => s.clone(),
                        None => String::new(),
                    };
                    let m = make_tool_output_message(call_id, output);
                    proof {
                        assert(chat_msg_of_item(iv, m@));
                    }
                    produced = Some(m);
                } else if str_eq(t.as_str(), "mcp_tool_call_output") {
                    let call_id: String = match item.get_str("call_id") {
                        Some(c) => c.clone(),
                        None => String::new(),
                    };
                    let output: String = match item.get("result") {
                        Some(v) => v.to_text(),
                        None => String::new(),
                    };
                    let m = make_tool_output_message(call_id, output);
                    proof {
                        assert(chat_msg_of_item(iv, m@));
                    }
                    produced = Some(m);
                } else {
                    proof {
                        assert(!item_kept(iv));
                    }
                }
            },
            None => {
                proof {
                    lemma_type_tags();
                    assert(item_type_of(iv) =~= Seq::<char>::empty());
                    assert(!item_kept(iv));
                }
            },
        }
        proof {
            assert(itemsv.take(i + 1 as int).drop_last() =~= itemsv.take(i as int));
            assert(itemsv.take(i + 1 as int).last() == iv);
        }
        match produced {
            Some(m) => {
                let ghost mv = m@;
                let ghost msgs_before = msgs_w;
                arr_item(&mut messages, m);
                proof {
                    assert(item_kept(iv));
                    assert(chat_msg_of_item(iv, mv));
                    msgs_w = msgs_w.push(mv);
                    assert(msgs_w.drop_last() =~= msgs_before);
                    assert(msgs_w.last() == mv);
                    assert(chat_msgs_of_items(itemsv.take(i + 1 as int), msgs_w));
                    assert(jview_list(messages@) =~= sys + msgs_w);
                }
            },
            None => {
                proof {
                    assert(!item_kept(iv));
                    assert(chat_msgs_of_items(itemsv.take(i + 1 as int), msgs_w));
                }
            },
        }
        i = i + 1;
    }
    proof {
        assert(itemsv.take(n as int) =~= itemsv);
    }
    let chat_tools: Vec<Json> = match request.get("tools") {
        Some(v) => match v.as_arr() {
            Some(a) => normalize_chat_tools(a, drop_tool_types),
            None => Vec::new(),
        },
        None => Vec::new(),
    };
    proof {
        assert(jview_list(chat_tools@) == chat_tools_of(
            req_tools_of(request@),
            text_views(drop_tool_types@),
        ));
    }
    let chat_choice: Json = match request.get("tool_choice") {
        Some(v) => normalize_tool_choice(v.duplicate()),
        None => normalize_tool_choice(Json::of_str("auto")),
    };
    let ptc: bool = match request.get("parallel_tool_calls") {
        Some(v) => match v.as_bool() {
            Some(b) => b,
            None => true,
        },
        None => true,
    };
    let has_tools = chat_tools.len() > 0;
    let mut o: Vec<(String, Json)> = Vec::new();
    obj_field(&mut o, "model", Json::Str(model.clone()));
    obj_field(&mut o, "messages", Json::Arr(messages));
    obj_field(&mut o, "stream", Json::Bool(stream));
    if stream {
        let mut so: Vec<(String, Json)> = Vec::new();
        obj_field(&mut so, "include_usage", Json::Bool(true));
        proof {
            assert(jview_entries(so@) =~= seq![("include_usage"@, JsonV::Bool(true))]);
        }
        obj_field(&mut o, "stream_options", Json::Obj(so));
    }
    if has_tools {
        obj_field(&mut o, "tools", Json::Arr(chat_tools));
        obj_field(&mut o, "tool_choice", chat_choice);
    }
    obj_field(&mut o, "parallel_tool_calls", Json::Bool(ptc));
    let chat = Json::Obj(o);
    proof {
        let target = chat_request_of(
            sys_model_of(request@),
            sys_prefix_of(request@) + msgs_w,
            chat_tools_of(req_tools_of(request@), text_views(drop_tool_types@)),
            chat_tool_choice_of(req_choice_of(request@)),
            req_ptc_of(request@),
            stream,
        );
        assert(model@ == sys_model_of(request@));
        crate::json::lemma_jview_list_index(chat_tools@);
        let m0 = ("model"@, JsonV::Str(sys_model_of(request@)));
        let m1 = ("messages"@, JsonV::Arr(sys_prefix_of(request@) + msgs_w));
        let m2 = ("stream"@, JsonV::Bool(stream));
        let so = (
            "stream_options"@,
            JsonV::Obj(seq![("include_usage"@, JsonV::Bool(true))]),
        );
        let tl = (
            "tools"@,
            JsonV::Arr(chat_tools_of(req_tools_of(request@), text_views(drop_tool_types@))),
        );
        let tc = ("tool_choice"@, chat_tool_choice_of(req_choice_of(request@)));
        let pt = ("parallel_tool_calls"@, JsonV::Bool(req_ptc_of(request@)));
        if stream && has_tools {
            assert(target->Obj_0 =~= seq![m0, m1, m2, so, tl, tc, pt]);
        } else if stream {
            assert(target->Obj_0 =~= seq![m0, m1, m2, so, pt]);
        } else if has_tools {
            assert(target->Obj_0 =~= seq![m0, m1, m2, tl, tc, pt]);
        } else {
            assert(target->Obj_0 =~= seq![m0, m1, m2, pt]);
        }
        assert(chat@->Obj_0 =~= target->Obj_0);
        assert(chat@ == target);
        let items_t = jv_get(request@, "input"@)->0->Arr_0;
        assert(items_t == itemsv);
        assert(chat_msgs_of_items(items_t, msgs_w));
        assert(maps_to_chat(request@, text_views(drop_tool_types@), stream, chat@));
    }
    Ok(BridgeRequest { chat_request: chat })
}

/// Map a Responses-API request to a streaming Chat request.
pub fn map_responses_to_chat_request(request: &Json, drop_tool_types: &Vec<String>) -> (r: Result<
    BridgeRequest,
    BridgeError,
>)
    ensures
        match r {
            Ok(br) => maps_to_chat(request@, text_views(drop_tool_types@), true, br.chat_request@),
            Err(e) => if e == BridgeError::MissingModel {
                !(jv_get(request@, "model"@) matches Some(JsonV::Str(_)))
            } else {
                e == BridgeError::MissingInput && (jv_get(request@, "model"@) matches Some(
                    JsonV::Str(_),
                )) && !(jv_get(request@, "input"@) matches Some(JsonV::Arr(_)))
            },
        },
{
    map_responses_to_chat_request_with_stream(request, drop_tool_types, true)
}

} // verus!
