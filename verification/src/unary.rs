//! The unary response transcoder: one Chat JSON document becomes one
//! Responses JSON document, for callers that did not ask for streaming.
//!
//! The first choice's message yields an assistant `message` item when its
//! content flattens to non-blank text, and one `function_call` item per
//! entry of its `tool_calls`.  Usage token counts map across with null
//! detail fields; a tool call without an id gets a fresh `call_<id>`.

use vstd::prelude::*;
use vstd::string::*;

use crate::content::{arguments_text_of, function_arguments_to_text, function_output_to_text, output_text_of};
use crate::json::{arr_item, jview, jview_entries, jview_list, jv_get, obj_field, Json, JsonV};
use crate::stream::{make_message_item, message_item_payload, tok_of};
use crate::text::{is_blank, str_is_blank};
use crate::to_chat::synth_plain_call_id_ok;

verus! {

/// The first choice's `message`, if the document has one.
pub open spec fn first_message_of(chat: JsonV) -> Option<JsonV> {
    match jv_get(chat, "choices"@) {
        Some(JsonV::Arr(cs)) => if cs.len() > 0 {
            jv_get(cs[0], "message"@)
        } else {
            None
        },
        _ => None,
    }
}

/// The flattened text of the first message's content.
pub open spec fn unary_text_of(msg: JsonV) -> Seq<char> {
    match jv_get(msg, "content"@) {
        Some(v) => output_text_of(v),
        None => Seq::empty(),
    }
}

/// The assistant `message` output item, when the text is not blank.
pub open spec fn msg_items_of(chat: JsonV) -> Seq<JsonV> {
    match first_message_of(chat) {
        Some(msg) => if !is_blank(unary_text_of(msg)) {
            seq![message_item_payload(unary_text_of(msg))]
        } else {
            Seq::empty()
        },
        None => Seq::empty(),
    }
}

/// The first message's `tool_calls` entries.
pub open spec fn tc_list_of(chat: JsonV) -> Seq<JsonV> {
    match first_message_of(chat) {
        Some(msg) => match jv_get(msg, "tool_calls"@) {
            Some(JsonV::Arr(tcs)) => tcs,
            _ => Seq::empty(),
        },
        None => Seq::empty(),
    }
}

/// A terminal `function_call` output item.
pub open spec fn function_call_item(name: Seq<char>, args: Seq<char>, call_id: Seq<char>) -> JsonV {
    JsonV::Obj(
        seq![
            ("type"@, JsonV::Str("function_call"@)),
            ("name"@, JsonV::Str(name)),
            ("arguments"@, JsonV::Str(args)),
            ("call_id"@, JsonV::Str(call_id)),
        ],
    )
}

/// The name a tool-call entry carries, `unknown_function` when absent.
pub open spec fn tc_name_of(tc: JsonV) -> Seq<char> {
    let f = match jv_get(tc, "function"@) {
        Some(v) => v,
        None => JsonV::Obj(Seq::empty()),
    };
    match jv_get(f, "name"@) {
        Some(JsonV::Str(n)) => n,
        _ => "unknown_function"@,
    }
}

/// The arguments text of a tool-call entry, `{}` when absent.
pub open spec fn tc_args_of(tc: JsonV) -> Seq<char> {
    let f = match jv_get(tc, "function"@) {
        Some(v) => v,
        None => JsonV::Obj(Seq::empty()),
    };
    match jv_get(f, "arguments"@) {
        Some(v) => arguments_text_of(v),
        None => "{}"@,
    }
}

/// The item one tool-call entry becomes: its own id when it is a string,
/// else a fresh `call_<id>`.
pub open spec fn fc_item_ok(tc: JsonV, item: JsonV) -> bool {
    exists|cid: Seq<char>|
        #![trigger function_call_item(tc_name_of(tc), tc_args_of(tc), cid)]
        (match jv_get(tc, "id"@) {
            Some(JsonV::Str(s)) => cid == s,
            _ => synth_plain_call_id_ok(cid),
        }) && item == function_call_item(tc_name_of(tc), tc_args_of(tc), cid)
}

/// Each tool-call entry yields exactly one item, in order.
pub open spec fn unary_tool_items_ok(tcs: Seq<JsonV>, items: Seq<JsonV>) -> bool {
    items.len() == tcs.len() && forall|i: int| 0 <= i < tcs.len() ==> fc_item_ok(
        tcs[i],
        #[trigger] items[i],
    )
}

/// The mapped usage object: token counts with null detail fields, or null
/// when the document has no `usage`.
pub open spec fn usage_json_of(chat: JsonV) -> JsonV {
    match jv_get(chat, "usage"@) {
        Some(u) => JsonV::Obj(
            seq![
                ("input_tokens"@, JsonV::Int(tok_of(u, "prompt_tokens"@))),
                ("input_tokens_details"@, JsonV::Null),
                ("output_tokens"@, JsonV::Int(tok_of(u, "completion_tokens"@))),
                ("output_tokens_details"@, JsonV::Null),
                ("total_tokens"@, JsonV::Int(tok_of(u, "total_tokens"@))),
            ],
        ),
        None => JsonV::Null,
    }
}

/// The whole unary mapping: the completed-response envelope around the
/// output items, exact but for the freshness of synthesized call ids.
pub open spec fn unary_response_ok(chat: JsonV, rid: Seq<char>, out: JsonV) -> bool {
    exists|tool_items: Seq<JsonV>|
        #![trigger unary_tool_items_ok(tc_list_of(chat), tool_items)]
        unary_tool_items_ok(tc_list_of(chat), tool_items) && out == JsonV::Obj(
            seq![
                ("id"@, JsonV::Str(rid)),
                ("object"@, JsonV::Str("response"@)),
                ("status"@, JsonV::Str("completed"@)),
                ("output"@, JsonV::Arr(msg_items_of(chat) + tool_items)),
                ("usage"@, usage_json_of(chat)),
            ],
        )
}

/// Transcode a unary Chat response document into a Responses document.
pub fn chat_json_to_responses_json(chat: &Json, response_id: String) -> (r: Json)
    ensures
        unary_response_ok(chat@, response_id@, r@),
{
    let ghost ridv = response_id@;
    let mut output: Vec<Json> = Vec::new();
    let ghost msg_items: Seq<JsonV> = msg_items_of(chat@);
    let ghost mut tool_items: Seq<JsonV> = Seq::empty();
    let first_msg: Option<&Json> = match chat.get("choices") {
        Some(cv) => match cv.as_arr() {
            Some(cs) => {
                if cs.len() > 0 {
                    proof {
                        crate::json::lemma_jview_list_index(cs@);
                    }
                    cs[0].get("message")
                } else {
                    None
                }
            },
            None => None,
        },
        None => None,
    };
    proof {
        match first_msg {
            Some(m) => {
                assert(first_message_of(chat@) == Some(m@));
            },
            None => {
                assert(first_message_of(chat@) is None);
            },
        }
    }
    match first_msg {
        Some(msg) => {
            let text: String = match msg.get("content") {
                Some(v) => function_output_to_text(v),
                None => String::new(),
            };
            proof {
                assert(text@ == unary_text_of(msg@));
            }
            if !str_is_blank(text.as_str()) {
                arr_item(&mut output, make_message_item(text.as_str()));
            }
            proof {
                assert(jview_list(output@) =~= msg_items);
            }
            match msg.get("tool_calls") {
                Some(tv) => match tv.as_arr() {
                    Some(tcs) => {
                        let n = tcs.len();
                        let mut i: usize = 0;
                        proof {
                            crate::json::lemma_jview_list_index(tcs@);
                            assert(tc_list_of(chat@) == jview_list(tcs@));
                        }
                        while i < n
                            invariant
                                0 <= i <= n,
                                n == tcs@.len(),
                                jview_list(tcs@).len() == n,
                                forall|j: int| 0 <= j < n ==> jview_list(tcs@)[j] == jview(
                                    #[trigger] tcs@[j],
                                ),
                                msg_items == msg_items_of(chat@),
                                tool_items.len() == i,
                                forall|j: int| 0 <= j < i ==> fc_item_ok(
                                    jview_list(tcs@)[j],
                                    #[trigger] tool_items[j],
                                ),
                                jview_list(output@) == msg_items + tool_items,
                            decreases n - i,
                        {
                            let tc = &tcs[i];
                            let ghost tcv = jview_list(tcs@)[i as int];
                            let call_id: String = match tc.get_str("id") {
                                Some(s) => s.clone(),
                                None => crate::to_chat::make_plain_call_id(),
                            };
                            let fobj: Option<&Json> = tc.get("function");
                            let name: String = match fobj {
                                Some(f) => match f.get_str("name") {
                                    Some(nm) => nm.clone(),
                                    None => "unknown_function".to_owned(),
                                },
                                None => "unknown_function".to_owned(),
                            };
                            let args: String = match fobj {
                                Some(f) => match f.get("arguments") {
                                    Some(a) => function_arguments_to_text(a),
                                    None => "{}".to_owned(),
                                },
                                None => "{}".to_owned(),
                            };
                            proof {
                                assert(name@ == tc_name_of(tcv));
                                assert(args@ == tc_args_of(tcv));
                            }
                            let ghost cidv = call_id@;
                            let mut io: Vec<(String, Json)> = Vec::new();
                            obj_field(&mut io, "type", Json::of_str("function_call"));
                            obj_field(&mut io, "name", Json::Str(name));
                            obj_field(&mut io, "arguments", Json::Str(args));
                            obj_field(&mut io, "call_id", Json::Str(call_id));
                            proof {
                                assert(jview_entries(io@) =~= function_call_item(
                                    tc_name_of(tcv),
                                    tc_args_of(tcv),
                                    cidv,
                                )->Obj_0);
                            }
                            let item = Json::Obj(io);
                            proof {
                                assert(item@ == function_call_item(
                                    tc_name_of(tcv),
                                    tc_args_of(tcv),
                                    cidv,
                                ));
                                assert(fc_item_ok(tcv, item@));
                            }
                            let ghost out_before = jview_list(output@);
                            arr_item(&mut output, item);
                            proof {
                                tool_items = tool_items.push(item@);
                                assert(jview_list(output@) =~= msg_items + tool_items);
                            }
                            i = i + 1;
                        }
                    },
                    None => {},
                },
                None => {},
            }
        },
        None => {
            proof {
                assert(jview_list(output@) =~= msg_items);
                assert(jview_list(output@) =~= msg_items + tool_items);
            }
        },
    }
    proof {
        assert(unary_tool_items_ok(tc_list_of(chat@), tool_items));
        assert(jview_list(output@) =~= msg_items + tool_items);
    }
    let usage_json: Json = match chat.get("usage") {
        Some(u) => {
            let pt: i64 = match u.get("prompt_tokens") {
                Some(v) => match v.as_int() {
                    Some(x) => x,
                    None => 0,
                },
                None => 0,
            };
            let ct: i64 = match u.get("completion_tokens") {
                Some(v) => match v.as_int() {
                    Some(x) => x,
                    None => 0,
                },
                None => 0,
            };
            let tt: i64 = match u.get("total_tokens") {
                Some(v) => match v.as_int() {
                    Some(x) => x,
                    None => 0,
                },
                None => 0,
            };
            let mut uo: Vec<(String, Json)> = Vec::new();
            obj_field(&mut uo, "input_tokens", Json::Int(pt));
            obj_field(&mut uo, "input_tokens_details", Json::Null);
            obj_field(&mut uo, "output_tokens", Json::Int(ct));
            obj_field(&mut uo, "output_tokens_details", Json::Null);
            obj_field(&mut uo, "total_tokens", Json::Int(tt));
            proof {
                assert(jview_entries(uo@) =~= usage_json_of(chat@)->Obj_0);
            }
            Json::Obj(uo)
        },
        None => Json::Null,
    };
    proof {
        assert(usage_json@ == usage_json_of(chat@));
    }
    let mut o: Vec<(String, Json)> = Vec::new();
    obj_field(&mut o, "id", Json::Str(response_id));
    obj_field(&mut o, "object", Json::of_str("response"));
    obj_field(&mut o, "status", Json::of_str("completed"));
    obj_field(&mut o, "output", Json::Arr(output));
    obj_field(&mut o, "usage", usage_json);
    let out = Json::Obj(o);
    proof {
        assert(out@->Obj_0 =~= seq![
            ("id"@, JsonV::Str(ridv)),
            ("object"@, JsonV::Str("response"@)),
            ("status"@, JsonV::Str("completed"@)),
            ("output"@, JsonV::Arr(msg_items + tool_items)),
            ("usage"@, usage_json_of(chat@)),
        ]);
        assert(unary_response_ok(chat@, ridv, out@));
    }
    out
}

} // verus!
