//! The request transcoder from the Chat API to the Responses API.
//!
//! Chat messages become typed input items: a `tool` message becomes a
//! `function_call_output` item, any other message with content becomes a
//! `message` item whose content is a list of `input_text` parts.

use vstd::prelude::*;
use vstd::string::*;

use crate::content::{
    chat_message_content_to_input_items, function_output_to_text, input_items_of_content,
    output_text_of,
};
use crate::errors::BridgeError;
use crate::json::{
    arr_item, jview, jview_entries, jview_list, jv_get, obj_field, Json, JsonV,
};
use crate::text::str_eq;
use crate::tools::{
    normalize_responses_tool_choice, normalize_responses_tools, responses_tool_choice_of,
    responses_tools_of,
};

verus! {

/// The `role` of a chat message, `user` when absent.
pub open spec fn msg_role_of(m: JsonV) -> Seq<char> {
    match jv_get(m, "role"@) {
        Some(JsonV::Str(r)) => r,
        _ => "user"@,
    }
}

/// A `function_call_output` input item.
pub open spec fn fco_item(call_id: Seq<char>, output: Seq<char>) -> JsonV {
    JsonV::Obj(
        seq![
            ("type"@, JsonV::Str("function_call_output"@)),
            ("call_id"@, JsonV::Str(call_id)),
            ("output"@, JsonV::Str(output)),
        ],
    )
}

/// A `message` input item with typed content parts.
pub open spec fn message_item(role: Seq<char>, parts: Seq<JsonV>) -> JsonV {
    JsonV::Obj(
        seq![
            ("type"@, JsonV::Str("message"@)),
            ("role"@, JsonV::Str(role)),
            ("content"@, JsonV::Arr(parts)),
        ],
    )
}

/// The input item one chat message becomes, if any.
pub open spec fn responses_item_of_msg(m: JsonV) -> Option<JsonV> {
    if msg_role_of(m) == "tool"@ {
        Some(
            fco_item(
                match jv_get(m, "tool_call_id"@) {
                    Some(JsonV::Str(s)) => s,
                    _ => Seq::empty(),
                },
                match jv_get(m, "content"@) {
                    Some(v) => output_text_of(v),
                    None => Seq::empty(),
                },
            ),
        )
    } else {
        let parts = input_items_of_content(jv_get(m, "content"@));
        if parts.len() > 0 {
            Some(message_item(msg_role_of(m), parts))
        } else {
            None
        }
    }
}

/// The input items of a message list, in order.
pub open spec fn responses_items_of_msgs(msgs: Seq<JsonV>) -> Seq<JsonV>
    decreases msgs,
{
    if msgs.len() == 0 {
        Seq::empty()
    } else {
        let rest = responses_items_of_msgs(msgs.drop_last());
        match responses_item_of_msg(msgs.last()) {
            Some(item) => rest.push(item),
            None => rest,
        }
    }
}

/// The source message list of a Chat request.
pub open spec fn req_msgs_of(req: JsonV) -> Seq<JsonV> {
    match jv_get(req, "messages"@) {
        Some(JsonV::Arr(ms)) => ms,
        _ => Seq::empty(),
    }
}

/// The assembled Responses request.  `tools` and `tool_choice` stand in it
/// only when the tool list is non-empty.
pub open spec fn responses_request_of(
    model: Seq<char>,
    input: Seq<JsonV>,
    stream: bool,
    tools: Seq<JsonV>,
    choice: JsonV,
    ptc: bool,
) -> JsonV {
    JsonV::Obj(
        seq![
            ("model"@, JsonV::Str(model)),
            ("input"@, JsonV::Arr(input)),
            ("stream"@, JsonV::Bool(stream)),
        ] + (if tools.len() > 0 {
            seq![("tools"@, JsonV::Arr(tools)), ("tool_choice"@, choice)]
        } else {
            Seq::empty()
        }) + seq![("parallel_tool_calls"@, JsonV::Bool(ptc))],
    )
}

/// The whole mapping: success exactly when `model` is a string and
/// `messages` an array.
pub open spec fn maps_to_responses(req: JsonV, stream: bool, out: JsonV) -> bool {
    match jv_get(req, "model"@) {
        Some(JsonV::Str(model)) => match jv_get(req, "messages"@) {
            Some(JsonV::Arr(msgs)) => out == responses_request_of(
                model,
                responses_items_of_msgs(msgs),
                stream,
                responses_tools_of(crate::to_chat::req_tools_of(req)),
                responses_tool_choice_of(crate::to_chat::req_choice_of(req)),
                crate::to_chat::req_ptc_of(req),
            ),
            _ => false,
        },
        _ => false,
    }
}

/// `user` and `tool` are different roles.
proof fn lemma_role_tags()
    ensures
        "user"@ != "tool"@,
{
    reveal_strlit("user");
    reveal_strlit("tool");
    assert("user"@[0] == 'u' && "tool"@[0] == 't');
}

/// Build a `function_call_output` item.
fn make_fco_item(call_id: String, output: String) -> (r: Json)
    ensures
        r@ == fco_item(call_id@, output@),
{
    let mut o: Vec<(String, Json)> = Vec::new();
    let ghost cidv = call_id@;
    let ghost outv = output@;
    obj_field(&mut o, "type", Json::of_str("function_call_output"));
    obj_field(&mut o, "call_id", Json::Str(call_id));
    obj_field(&mut o, "output", Json::Str(output));
    proof {
        assert(jview_entries(o@) =~= fco_item(cidv, outv)->Obj_0);
    }
    Json::Obj(o)
}

/// Build a `message` item.
fn make_message_item(role: &String, parts: Vec<Json>) -> (r: Json)
    ensures
        r@ == message_item(role@, jview_list(parts@)),
{
    let ghost partsv = jview_list(parts@);
    let mut o: Vec<(String, Json)> = Vec::new();
    obj_field(&mut o, "type", Json::of_str("message"));
    obj_field(&mut o, "role", Json::Str(role.clone()));
    obj_field(&mut o, "content", Json::Arr(parts));
    proof {
        assert(jview_entries(o@) =~= message_item(role@, partsv)->Obj_0);
    }
    Json::Obj(o)
}

/// Map a Chat request to a Responses request with the given stream mode.
/// Fails exactly when `model` is not a string or `messages` not an array;
/// the error says which.
pub fn map_chat_to_responses_request(request: &Json, stream: bool) -> (r: Result<
    Json,
    BridgeError,
>)
    ensures
        match r {
            Ok(out) => maps_to_responses(request@, stream, out@),
            Err(e) => if e == BridgeError::MissingModel {
                !(jv_get(request@, "model"@) matches Some(JsonV::Str(_)))
            } else {
                e == BridgeError::MissingMessages && (jv_get(request@, "model"@) matches Some(
                    JsonV::Str(_),
                )) && !(jv_get(request@, "messages"@) matches Some(JsonV::Arr(_)))
            },
        },
{
    let model: &String = match request.get_str("model") {
        Some(m) => m,
        None => {
            return Err(BridgeError::MissingModel);
        },
    };
    let msgs: &Vec<Json> = match request.get("messages") {
        Some(v) => match v.as_arr() {
            Some(a) => a,
            None => {
                return Err(BridgeError::MissingMessages);
            },
        },
        None => {
            return Err(BridgeError::MissingMessages);
        },
    };
    let ghost msgsv = jview_list(msgs@);
    let mut input: Vec<Json> = Vec::new();
    let n = msgs.len();
    let mut i: usize = 0;
    proof {
        crate::json::lemma_jview_list_index(msgs@);
        assert(msgsv.take(0) =~= Seq::<JsonV>::empty());
        assert(jview_list(input@) =~= responses_items_of_msgs(msgsv.take(0)));
    }
    while i < n
        invariant
            0 <= i <= n,
            n == msgs@.len(),
            msgsv == jview_list(msgs@),
            msgsv.len() == n,
            forall|j: int| 0 <= j < n ==> msgsv[j] == jview(#[trigger] msgs@[j]),
            jview_list(input@) == responses_items_of_msgs(msgsv.take(i as int)),
        decreases n - i,
    {
        let m = &msgs[i];
        let ghost mv = msgsv[i as int];
        let role: String = match m.get_str("role") {
            Some(ro) => ro.clone(),
            None => {
                proof {
                    lemma_role_tags();
                }
                "user".to_owned()
            },
        };
        proof {
            assert(role@ == msg_role_of(mv));
        }
        let ghost before = jview_list(input@);
        if str_eq(role.as_str(), "tool") {
            let call_id: String = match m.get_str("tool_call_id") {
                Some(c) => c.clone(),
                None => String::new(),
            };
            let output: String = match m.get("content") {
                Some(c) => function_output_to_text(c),
                None => String::new(),
            };
            let item = make_fco_item(call_id, output);
            proof {
                assert(responses_item_of_msg(mv) == Some(item@));
            }
            arr_item(&mut input, item);
        } else {
            let parts = chat_message_content_to_input_items(m.get("content"));
            if parts.len() > 0 {
                proof {
                    assert(jview_list(parts@).len() > 0);
                    assert(responses_item_of_msg(mv) == Some(
                        message_item(role@, jview_list(parts@)),
                    ));
                }
                let item = make_message_item(&role, parts);
                arr_item(&mut input, item);
            } else {
                proof {
                    assert(jview_list(parts@).len() == 0);
                    assert(responses_item_of_msg(mv) is None);
                }
            }
        }
        proof {
            assert(msgsv.take(i + 1 as int).drop_last() =~= msgsv.take(i as int));
            assert(msgsv.take(i + 1 as int).last() == mv);
            assert(jview_list(input@) == responses_items_of_msgs(msgsv.take(i + 1 as int)));
        }
        i = i + 1;
    }
    proof {
        assert(msgsv.take(n as int) =~= msgsv);
    }
    let tools: Vec<Json> = match request.get("tools") {
        Some(v) => match v.as_arr() {
            Some(a) => normalize_responses_tools(a),
            None => Vec::new(),
        },
        None => Vec::new(),
    };
    proof {
        assert(jview_list(tools@) == responses_tools_of(crate::to_chat::req_tools_of(request@)));
        crate::json::lemma_jview_list_index(tools@);
    }
    let choice: Json = match request.get("tool_choice") {
        Some(v) => normalize_responses_tool_choice(v.duplicate()),
        None => normalize_responses_tool_choice(Json::of_str("auto")),
    };
    proof {
        assert(choice@ == responses_tool_choice_of(crate::to_chat::req_choice_of(request@)));
    }
    let ptc: bool = match request.get("parallel_tool_calls") {
        Some(v) => match v.as_bool() {
            Some(b) => b,
            None => true,
        },
        None => true,
    };
    let has_tools = tools.len() > 0;
    let mut o: Vec<(String, Json)> = Vec::new();
    obj_field(&mut o, "model", Json::Str(model.clone()));
    obj_field(&mut o, "input", Json::Arr(input));
    obj_field(&mut o, "stream", Json::Bool(stream));
    if has_tools {
        obj_field(&mut o, "tools", Json::Arr(tools));
        obj_field(&mut o, "tool_choice", choice);
    }
    obj_field(&mut o, "parallel_tool_calls", Json::Bool(ptc));
    let out = Json::Obj(o);
    proof {
        let target = responses_request_of(
            crate::to_chat::sys_model_of(request@),
            responses_items_of_msgs(msgsv),
            stream,
            responses_tools_of(crate::to_chat::req_tools_of(request@)),
            responses_tool_choice_of(crate::to_chat::req_choice_of(request@)),
            crate::to_chat::req_ptc_of(request@),
        );
        let m0 = (
            "model"@,
            JsonV::Str(crate::to_chat::sys_model_of(request@)),
        );
        let m1 = ("input"@, JsonV::Arr(responses_items_of_msgs(msgsv)));
        let m2 = ("stream"@, JsonV::Bool(stream));
        let tl = (
            "tools"@,
            JsonV::Arr(responses_tools_of(crate::to_chat::req_tools_of(request@))),
        );
        let tc = (
            "tool_choice"@,
            responses_tool_choice_of(crate::to_chat::req_choice_of(request@)),
        );
        let pt = (
            "parallel_tool_calls"@,
            JsonV::Bool(crate::to_chat::req_ptc_of(request@)),
        );
        if has_tools {
            assert(target->Obj_0 =~= seq![m0, m1, m2, tl, tc, pt]);
        } else {
            assert(target->Obj_0 =~= seq![m0, m1, m2, pt]);
        }
        assert(out@->Obj_0 =~= target->Obj_0);
        assert(out@ == target);
        assert(maps_to_responses(request@, stream, out@));
    }
    Ok(out)
}

} // verus!
