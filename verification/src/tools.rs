//! Tool definitions and tool choice, normalized between the two schemas.
//!
//! The same function tool is written `{type, name, description, parameters}`
//! in the Responses API and `{type, function: {name, description,
//! parameters}}` in the Chat API.  Non-function tools are opaque and pass
//! through, unless their type stands in the configured drop set.

use vstd::prelude::*;
use vstd::string::*;

use crate::json::{
    arr_item, entries_get, jview, jview_entries, jview_list, jv_get, obj_field, Json, JsonV,
};
use crate::text::{str_eq, text_views};

verus! {

/// Whether `t` is one of the configured dropped tool types.
pub open spec fn in_drop_set(drop: Seq<Seq<char>>, t: Seq<char>) -> bool {
    exists|i: int| 0 <= i < drop.len() && drop[i] == t
}

/// Whether a tool's `type` stands in the drop set.
pub open spec fn tool_dropped(tool: JsonV, drop: Seq<Seq<char>>) -> bool {
    match jv_get(tool, "type"@) {
        Some(JsonV::Str(t)) => in_drop_set(drop, t),
        _ => false,
    }
}

/// The parameters object a function tool gets when it brought none.
pub open spec fn default_parameters() -> JsonV {
    JsonV::Obj(
        seq![("type"@, JsonV::Str("object"@)), ("properties"@, JsonV::Obj(Seq::empty()))],
    )
}

/// A tool's description: empty when absent or not a string.
pub open spec fn tool_description_of(src: JsonV) -> Seq<char> {
    match jv_get(src, "description"@) {
        Some(JsonV::Str(d)) => d,
        _ => Seq::empty(),
    }
}

/// A tool's parameters: a default object when absent.
pub open spec fn tool_parameters_of(src: JsonV) -> JsonV {
    match jv_get(src, "parameters"@) {
        Some(p) => p,
        None => default_parameters(),
    }
}

/// The `function` payload of a normalized tool: name, description (empty if
/// not a string), parameters (a default if absent).
pub open spec fn function_payload(name: Seq<char>, src: JsonV) -> JsonV {
    JsonV::Obj(
        seq![
            ("name"@, JsonV::Str(name)),
            ("description"@, JsonV::Str(tool_description_of(src))),
            ("parameters"@, tool_parameters_of(src)),
        ],
    )
}

/// A Responses-form function tool wrapped into Chat form; `None` (tool
/// dropped) when its `name` is not a string.
pub open spec fn wrap_chat_tool(tool: JsonV) -> Option<JsonV> {
    match jv_get(tool, "name"@) {
        Some(JsonV::Str(name)) => Some(
            JsonV::Obj(
                seq![
                    ("type"@, JsonV::Str("function"@)),
                    ("function"@, function_payload(name, tool)),
                ],
            ),
        ),
        _ => None,
    }
}

/// What one tool becomes on the way to a Chat payload.
pub open spec fn chat_tool_of(tool: JsonV, drop: Seq<Seq<char>>) -> Option<JsonV> {
    if tool_dropped(tool, drop) {
        None
    } else if jv_get(tool, "type"@) != Some(JsonV::Str("function"@)) {
        Some(tool)
    } else if jv_get(tool, "function"@) is Some {
        Some(tool)
    } else {
        wrap_chat_tool(tool)
    }
}

/// The Chat-form tool list: dropped types gone, function tools wrapped.
pub open spec fn chat_tools_of(tools: Seq<JsonV>, drop: Seq<Seq<char>>) -> Seq<JsonV>
    decreases tools,
{
    if tools.len() == 0 {
        Seq::empty()
    } else {
        let rest = chat_tools_of(tools.drop_last(), drop);
        match chat_tool_of(tools.last(), drop) {
            Some(t) => rest.push(t),
            None => rest,
        }
    }
}

/// What one tool becomes on the way to a Responses payload.
pub open spec fn responses_tool_of(tool: JsonV) -> Option<JsonV> {
    if jv_get(tool, "type"@) != Some(JsonV::Str("function"@)) {
        Some(tool)
    } else {
        match jv_get(tool, "function"@) {
            None => Some(tool),
            Some(f) => match jv_get(f, "name"@) {
                Some(JsonV::Str(name)) => Some(
                    JsonV::Obj(
                        seq![
                            ("type"@, JsonV::Str("function"@)),
                            ("name"@, JsonV::Str(name)),
                            ("description"@, JsonV::Str(tool_description_of(f))),
                            ("parameters"@, tool_parameters_of(f)),
                        ],
                    ),
                ),
                _ => None,
            },
        }
    }
}

/// The Responses-form tool list: wrapped function tools unwrapped.
pub open spec fn responses_tools_of(tools: Seq<JsonV>) -> Seq<JsonV>
    decreases tools,
{
    if tools.len() == 0 {
        Seq::empty()
    } else {
        let rest = responses_tools_of(tools.drop_last());
        match responses_tool_of(tools.last()) {
            Some(t) => rest.push(t),
            None => rest,
        }
    }
}

/// The Chat form of a tool choice: a string as it is; an object already
/// carrying `function` as it is; `{type: "function", name}` rewrapped;
/// anything else becomes `"auto"`.
pub open spec fn chat_tool_choice_of(choice: JsonV) -> JsonV {
    match choice {
        JsonV::Str(s) => JsonV::Str(s),
        JsonV::Obj(o) => {
            if entries_get(o, "function"@) is Some {
                JsonV::Obj(o)
            } else {
                match (entries_get(o, "type"@), entries_get(o, "name"@)) {
                    (Some(JsonV::Str(t)), Some(JsonV::Str(n))) => if t == "function"@ {
                        JsonV::Obj(
                            seq![
                                ("type"@, JsonV::Str("function"@)),
                                ("function"@, JsonV::Obj(seq![("name"@, JsonV::Str(n))])),
                            ],
                        )
                    } else {
                        JsonV::Str("auto"@)
                    },
                    _ => JsonV::Str("auto"@),
                }
            }
        },
        _ => JsonV::Str("auto"@),
    }
}

/// The Responses form of a tool choice: `{type: "function", function:
/// {name}}` is rewrapped as `{type: "function", name}`; anything else passes
/// through.
pub open spec fn responses_tool_choice_of(choice: JsonV) -> JsonV {
    if jv_get(choice, "type"@) == Some(JsonV::Str("function"@)) {
        match jv_get(choice, "function"@) {
            Some(f) => match jv_get(f, "name"@) {
                Some(JsonV::Str(n)) => JsonV::Obj(
                    seq![("type"@, JsonV::Str("function"@)), ("name"@, JsonV::Str(n))],
                ),
                _ => choice,
            },
            None => choice,
        }
    } else {
        choice
    }
}

/// Whether `t` stands in the configured list of dropped tool types.
pub fn in_drop_list(drop: &Vec<String>, t: &str) -> (r: bool)
    ensures
        r == in_drop_set(text_views(drop@), t@),
{
    proof {
        lemma_text_views_index(drop@);
    }
    let mut i: usize = 0;
    while i < drop.len()
        invariant
            0 <= i <= drop@.len(),
            text_views(drop@).len() == drop@.len(),
            forall|j: int| 0 <= j < drop@.len() ==> text_views(drop@)[j] == (
                #[trigger] drop@[j]
            )@,
            forall|j: int| 0 <= j < i ==> text_views(drop@)[j] != t@,
        decreases drop@.len() - i,
    {
        if str_eq(drop[i].as_str(), t) {
            proof {
                assert(text_views(drop@)[i as int] == t@);
            }
            return true;
        }
        i = i + 1;
    }
    false
}

/// The models of a string list, index for index.
pub proof fn lemma_text_views_index(ls: Seq<String>)
    ensures
        text_views(ls).len() == ls.len(),
        forall|j: int| 0 <= j < ls.len() ==> text_views(ls)[j] == (#[trigger] ls[j])@,
    decreases ls,
{
    if ls.len() > 0 {
        lemma_text_views_index(ls.drop_last());
        assert forall|j: int| 0 <= j < ls.len() implies text_views(ls)[j] == ls[j]@ by {
            if j < ls.len() - 1 {
                assert(ls.drop_last()[j] == ls[j]);
                assert(text_views(ls.drop_last())[j] == ls.drop_last()[j]@);
            }
        }
    }
}

/// Build the default `{type: "object", properties: {}}` parameters object.
fn make_default_parameters() -> (r: Json)
    ensures
        r@ == default_parameters(),
{
    let mut o: Vec<(String, Json)> = Vec::new();
    obj_field(&mut o, "type", Json::of_str("object"));
    obj_field(&mut o, "properties", Json::Obj(Vec::new()));
    proof {
        assert(jview_entries(o@) =~= seq![
            ("type"@, JsonV::Str("object"@)),
            ("properties"@, JsonV::Obj(Seq::empty())),
        ]);
    }
    Json::Obj(o)
}

/// Build the `{name, description, parameters}` payload from a source object
/// that carries `name` as a string.
fn make_function_payload(name: &String, src: &Json) -> (r: Json)
    ensures
        r@ == function_payload(name@, src@),
{
    let mut f: Vec<(String, Json)> = Vec::new();
    obj_field(&mut f, "name", Json::Str(name.clone()));
    let description: Json = match src.get_str("description") {
        Some(d) => Json::Str(d.clone()),
        None => Json::of_str(""),
    };
    proof {
        reveal_strlit("");
    }
    obj_field(&mut f, "description", description);
    let parameters: Json = match src.get("parameters") {
        Some(p) => p.duplicate(),
        None => make_default_parameters(),
    };
    obj_field(&mut f, "parameters", parameters);
    proof {
        reveal_strlit("");
        assert(""@ =~= Seq::<char>::empty());
        assert(jview_entries(f@) =~~= function_payload(name@, src@)->Obj_0);
    }
    Json::Obj(f)
}

/// Normalize a tool list for a Chat payload: drop configured types, keep
/// non-function tools and already-wrapped function tools verbatim, wrap the
/// rest.  A function tool without a string `name` is dropped.
pub fn normalize_chat_tools(tools: &Vec<Json>, drop: &Vec<String>) -> (r: Vec<Json>)
    ensures
        jview_list(r@) == chat_tools_of(jview_list(tools@), text_views(drop@)),
{
    let mut out: Vec<Json> = Vec::new();
    let n = tools.len();
    let mut i: usize = 0;
    proof {
        crate::json::lemma_jview_list_index(tools@);
    }
    while i < n
        invariant
            0 <= i <= n,
            n == tools@.len(),
            jview_list(tools@).len() == n,
            forall|j: int| 0 <= j < n ==> jview_list(tools@)[j] == jview(#[trigger] tools@[j]),
            jview_list(out@) == chat_tools_of(jview_list(tools@).take(i as int), text_views(
                drop@,
            )),
        decreases n - i,
    {
        let tool = &tools[i];
        let ghost tv = jview(tools@[i as int]);
        let dropped = match tool.get_str("type") {
            Some(t) => in_drop_list(drop, t.as_str()),
            None => false,
        };
        if !dropped {
            let is_function = match tool.get_str("type") {
                Some(t) => str_eq(t.as_str(), "function"),
                None => false,
            };
            if !is_function {
                arr_item(&mut out, tool.duplicate());
            } else if tool.get("function").is_some() {
                arr_item(&mut out, tool.duplicate());
            } else {
                match tool.get_str("name") {
                    Some(name) => {
                        let mut w: Vec<(String, Json)> = Vec::new();
                        obj_field(&mut w, "type", Json::of_str("function"));
                        obj_field(&mut w, "function", make_function_payload(name, tool));
                        proof {
                            assert(jview_entries(w@) =~~= wrap_chat_tool(tv)->0->Obj_0);
                        }
                        arr_item(&mut out, Json::Obj(w));
                    },
                    None => {
                        proof {
                            assert(chat_tool_of(tv, text_views(drop@)) is None);
                        }
                    },
                }
            }
        }
        proof {
            let taken = jview_list(tools@).take(i + 1 as int);
            assert(taken.drop_last() =~= jview_list(tools@).take(i as int));
            assert(taken.last() == tv);
        }
        i = i + 1;
    }
    proof {
        assert(jview_list(tools@).take(n as int) =~= jview_list(tools@));
    }
    out
}

/// Normalize a tool list for a Responses payload: unwrap wrapped function
/// tools, keep everything else verbatim.  A wrapped function tool without a
/// string `name` is dropped.
pub fn normalize_responses_tools(tools: &Vec<Json>) -> (r: Vec<Json>)
    ensures
        jview_list(r@) == responses_tools_of(jview_list(tools@)),
{
    let mut out: Vec<Json> = Vec::new();
    let n = tools.len();
    let mut i: usize = 0;
    proof {
        crate::json::lemma_jview_list_index(tools@);
    }
    while i < n
        invariant
            0 <= i <= n,
            n == tools@.len(),
            jview_list(tools@).len() == n,
            forall|j: int| 0 <= j < n ==> jview_list(tools@)[j] == jview(#[trigger] tools@[j]),
            jview_list(out@) == responses_tools_of(jview_list(tools@).take(i as int)),
        decreases n - i,
    {
        let tool = &tools[i];
        let ghost tv = jview(tools@[i as int]);
        let is_function = match tool.get_str("type") {
            Some(t) => str_eq(t.as_str(), "function"),
            None => false,
        };
        if !is_function {
            arr_item(&mut out, tool.duplicate());
        } else {
            match tool.get("function") {
                None => {
                    arr_item(&mut out, tool.duplicate());
                },
                Some(f) => match f.get_str("name") {
                    Some(name) => {
                        let mut w: Vec<(String, Json)> = Vec::new();
                        obj_field(&mut w, "type", Json::of_str("function"));
                        obj_field(&mut w, "name", Json::Str(name.clone()));
                        let description: Json = match f.get_str("description") {
                            Some(d) => Json::Str(d.clone()),
                            None => Json::of_str(""),
                        };
                        proof {
                            reveal_strlit("");
                        }
                        obj_field(&mut w, "description", description);
                        let parameters: Json = match f.get("parameters") {
                            Some(p) => p.duplicate(),
                            None => make_default_parameters(),
                        };
                        obj_field(&mut w, "parameters", parameters);
                        proof {
                            reveal_strlit("");
                            assert(""@ =~= Seq::<char>::empty());
                            assert(jview_entries(w@) =~~= responses_tool_of(tv)->0->Obj_0);
                        }
                        arr_item(&mut out, Json::Obj(w));
                    },
                    None => {
                        proof {
                            assert(responses_tool_of(tv) is None);
                        }
                    },
                },
            }
        }
        proof {
            let taken = jview_list(tools@).take(i + 1 as int);
            assert(taken.drop_last() =~= jview_list(tools@).take(i as int));
            assert(taken.last() == tv);
        }
        i = i + 1;
    }
    proof {
        assert(jview_list(tools@).take(n as int) =~= jview_list(tools@));
    }
    out
}

/// Normalize a tool choice for a Chat payload.
pub fn normalize_tool_choice(choice: Json) -> (r: Json)
    ensures
        r@ == chat_tool_choice_of(choice@),
{
    match &choice {
        Json::Str(_) => choice,
        Json::Obj(_) => {
            if choice.get("function").is_some() {
                choice
            } else {
                let name: Option<&String> = match choice.get_str("type") {
                    Some(t) => {
                        if str_eq(t.as_str(), "function") {
                            choice.get_str("name")
                        } else {
                            None
                        }
                    },
                    None => None,
                };
                match name {
                    Some(n) => {
                        let mut f: Vec<(String, Json)> = Vec::new();
                        obj_field(&mut f, "name", Json::Str(n.clone()));
                        let mut w: Vec<(String, Json)> = Vec::new();
                        obj_field(&mut w, "type", Json::of_str("function"));
                        obj_field(&mut w, "function", Json::Obj(f));
                        proof {
                            assert(jview_entries(w@) =~~= chat_tool_choice_of(choice@)->Obj_0);
                        }
                        Json::Obj(w)
                    },
                    None => Json::of_str("auto"),
                }
            }
        },
        _ => Json::of_str("auto"),
    }
}

/// Normalize a tool choice for a Responses payload.
pub fn normalize_responses_tool_choice(choice: Json) -> (r: Json)
    ensures
        r@ == responses_tool_choice_of(choice@),
{
    let is_function = match choice.get_str("type") {
        Some(t) => str_eq(t.as_str(), "function"),
        None => false,
    };
    if is_function {
        let name: Option<&String> = match choice.get("function") {
            Some(f) => f.get_str("name"),
            None => None,
        };
        match name {
            Some(n) => {
                let mut w: Vec<(String, Json)> = Vec::new();
                obj_field(&mut w, "type", Json::of_str("function"));
                obj_field(&mut w, "name", Json::Str(n.clone()));
                proof {
                    assert(jview_entries(w@) =~~= responses_tool_choice_of(choice@)->Obj_0);
                }
                Json::Obj(w)
            },
            None => choice,
        }
    } else {
        choice
    }
}

/// A Chat-form function tool in full: a `function` object holding a string
/// name, a string description, and parameters that are present and not null.
pub open spec fn wrapped_function_tool(t: JsonV) -> bool {
    match jv_get(t, "function"@) {
        Some(f) => {
            &&& jv_get(f, "name"@) matches Some(JsonV::Str(_))
            &&& jv_get(f, "description"@) matches Some(JsonV::Str(_))
            &&& (jv_get(f, "parameters"@) matches Some(p) && !(p is Null))
        },
        None => false,
    }
}

/// The field names that the normalizers write are pairwise distinct.
proof fn lemma_key_distinct()
    ensures
        "type"@ != "function"@,
        "type"@ != "name"@,
        "type"@ != "description"@,
        "type"@ != "parameters"@,
        "function"@ != "name"@,
        "function"@ != "description"@,
        "function"@ != "parameters"@,
        "name"@ != "description"@,
        "name"@ != "parameters"@,
        "description"@ != "parameters"@,
{
    reveal_strlit("type");
    reveal_strlit("function");
    reveal_strlit("name");
    reveal_strlit("description");
    reveal_strlit("parameters");
    assert("type"@.len() == 4 && "function"@.len() == 8 && "name"@.len() == 4
        && "description"@.len() == 11 && "parameters"@.len() == 10);
    assert("type"@[0] == 't' && "name"@[0] == 'n');
}

/// The field lookups on a normalized `function` payload.
proof fn lemma_payload_fields(name: Seq<char>, src: JsonV)
    ensures
        jv_get(function_payload(name, src), "name"@) == Some(JsonV::Str(name)),
        jv_get(function_payload(name, src), "description"@) == Some(
            JsonV::Str(tool_description_of(src)),
        ),
        jv_get(function_payload(name, src), "parameters"@) == Some(tool_parameters_of(src)),
{
    lemma_key_distinct();
    let fo = function_payload(name, src)->Obj_0;
    assert(fo[0] == ("name"@, JsonV::Str(name)));
    assert(fo[1] == ("description"@, JsonV::Str(tool_description_of(src))));
    assert(fo[2] == ("parameters"@, tool_parameters_of(src)));
    assert(fo[0].0 != "description"@ && fo[0].0 != "parameters"@ && fo[1].0 != "parameters"@);
    crate::json::lemma_entries_get_found(fo, "name"@, 0);
    crate::json::lemma_entries_get_found(fo, "description"@, 1);
    crate::json::lemma_entries_get_found(fo, "parameters"@, 2);
}

/// A freshly wrapped tool is a well-formed Chat function tool.
proof fn lemma_wrap_tool_wf(tool: JsonV)
    requires
        jv_get(tool, "parameters"@) != Some(JsonV::Null),
        wrap_chat_tool(tool) is Some,
    ensures
        wrapped_function_tool(wrap_chat_tool(tool)->0),
        jv_get(wrap_chat_tool(tool)->0, "type"@) == Some(JsonV::Str("function"@)),
{
    lemma_key_distinct();
    let t = wrap_chat_tool(tool)->0;
    let name = jv_get(tool, "name"@)->0->Str_0;
    let f = function_payload(name, tool);
    let to = t->Obj_0;
    assert(to[0] == ("type"@, JsonV::Str("function"@)));
    assert(to[1] == ("function"@, f));
    assert(to[0].0 != "function"@);
    crate::json::lemma_entries_get_found(to, "type"@, 0);
    crate::json::lemma_entries_get_found(to, "function"@, 1);
    lemma_payload_fields(name, tool);
    assert(!(tool_parameters_of(tool) is Null));
}

/// An unwrapped Responses tool carries no `function` field.
proof fn lemma_unwrap_tool_plain(tool: JsonV)
    requires
        jv_get(tool, "type"@) == Some(JsonV::Str("function"@)),
        jv_get(tool, "function"@) is Some,
        responses_tool_of(tool) is Some,
    ensures
        jv_get(responses_tool_of(tool)->0, "function"@) is None,
{
    lemma_key_distinct();
    let t = responses_tool_of(tool)->0;
    let f = jv_get(tool, "function"@)->0;
    let name = jv_get(f, "name"@)->0->Str_0;
    let to = t->Obj_0;
    assert(to[0] == ("type"@, JsonV::Str("function"@)));
    assert(to[1] == ("name"@, JsonV::Str(name)));
    assert(to[2] == ("description"@, JsonV::Str(tool_description_of(f))));
    assert(to[3] == ("parameters"@, tool_parameters_of(f)));
    assert(to[0].0 != "function"@ && to[1].0 != "function"@ && to[2].0 != "function"@
        && to[3].0 != "function"@);
    crate::json::lemma_entries_get_absent(to, "function"@);
}

/// Every function tool bound for a Chat payload has the wrapped shape, with
/// a name, a description, and non-null parameters — provided the source
/// tools came in Responses form (no `function` field) and none carried a
/// null `parameters` field.
pub proof fn lemma_chat_tools_wrapped(tools: Seq<JsonV>, drop: Seq<Seq<char>>)
    requires
        forall|i: int|
            0 <= i < tools.len() ==> (jv_get(#[trigger] tools[i], "type"@) == Some(
                JsonV::Str("function"@),
            ) ==> jv_get(tools[i], "function"@) is None),
        forall|i: int|
            0 <= i < tools.len() ==> jv_get(#[trigger] tools[i], "parameters"@) != Some(
                JsonV::Null,
            ),
    ensures
        forall|i: int|
            0 <= i < chat_tools_of(tools, drop).len() ==> (jv_get(
                #[trigger] chat_tools_of(tools, drop)[i],
                "type"@,
            ) == Some(JsonV::Str("function"@)) ==> wrapped_function_tool(
                chat_tools_of(tools, drop)[i],
            )),
    decreases tools,
{
    lemma_key_distinct();
    if tools.len() > 0 {
        lemma_chat_tools_wrapped(tools.drop_last(), drop);
        let rest = chat_tools_of(tools.drop_last(), drop);
        let r = chat_tools_of(tools, drop);
        assert forall|i: int|
            0 <= i < r.len() && jv_get(#[trigger] r[i], "type"@) == Some(
                JsonV::Str("function"@),
            ) implies wrapped_function_tool(r[i]) by {
            let last = tools.last();
            assert(last == tools[tools.len() - 1]);
            if i < rest.len() {
                assert(r[i] == rest[i]);
            } else {
                let t = chat_tool_of(last, drop)->0;
                assert(r[i] == t);
                if !tool_dropped(last, drop) && jv_get(last, "type"@) == Some(
                    JsonV::Str("function"@),
                ) {
                    assert(jv_get(last, "function"@) is None);
                    assert(t == wrap_chat_tool(last)->0);
                    let name = jv_get(last, "name"@)->0->Str_0;
                    let f = function_payload(name, last);
                    let to = t->Obj_0;
                    assert(to[0].0 == "type"@ && to[0].0 != "function"@);
                    assert(to[1] == ("function"@, f));
                    crate::json::lemma_entries_get_found(to, "function"@, 1);
                    let fo = f->Obj_0;
                    assert(fo[0] == ("name"@, JsonV::Str(name)));
                    assert(fo[1] == ("description"@, JsonV::Str(tool_description_of(last))));
                    assert(fo[2] == ("parameters"@, tool_parameters_of(last)));
                    assert(fo[0].0 != "description"@ && fo[0].0 != "parameters"@);
                    assert(fo[1].0 != "parameters"@);
                    crate::json::lemma_entries_get_found(fo, "name"@, 0);
                    crate::json::lemma_entries_get_found(fo, "description"@, 1);
                    crate::json::lemma_entries_get_found(fo, "parameters"@, 2);
                    assert(!(tool_parameters_of(last) is Null));
                }
            }
        }
    }
}

/// No function tool bound for a Responses payload keeps the wrapped shape:
/// whenever its `type` is `function`, it has no `function` field.
pub proof fn lemma_responses_tools_unwrapped(tools: Seq<JsonV>)
    ensures
        forall|i: int|
            0 <= i < responses_tools_of(tools).len() ==> (jv_get(
                #[trigger] responses_tools_of(tools)[i],
                "type"@,
            ) == Some(JsonV::Str("function"@)) ==> jv_get(
                responses_tools_of(tools)[i],
                "function"@,
            ) is None),
    decreases tools,
{
    lemma_key_distinct();
    if tools.len() > 0 {
        lemma_responses_tools_unwrapped(tools.drop_last());
        let rest = responses_tools_of(tools.drop_last());
        let r = responses_tools_of(tools);
        assert forall|i: int|
            0 <= i < r.len() && jv_get(#[trigger] r[i], "type"@) == Some(
                JsonV::Str("function"@),
            ) implies jv_get(r[i], "function"@) is None by {
            let last = tools.last();
            assert(last == tools[tools.len() - 1]);
            if i < rest.len() {
                assert(r[i] == rest[i]);
            } else {
                let t = responses_tool_of(last)->0;
                assert(r[i] == t);
                if jv_get(last, "type"@) == Some(JsonV::Str("function"@)) && jv_get(
                    last,
                    "function"@,
                ) is Some {
                    let f = jv_get(last, "function"@)->0;
                    assert(jv_get(f, "name"@) matches Some(JsonV::Str(_)));
                    let name = jv_get(f, "name"@)->0->Str_0;
                    let to = t->Obj_0;
                    assert(to =~= seq![
                        ("type"@, JsonV::Str("function"@)),
                        ("name"@, JsonV::Str(name)),
                        ("description"@, JsonV::Str(tool_description_of(f))),
                        ("parameters"@, tool_parameters_of(f)),
                    ]);
                    assert(to[0].0 == "type"@ && to[0].0 != "function"@);
                    assert(to[1].0 == "name"@ && to[1].0 != "function"@);
                    assert(to[2].0 == "description"@ && to[2].0 != "function"@);
                    assert(to[3].0 == "parameters"@ && to[3].0 != "function"@);
                    crate::json::lemma_entries_get_absent(to, "function"@);
                }
            }
        }
    }
}

} // verus!
