//! Flattening of typed content parts into plain text, and the reverse.
//!
//! A Responses-API message carries an ordered list of typed parts; the Chat
//! API carries one string.  Flattening keeps the text of `input_text` and
//! `output_text` parts (non-empty only), joined by newlines.  Any other JSON
//! that stands where text is expected is written out as compact JSON.

use vstd::prelude::*;
use vstd::string::*;

use crate::json::{
    arr_item, jview_list, jv_get, obj_field, json_text, jview, jview_entries, Json, JsonV,
};
use crate::text::{is_blank, join_nl, join_texts, str_eq, str_is_blank, text_views};

verus! {

/// Whether a content part contributes text: its `type` is `input_text` or
/// `output_text` and its `text` is a non-empty string.
pub open spec fn is_text_part(item: JsonV) -> bool {
    (jv_get(item, "type"@) == Some(JsonV::Str("input_text"@)) || jv_get(item, "type"@) == Some(
        JsonV::Str("output_text"@),
    )) && match jv_get(item, "text"@) {
        Some(JsonV::Str(t)) => t.len() > 0,
        _ => false,
    }
}

/// The text a content part contributes.
pub open spec fn part_text(item: JsonV) -> Seq<char> {
    match jv_get(item, "text"@) {
        Some(JsonV::Str(t)) => t,
        _ => Seq::empty(),
    }
}

/// The texts of the contributing parts, in order.
pub open spec fn text_parts(items: Seq<JsonV>) -> Seq<Seq<char>>
    decreases items,
{
    if items.len() == 0 {
        Seq::empty()
    } else {
        let rest = text_parts(items.drop_last());
        if is_text_part(items.last()) {
            rest.push(part_text(items.last()))
        } else {
            rest
        }
    }
}

/// The flattened text of a list of content parts.
pub open spec fn flatten_text(items: Seq<JsonV>) -> Seq<char> {
    join_nl(text_parts(items))
}

/// Concatenate the text of the `input_text` / `output_text` parts, joined by
/// newlines; every other part is ignored.
pub fn flatten_content_items(items: &Vec<Json>) -> (r: String)
    ensures
        r@ == flatten_text(jview_list(items@)),
{
    let mut parts: Vec<String> = Vec::new();
    let n = items.len();
    let mut i: usize = 0;
    proof {
        crate::json::lemma_jview_list_index(items@);
    }
    while i < n
        invariant
            0 <= i <= n,
            n == items@.len(),
            jview_list(items@).len() == n,
            forall|j: int| 0 <= j < n ==> jview_list(items@)[j] == jview(#[trigger] items@[j]),
            text_views(parts@) == text_parts(jview_list(items@).take(i as int)),
        decreases n - i,
    {
        let item = &items[i];
        let ghost iv = jview(items@[i as int]);
        let mut keep = false;
        match item.get("type") {
            Some(t) => match t.as_str() {
                Some(s) => {
                    if str_eq(s.as_str(), "input_text") || str_eq(s.as_str(), "output_text") {
                        keep = true;
                    }
                },
                None => {},
            },
            None => {},
        }
        let mut text: Option<&String> = None;
        if keep {
            match item.get("text") {
                Some(t) => match t.as_str() {
                    Some(s) => {
                        if !s.as_str().is_empty() {
                            text = Some(s);
                        }
                    },
                    None => {},
                },
                None => {},
            }
        }
        let ghost parts_before = parts@;
        match text {
            Some(s) => {
                parts.push(s.clone());
                proof {
                    assert(is_text_part(iv));
                    assert(part_text(iv) == s@);
                    assert(parts@.drop_last() =~= parts_before);
                    assert(text_views(parts@) == text_views(parts_before).push(s@));
                }
            },
            None => {
                proof {
                    assert(!is_text_part(iv));
                }
            },
        }
        proof {
            let taken = jview_list(items@).take(i + 1 as int);
            assert(taken.drop_last() =~= jview_list(items@).take(i as int));
            assert(taken.last() == iv);
        }
        i = i + 1;
    }
    proof {
        assert(jview_list(items@).take(n as int) =~= jview_list(items@));
    }
    join_texts(&parts)
}

/// The text standing for a tool call's output: a string as it is, a list of
/// parts flattened, anything else written as compact JSON.
pub open spec fn output_text_of(v: JsonV) -> Seq<char> {
    match v {
        JsonV::Str(s) => s,
        JsonV::Arr(a) => flatten_text(a),
        _ => json_text(v),
    }
}

/// Flatten a tool-call output value to text.
pub fn function_output_to_text(value: &Json) -> (r: String)
    ensures
        r@ == output_text_of(value@),
{
    match value {
        Json::Str(s) => s.clone(),
        Json::Arr(a) => flatten_content_items(a),
        other => other.to_text(),
    }
}

/// The text standing for a tool call's arguments: a JSON string passes
/// through, anything else is written as compact JSON.
pub open spec fn arguments_text_of(v: JsonV) -> Seq<char> {
    match v {
        JsonV::Str(s) => s,
        _ => json_text(v),
    }
}

/// Coerce a tool call's arguments to a string.
pub fn function_arguments_to_text(value: &Json) -> (r: String)
    ensures
        r@ == arguments_text_of(value@),
{
    match value {
        Json::Str(s) => s.clone(),
        other => other.to_text(),
    }
}

/// An `input_text` content part carrying `t`.
pub open spec fn input_text_item(t: Seq<char>) -> JsonV {
    JsonV::Obj(seq![("type"@, JsonV::Str("input_text"@)), ("text"@, JsonV::Str(t))])
}

/// Build an `input_text` content part.
pub fn make_input_text_item(t: &str) -> (r: Json)
    ensures
        r@ == input_text_item(t@),
{
    let mut o: Vec<(String, Json)> = Vec::new();
    obj_field(&mut o, "type", Json::of_str("input_text"));
    obj_field(&mut o, "text", Json::of_str(t));
    proof {
        assert(jview_entries(o@) =~= seq![
            ("type"@, JsonV::Str("input_text"@)),
            ("text"@, JsonV::Str(t@)),
        ]);
    }
    Json::Obj(o)
}

/// What one element of a Chat message's content list contributes.
pub open spec fn part_item_of(p: JsonV) -> Option<JsonV> {
    match jv_get(p, "text"@) {
        Some(JsonV::Str(t)) => Some(input_text_item(t)),
        _ => match jv_get(p, "content"@) {
            Some(JsonV::Str(t)) => Some(input_text_item(t)),
            _ => None,
        },
    }
}

/// The `input_text` parts drawn from a Chat content list.
pub open spec fn items_from_parts(parts: Seq<JsonV>) -> Seq<JsonV>
    decreases parts,
{
    if parts.len() == 0 {
        Seq::empty()
    } else {
        let rest = items_from_parts(parts.drop_last());
        match part_item_of(parts.last()) {
            Some(item) => rest.push(item),
            None => rest,
        }
    }
}

/// The Responses-API content list standing for a Chat message's `content`.
pub open spec fn input_items_of_content(c: Option<JsonV>) -> Seq<JsonV> {
    match c {
        Option::None => Seq::empty(),
        Option::Some(JsonV::Str(t)) => if is_blank(t) {
            Seq::empty()
        } else {
            seq![input_text_item(t)]
        },
        Option::Some(JsonV::Arr(parts)) => items_from_parts(parts),
        Option::Some(other) => {
            let txt = json_text(other);
            if is_blank(txt) {
                Seq::empty()
            } else {
                seq![input_text_item(txt)]
            }
        },
    }
}

/// Derive Responses-API content parts from a Chat message's `content`: a
/// string becomes one `input_text` part (none if blank), a list contributes
/// one part per element with a `text` or `content` string, and any other
/// value is written as compact JSON (none if blank).
pub fn chat_message_content_to_input_items(content: Option<&Json>) -> (r: Vec<Json>)
    ensures
        jview_list(r@) == input_items_of_content(match content {
            Some(c) => Some(c@),
            None => None,
        }),
{
    let mut out: Vec<Json> = Vec::new();
    match content {
        None => {},
        Some(c) => match c {
            Json::Str(t) => {
                if !str_is_blank(t.as_str()) {
                    arr_item(&mut out, make_input_text_item(t.as_str()));
                }
            },
            Json::Arr(parts) => {
                let n = parts.len();
                let mut i: usize = 0;
                proof {
                    crate::json::lemma_jview_list_index(parts@);
                }
                while i < n
                    invariant
                        0 <= i <= n,
                        n == parts@.len(),
                        jview_list(parts@).len() == n,
                        forall|j: int| 0 <= j < n ==> jview_list(parts@)[j] == jview(
                            #[trigger] parts@[j],
                        ),
                        jview_list(out@) == items_from_parts(jview_list(parts@).take(i as int)),
                    decreases n - i,
                {
                    let p = &parts[i];
                    let ghost pv = jview(parts@[i as int]);
                    let mut text: Option<&String> = None;
                    match p.get("text") {
                        Some(t) => match t.as_str() {
                            Some(s) => {
                                text = Some(s);
                            },
                            None => {},
                        },
                        None => {},
                    }
                    if text.is_none() {
                        match p.get("content") {
                            Some(t) => match t.as_str() {
                                Some(s) => {
                                    text = Some(s);
                                },
                                None => {},
                            },
                            None => {},
                        }
                    }
                    match text {
                        Some(s) => {
                            arr_item(&mut out, make_input_text_item(s.as_str()));
                            proof {
                                assert(part_item_of(pv) == Some(input_text_item(s@)));
                            }
                        },
                        None => {
                            proof {
                                assert(part_item_of(pv) is None);
                            }
                        },
                    }
                    proof {
                        let taken = jview_list(parts@).take(i + 1 as int);
                        assert(taken.drop_last() =~= jview_list(parts@).take(i as int));
                        assert(taken.last() == pv);
                    }
                    i = i + 1;
                }
                proof {
                    assert(jview_list(parts@).take(n as int) =~= jview_list(parts@));
                }
            },
            other => {
                let txt = other.to_text();
                if !str_is_blank(txt.as_str()) {
                    arr_item(&mut out, make_input_text_item(txt.as_str()));
                }
            },
        },
    }
    out
}

} // verus!
