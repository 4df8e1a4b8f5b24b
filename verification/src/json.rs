//! The JSON tree that both wire protocols are written in.
//!
//! Request and response bodies are forward-compatible: unknown fields and
//! unknown tool types must pass through the bridge untouched.  The
//! transcoders therefore work on an untyped tree.  A number that is not an
//! `i64` is kept as its literal text, so that it passes through without a
//! floating-point type.

use vstd::prelude::*;
use vstd::string::*;

use crate::text::{
    chars_to_string, dec_int, esc_text, push_dec_i64, push_esc_text, str_eq,
};

verus! {

/// An untyped JSON value.
///
/// Object fields keep their order; a lookup takes the first binding of a key.
#[derive(Debug, PartialEq)]
pub enum Json {
    Null,
    Bool(bool),
    /// A number that fits in an `i64`.
    Int(i64),
    /// Any other number, kept as the literal text it was read from.
    Num(String),
    Str(String),
    Arr(Vec<Json>),
    Obj(Vec<(String, Json)>),
}

/// The mathematical model of a [`Json`] value.
#[verifier::ext_equal]
pub enum JsonV {
    Null,
    Bool(bool),
    Int(int),
    Num(Seq<char>),
    Str(Seq<char>),
    Arr(Seq<JsonV>),
    Obj(Seq<(Seq<char>, JsonV)>),
}

/// The model of a [`Json`] value.
pub open spec fn jview(j: Json) -> JsonV
    decreases j,
{
    match j {
        Json::Null => JsonV::Null,
        Json::Bool(b) => JsonV::Bool(b),
        Json::Int(i) => JsonV::Int(i as int),
        Json::Num(s) => JsonV::Num(s@),
        Json::Str(s) => JsonV::Str(s@),
        Json::Arr(a) => JsonV::Arr(jview_list(a@)),
        Json::Obj(o) => JsonV::Obj(jview_entries(o@)),
    }
}

/// The models of the elements of a JSON array.
pub open spec fn jview_list(l: Seq<Json>) -> Seq<JsonV>
    decreases l,
{
    if l.len() == 0 {
        Seq::empty()
    } else {
        jview_list(l.drop_last()).push(jview(l.last()))
    }
}

/// The models of the fields of a JSON object.
pub open spec fn jview_entries(l: Seq<(String, Json)>) -> Seq<(Seq<char>, JsonV)>
    decreases l,
{
    if l.len() == 0 {
        Seq::empty()
    } else {
        jview_entries(l.drop_last()).push((l.last().0@, jview(l.last().1)))
    }
}

impl View for Json {
    type V = JsonV;

    open spec fn view(&self) -> JsonV {
        jview(*self)
    }
}

/// First binding of `key` in an object's field list.
pub open spec fn entries_get(o: Seq<(Seq<char>, JsonV)>, key: Seq<char>) -> Option<JsonV>
    decreases o,
{
    if o.len() == 0 {
        None
    } else if o[0].0 == key {
        Some(o[0].1)
    } else {
        entries_get(o.drop_first(), key)
    }
}

/// Bind `key` to `val`: every old binding of the key is dropped and the new
/// one stands last.
pub open spec fn entries_set(
    o: Seq<(Seq<char>, JsonV)>,
    key: Seq<char>,
    val: JsonV,
) -> Seq<(Seq<char>, JsonV)> {
    entries_remove(o, key).push((key, val))
}

/// Drop every binding of `key`, keeping the others in order.
pub open spec fn entries_remove(
    o: Seq<(Seq<char>, JsonV)>,
    key: Seq<char>,
) -> Seq<(Seq<char>, JsonV)>
    decreases o,
{
    if o.len() == 0 {
        Seq::empty()
    } else {
        let rest = entries_remove(o.drop_last(), key);
        if o.last().0 == key {
            rest
        } else {
            rest.push(o.last())
        }
    }
}

/// Field lookup: `None` on anything but an object with the key.
pub open spec fn jv_get(j: JsonV, key: Seq<char>) -> Option<JsonV> {
    match j {
        JsonV::Obj(o) => entries_get(o, key),
        _ => None,
    }
}

/// Field update: on an object, set the field; leave any other value alone.
pub open spec fn jv_set(j: JsonV, key: Seq<char>, val: JsonV) -> JsonV {
    match j {
        JsonV::Obj(o) => JsonV::Obj(entries_set(o, key, val)),
        _ => j,
    }
}

/// Field removal: on an object, drop the key; leave any other value alone.
pub open spec fn jv_remove(j: JsonV, key: Seq<char>) -> JsonV {
    match j {
        JsonV::Obj(o) => JsonV::Obj(entries_remove(o, key)),
        _ => j,
    }
}

pub broadcast proof fn lemma_jview_list_index(l: Seq<Json>)
    ensures
        (#[trigger] jview_list(l)).len() == l.len(),
        forall|i: int| 0 <= i < l.len() ==> jview_list(l)[i] == jview(#[trigger] l[i]),
    decreases l,
{
    if l.len() > 0 {
        lemma_jview_list_index(l.drop_last());
        assert forall|i: int| 0 <= i < l.len() implies jview_list(l)[i] == jview(l[i]) by {
            if i < l.len() - 1 {
                assert(l.drop_last()[i] == l[i]);
                assert(jview_list(l.drop_last())[i] == jview(l.drop_last()[i]));
            }
        }
    }
}

pub broadcast proof fn lemma_jview_entries_index(l: Seq<(String, Json)>)
    ensures
        (#[trigger] jview_entries(l)).len() == l.len(),
        forall|i: int| 0 <= i < l.len() ==> jview_entries(l)[i] == (#[trigger] l[i].0@, jview(
            l[i].1,
        )),
    decreases l,
{
    if l.len() > 0 {
        lemma_jview_entries_index(l.drop_last());
        assert forall|i: int| 0 <= i < l.len() implies jview_entries(l)[i] == (
        l[i].0@,
        jview(l[i].1),
        ) by {
            if i < l.len() - 1 {
                assert(l.drop_last()[i] == l[i]);
                assert(jview_entries(l.drop_last())[i] == (
                    l.drop_last()[i].0@,
                    jview(l.drop_last()[i].1),
                ));
            }
        }
    }
}

/// Whether an object has a binding of `key` (false on any other value).
pub open spec fn jv_has(j: JsonV, key: Seq<char>) -> bool {
    jv_get(j, key) is Some
}

pub proof fn lemma_entries_get_found(o: Seq<(Seq<char>, JsonV)>, key: Seq<char>, i: int)
    requires
        0 <= i < o.len(),
        o[i].0 == key,
        forall|j: int| 0 <= j < i ==> o[j].0 != key,
    ensures
        entries_get(o, key) == Some(o[i].1),
    decreases i,
{
    if i > 0 {
        lemma_entries_get_found(o.drop_first(), key, i - 1);
    }
}

pub proof fn lemma_entries_get_absent(o: Seq<(Seq<char>, JsonV)>, key: Seq<char>)
    requires
        forall|j: int| 0 <= j < o.len() ==> o[j].0 != key,
    ensures
        entries_get(o, key) is None,
    decreases o,
{
    if o.len() > 0 {
        lemma_entries_get_absent(o.drop_first(), key);
    }
}

proof fn lemma_entries_remove_absent(o: Seq<(Seq<char>, JsonV)>, key: Seq<char>)
    requires
        forall|j: int| 0 <= j < o.len() ==> o[j].0 != key,
    ensures
        entries_remove(o, key) =~= o,
    decreases o,
{
    if o.len() > 0 {
        lemma_entries_remove_absent(o.drop_last(), key);
    }
}

/// No binding of `key` survives a removal.
pub proof fn lemma_entries_remove_keys(o: Seq<(Seq<char>, JsonV)>, key: Seq<char>)
    ensures
        forall|j: int| 0 <= j < entries_remove(o, key).len() ==> (#[trigger] entries_remove(
            o,
            key,
        )[j]).0 != key,
    decreases o,
{
    let r = entries_remove(o, key);
    if o.len() > 0 {
        lemma_entries_remove_keys(o.drop_last(), key);
        let rest = entries_remove(o.drop_last(), key);
        assert forall|j: int| 0 <= j < r.len() implies r[j].0 != key by {
            if o.last().0 != key && j == rest.len() {
                assert(r[j] == o.last());
            } else {
                assert(r[j] == rest[j]);
            }
        }
    }
}

/// A set binding is found again, with the value that was set.
pub proof fn lemma_set_then_get(o: Seq<(Seq<char>, JsonV)>, key: Seq<char>, val: JsonV)
    ensures
        entries_get(entries_set(o, key, val), key) == Some(val),
{
    let r = entries_set(o, key, val);
    lemma_entries_remove_keys(o, key);
    lemma_entries_get_found(r, key, r.len() - 1);
}

/// After a removal the key is gone, whatever the object held.
pub proof fn lemma_remove_then_get(o: Seq<(Seq<char>, JsonV)>, key: Seq<char>)
    ensures
        entries_get(entries_remove(o, key), key) is None,
{
    lemma_entries_remove_keys(o, key);
    lemma_entries_get_absent(entries_remove(o, key), key);
}

impl Json {
    /// A string value copied from a slice.
    pub fn of_str(s: &str) -> (r: Json)
        ensures
            r@ == JsonV::Str(s@),
    {
        Json::Str(s.to_owned())
    }

    /// The content of a string value.
    pub fn as_str(&self) -> (r: Option<&String>)
        ensures
            match r {
                Some(s) => self@ == JsonV::Str(s@),
                None => !(self@ is Str),
            },
    {
        match self {
            Json::Str(s) => Some(s),
            _ => None,
        }
    }

    /// The content of a boolean value.
    pub fn as_bool(&self) -> (r: Option<bool>)
        ensures
            match r {
                Some(b) => self@ == JsonV::Bool(b),
                None => !(self@ is Bool),
            },
    {
        match self {
            Json::Bool(b) => Some(*b),
            _ => None,
        }
    }

    /// The content of an integer value.
    pub fn as_int(&self) -> (r: Option<i64>)
        ensures
            match r {
                Some(i) => self@ == JsonV::Int(i as int),
                None => !(self@ is Int),
            },
    {
        match self {
            Json::Int(i) => Some(*i),
            _ => None,
        }
    }

    /// The elements of an array value.
    pub fn as_arr(&self) -> (r: Option<&Vec<Json>>)
        ensures
            match r {
                Some(a) => self@ == JsonV::Arr(jview_list(a@)),
                None => !(self@ is Arr),
            },
    {
        match self {
            Json::Arr(a) => Some(a),
            _ => None,
        }
    }

    /// The fields of an object value.
    pub fn as_obj(&self) -> (r: Option<&Vec<(String, Json)>>)
        ensures
            match r {
                Some(o) => self@ == JsonV::Obj(jview_entries(o@)),
                None => !(self@ is Obj),
            },
    {
        match self {
            Json::Obj(o) => Some(o),
            _ => None,
        }
    }

    /// Whether this value is an object.
    pub fn is_obj(&self) -> (r: bool)
        ensures
            r == (self@ is Obj),
    {
        match self {
            Json::Obj(_) => true,
            _ => false,
        }
    }

    /// The first binding of `key`, on an object that has one.
    pub fn get<'a>(&'a self, key: &str) -> (r: Option<&'a Json>)
        ensures
            match r {
                Some(v) => jv_get(self@, key@) == Some(v@),
                None => jv_get(self@, key@) is None,
            },
    {
        match self {
            Json::Obj(o) => {
                let ghost es = jview_entries(o@);
                proof {
                    lemma_jview_entries_index(o@);
                }
                let mut i: usize = 0;
                while i < o.len()
                    invariant
                        0 <= i <= o@.len(),
                        *self is Obj && self->Obj_0 == *o,
                        es == jview_entries(o@),
                        es.len() == o@.len(),
                        forall|j: int| 0 <= j < o@.len() ==> es[j] == (
                            #[trigger] o@[j].0@,
                            jview(o@[j].1),
                        ),
                        forall|j: int| 0 <= j < i ==> #[trigger] es[j].0 != key@,
                    decreases o@.len() - i,
                {
                    let e = &o[i];
                    if str_eq(e.0.as_str(), key) {
                        proof {
                            lemma_entries_get_found(es, key@, i as int);
                        }
                        return Some(&e.1);
                    }
                    i = i + 1;
                }
                proof {
                    lemma_entries_get_absent(es, key@);
                }
                None
            },
            _ => None,
        }
    }

    /// The first binding of `key` when it is a string.
    pub fn get_str<'a>(&'a self, key: &str) -> (r: Option<&'a String>)
        ensures
            match r {
                Some(s) => jv_get(self@, key@) == Some(JsonV::Str(s@)),
                None => !(jv_get(self@, key@) matches Some(JsonV::Str(_))),
            },
    {
        match self.get(key) {
            Some(v) => v.as_str(),
            None => None,
        }
    }

    /// The same value with `key` bound to `val`: old bindings of the key are
    /// dropped and the new one stands last.  Anything but an object is
    /// unchanged.
    pub fn with_field(self, key: &str, val: Json) -> (r: Json)
        ensures
            r@ == jv_set(self@, key@, val@),
    {
        let cleaned = self.without_field(key);
        match cleaned {
            Json::Obj(mut o) => {
                let ghost before = o@;
                o.push((key.to_owned(), val));
                proof {
                    assert(o@.drop_last() =~= before);
                    assert(jview_entries(o@) == jview_entries(before).push((key@, val@)));
                }
                Json::Obj(o)
            },
            other => other,
        }
    }

    /// The same value with every binding of `key` dropped.  Anything but an
    /// object is unchanged.
    pub fn without_field(self, key: &str) -> (r: Json)
        ensures
            r@ == jv_remove(self@, key@),
    {
        match self {
            Json::Obj(mut o) => {
                let mut out: Vec<(String, Json)> = Vec::new();
                let ghost orig = o@;
                let n = o.len();
                let mut i: usize = 0;
                while i < n
                    invariant
                        0 <= i <= n,
                        n == orig.len(),
                        o@ == orig.skip(i as int),
                        jview_entries(out@) == entries_remove(
                            jview_entries(orig.take(i as int)),
                            key@,
                        ),
                    decreases n - i,
                {
                    let ghost done_before = jview_entries(orig.take(i as int));
                    let e = o.remove(0);
                    proof {
                        assert(e == orig[i as int]);
                        assert(orig.skip(i as int).remove(0) =~= orig.skip(i + 1 as int));
                    }
                    let keep = !str_eq(e.0.as_str(), key);
                    let ghost out_before = out@;
                    if keep {
                        out.push(e);
                    }
                    proof {
                        let x = (orig[i as int].0@, jview(orig[i as int].1));
                        let grown = jview_entries(orig.take(i + 1 as int));
                        assert(orig.take(i + 1 as int).drop_last() =~= orig.take(i as int));
                        assert(orig.take(i + 1 as int).last() == orig[i as int]);
                        assert(grown == done_before.push(x));
                        assert(grown.drop_last() =~= done_before);
                        assert(grown.last() == x);
                        if keep {
                            assert(entries_remove(grown, key@) == entries_remove(
                                done_before,
                                key@,
                            ).push(x));
                            assert(out@.drop_last() =~= out_before);
                            assert(out@.last() == e);
                            assert(jview_entries(out@) == jview_entries(out_before).push(x));
                        } else {
                            assert(entries_remove(grown, key@) == entries_remove(
                                done_before,
                                key@,
                            ));
                        }
                    }
                    i = i + 1;
                }
                proof {
                    assert(orig.take(n as int) =~= orig);
                }
                Json::Obj(out)
            },
            other => other,
        }
    }

    /// An equal copy of this value.
    pub fn duplicate(&self) -> (r: Json)
        ensures
            r@ == self@,
        decreases self,
    {
        match self {
            Json::Null => Json::Null,
            Json::Bool(b) => Json::Bool(*b),
            Json::Int(i) => Json::Int(*i),
            Json::Num(s) => Json::Num(s.clone()),
            Json::Str(s) => Json::Str(s.clone()),
            Json::Arr(a) => {
                let mut out: Vec<Json> = Vec::new();
                let mut k: usize = 0;
                while k < a.len()
                    invariant
                        0 <= k <= a@.len(),
                        *self is Arr && self->Arr_0 == *a,
                        jview_list(out@) =~= jview_list(a@.take(k as int)),
                        out@.len() == k,
                    decreases a@.len() - k,
                {
                    proof {
                        assert(decreases_to!(*self => *a));
                        assert(decreases_to!(*a => a@));
                        assert(decreases_to!(a@ => a@[k as int]));
                    }
                    let elem = &a[k];
                    let ghost out_before = out@;
                    out.push(elem.duplicate());
                    proof {
                        assert(a@.take(k + 1 as int).drop_last() =~= a@.take(k as int));
                        assert(a@.take(k + 1 as int).last() == a@[k as int]);
                        assert(jview_list(a@.take(k + 1 as int)) == jview_list(
                            a@.take(k as int),
                        ).push(jview(a@[k as int])));
                        assert(out@.drop_last() =~= out_before);
                        assert(jview(out@.last()) == jview(a@[k as int]));
                        assert(jview_list(out@) == jview_list(out_before).push(
                            jview(a@[k as int]),
                        ));
                    }
                    k = k + 1;
                }
                proof {
                    assert(a@.take(a@.len() as int) =~= a@);
                }
                Json::Arr(out)
            },
            Json::Obj(o) => {
                let mut out: Vec<(String, Json)> = Vec::new();
                let mut k: usize = 0;
                while k < o.len()
                    invariant
                        0 <= k <= o@.len(),
                        *self is Obj && self->Obj_0 == *o,
                        jview_entries(out@) =~= jview_entries(o@.take(k as int)),
                        out@.len() == k,
                    decreases o@.len() - k,
                {
                    proof {
                        assert(decreases_to!(*self => *o));
                        assert(decreases_to!(*o => o@));
                        assert(decreases_to!(o@ => o@[k as int]));
                        assert(decreases_to!(o@[k as int] => o@[k as int].1));
                    }
                    let e = &o[k];
                    let ghost out_before = out@;
                    out.push((e.0.clone(), e.1.duplicate()));
                    proof {
                        let x = (o@[k as int].0@, jview(o@[k as int].1));
                        assert(o@.take(k + 1 as int).drop_last() =~= o@.take(k as int));
                        assert(o@.take(k + 1 as int).last() == o@[k as int]);
                        assert(jview_entries(o@.take(k + 1 as int)) == jview_entries(
                            o@.take(k as int),
                        ).push(x));
                        assert(out@.drop_last() =~= out_before);
                        assert(out@.last().0@ == x.0 && jview(out@.last().1) == x.1);
                        assert(jview_entries(out@) == jview_entries(out_before).push(x));
                    }
                    k = k + 1;
                }
                proof {
                    assert(o@.take(o@.len() as int) =~= o@);
                }
                Json::Obj(out)
            },
        }
    }
}

/// Append a field to an object under construction.
pub fn obj_field(o: &mut Vec<(String, Json)>, key: &str, val: Json)
    ensures
        final(o)@.len() == old(o)@.len() + 1,
        jview_entries(final(o)@) == jview_entries(old(o)@).push((key@, val@)),
{
    o.push((key.to_owned(), val));
    proof {
        assert(o@.drop_last() =~= old(o)@);
    }
}

/// Append an element to an array under construction.
pub fn arr_item(a: &mut Vec<Json>, val: Json)
    ensures
        final(a)@.len() == old(a)@.len() + 1,
        jview_list(final(a)@) == jview_list(old(a)@).push(val@),
{
    a.push(val);
    proof {
        assert(a@.drop_last() =~= old(a)@);
    }
}

/// The compact text of a JSON value: no spaces, fields in order.
pub open spec fn json_text(j: JsonV) -> Seq<char>
    decreases j,
{
    match j {
        JsonV::Null => seq!['n', 'u', 'l', 'l'],
        JsonV::Bool(b) => if b {
            seq!['t', 'r', 'u', 'e']
        } else {
            seq!['f', 'a', 'l', 's', 'e']
        },
        JsonV::Int(i) => dec_int(i),
        JsonV::Num(s) => s,
        JsonV::Str(s) => seq!['"'] + esc_text(s) + seq!['"'],
        JsonV::Arr(a) => seq!['['] + json_text_list(a) + seq![']'],
        JsonV::Obj(o) => seq!['{'] + json_text_entries(o) + seq!['}'],
    }
}

/// The comma-separated texts of an array's elements.
pub open spec fn json_text_list(a: Seq<JsonV>) -> Seq<char>
    decreases a,
{
    if a.len() == 0 {
        Seq::empty()
    } else if a.len() == 1 {
        json_text(a[0])
    } else {
        json_text_list(a.drop_last()) + seq![','] + json_text(a.last())
    }
}

/// The comma-separated texts of an object's fields.
pub open spec fn json_text_entries(o: Seq<(Seq<char>, JsonV)>) -> Seq<char>
    decreases o,
{
    if o.len() == 0 {
        Seq::empty()
    } else if o.len() == 1 {
        json_field_text(o[0])
    } else {
        json_text_entries(o.drop_last()) + seq![','] + json_field_text(o.last())
    }
}

/// The text of one object field: quoted key, colon, value.
pub open spec fn json_field_text(e: (Seq<char>, JsonV)) -> Seq<char>
    decreases e,
{
    seq!['"'] + esc_text(e.0) + seq!['"', ':'] + json_text(e.1)
}

proof fn lemma_json_text_list_push(a: Seq<JsonV>, x: JsonV)
    ensures
        json_text_list(a.push(x)) == if a.len() == 0 {
            json_text(x)
        } else {
            json_text_list(a) + seq![','] + json_text(x)
        },
{
    assert(a.push(x).drop_last() =~= a);
    assert(a.push(x).last() == x);
}

proof fn lemma_json_text_entries_push(o: Seq<(Seq<char>, JsonV)>, e: (Seq<char>, JsonV))
    ensures
        json_text_entries(o.push(e)) == if o.len() == 0 {
            json_field_text(e)
        } else {
            json_text_entries(o) + seq![','] + json_field_text(e)
        },
{
    assert(o.push(e).drop_last() =~= o);
    assert(o.push(e).last() == e);
}

impl Json {
    /// Append the compact text of this value to `out`.
    pub fn write_text(&self, out: &mut Vec<char>)
        ensures
            final(out)@ == old(out)@ + json_text(self@),
        decreases self,
    {
        match self {
            Json::Null => {
                out.push('n');
                out.push('u');
                out.push('l');
                out.push('l');
            },
            Json::Bool(b) => {
                if *b {
                    out.push('t');
                    out.push('r');
                    out.push('u');
                    out.push('e');
                } else {
                    out.push('f');
                    out.push('a');
                    out.push('l');
                    out.push('s');
                    out.push('e');
                }
            },
            Json::Int(i) => {
                push_dec_i64(out, *i);
            },
            Json::Num(s) => {
                let cs = crate::text::str_chars(s.as_str());
                let mut k: usize = 0;
                while k < cs.len()
                    invariant
                        cs@ == s@,
                        0 <= k <= cs@.len(),
                        out@ == old(out)@ + s@.take(k as int),
                    decreases cs@.len() - k,
                {
                    out.push(cs[k]);
                    proof {
                        assert(s@.take(k + 1 as int) =~= s@.take(k as int).push(s@[k as int]));
                    }
                    k = k + 1;
                }
                proof {
                    assert(s@.take(s@.len() as int) =~= s@);
                }
            },
            Json::Str(s) => {
                out.push('"');
                push_esc_text(out, s.as_str());
                out.push('"');
            },
            Json::Arr(a) => {
                out.push('[');
                let mut k: usize = 0;
                while k < a.len()
                    invariant
                        0 <= k <= a@.len(),
                        *self is Arr && self->Arr_0 == *a,
                        out@ == old(out)@ + seq!['['] + json_text_list(
                            jview_list(a@.take(k as int)),
                        ),
                    decreases a@.len() - k,
                {
                    if k > 0 {
                        out.push(',');
                    }
                    let ghost taken = jview_list(a@.take(k as int));
                    proof {
                        lemma_jview_list_index(a@.take(k as int));
                        assert(decreases_to!(*self => *a));
                        assert(decreases_to!(*a => a@));
                        assert(decreases_to!(a@ => a@[k as int]));
                    }
                    let elem = &a[k];
                    elem.write_text(out);
                    proof {
                        assert(a@.take(k + 1 as int).drop_last() =~= a@.take(k as int));
                        assert(a@.take(k + 1 as int).last() == a@[k as int]);
                        assert(jview_list(a@.take(k + 1 as int)) == taken.push(jview(a@[k as int])));
                        lemma_json_text_list_push(taken, jview(a@[k as int]));
                        assert(out@ =~= old(out)@ + seq!['['] + json_text_list(
                            jview_list(a@.take(k + 1 as int)),
                        ));
                    }
                    k = k + 1;
                }
                proof {
                    assert(a@.take(a@.len() as int) =~= a@);
                }
                out.push(']');
            },
            Json::Obj(o) => {
                out.push('{');
                let mut k: usize = 0;
                while k < o.len()
                    invariant
                        0 <= k <= o@.len(),
                        *self is Obj && self->Obj_0 == *o,
                        out@ == old(out)@ + seq!['{'] + json_text_entries(
                            jview_entries(o@.take(k as int)),
                        ),
                    decreases o@.len() - k,
                {
                    if k > 0 {
                        out.push(',');
                    }
                    let ghost taken = jview_entries(o@.take(k as int));
                    out.push('"');
                    let e = &o[k];
                    push_esc_text(out, e.0.as_str());
                    out.push('"');
                    out.push(':');
                    proof {
                        lemma_jview_entries_index(o@.take(k as int));
                        assert(decreases_to!(*self => *o));
                        assert(decreases_to!(*o => o@));
                        assert(decreases_to!(o@ => o@[k as int]));
                        assert(decreases_to!(o@[k as int] => o@[k as int].1));
                    }
                    e.1.write_text(out);
                    proof {
                        assert(o@.take(k + 1 as int).drop_last() =~= o@.take(k as int));
                        assert(o@.take(k + 1 as int).last() == o@[k as int]);
                        assert(jview_entries(o@.take(k + 1 as int)) == taken.push(
                            (o@[k as int].0@, jview(o@[k as int].1)),
                        ));
                        lemma_json_text_entries_push(
                            taken,
                            (o@[k as int].0@, jview(o@[k as int].1)),
                        );
                        assert(out@ =~= old(out)@ + seq!['{'] + json_text_entries(
                            jview_entries(o@.take(k + 1 as int)),
                        ));
                    }
                    k = k + 1;
                }
                proof {
                    assert(o@.take(o@.len() as int) =~= o@);
                }
                out.push('}');
            },
        }
    }

    /// The compact JSON text of this value.
    pub fn to_text(&self) -> (r: String)
        ensures
            r@ == json_text(self@),
    {
        let mut out: Vec<char> = Vec::new();
        self.write_text(&mut out);
        chars_to_string(&out)
    }
}

} // verus!
