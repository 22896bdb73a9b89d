//! The shape a chat stream event payload must have, and the content
//! fragment it carries: an object with string `id`, `object` and `model`
//! members, an integer `created` member, and a non-empty `choices` array
//! whose entries each hold a `delta` object (with an optional string
//! `content`), an `index` fitting 32 bits, and an optional string or null
//! `finish_reason`. Unknown members are ignored; a duplicate of a known
//! member, a missing required member, or a wrong type rejects the payload.
use crate::json::{
    modelv, model_arr, model_obj, lemma_model_arr_index, lemma_model_arr_len, JsonNode, JsonValue,
};
use vstd::prelude::*;

verus! {

broadcast use vstd::seq::group_seq_axioms;

/// How many members of `ms` are named `k`.
pub open spec fn key_count(ms: Seq<(Seq<char>, JsonValue)>, k: Seq<char>) -> nat
    decreases ms.len(),
{
    if ms.len() == 0 {
        0
    } else {
        (if ms[0].0 == k {
            1nat
        } else {
            0nat
        }) + key_count(ms.drop_first(), k)
    }
}

/// The value of the first member of `ms` named `k` (null if there is none).
pub open spec fn key_first(ms: Seq<(Seq<char>, JsonValue)>, k: Seq<char>) -> JsonValue
    decreases ms.len(),
{
    if ms.len() == 0 {
        JsonValue::Null
    } else if ms[0].0 == k {
        ms[0].1
    } else {
        key_first(ms.drop_first(), k)
    }
}

/// `k` names exactly one member, a string.
pub open spec fn req_string(ms: Seq<(Seq<char>, JsonValue)>, k: Seq<char>) -> bool {
    key_count(ms, k) == 1 && key_first(ms, k) is Str
}

/// `k` names exactly one member, a number denoting a 64-bit integer.
pub open spec fn req_i64(ms: Seq<(Seq<char>, JsonValue)>, k: Seq<char>) -> bool {
    key_count(ms, k) == 1 && (key_first(ms, k) matches JsonValue::Num(Some(_)))
}

/// `k` names no member, or exactly one that is a string or null.
pub open spec fn opt_string_field(ms: Seq<(Seq<char>, JsonValue)>, k: Seq<char>) -> bool {
    ||| key_count(ms, k) == 0
    ||| (key_count(ms, k) == 1 && (key_first(ms, k) is Str || key_first(ms, k) is Null))
}

pub open spec fn is_valid_delta(v: JsonValue) -> bool {
    match v {
        JsonValue::Obj(ms) => opt_string_field(ms, "content"@),
        _ => false,
    }
}

/// The fragment a delta carries: its `content` string, if present.
pub open spec fn delta_content(v: JsonValue) -> Option<Seq<char>> {
    match v {
        JsonValue::Obj(ms) => if key_count(ms, "content"@) == 1 {
            match key_first(ms, "content"@) {
                JsonValue::Str(s) => Some(s),
                _ => None,
            }
        } else {
            None
        },
        _ => None,
    }
}

pub open spec fn is_valid_choice(v: JsonValue) -> bool {
    match v {
        JsonValue::Obj(ms) => {
            &&& key_count(ms, "delta"@) == 1
            &&& is_valid_delta(key_first(ms, "delta"@))
            &&& key_count(ms, "index"@) == 1
            &&& (match key_first(ms, "index"@) {
                JsonValue::Num(Some(n)) => i32::MIN <= n <= i32::MAX,
                _ => false,
            })
            &&& opt_string_field(ms, "finish_reason"@)
        },
        _ => false,
    }
}

pub open spec fn choice_content(v: JsonValue) -> Option<Seq<char>> {
    match v {
        JsonValue::Obj(ms) => delta_content(key_first(ms, "delta"@)),
        _ => None,
    }
}

pub open spec fn is_valid_event(v: JsonValue) -> bool {
    match v {
        JsonValue::Obj(ms) => {
            &&& req_string(ms, "id"@)
            &&& req_string(ms, "object"@)
            &&& req_i64(ms, "created"@)
            &&& req_string(ms, "model"@)
            &&& key_count(ms, "choices"@) == 1
            &&& (match key_first(ms, "choices"@) {
                JsonValue::Arr(cs) => cs.len() >= 1 && (forall|i: int|
                    0 <= i < cs.len() ==> is_valid_choice(#[trigger] cs[i])),
                _ => false,
            })
        },
        _ => false,
    }
}

/// The fragment a valid event carries: the first choice's delta content.
pub open spec fn event_content(v: JsonValue) -> Option<Seq<char>> {
    match v {
        JsonValue::Obj(ms) => match key_first(ms, "choices"@) {
            JsonValue::Arr(cs) => if cs.len() > 0 {
                choice_content(cs[0])
            } else {
                None
            },
            _ => None,
        },
        _ => None,
    }
}

proof fn lemma_obj_step(ms: Seq<(Vec<char>, JsonNode)>, i: int, k: Seq<char>)
    requires
        0 <= i < ms.len(),
    ensures
        key_count(model_obj(ms.skip(i)), k) == (if ms[i].0@ == k {
            1nat
        } else {
            0nat
        }) + key_count(model_obj(ms.skip(i + 1)), k),
        ms[i].0@ == k ==> key_first(model_obj(ms.skip(i)), k) == modelv(ms[i].1),
        ms[i].0@ != k ==> key_first(model_obj(ms.skip(i)), k) == key_first(
            model_obj(ms.skip(i + 1)),
            k,
        ),
{
    let m = model_obj(ms.skip(i));
    assert(ms.skip(i)[0] == ms[i]);
    assert(ms.skip(i).drop_first() =~= ms.skip(i + 1));
    assert(m == seq![(ms[i].0@, modelv(ms[i].1))] + model_obj(ms.skip(i + 1)));
    assert(m[0] == (ms[i].0@, modelv(ms[i].1)));
    assert(m.drop_first() =~= model_obj(ms.skip(i + 1)));
}

proof fn lemma_obj_end(ms: Seq<(Vec<char>, JsonNode)>, k: Seq<char>)
    ensures
        key_count(model_obj(ms.skip(ms.len() as int)), k) == 0,
        key_first(model_obj(ms.skip(ms.len() as int)), k) == JsonValue::Null,
{
    assert(ms.skip(ms.len() as int) =~= Seq::<(Vec<char>, JsonNode)>::empty());
    assert(model_obj(ms.skip(ms.len() as int)) =~= Seq::<(Seq<char>, JsonValue)>::empty());
}

/// How many members of the object are named by `pat`.
fn obj_count(ms: &Vec<(Vec<char>, JsonNode)>, pat: &str) -> (r: usize)
    ensures
        r as nat == key_count(model_obj(ms@), pat@),
{
    proof {
        assert(ms@.skip(0) =~= ms@);
    }
    let mut cnt: usize = 0;
    let mut i: usize = 0;
    while i < ms.len()
        invariant
            0 <= i <= ms@.len(),
            cnt <= i,
            cnt as nat + key_count(model_obj(ms@.skip(i as int)), pat@) == key_count(
                model_obj(ms@),
                pat@,
            ),
        decreases ms@.len() - i,
    {
        proof {
            lemma_obj_step(ms@, i as int, pat@);
        }
        if crate::text::chars_eq_str(ms[i].0.as_slice(), pat) {
            cnt = cnt + 1;
        }
        i = i + 1;
    }
    proof {
        lemma_obj_end(ms@, pat@);
    }
    cnt
}

/// The first member of the object named by `pat`.
fn obj_first<'a>(ms: &'a Vec<(Vec<char>, JsonNode)>, pat: &str) -> (r: Option<&'a JsonNode>)
    ensures
        match r {
            Some(n) => key_count(model_obj(ms@), pat@) >= 1 && key_first(model_obj(ms@), pat@)
                == modelv(*n),
            None => key_count(model_obj(ms@), pat@) == 0,
        },
{
    proof {
        assert(ms@.skip(0) =~= ms@);
    }
    let mut i: usize = 0;
    while i < ms.len()
        invariant
            0 <= i <= ms@.len(),
            key_count(model_obj(ms@), pat@) == key_count(model_obj(ms@.skip(i as int)), pat@),
            key_first(model_obj(ms@), pat@) == key_first(model_obj(ms@.skip(i as int)), pat@),
        decreases ms@.len() - i,
    {
        proof {
            lemma_obj_step(ms@, i as int, pat@);
        }
        if crate::text::chars_eq_str(ms[i].0.as_slice(), pat) {
            return Some(&ms[i].1);
        }
        i = i + 1;
    }
    proof {
        lemma_obj_end(ms@, pat@);
    }
    None
}

fn node_is_string(n: &JsonNode) -> (r: bool)
    ensures
        r == (modelv(*n) is Str),
{
    match n {
        JsonNode::Str(_) => true,
        _ => false,
    }
}

fn node_is_null(n: &JsonNode) -> (r: bool)
    ensures
        r == (modelv(*n) is Null),
{
    match n {
        JsonNode::Null => true,
        _ => false,
    }
}

fn node_int(n: &JsonNode) -> (r: Option<i64>)
    ensures
        match r {
            Some(x) => modelv(*n) == JsonValue::Num(Some(x as int)),
            None => !(modelv(*n) matches JsonValue::Num(Some(_))),
        },
{
    match n {
        JsonNode::Num(Some(x)) => Some(*x),
        _ => None,
    }
}

fn copy_chars(s: &Vec<char>) -> (r: Vec<char>)
    ensures
        r@ == s@,
{
    let mut out: Vec<char> = Vec::new();
    let mut i: usize = 0;
    while i < s.len()
        invariant
            0 <= i <= s@.len(),
            out@ == s@.subrange(0, i as int),
        decreases s@.len() - i,
    {
        out.push(s[i]);
        proof {
            assert(s@.subrange(0, i as int).push(s@[i as int]) =~= s@.subrange(0, i as int + 1));
        }
        i = i + 1;
    }
    proof {
        assert(s@.subrange(0, s@.len() as int) =~= s@);
    }
    out
}

/// Checks a delta object; `None` when its shape is wrong, otherwise the
/// content fragment it carries.
fn check_delta(d: &JsonNode) -> (r: Option<Option<Vec<char>>>)
    ensures
        match r {
            None => !is_valid_delta(modelv(*d)),
            Some(c) => is_valid_delta(modelv(*d)) && (match c {
                Some(cv) => delta_content(modelv(*d)) == Some(cv@),
                None => delta_content(modelv(*d)) is None,
            }),
        },
{
    let ms = match d {
        JsonNode::Obj(ms) => ms,
        _ => {
            return None;
        },
    };
    let cc = obj_count(ms, "content");
    if cc == 0 {
        return Some(None);
    }
    if cc > 1 {
        return None;
    }
    let cn = obj_first(ms, "content").unwrap();
    match cn {
        JsonNode::Str(s) => Some(Some(copy_chars(s))),
        JsonNode::Null => Some(None),
        _ => None,
    }
}

/// Checks one choice; `None` when its shape is wrong, otherwise the delta
/// content it carries.
fn check_choice(c: &JsonNode) -> (r: Option<Option<Vec<char>>>)
    ensures
        match r {
            None => !is_valid_choice(modelv(*c)),
            Some(cc) => is_valid_choice(modelv(*c)) && (match cc {
                Some(cv) => choice_content(modelv(*c)) == Some(cv@),
                None => choice_content(modelv(*c)) is None,
            }),
        },
{
    let ms = match c {
        JsonNode::Obj(ms) => ms,
        _ => {
            return None;
        },
    };
    if obj_count(ms, "delta") != 1 {
        return None;
    }
    let dn = obj_first(ms, "delta").unwrap();
    let dc = match check_delta(dn) {
        Some(x) => x,
        None => {
            return None;
        },
    };
    if obj_count(ms, "index") != 1 {
        return None;
    }
    let ix = match node_int(obj_first(ms, "index").unwrap()) {
        Some(x) => x,
        None => {
            return None;
        },
    };
    if ix < i32::MIN as i64 || ix > i32::MAX as i64 {
        return None;
    }
    let fc = obj_count(ms, "finish_reason");
    if fc > 1 {
        return None;
    }
    if fc == 1 {
        let fr = obj_first(ms, "finish_reason").unwrap();
        if !(node_is_string(fr) || node_is_null(fr)) {
            return None;
        }
    }
    Some(dc)
}

/// Checks a whole event payload; `None` when its shape is wrong, otherwise
/// the first choice's content fragment, if it has one.
#[verifier::loop_isolation(false)]
pub fn event_fragment(n: &JsonNode) -> (r: Option<Option<Vec<char>>>)
    ensures
        match r {
            None => !is_valid_event(modelv(*n)),
            Some(c) => is_valid_event(modelv(*n)) && (match c {
                Some(cv) => event_content(modelv(*n)) == Some(cv@),
                None => event_content(modelv(*n)) is None,
            }),
        },
{
    let ms = match n {
        JsonNode::Obj(ms) => ms,
        _ => {
            return None;
        },
    };
    if obj_count(ms, "id") != 1 {
        return None;
    }
    if !node_is_string(obj_first(ms, "id").unwrap()) {
        return None;
    }
    if obj_count(ms, "object") != 1 {
        return None;
    }
    if !node_is_string(obj_first(ms, "object").unwrap()) {
        return None;
    }
    if obj_count(ms, "created") != 1 {
        return None;
    }
    if node_int(obj_first(ms, "created").unwrap()).is_none() {
        return None;
    }
    if obj_count(ms, "model") != 1 {
        return None;
    }
    if !node_is_string(obj_first(ms, "model").unwrap()) {
        return None;
    }
    if obj_count(ms, "choices") != 1 {
        return None;
    }
    let chn = obj_first(ms, "choices").unwrap();
    let cs = match chn {
        JsonNode::Arr(cs) => cs,
        _ => {
            return None;
        },
    };
    if cs.len() == 0 {
        return None;
    }
    proof {
        lemma_model_arr_len(cs@);
    }
    let mut content: Option<Vec<char>> = None;
    let mut i: usize = 0;
    while i < cs.len()
        invariant
            0 < cs@.len(),
            0 <= i <= cs@.len(),
            forall|m: int| 0 <= m < i ==> is_valid_choice(#[trigger] model_arr(cs@)[m]),
            i > 0 ==> (match content {
                Some(cv) => choice_content(model_arr(cs@)[0]) == Some(cv@),
                None => choice_content(model_arr(cs@)[0]) is None,
            }),
        decreases cs@.len() - i,
    {
        proof {
            lemma_model_arr_index(cs@, i as int);
        }
        match check_choice(&cs[i]) {
            Some(cc) => {
                if i == 0 {
                    content = cc;
                }
            },
            None => {
                proof {
                    assert(!is_valid_choice(model_arr(cs@)[i as int]));
                    assert(key_first(model_obj(ms@), "choices"@) == JsonValue::Arr(
                        model_arr(cs@),
                    ));
                    assert(!is_valid_event(modelv(*n)));
                }
                return None;
            },
        }
        i = i + 1;
    }
    proof {
        let v = modelv(*n);
        let mm = model_obj(ms@);
        assert(v == JsonValue::Obj(mm));
        assert(req_string(mm, "id"@));
        assert(req_string(mm, "object"@));
        assert(req_i64(mm, "created"@));
        assert(req_string(mm, "model"@));
        assert(key_count(mm, "choices"@) == 1);
        assert(key_first(mm, "choices"@) == JsonValue::Arr(model_arr(cs@)));
        assert(model_arr(cs@).len() >= 1);
        assert(forall|m: int|
            0 <= m < model_arr(cs@).len() ==> is_valid_choice(#[trigger] model_arr(cs@)[m]));
        assert(is_valid_event(v));
    }
    Some(content)
}

} // verus!
