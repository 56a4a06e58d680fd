//! Turning model text into a document, and a document into a patch.
//!
//! The text-to-tree step goes through serde_json behind a trusted wrapper;
//! everything after it — recognising the patch shape, the operation
//! objects and their pointer paths — is verified against exact
//! specifications.

use vstd::prelude::*;

use crate::json::{key_index, lemma_key_index, lemma_members_view_index, lemma_view_variant,
    members_view, JsonMember, JsonValue, JsonView};
use crate::patch::{OpView, Patch, PatchOperation};
use crate::pointer::{encode_pointer, wf_pointer_text, Pointer};

verus! {

broadcast use crate::json::group_json_view_lemmas;

#[verifier::external_type_specification]
#[verifier::external_body]
pub struct ExValue(serde_json::Value);

/// The document a JSON text denotes, when it parses: what serde_json
/// accepts and returns depends on the text alone.
pub uninterp spec fn parsed_json(s: Seq<char>) -> Option<JsonView>;

/// Carry a parsed serde_json tree over into the library's own document
/// model, arm by arm. Numbers that fit `i64` become `Int`; any other
/// number keeps its decimal text.
#[verifier::external_body]
fn from_serde(v: serde_json::Value) -> JsonValue {
    match v {
        serde_json::Value::Null => JsonValue::Null,
        serde_json::Value::Bool(b) => JsonValue::Bool(b),
        serde_json::Value::Number(n) => match n.as_i64() {
            Some(i) => JsonValue::Int(i),
            None => JsonValue::Num(n.to_string()),
        },
        serde_json::Value::String(s) => JsonValue::Text(s),
        serde_json::Value::Array(a) => JsonValue::Arr(a.into_iter().map(from_serde).collect()),
        serde_json::Value::Object(m) => JsonValue::Obj(
            m.into_iter().map(|(k, w)| JsonMember { key: k, value: from_serde(w) }).collect(),
        ),
    }
}

/// Relies on serde_json::from_str: parse a JSON text into a document, or
/// nothing when the text is not JSON.
#[verifier::external_body]
pub fn parse_json(text: &str) -> (r: Option<JsonValue>)
    ensures
        r matches Some(v) ==> parsed_json(text@) == Some(v@),
        r is None ==> parsed_json(text@) is None,
{
    match serde_json::from_str::<serde_json::Value>(text) {
        Ok(v) => Some(from_serde(v)),
        Err(_) => None,
    }
}

/// The value of a member, when the object has the key.
pub open spec fn obj_field(ms: Seq<(Seq<char>, JsonView)>, key: Seq<char>) -> Option<JsonView> {
    let i = key_index(ms, key);
    if i >= 0 {
        Some(ms[i].1)
    } else {
        None
    }
}

/// Whether a document element is a well-formed operation object: a known
/// `op` name, a well-formed `path`, and the fields that the kind needs.
pub open spec fn op_json_ok(v: JsonView) -> bool {
    &&& v is Obj
    &&& {
        let ms = v->Obj_0;
        &&& obj_field(ms, seq!['p', 'a', 't', 'h']) matches Some(JsonView::Text(pt))
            && wf_pointer_text(pt)
        &&& match obj_field(ms, seq!['o', 'p']) {
            Some(JsonView::Text(kind)) => {
                ||| (kind == seq!['a', 'd', 'd'] && obj_field(
                    ms,
                    seq!['v', 'a', 'l', 'u', 'e'],
                ) is Some)
                ||| kind == seq!['r', 'e', 'm', 'o', 'v', 'e']
                ||| (kind == seq!['r', 'e', 'p', 'l', 'a', 'c', 'e'] && obj_field(
                    ms,
                    seq!['v', 'a', 'l', 'u', 'e'],
                ) is Some)
                ||| (kind == seq!['m', 'o', 'v', 'e'] && (obj_field(
                    ms,
                    seq!['f', 'r', 'o', 'm'],
                ) matches Some(JsonView::Text(ft)) && wf_pointer_text(ft)))
                ||| (kind == seq!['c', 'o', 'p', 'y'] && (obj_field(
                    ms,
                    seq!['f', 'r', 'o', 'm'],
                ) matches Some(JsonView::Text(ft)) && wf_pointer_text(ft)))
                ||| (kind == seq!['t', 'e', 's', 't'] && obj_field(
                    ms,
                    seq!['v', 'a', 'l', 'u', 'e'],
                ) is Some)
            }
            _ => false,
        }
    }
}

/// Whether `op` is the operation the object denotes: same kind, paths
/// whose text form stands in the object, and the object's own values.
pub open spec fn op_corresponds(v: JsonView, op: OpView) -> bool {
    &&& v is Obj
    &&& {
        let ms = v->Obj_0;
        match op {
            OpView::Add { path, value } => {
                &&& obj_field(ms, seq!['o', 'p']) == Some(JsonView::Text(seq!['a', 'd', 'd']))
                &&& obj_field(ms, seq!['p', 'a', 't', 'h']) == Some(
                    JsonView::Text(encode_pointer(path)),
                )
                &&& obj_field(ms, seq!['v', 'a', 'l', 'u', 'e']) == Some(value)
            },
            OpView::Remove { path } => {
                &&& obj_field(ms, seq!['o', 'p']) == Some(
                    JsonView::Text(seq!['r', 'e', 'm', 'o', 'v', 'e']),
                )
                &&& obj_field(ms, seq!['p', 'a', 't', 'h']) == Some(
                    JsonView::Text(encode_pointer(path)),
                )
            },
            OpView::Replace { path, value } => {
                &&& obj_field(ms, seq!['o', 'p']) == Some(
                    JsonView::Text(seq!['r', 'e', 'p', 'l', 'a', 'c', 'e']),
                )
                &&& obj_field(ms, seq!['p', 'a', 't', 'h']) == Some(
                    JsonView::Text(encode_pointer(path)),
                )
                &&& obj_field(ms, seq!['v', 'a', 'l', 'u', 'e']) == Some(value)
            },
            OpView::Move { from, path } => {
                &&& obj_field(ms, seq!['o', 'p']) == Some(
                    JsonView::Text(seq!['m', 'o', 'v', 'e']),
                )
                &&& obj_field(ms, seq!['p', 'a', 't', 'h']) == Some(
                    JsonView::Text(encode_pointer(path)),
                )
                &&& obj_field(ms, seq!['f', 'r', 'o', 'm']) == Some(
                    JsonView::Text(encode_pointer(from)),
                )
            },
            OpView::Copy { from, path } => {
                &&& obj_field(ms, seq!['o', 'p']) == Some(
                    JsonView::Text(seq!['c', 'o', 'p', 'y']),
                )
                &&& obj_field(ms, seq!['p', 'a', 't', 'h']) == Some(
                    JsonView::Text(encode_pointer(path)),
                )
                &&& obj_field(ms, seq!['f', 'r', 'o', 'm']) == Some(
                    JsonView::Text(encode_pointer(from)),
                )
            },
            OpView::Test { path, value } => {
                &&& obj_field(ms, seq!['o', 'p']) == Some(
                    JsonView::Text(seq!['t', 'e', 's', 't']),
                )
                &&& obj_field(ms, seq!['p', 'a', 't', 'h']) == Some(
                    JsonView::Text(encode_pointer(path)),
                )
                &&& obj_field(ms, seq!['v', 'a', 'l', 'u', 'e']) == Some(value)
            },
        }
    }
}

/// Fetch a member value by key, as `obj_field` sees it.
fn get_field(members: &Vec<JsonMember>, key: &str) -> (r: Option<JsonValue>)
    ensures
        r matches Some(w) ==> obj_field(members_view(members@), key@) == Some(w@),
        r is None ==> obj_field(members_view(members@), key@) is None,
{
    let owned = String::from_str(key);
    match crate::json::find_member(members, &owned) {
        Some(i) => {
            proof {
                lemma_key_index(members_view(members@), key@);
                lemma_members_view_index(members@, i as int);
            }
            Some(members[i].value.clone())
        }
        None => None,
    }
}

/// Parse one operation object into an operation.
///
/// An error comes back exactly when the object is not a well-formed
/// operation.
pub fn op_from_json(v: &JsonValue) -> (r: Result<PatchOperation, String>)
    ensures
        r matches Ok(op) ==> op_json_ok(v@) && op_corresponds(v@, op@),
        (r is Err) == !op_json_ok(v@),
{
    proof {
        reveal_strlit("op");
        reveal_strlit("path");
        reveal_strlit("value");
        reveal_strlit("from");
        reveal_strlit("add");
        reveal_strlit("remove");
        reveal_strlit("replace");
        reveal_strlit("move");
        reveal_strlit("copy");
        reveal_strlit("test");
        assert("op"@ =~= seq!['o', 'p']);
        assert("path"@ =~= seq!['p', 'a', 't', 'h']);
        assert("value"@ =~= seq!['v', 'a', 'l', 'u', 'e']);
        assert("from"@ =~= seq!['f', 'r', 'o', 'm']);
        assert("add"@ =~= seq!['a', 'd', 'd']);
        assert("remove"@ =~= seq!['r', 'e', 'm', 'o', 'v', 'e']);
        assert("replace"@ =~= seq!['r', 'e', 'p', 'l', 'a', 'c', 'e']);
        assert("move"@ =~= seq!['m', 'o', 'v', 'e']);
        assert("copy"@ =~= seq!['c', 'o', 'p', 'y']);
        assert("test"@ =~= seq!['t', 'e', 's', 't']);
    }
    match v {
        JsonValue::Obj(members) => {
            proof {
                assert(v@ == JsonView::Obj(members_view(members@)));
            }
            let path_text = match get_field(members, "path") {
                Some(JsonValue::Text(t)) => t,
                Some(w) => {
                    proof {
                        lemma_view_variant(w);
                    }
                    return Err(String::from_str("patch op: path is not a string"));
                }
                None => {
                    return Err(String::from_str("patch op: missing path"));
                }
            };
            let path = match Pointer::parse(path_text.as_str()) {
                Some(p) => p,
                None => {
                    return Err(String::from_str("patch op: malformed path"));
                }
            };
            let kind = match get_field(members, "op") {
                Some(JsonValue::Text(t)) => t,
                Some(w) => {
                    proof {
                        lemma_view_variant(w);
                    }
                    return Err(String::from_str("patch op: op is not a string"));
                }
                None => {
                    return Err(String::from_str("patch op: missing op"));
                }
            };
            let add_k = String::from_str("add");
            let remove_k = String::from_str("remove");
            let replace_k = String::from_str("replace");
            let move_k = String::from_str("move");
            let copy_k = String::from_str("copy");
            let test_k = String::from_str("test");
            if kind == add_k {
                match get_field(members, "value") {
                    Some(value) => Ok(PatchOperation::Add { path, value }),
                    None => Err(String::from_str("patch op: add without value")),
                }
            } else if kind == remove_k {
                Ok(PatchOperation::Remove { path })
            } else if kind == replace_k {
                match get_field(members, "value") {
                    Some(value) => Ok(PatchOperation::Replace { path, value }),
                    None => Err(String::from_str("patch op: replace without value")),
                }
            } else if kind == move_k || kind == copy_k {
                let from_text = match get_field(members, "from") {
                    Some(JsonValue::Text(t)) => t,
                    Some(w) => {
                        proof {
                            lemma_view_variant(w);
                        }
                        return Err(String::from_str("patch op: from is not a string"));
                    }
                    None => {
                        return Err(String::from_str("patch op: missing from"));
                    }
                };
                let from = match Pointer::parse(from_text.as_str()) {
                    Some(p) => p,
                    None => {
                        return Err(String::from_str("patch op: malformed from"));
                    }
                };
                if kind == move_k {
                    Ok(PatchOperation::Move { from, path })
                } else {
                    Ok(PatchOperation::Copy { from, path })
                }
            } else if kind == test_k {
                match get_field(members, "value") {
                    Some(value) => Ok(PatchOperation::Test { path, value }),
                    None => Err(String::from_str("patch op: test without value")),
                }
            } else {
                Err(String::from_str("patch op: unknown op name"))
            }
        }
        other => {
            proof {
                lemma_view_variant(*other);
            }
            Err(String::from_str("patch op: not an object"))
        }
    }
}

/// The operation objects a parsed candidate carries: a bare array, or an
/// array under a `patch` member.
pub open spec fn patch_payload(v: JsonView) -> Option<Seq<JsonView>> {
    if v is Arr {
        Some(v->Arr_0)
    } else if v is Obj && (obj_field(v->Obj_0, seq!['p', 'a', 't', 'c', 'h']) matches Some(w)
        && w is Arr) {
        Some(obj_field(v->Obj_0, seq!['p', 'a', 't', 'c', 'h'])->Some_0->Arr_0)
    } else {
        None
    }
}

/// Whether a parsed candidate is a patch: a payload of well-formed
/// operation objects.
pub open spec fn patch_json_ok(v: JsonView) -> bool {
    patch_payload(v) matches Some(elems) && forall|i: int|
        0 <= i < elems.len() ==> op_json_ok(#[trigger] elems[i])
}

/// Parse a document into a patch, accepting a bare operation array or the
/// `{"patch": [...]}` wrapper.
///
/// An error comes back exactly when the document is not a patch.
#[verifier::loop_isolation(false)]
pub fn patch_from_json(v: &JsonValue) -> (r: Result<Patch, String>)
    ensures
        r matches Ok(p) ==> patch_json_ok(v@) && (patch_payload(v@) matches Some(elems)
            && p@.len() == elems.len() && forall|i: int|
            0 <= i < elems.len() ==> op_corresponds(#[trigger] elems[i], p@[i])),
        (r is Err) == !patch_json_ok(v@),
{
    proof {
        reveal_strlit("patch");
        assert("patch"@ =~= seq!['p', 'a', 't', 'c', 'h']);
    }
    let items: &Vec<JsonValue> = match v {
        JsonValue::Arr(items) => {
            proof {
                assert(v@ == JsonView::Arr(crate::json::elems_view(items@)));
            }
            items
        }
        JsonValue::Obj(members) => {
            proof {
                assert(v@ == JsonView::Obj(members_view(members@)));
            }
            let owned = String::from_str("patch");
            match crate::json::find_member(members, &owned) {
                Some(i) => {
                    proof {
                        lemma_key_index(members_view(members@), "patch"@);
                        lemma_members_view_index(members@, i as int);
                    }
                    match &members[i].value {
                        JsonValue::Arr(inner) => {
                            proof {
                                assert(members@[i as int].value@ == JsonView::Arr(
                                    crate::json::elems_view(inner@),
                                ));
                            }
                            inner
                        }
                        w => {
                            proof {
                                lemma_view_variant(*w);
                            }
                            return Err(
                                String::from_str("patch: the patch member is not an array"),
                            );
                        }
                    }
                }
                None => {
                    return Err(String::from_str("patch: no operations"));
                }
            }
        }
        other => {
            proof {
                lemma_view_variant(*other);
            }
            return Err(String::from_str("patch: not an array"));
        }
    };
    let ghost elems = crate::json::elems_view(items@);
    proof {
        assert(patch_payload(v@) == Some(elems));
    }
    let mut ops: Vec<PatchOperation> = Vec::new();
    let mut i: usize = 0;
    while i < items.len()
        invariant
            i <= items.len(),
            ops@.len() == i as int,
            forall|j: int| 0 <= j < i as int ==> op_json_ok(#[trigger] elems[j]),
            forall|j: int| 0 <= j < i as int ==> op_corresponds(
                #[trigger] elems[j],
                ops@[j]@,
            ),
        decreases items.len() - i,
    {
        match op_from_json(&items[i]) {
            Ok(op) => {
                ops.push(op);
            }
            Err(e) => {
                proof {
                    assert(patch_payload(v@) == Some(elems));
                    assert(!op_json_ok(elems[i as int]));
                    assert(!patch_json_ok(v@)) by {
                        if patch_json_ok(v@) {
                            let elems2 = patch_payload(v@)->Some_0;
                            assert(op_json_ok(elems2[i as int]));
                        }
                    }
                }
                return Err(e);
            }
        }
        i = i + 1;
    }
    let p = Patch { ops };
    proof {
        assert(p@.len() == elems.len());
        assert forall|j: int| 0 <= j < elems.len() implies op_corresponds(
            #[trigger] elems[j],
            p@[j],
        ) by {}
    }
    Ok(p)
}

/// Whether a text parses as JSON and denotes a patch.
pub open spec fn patch_text_ok(s: Seq<char>) -> bool {
    parsed_json(s) matches Some(v) && patch_json_ok(v)
}

/// Parse model text into a patch.
///
/// An error comes back exactly when the text is not JSON or not a patch.
pub fn parse_patch_text(text: &str) -> (r: Result<Patch, String>)
    ensures
        r matches Ok(p) ==> patch_text_ok(text@) && (parsed_json(text@) matches Some(v)
            && patch_payload(v) matches Some(elems) && p@.len() == elems.len() && forall|i: int|
            0 <= i < elems.len() ==> op_corresponds(#[trigger] elems[i], p@[i])),
        (r is Err) == !patch_text_ok(text@),
{
    match parse_json(text) {
        Some(v) => patch_from_json(&v),
        None => Err(String::from_str("response is not JSON")),
    }
}

/// Whether a character counts as surrounding whitespace.
pub open spec fn is_space(c: char) -> bool {
    c == ' ' || c == '\t' || c == '\n' || c == '\r'
}

/// The text with leading whitespace removed.
pub open spec fn trim_left(s: Seq<char>) -> Seq<char>
    decreases s.len(),
{
    if s.len() > 0 && is_space(s[0]) {
        trim_left(s.drop_first())
    } else {
        s
    }
}

/// The text with trailing whitespace removed.
pub open spec fn trim_right(s: Seq<char>) -> Seq<char>
    decreases s.len(),
{
    if s.len() > 0 && is_space(s.last()) {
        trim_right(s.drop_last())
    } else {
        s
    }
}

/// The text with whitespace removed from both ends.
pub open spec fn trim_text(s: Seq<char>) -> Seq<char> {
    trim_right(trim_left(s))
}

/// The first index holding `c`, or `-1`.
pub open spec fn find_first(s: Seq<char>, c: char) -> int
    decreases s.len(),
{
    if s.len() == 0 {
        -1
    } else if s[0] == c {
        0
    } else {
        let rest = find_first(s.drop_first(), c);
        if rest < 0 {
            -1
        } else {
            rest + 1
        }
    }
}

/// The last index holding `c`, or `-1`.
pub open spec fn find_last(s: Seq<char>, c: char) -> int
    decreases s.len(),
{
    if s.len() == 0 {
        -1
    } else if s.last() == c {
        s.len() - 1
    } else {
        find_last(s.drop_last(), c)
    }
}

/// What `clean_patch_text` keeps: the trimmed text, narrowed to the span
/// from its first `[` to its last `]` when both are present in order.
pub open spec fn clean_patch_spec(s: Seq<char>) -> Seq<char> {
    let t = trim_text(s);
    let lb = find_first(t, '[');
    let rb = find_last(t, ']');
    if lb >= 0 && rb >= 0 && lb <= rb {
        t.subrange(lb, rb + 1)
    } else {
        t
    }
}

pub(crate) proof fn lemma_trim_left(s: Seq<char>, k: int)
    requires
        0 <= k <= s.len(),
        forall|j: int| 0 <= j < k ==> is_space(#[trigger] s[j]),
        k == s.len() || !is_space(s[k]),
    ensures
        trim_left(s) == s.subrange(k, s.len() as int),
    decreases k,
{
    if k == 0 {
        assert(s.subrange(0, s.len() as int) =~= s);
    } else {
        assert(s.drop_first() =~= s.subrange(1, s.len() as int));
        lemma_trim_left(s.drop_first(), k - 1);
        assert(s.drop_first().subrange(k - 1, s.drop_first().len() as int) =~= s.subrange(
            k,
            s.len() as int,
        ));
    }
}

pub(crate) proof fn lemma_trim_right(s: Seq<char>, k: int)
    requires
        0 <= k <= s.len(),
        forall|j: int| k <= j < s.len() ==> is_space(#[trigger] s[j]),
        k == 0 || !is_space(s[k - 1]),
    ensures
        trim_right(s) == s.subrange(0, k),
    decreases s.len() - k,
{
    if k == s.len() {
        assert(s.subrange(0, s.len() as int) =~= s);
        if s.len() > 0 && is_space(s.last()) {
            assert(false);
        }
    } else {
        assert(is_space(s.last()));
        lemma_trim_right(s.drop_last(), k);
        assert(s.drop_last().subrange(0, k) =~= s.subrange(0, k));
    }
}

proof fn lemma_find_first(s: Seq<char>, c: char)
    ensures
        find_first(s, c) < 0 ==> forall|j: int| 0 <= j < s.len() ==> s[j] != c,
        find_first(s, c) >= 0 ==> {
            let i = find_first(s, c);
            &&& i < s.len()
            &&& s[i] == c
            &&& forall|j: int| 0 <= j < i ==> s[j] != c
        },
    decreases s.len(),
{
    if s.len() > 0 && s[0] != c {
        lemma_find_first(s.drop_first(), c);
        assert forall|j: int| 1 <= j < s.len() implies s.drop_first()[j - 1] == s[j] by {}
    }
}

proof fn lemma_find_last(s: Seq<char>, c: char)
    ensures
        find_last(s, c) < 0 ==> forall|j: int| 0 <= j < s.len() ==> s[j] != c,
        find_last(s, c) >= 0 ==> {
            let i = find_last(s, c);
            &&& i < s.len()
            &&& s[i] == c
            &&& forall|j: int| i < j < s.len() ==> s[j] != c
        },
    decreases s.len(),
{
    if s.len() > 0 && s.last() != c {
        lemma_find_last(s.drop_last(), c);
        assert forall|j: int| 0 <= j < s.len() - 1 implies s.drop_last()[j] == s[j] by {}
    }
}

/// Whether the character at a position is whitespace.
pub(crate) fn space_at(s: &str, i: usize) -> (r: bool)
    requires
        i < s@.len(),
    ensures
        r == is_space(s@[i as int]),
{
    is_space_char(s.get_char(i))
}

/// Whether a character counts as surrounding whitespace.
fn is_space_char(c: char) -> (r: bool)
    ensures
        r == is_space(c),
{
    c == ' ' || c == '\t' || c == '\n' || c == '\r'
}

/// Strip markdown noise around a patch: trim the text and keep the span
/// from the first `[` to the last `]` when both are there.
#[verifier::loop_isolation(false)]
pub fn clean_patch_text(text: &str) -> (r: &str)
    ensures
        r@ == clean_patch_spec(text@),
{
    let n = text.unicode_len();
    let mut start: usize = 0;
    while start < n && is_space_char(text.get_char(start))
        invariant
            start <= n,
            forall|j: int| 0 <= j < start as int ==> is_space(#[trigger] text@[j]),
        decreases n - start,
    {
        start = start + 1;
    }
    let mut end: usize = n;
    while end > start && is_space_char(text.get_char(end - 1))
        invariant
            start <= end <= n,
            forall|j: int| end as int <= j < n as int ==> is_space(#[trigger] text@[j]),
        decreases end,
    {
        end = end - 1;
    }
    let ghost t = trim_text(text@);
    proof {
        lemma_trim_left(text@, start as int);
        let after_left = text@.subrange(start as int, n as int);
        lemma_trim_right(after_left, end as int - start as int);
        assert(after_left.subrange(0, end as int - start as int) =~= text@.subrange(
            start as int,
            end as int,
        ));
        assert(t == text@.subrange(start as int, end as int));
    }
    let mut lb: usize = start;
    let mut lb_found = false;
    while lb < end && !lb_found
        invariant
            start <= lb <= end,
            !lb_found ==> forall|j: int| start as int <= j < lb as int ==> text@[j] != '[',
            lb_found ==> lb < end && text@[lb as int] == '[' && forall|j: int|
                start as int <= j < lb as int ==> text@[j] != '[',
        decreases end - lb + (if lb_found { 0int } else { 1int }),
    {
        if text.get_char(lb) == '[' {
            lb_found = true;
        } else {
            lb = lb + 1;
        }
    }
    let mut rb: usize = end;
    let mut rb_found = false;
    while rb > start && !rb_found
        invariant
            start <= rb <= end,
            !rb_found ==> forall|j: int| rb as int <= j < end as int ==> text@[j] != ']',
            rb_found ==> rb < end && text@[rb as int] == ']' && forall|j: int|
                (rb as int) < j < (end as int) ==> text@[j] != ']',
        decreases rb,
    {
        if text.get_char(rb - 1) == ']' {
            rb = rb - 1;
            rb_found = true;
        } else {
            rb = rb - 1;
        }
    }
    proof {
        lemma_find_first(t, '[');
        lemma_find_last(t, ']');
        assert forall|j: int| 0 <= j < t.len() implies t[j] == text@[start as int + j] by {}
    }
    if lb_found && rb_found && lb <= rb {
        proof {
            assert(t[lb as int - start as int] == '[');
            assert forall|j: int| 0 <= j < lb as int - start as int implies t[j] != '[' by {
                assert(t[j] == text@[start as int + j]);
            }
            assert(t[rb as int - start as int] == ']');
            assert forall|j: int| (rb as int - start as int) < j < t.len() implies t[j] != ']' by {
                assert(t[j] == text@[start as int + j]);
            }
            assert(find_first(t, '[') == lb as int - start as int);
            assert(find_last(t, ']') == rb as int - start as int);
            assert(t.subrange(lb as int - start as int, rb as int - start as int + 1)
                =~= text@.subrange(lb as int, rb as int + 1));
        }
        text.substring_char(lb, rb + 1)
    } else {
        proof {
            assert forall|j: int| 0 <= j < t.len() implies t[j] == text@[start as int + j] by {}
            if lb_found && rb_found {
                assert(lb > rb);
                assert(t[lb as int - start as int] == '[');
                assert forall|j: int| 0 <= j < lb as int - start as int implies t[j] != '[' by {}
                assert(t[rb as int - start as int] == ']');
                assert forall|j: int| (rb as int - start as int) < j < t.len() implies t[j]
                    != ']' by {}
                assert(find_first(t, '[') == lb as int - start as int);
                assert(find_last(t, ']') == rb as int - start as int);
            } else if lb_found {
                assert forall|j: int| 0 <= j < t.len() implies t[j] != ']' by {}
                assert(find_last(t, ']') < 0);
            } else if rb_found {
                assert forall|j: int| 0 <= j < t.len() implies t[j] != '[' by {}
                assert(find_first(t, '[') < 0);
            } else {
                assert forall|j: int| 0 <= j < t.len() implies t[j] != '[' by {}
                assert(find_first(t, '[') < 0);
            }
            assert(clean_patch_spec(text@) == t);
        }
        text.substring_char(start, end)
    }
}

/// The first start index of a ``` fence, or `-1`.
pub open spec fn find_fence(s: Seq<char>) -> int
    decreases s.len(),
{
    if s.len() < 3 {
        -1
    } else if s[0] == '`' && s[1] == '`' && s[2] == '`' {
        0
    } else {
        let rest = find_fence(s.drop_first());
        if rest < 0 {
            -1
        } else {
            rest + 1
        }
    }
}

/// The last start index of a ``` fence, or `-1`.
pub open spec fn rfind_fence(s: Seq<char>) -> int
    decreases s.len(),
{
    if s.len() < 3 {
        -1
    } else if s[s.len() - 3] == '`' && s[s.len() - 2] == '`' && s[s.len() - 1] == '`' {
        s.len() - 3
    } else {
        rfind_fence(s.drop_last())
    }
}

/// Whether a fence starts at `i`.
pub open spec fn fence_at(s: Seq<char>, i: int) -> bool {
    0 <= i && i + 3 <= s.len() && s[i] == '`' && s[i + 1] == '`' && s[i + 2] == '`'
}

proof fn lemma_find_fence(s: Seq<char>)
    ensures
        find_fence(s) < 0 ==> forall|j: int| 0 <= j ==> !(#[trigger] fence_at(s, j)),
        find_fence(s) >= 0 ==> fence_at(s, find_fence(s)) && forall|j: int|
            0 <= j < find_fence(s) ==> !(#[trigger] fence_at(s, j)),
    decreases s.len(),
{
    if s.len() < 3 {
    } else if s[0] == '`' && s[1] == '`' && s[2] == '`' {
    } else {
        lemma_find_fence(s.drop_first());
        assert forall|j: int| 0 <= j < s.len() - 1 implies s.drop_first()[j] == s[j + 1] by {}
        assert forall|j: int| 0 <= j implies fence_at(s, j + 1) == fence_at(
            s.drop_first(),
            j,
        ) by {}
        if find_fence(s) >= 0 {
            assert forall|j: int| 0 <= j < find_fence(s) implies !(#[trigger] fence_at(
                s,
                j,
            )) by {
                if j == 0 {
                } else {
                    assert(!fence_at(s.drop_first(), j - 1));
                }
            }
        } else {
            assert forall|j: int| 0 <= j implies !(#[trigger] fence_at(s, j)) by {
                if j > 0 {
                    assert(!fence_at(s.drop_first(), j - 1));
                }
            }
        }
    }
}

proof fn lemma_rfind_fence(s: Seq<char>)
    ensures
        rfind_fence(s) < 0 ==> forall|j: int| 0 <= j ==> !(#[trigger] fence_at(s, j)),
        rfind_fence(s) >= 0 ==> fence_at(s, rfind_fence(s)) && forall|j: int|
            j > rfind_fence(s) ==> !(#[trigger] fence_at(s, j)),
    decreases s.len(),
{
    if s.len() < 3 {
    } else if s[s.len() - 3] == '`' && s[s.len() - 2] == '`' && s[s.len() - 1] == '`' {
    } else {
        lemma_rfind_fence(s.drop_last());
        assert forall|j: int| 0 <= j implies (fence_at(s, j) && j + 3 <= s.len() - 1)
            == fence_at(s.drop_last(), j) by {}
        assert(!fence_at(s, s.len() - 3));
        if rfind_fence(s) >= 0 {
            assert forall|j: int| j > rfind_fence(s) implies !(#[trigger] fence_at(
                s,
                j,
            )) by {
                if j + 3 <= s.len() - 1 {
                    assert(!fence_at(s.drop_last(), j));
                } else if j + 3 == s.len() {
                }
            }
        } else {
            assert forall|j: int| 0 <= j implies !(#[trigger] fence_at(s, j)) by {
                if j + 3 <= s.len() - 1 {
                    assert(!fence_at(s.drop_last(), j));
                }
            }
        }
    }
}

/// Whether the trimmed text holds a fenced block with content after its
/// opening line.
pub open spec fn fence_cond(t: Seq<char>) -> bool {
    let f = find_fence(t);
    let l = rfind_fence(t);
    &&& f >= 0
    &&& l > f
    &&& find_first(t.subrange(f, l), '\n') >= 0
    &&& f + find_first(t.subrange(f, l), '\n') + 1 < l
}

/// The trimmed content of the fenced block.
pub open spec fn fence_result(t: Seq<char>) -> Seq<char> {
    let f = find_fence(t);
    let l = rfind_fence(t);
    trim_text(t.subrange(f + find_first(t.subrange(f, l), '\n') + 1, l))
}

/// The span from the first opening brace or bracket to the last closing
/// one, when both are there in order; else the text itself.
pub open spec fn brace_result(t: Seq<char>) -> Seq<char> {
    let fb = first_open(t);
    let lb = last_close(t);
    if fb >= 0 && lb >= 0 && fb <= lb {
        t.subrange(fb, lb + 1)
    } else {
        t
    }
}

/// What `clean_json_text` keeps of the trimmed text: the trimmed content
/// of a fenced block when one is there; else the span from the first `{`
/// or `[` to the last `}` or `]`; else the trimmed text itself.
pub open spec fn clean_json_spec(s: Seq<char>) -> Seq<char> {
    let t = trim_text(s);
    if fence_cond(t) {
        fence_result(t)
    } else {
        brace_result(t)
    }
}

/// The first `{` or `[`, or `-1`.
pub open spec fn first_open(s: Seq<char>) -> int {
    let a = find_first(s, '{');
    let b = find_first(s, '[');
    if a < 0 {
        b
    } else if b < 0 {
        a
    } else if a < b {
        a
    } else {
        b
    }
}

/// The last `}` or `]`, or `-1`.
pub open spec fn last_close(s: Seq<char>) -> int {
    let a = find_last(s, '}');
    let b = find_last(s, ']');
    if a > b {
        a
    } else {
        b
    }
}

/// Try the fenced-block extraction on the trimmed range `[start, end)`.
#[verifier::loop_isolation(false)]
#[verifier::rlimit(40)]
fn fence_content(text: &str, start: usize, end: usize) -> (r: Option<String>)
    requires
        start <= end <= text@.len(),
    ensures
        r matches Some(x) ==> fence_cond(text@.subrange(start as int, end as int)) && x@
            == fence_result(text@.subrange(start as int, end as int)),
        r is None ==> !fence_cond(text@.subrange(start as int, end as int)),
{
    let ghost t = text@.subrange(start as int, end as int);
    proof {
        assert forall|j: int| 0 <= j < t.len() implies t[j] == text@[start as int + j] by {}
        lemma_find_fence(t);
        lemma_rfind_fence(t);
    }
    let m = end - start;
    let mut f: usize = 0;
    let mut f_found = false;
    while m >= 3 && f <= m - 3 && !f_found
        invariant
            f <= m,
            !f_found ==> forall|j: int| 0 <= j < f as int ==> !(#[trigger] fence_at(t, j)),
            f_found ==> fence_at(t, f as int) && forall|j: int|
                0 <= j < f as int ==> !(#[trigger] fence_at(t, j)),
        decreases m - f + (if f_found { 0int } else { 1int }),
    {
        if text.get_char(start + f) == '`' && text.get_char(start + f + 1) == '`'
            && text.get_char(start + f + 2) == '`' {
            proof {
                assert(fence_at(t, f as int));
            }
            f_found = true;
        } else {
            proof {
                assert(!fence_at(t, f as int));
            }
            f = f + 1;
        }
    }
    if !f_found {
        proof {
            assert(find_fence(t) < 0);
        }
        return None;
    }
    let mut l: usize = m;
    let mut l_found = false;
    while l >= 3 && !l_found
        invariant
            l <= m,
            !l_found ==> forall|j: int| j >= l as int - 2 ==> !(#[trigger] fence_at(t, j)),
            l_found ==> fence_at(t, l as int) && forall|j: int|
                j > l as int ==> !(#[trigger] fence_at(t, j)),
        decreases l,
    {
        if text.get_char(start + l - 3) == '`' && text.get_char(start + l - 2) == '`'
            && text.get_char(start + l - 1) == '`' {
            proof {
                assert(fence_at(t, l as int - 3));
            }
            l = l - 3;
            l_found = true;
        } else {
            proof {
                assert forall|j: int| j >= l as int - 3 implies !(#[trigger] fence_at(
                    t,
                    j,
                )) by {
                    if j == l as int - 3 {
                    } else if j + 3 > t.len() {
                    }
                }
            }
            l = l - 1;
        }
    }
    proof {
        assert(find_fence(t) == f as int);
        if l_found {
            assert(rfind_fence(t) == l as int);
        } else {
            assert(rfind_fence(t) < 0);
        }
    }
    if !l_found || l <= f {
        return None;
    }
    let ghost span = t.subrange(f as int, l as int);
    proof {
        lemma_find_first(span, '\n');
        assert forall|j: int| 0 <= j < span.len() implies span[j] == text@[start as int + f as int
            + j] by {}
    }
    let mut nl: usize = f;
    let mut nl_found = false;
    while nl < l && !nl_found
        invariant
            f <= nl <= l,
            !nl_found ==> forall|j: int| 0 <= j < nl as int - f as int ==> span[j] != '\n',
            nl_found ==> nl < l && span[nl as int - f as int] == '\n' && forall|j: int|
                0 <= j < nl as int - f as int ==> span[j] != '\n',
        decreases l - nl + (if nl_found { 0int } else { 1int }),
    {
        if text.get_char(start + nl) == '\n' {
            nl_found = true;
        } else {
            nl = nl + 1;
        }
    }
    if !nl_found {
        proof {
            assert(find_first(span, '\n') < 0);
        }
        return None;
    }
    proof {
        assert(span[nl as int - f as int] == '\n');
        assert(find_first(span, '\n') == nl as int - f as int);
    }
    let content_start = nl + 1;
    if content_start >= l {
        return None;
    }
    let sub = text.substring_char(start + content_start, start + l);
    let r = crate::helpers::trim_str(sub);
    proof {
        assert(sub@ =~= t.subrange(content_start as int, l as int));
        assert(r@ == fence_result(t));
    }
    Some(r)
}

/// Keep the span from the first opening brace or bracket to the last
/// closing one in the trimmed range `[start, end)`.
#[verifier::loop_isolation(false)]
#[verifier::rlimit(40)]
fn brace_span(text: &str, start: usize, end: usize) -> (r: String)
    requires
        start <= end <= text@.len(),
    ensures
        r@ == brace_result(text@.subrange(start as int, end as int)),
{
    let ghost t = text@.subrange(start as int, end as int);
    proof {
        assert forall|j: int| 0 <= j < t.len() implies t[j] == text@[start as int + j] by {}
    }
    let m = end - start;
    let mut fb: usize = 0;
    let mut fb_found = false;
    while fb < m && !fb_found
        invariant
            fb <= m,
            !fb_found ==> forall|j: int| 0 <= j < fb as int ==> t[j] != '{' && t[j] != '[',
            fb_found ==> fb < m && (t[fb as int] == '{' || t[fb as int] == '[') && forall|j: int|
                0 <= j < fb as int ==> t[j] != '{' && t[j] != '[',
        decreases m - fb + (if fb_found { 0int } else { 1int }),
    {
        let c = text.get_char(start + fb);
        if c == '{' || c == '[' {
            fb_found = true;
        } else {
            fb = fb + 1;
        }
    }
    let mut lb: usize = m;
    let mut lb_found = false;
    while lb > 0 && !lb_found
        invariant
            lb <= m,
            !lb_found ==> forall|j: int| lb as int <= j < m as int ==> t[j] != '}' && t[j]
                != ']',
            lb_found ==> lb < m && (t[lb as int] == '}' || t[lb as int] == ']') && forall|j: int|
                (lb as int) < j < m as int ==> t[j] != '}' && t[j] != ']',
        decreases lb,
    {
        let c = text.get_char(start + lb - 1);
        if c == '}' || c == ']' {
            lb = lb - 1;
            lb_found = true;
        } else {
            lb = lb - 1;
        }
    }
    proof {
        lemma_find_first(t, '{');
        lemma_find_first(t, '[');
        lemma_find_last(t, '}');
        lemma_find_last(t, ']');
        if fb_found {
            assert(first_open(t) == fb as int);
        } else {
            assert(find_first(t, '{') < 0);
            assert(find_first(t, '[') < 0);
        }
        if lb_found {
            assert(last_close(t) == lb as int);
        } else {
            assert(find_last(t, '}') < 0);
            assert(find_last(t, ']') < 0);
        }
    }
    if fb_found && lb_found && fb <= lb {
        proof {
            assert(t.subrange(fb as int, lb as int + 1) =~= text@.subrange(
                start as int + fb as int,
                start as int + lb as int + 1,
            ));
        }
        String::from_str(text.substring_char(start + fb, start + lb + 1))
    } else {
        proof {
            assert(t =~= text@.subrange(start as int, end as int));
        }
        String::from_str(text.substring_char(start, end))
    }
}

/// Strip markdown noise around a JSON body: prefer the content of a
/// fenced code block (after its language line); otherwise keep the span
/// from the first `{` or `[` to the last `}` or `]`; otherwise the
/// trimmed text.
#[verifier::loop_isolation(false)]
pub fn clean_json_text(text: &str) -> (r: String)
    ensures
        r@ == clean_json_spec(text@),
{
    let n = text.unicode_len();
    let mut start: usize = 0;
    while start < n && space_at(text, start)
        invariant
            start <= n,
            forall|j: int| 0 <= j < start as int ==> is_space(#[trigger] text@[j]),
        decreases n - start,
    {
        start = start + 1;
    }
    let mut end: usize = n;
    while end > start && space_at(text, end - 1)
        invariant
            start <= end <= n,
            forall|j: int| end as int <= j < n as int ==> is_space(#[trigger] text@[j]),
        decreases end,
    {
        end = end - 1;
    }
    proof {
        lemma_trim_left(text@, start as int);
        let after_left = text@.subrange(start as int, n as int);
        lemma_trim_right(after_left, end as int - start as int);
        assert(after_left.subrange(0, end as int - start as int) =~= text@.subrange(
            start as int,
            end as int,
        ));
        assert(trim_text(text@) == text@.subrange(start as int, end as int));
    }
    match fence_content(text, start, end) {
        Some(r) => r,
        None => brace_span(text, start, end),
    }
}

} // verus!
