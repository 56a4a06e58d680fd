//! RFC 6902 patch operations and their application to a document.
//!
//! Operations address the document through JSON Pointer paths. `add`,
//! `remove`, `replace`, `move`, `copy` and `test` are given exact semantics
//! over the document model, and the two application strategies (atomic and
//! partial) are built on top of them.

use vstd::prelude::*;

use crate::json::{
    elems_view, find_member, group_json_view_edit_lemmas, group_json_view_lemmas, json_eq,
    key_index, lemma_elems_view_insert, lemma_elems_view_push, lemma_elems_view_remove,
    lemma_elems_view_update, lemma_key_index, lemma_members_view_index, lemma_members_view_insert,
    lemma_members_view_push, lemma_members_view_remove, lemma_members_view_update,
    lemma_view_variant, members_view, JsonMember, JsonValue, JsonView,
};
use crate::pointer::{encode_pointer, Pointer};

verus! {

broadcast use group_json_view_lemmas, group_json_view_edit_lemmas;

/// Whether a character is a decimal digit.
pub open spec fn is_digit(c: char) -> bool {
    '0' <= c && c <= '9'
}

/// Numeric value of a digit sequence, most significant first.
pub open spec fn dec_value(s: Seq<char>) -> int
    decreases s.len(),
{
    if s.len() == 0 {
        0
    } else {
        dec_value(s.drop_last()) * 10 + (s.last() as int - '0' as int)
    }
}

/// The texts RFC 6901 accepts as an array index: digits only, and no
/// leading zero unless the index is exactly `0`.
pub open spec fn valid_index_text(s: Seq<char>) -> bool {
    &&& s.len() >= 1
    &&& forall|i: int| 0 <= i < s.len() ==> is_digit(#[trigger] s[i])
    &&& (s[0] != '0' || s.len() == 1)
}

/// The array index a path segment denotes, when it denotes one.
pub open spec fn arr_index_of(s: Seq<char>) -> Option<int> {
    if valid_index_text(s) {
        Some(dec_value(s))
    } else {
        None
    }
}

/// Parse a path segment as an array index.
///
/// `None` either because the text is not an index, or because the index
/// does not fit the machine; an index that large can never be within an
/// array held in memory.
#[verifier::loop_isolation(false)]
pub fn parse_index(seg: &str) -> (r: Option<usize>)
    ensures
        r matches Some(n) ==> arr_index_of(seg@) == Some(n as int),
        r is None ==> arr_index_of(seg@) is None || arr_index_of(seg@)->Some_0 > usize::MAX,
{
    let n = seg.unicode_len();
    if n == 0 {
        return None;
    }
    let first = seg.get_char(0);
    if first == '0' {
        if n == 1 {
            proof {
                assert(seg@.drop_last() =~= Seq::<char>::empty());
                assert(dec_value(Seq::<char>::empty()) == 0);
            }
            return Some(0);
        }
        return None;
    }
    let mut value: usize = 0;
    let mut i: usize = 0;
    while i < n
        invariant
            i <= n,
            forall|j: int| 0 <= j < i as int ==> is_digit(#[trigger] seg@[j]),
            value as int == dec_value(seg@.subrange(0, i as int)),
        decreases n - i,
    {
        let c = seg.get_char(i);
        if c < '0' || c > '9' {
            return None;
        }
        let d: usize = (c as usize) - ('0' as usize);
        if value > (usize::MAX - d) / 10 {
            proof {
                lemma_dec_value_lower_bound(seg@, i as int);
            }
            return None;
        }
        value = value * 10 + d;
        proof {
            assert(seg@.subrange(0, i + 1 as int).drop_last() =~= seg@.subrange(0, i as int));
        }
        i = i + 1;
    }
    proof {
        assert(seg@.subrange(0, n as int) =~= seg@);
    }
    Some(value)
}

/// Growth of the numeric value along a digit prefix: once a prefix value
/// exceeds what extending by one digit keeps within `usize`, the whole
/// text's value is out of range too.
proof fn lemma_dec_value_lower_bound(s: Seq<char>, i: int)
    requires
        0 <= i < s.len(),
        forall|j: int| 0 <= j <= i ==> is_digit(#[trigger] s[j]),
        dec_value(s.subrange(0, i)) * 10 + (s[i] as int - '0' as int) > usize::MAX,
        forall|j: int| 0 <= j < s.len() ==> is_digit(#[trigger] s[j]) || j > i,
    ensures
        valid_index_text(s) ==> dec_value(s) > usize::MAX,
    decreases s.len() - i,
{
    if valid_index_text(s) {
        lemma_dec_value_monotonic(s, i + 1);
        assert(s.subrange(0, i + 1).drop_last() =~= s.subrange(0, i));
        assert(dec_value(s.subrange(0, i + 1)) > usize::MAX);
    }
}

/// The value of a digit text is at least the value of any of its prefixes.
proof fn lemma_dec_value_monotonic(s: Seq<char>, i: int)
    requires
        0 <= i <= s.len(),
        forall|j: int| 0 <= j < s.len() ==> is_digit(#[trigger] s[j]),
    ensures
        dec_value(s) >= dec_value(s.subrange(0, i)),
        dec_value(s) >= 0,
    decreases s.len() - i,
{
    lemma_dec_value_nonneg(s);
    if i < s.len() {
        lemma_dec_value_monotonic(s, i + 1);
        assert(s.subrange(0, i + 1).drop_last() =~= s.subrange(0, i));
        lemma_dec_value_nonneg(s.subrange(0, i));
    } else {
        assert(s.subrange(0, i) =~= s);
    }
}

proof fn lemma_dec_value_nonneg(s: Seq<char>)
    requires
        forall|j: int| 0 <= j < s.len() ==> is_digit(#[trigger] s[j]),
    ensures
        dec_value(s) >= 0,
    decreases s.len(),
{
    if s.len() > 0 {
        lemma_dec_value_nonneg(s.drop_last());
    }
}

/// The path segments still to walk, from position `si` on.
pub open spec fn suffix(segs: Seq<Seq<char>>, si: int) -> Seq<Seq<char>> {
    segs.subrange(si, segs.len() as int)
}

/// The value a pointer addresses, when the path resolves.
pub open spec fn ptr_get(v: JsonView, segs: Seq<Seq<char>>) -> Option<JsonView>
    decreases segs.len(),
{
    if segs.len() == 0 {
        Some(v)
    } else {
        match v {
            JsonView::Obj(ms) => {
                let i = key_index(ms, segs[0]);
                if i >= 0 {
                    ptr_get(ms[i].1, segs.drop_first())
                } else {
                    None
                }
            }
            JsonView::Arr(es) => match arr_index_of(segs[0]) {
                Some(idx) => if 0 <= idx < es.len() {
                    ptr_get(es[idx], segs.drop_first())
                } else {
                    None
                },
                None => None,
            },
            _ => None,
        }
    }
}

/// Members after setting `key`: the first member with that key is replaced,
/// or a new member is appended.
pub open spec fn obj_put(
    ms: Seq<(Seq<char>, JsonView)>,
    key: Seq<char>,
    x: JsonView,
) -> Seq<(Seq<char>, JsonView)> {
    let i = key_index(ms, key);
    if i >= 0 {
        ms.update(i, (key, x))
    } else {
        ms.push((key, x))
    }
}

/// The document after an `add` of `x` at the path, when the path's parent
/// resolves. Adding at an array index shifts the elements after it; the
/// segment `-` appends.
pub open spec fn ptr_add(v: JsonView, segs: Seq<Seq<char>>, x: JsonView) -> Option<JsonView>
    decreases segs.len(),
{
    if segs.len() == 0 {
        Some(x)
    } else {
        match v {
            JsonView::Obj(ms) => {
                if segs.len() == 1 {
                    Some(JsonView::Obj(obj_put(ms, segs[0], x)))
                } else {
                    let i = key_index(ms, segs[0]);
                    if i >= 0 {
                        match ptr_add(ms[i].1, segs.drop_first(), x) {
                            Some(w) => Some(JsonView::Obj(ms.update(i, (segs[0], w)))),
                            None => None,
                        }
                    } else {
                        None
                    }
                }
            }
            JsonView::Arr(es) => {
                if segs.len() == 1 {
                    if segs[0] == seq!['-'] {
                        Some(JsonView::Arr(es.push(x)))
                    } else {
                        match arr_index_of(segs[0]) {
                            Some(idx) => if 0 <= idx <= es.len() {
                                Some(JsonView::Arr(es.insert(idx, x)))
                            } else {
                                None
                            },
                            None => None,
                        }
                    }
                } else {
                    match arr_index_of(segs[0]) {
                        Some(idx) => if 0 <= idx < es.len() {
                            match ptr_add(es[idx], segs.drop_first(), x) {
                                Some(w) => Some(JsonView::Arr(es.update(idx, w))),
                                None => None,
                            }
                        } else {
                            None
                        },
                        None => None,
                    }
                }
            }
            _ => None,
        }
    }
}

/// The document after a `remove` at the path, when the target exists.
/// The whole document cannot be removed.
pub open spec fn ptr_remove(v: JsonView, segs: Seq<Seq<char>>) -> Option<JsonView>
    decreases segs.len(),
{
    if segs.len() == 0 {
        None
    } else {
        match v {
            JsonView::Obj(ms) => {
                let i = key_index(ms, segs[0]);
                if i < 0 {
                    None
                } else if segs.len() == 1 {
                    Some(JsonView::Obj(ms.remove(i)))
                } else {
                    match ptr_remove(ms[i].1, segs.drop_first()) {
                        Some(w) => Some(JsonView::Obj(ms.update(i, (segs[0], w)))),
                        None => None,
                    }
                }
            }
            JsonView::Arr(es) => match arr_index_of(segs[0]) {
                Some(idx) => if !(0 <= idx < es.len()) {
                    None
                } else if segs.len() == 1 {
                    Some(JsonView::Arr(es.remove(idx)))
                } else {
                    match ptr_remove(es[idx], segs.drop_first()) {
                        Some(w) => Some(JsonView::Arr(es.update(idx, w))),
                        None => None,
                    }
                },
                None => None,
            },
            _ => None,
        }
    }
}

/// The document after a `replace` at the path, when the target exists.
pub open spec fn ptr_replace(v: JsonView, segs: Seq<Seq<char>>, x: JsonView) -> Option<JsonView>
    decreases segs.len(),
{
    if segs.len() == 0 {
        Some(x)
    } else {
        match v {
            JsonView::Obj(ms) => {
                let i = key_index(ms, segs[0]);
                if i < 0 {
                    None
                } else if segs.len() == 1 {
                    Some(JsonView::Obj(ms.update(i, (segs[0], x))))
                } else {
                    match ptr_replace(ms[i].1, segs.drop_first(), x) {
                        Some(w) => Some(JsonView::Obj(ms.update(i, (segs[0], w)))),
                        None => None,
                    }
                }
            }
            JsonView::Arr(es) => match arr_index_of(segs[0]) {
                Some(idx) => if !(0 <= idx < es.len()) {
                    None
                } else if segs.len() == 1 {
                    Some(JsonView::Arr(es.update(idx, x)))
                } else {
                    match ptr_replace(es[idx], segs.drop_first(), x) {
                        Some(w) => Some(JsonView::Arr(es.update(idx, w))),
                        None => None,
                    }
                },
                None => None,
            },
            _ => None,
        }
    }
}

/// Whether every step of the path short of the last lands on a non-null
/// object member or array element, so that an edit at the path cannot fail
/// for want of an intact parent.
pub open spec fn parent_ok(v: JsonView, segs: Seq<Seq<char>>) -> bool
    decreases segs.len(),
{
    if segs.len() <= 1 {
        true
    } else {
        match v {
            JsonView::Obj(ms) => {
                let i = key_index(ms, segs[0]);
                &&& i >= 0
                &&& !(ms[i].1 is Null)
                &&& parent_ok(ms[i].1, segs.drop_first())
            }
            JsonView::Arr(es) => match arr_index_of(segs[0]) {
                Some(idx) => {
                    &&& 0 <= idx < es.len()
                    &&& !(es[idx] is Null)
                    &&& parent_ok(es[idx], segs.drop_first())
                },
                None => false,
            },
            _ => false,
        }
    }
}

/// Model of one patch operation.
pub enum OpView {
    Add { path: Seq<Seq<char>>, value: JsonView },
    Remove { path: Seq<Seq<char>> },
    Replace { path: Seq<Seq<char>>, value: JsonView },
    Move { from: Seq<Seq<char>>, path: Seq<Seq<char>> },
    Copy { from: Seq<Seq<char>>, path: Seq<Seq<char>> },
    Test { path: Seq<Seq<char>>, value: JsonView },
}

/// Whether `a` is a proper prefix of `b`: a `move` may not move a value
/// into itself.
pub open spec fn proper_prefix(a: Seq<Seq<char>>, b: Seq<Seq<char>>) -> bool {
    a.len() < b.len() && a == b.subrange(0, a.len() as int)
}

/// The primary path an operation addresses.
pub open spec fn op_view_path(op: OpView) -> Seq<Seq<char>> {
    match op {
        OpView::Add { path, .. } => path,
        OpView::Remove { path } => path,
        OpView::Replace { path, .. } => path,
        OpView::Move { path, .. } => path,
        OpView::Copy { path, .. } => path,
        OpView::Test { path, .. } => path,
    }
}

/// The document one operation yields, when it applies.
pub open spec fn apply_op_spec(doc: JsonView, op: OpView) -> Option<JsonView> {
    match op {
        OpView::Add { path, value } => ptr_add(doc, path, value),
        OpView::Remove { path } => ptr_remove(doc, path),
        OpView::Replace { path, value } => ptr_replace(doc, path, value),
        OpView::Move { from, path } => if proper_prefix(from, path) {
            None
        } else {
            match ptr_get(doc, from) {
                Some(v) => match ptr_remove(doc, from) {
                    Some(d) => ptr_add(d, path, v),
                    None => None,
                },
                None => None,
            }
        },
        OpView::Copy { from, path } => match ptr_get(doc, from) {
            Some(v) => ptr_add(doc, path, v),
            None => None,
        },
        OpView::Test { path, value } => match ptr_get(doc, path) {
            Some(v) => if v == value {
                Some(doc)
            } else {
                None
            },
            None => None,
        },
    }
}

/// One patch operation: a tagged edit addressed by JSON Pointer paths.
#[derive(Debug)]
pub enum PatchOperation {
    Add { path: Pointer, value: JsonValue },
    Remove { path: Pointer },
    Replace { path: Pointer, value: JsonValue },
    Move { from: Pointer, path: Pointer },
    Copy { from: Pointer, path: Pointer },
    Test { path: Pointer, value: JsonValue },
}

impl View for PatchOperation {
    type V = OpView;

    open spec fn view(&self) -> OpView {
        match self {
            PatchOperation::Add { path, value } => OpView::Add { path: path@, value: value@ },
            PatchOperation::Remove { path } => OpView::Remove { path: path@ },
            PatchOperation::Replace { path, value } => OpView::Replace {
                path: path@,
                value: value@,
            },
            PatchOperation::Move { from, path } => OpView::Move { from: from@, path: path@ },
            PatchOperation::Copy { from, path } => OpView::Copy { from: from@, path: path@ },
            PatchOperation::Test { path, value } => OpView::Test { path: path@, value: value@ },
        }
    }
}

impl Clone for PatchOperation {
    fn clone(&self) -> (r: Self)
        ensures
            r@ == self@,
    {
        match self {
            PatchOperation::Add { path, value } => PatchOperation::Add {
                path: path.clone(),
                value: value.clone(),
            },
            PatchOperation::Remove { path } => PatchOperation::Remove { path: path.clone() },
            PatchOperation::Replace { path, value } => PatchOperation::Replace {
                path: path.clone(),
                value: value.clone(),
            },
            PatchOperation::Move { from, path } => PatchOperation::Move {
                from: from.clone(),
                path: path.clone(),
            },
            PatchOperation::Copy { from, path } => PatchOperation::Copy {
                from: from.clone(),
                path: path.clone(),
            },
            PatchOperation::Test { path, value } => PatchOperation::Test {
                path: path.clone(),
                value: value.clone(),
            },
        }
    }
}

/// An ordered list of patch operations.
#[derive(Debug)]
pub struct Patch {
    pub ops: Vec<PatchOperation>,
}

impl View for Patch {
    type V = Seq<OpView>;

    open spec fn view(&self) -> Seq<OpView> {
        Seq::new(self.ops@.len(), |i: int| self.ops@[i]@)
    }
}

impl Clone for Patch {
    fn clone(&self) -> (r: Self)
        ensures
            r@ == self@,
    {
        let mut ops: Vec<PatchOperation> = Vec::new();
        let mut i: usize = 0;
        while i < self.ops.len()
            invariant
                i <= self.ops.len(),
                ops@.len() == i as int,
                forall|j: int| 0 <= j < i as int ==> ops@[j]@ == self.ops@[j]@,
            decreases self.ops.len() - i,
        {
            ops.push(self.ops[i].clone());
            i = i + 1;
        }
        let r = Patch { ops };
        proof {
            assert(r@ =~= self@);
        }
        r
    }
}

/// Fetch a copy of the value a pointer addresses, from segment `si` on.
pub fn get_at(doc: &JsonValue, ptr: &Pointer, si: usize) -> (r: Option<JsonValue>)
    requires
        si <= ptr@.len(),
    ensures
        match r {
            Some(v) => ptr_get(doc@, suffix(ptr@, si as int)) == Some(v@),
            None => ptr_get(doc@, suffix(ptr@, si as int)) is None,
        },
    decreases ptr@.len() - si,
{
    if si == ptr.segments.len() {
        proof {
            assert(suffix(ptr@, si as int) =~= Seq::<Seq<char>>::empty());
        }
        return Some(doc.clone());
    }
    proof {
        assert(suffix(ptr@, si as int).len() > 0);
        assert(suffix(ptr@, si as int)[0] == ptr@[si as int]);
        assert(ptr@[si as int] == ptr.segments@[si as int]@);
        assert(suffix(ptr@, si as int).drop_first() =~= suffix(ptr@, si + 1 as int));
    }
    match doc {
        JsonValue::Obj(members) => {
            proof {
                assert(doc@ == JsonView::Obj(members_view(members@)));
            }
            match find_member(members, &ptr.segments[si]) {
                Some(i) => {
                    proof {
                        lemma_key_index(members_view(members@), ptr@[si as int]);
                        lemma_members_view_index(members@, i as int);
                        assert(ptr_get(doc@, suffix(ptr@, si as int)) == ptr_get(
                            members@[i as int].value@,
                            suffix(ptr@, si + 1 as int),
                        ));
                    }
                    get_at(&members[i].value, ptr, si + 1)
                }
                None => {
                    proof {
                        assert(ptr_get(doc@, suffix(ptr@, si as int)) is None);
                    }
                    None
                }
            }
        }
        JsonValue::Arr(items) => {
            let len = items.len();
            proof {
                assert(doc@ == JsonView::Arr(elems_view(items@)));
                assert(items@.len() <= usize::MAX);
            }
            match parse_index(ptr.segments[si].as_str()) {
                Some(idx) => {
                    if idx < len {
                        proof {
                            assert(ptr_get(doc@, suffix(ptr@, si as int)) == ptr_get(
                                items@[idx as int]@,
                                suffix(ptr@, si + 1 as int),
                            ));
                        }
                        get_at(&items[idx], ptr, si + 1)
                    } else {
                        proof {
                            assert(ptr_get(doc@, suffix(ptr@, si as int)) is None);
                        }
                        None
                    }
                }
                None => {
                    proof {
                        assert(ptr_get(doc@, suffix(ptr@, si as int)) is None);
                    }
                    None
                }
            }
        }
        other => {
            proof {
                lemma_view_variant(*other);
                assert(ptr_get(doc@, suffix(ptr@, si as int)) is None);
            }
            None
        }
    }
}

/// Whether the parent steps of the path are intact in the document: each
/// intermediate segment present, steppable and not null.
pub fn parent_intact(doc: &JsonValue, ptr: &Pointer, si: usize) -> (r: bool)
    requires
        si <= ptr@.len(),
    ensures
        r == parent_ok(doc@, suffix(ptr@, si as int)),
    decreases ptr@.len() - si,
{
    if ptr.segments.len() - si <= 1 {
        proof {
            assert(suffix(ptr@, si as int).len() <= 1);
        }
        return true;
    }
    proof {
        assert(suffix(ptr@, si as int).len() > 1);
        assert(suffix(ptr@, si as int)[0] == ptr@[si as int]);
        assert(ptr@[si as int] == ptr.segments@[si as int]@);
        assert(suffix(ptr@, si as int).drop_first() =~= suffix(ptr@, si + 1 as int));
    }
    match doc {
        JsonValue::Obj(members) => {
            proof {
                assert(doc@ == JsonView::Obj(members_view(members@)));
            }
            match find_member(members, &ptr.segments[si]) {
                Some(i) => {
                    proof {
                        lemma_key_index(members_view(members@), ptr@[si as int]);
                        lemma_members_view_index(members@, i as int);
                    }
                    match &members[i].value {
                        JsonValue::Null => false,
                        child => {
                            proof {
                                lemma_view_variant(*child);
                            }
                            parent_intact(child, ptr, si + 1)
                        }
                    }
                }
                None => false,
            }
        }
        JsonValue::Arr(items) => {
            let len = items.len();
            proof {
                assert(doc@ == JsonView::Arr(elems_view(items@)));
                assert(items@.len() <= usize::MAX);
            }
            match parse_index(ptr.segments[si].as_str()) {
                Some(idx) => {
                    if idx < len {
                        match &items[idx] {
                            JsonValue::Null => false,
                            child => {
                                proof {
                                    lemma_view_variant(*child);
                                }
                                parent_intact(child, ptr, si + 1)
                            }
                        }
                    } else {
                        false
                    }
                }
                None => false,
            }
        }
        other => {
            proof {
                lemma_view_variant(*other);
            }
            false
        }
    }
}

/// `remove` then `insert` at one position is an update.
proof fn lemma_remove_insert<T>(s: Seq<T>, i: int, x: T)
    requires
        0 <= i < s.len(),
    ensures
        s.remove(i).insert(i, x) == s.update(i, x),
{
    assert(s.remove(i).insert(i, x) =~= s.update(i, x));
}

/// Whether a path segment is the append marker `-`.
fn seg_is_dash(seg: &String) -> (r: bool)
    ensures
        r == (seg@ == seq!['-']),
{
    let n = seg.as_str().unicode_len();
    if n != 1 {
        proof {
            assert(seg@ != seq!['-']);
        }
        return false;
    }
    let c = seg.as_str().get_char(0);
    if c == '-' {
        proof {
            assert(seg@ =~= seq!['-']);
        }
        true
    } else {
        proof {
            assert(seg@[0] != seq!['-'][0]);
        }
        false
    }
}

/// Apply an `add` of `x` at the path, from segment `si` on.
pub fn add_at(doc: JsonValue, ptr: &Pointer, si: usize, x: JsonValue) -> (r: Result<
    JsonValue,
    String,
>)
    requires
        si <= ptr@.len(),
    ensures
        r matches Ok(d) ==> ptr_add(doc@, suffix(ptr@, si as int), x@) == Some(d@),
        r is Err ==> ptr_add(doc@, suffix(ptr@, si as int), x@) is None,
    decreases ptr@.len() - si,
{
    if si == ptr.segments.len() {
        proof {
            assert(suffix(ptr@, si as int) =~= Seq::<Seq<char>>::empty());
        }
        return Ok(x);
    }
    let ghost segs = suffix(ptr@, si as int);
    proof {
        assert(segs.len() > 0);
        assert(segs[0] == ptr@[si as int]);
        assert(ptr@[si as int] == ptr.segments@[si as int]@);
        assert(segs.drop_first() =~= suffix(ptr@, si + 1 as int));
    }
    let is_last = si + 1 == ptr.segments.len();
    proof {
        assert(is_last == (segs.len() == 1));
    }
    match doc {
        JsonValue::Obj(mut members) => {
            let ghost ms0 = members@;
            proof {
                assert(doc@ == JsonView::Obj(members_view(ms0)));
            }
            match find_member(&members, &ptr.segments[si]) {
                Some(i) => {
                    proof {
                        lemma_key_index(members_view(ms0), segs[0]);
                        lemma_members_view_index(ms0, i as int);
                    }
                    if is_last {
                        let key = ptr.segments[si].clone();
                        let mw = JsonMember { key, value: x };
                        proof {
                            lemma_members_view_update(ms0, i as int, mw);
                        }
                        members[i] = mw;
                        let out = JsonValue::Obj(members);
                        proof {
                            assert(members@ == ms0.update(i as int, mw));
                            assert(obj_put(members_view(ms0), segs[0], x@) == members_view(
                                ms0,
                            ).update(i as int, (segs[0], x@)));
                            assert(out@ == JsonView::Obj(
                                obj_put(members_view(ms0), segs[0], x@),
                            ));
                        }
                        Ok(out)
                    } else {
                        let m = members.remove(i);
                        match add_at(m.value, ptr, si + 1, x) {
                            Ok(w) => {
                                let mw = JsonMember { key: m.key, value: w };
                                proof {
                                    lemma_remove_insert(ms0, i as int, mw);
                                    lemma_members_view_update(ms0, i as int, mw);
                                }
                                members.insert(i, mw);
                                let out = JsonValue::Obj(members);
                                proof {
                                    assert(members@ == ms0.update(i as int, mw));
                                    assert(mw.key@ == segs[0]);
                                    assert(out@ == JsonView::Obj(members_view(ms0).update(
                                        i as int,
                                        (segs[0], mw.value@),
                                    )));
                                    assert(ptr_add(doc@, segs, x@) == Some(out@));
                                }
                                Ok(out)
                            }
                            Err(e) => Err(e),
                        }
                    }
                }
                None => {
                    if is_last {
                        let key = ptr.segments[si].clone();
                        let mw = JsonMember { key, value: x };
                        proof {
                            lemma_members_view_push(ms0, mw);
                        }
                        members.push(mw);
                        let out = JsonValue::Obj(members);
                        proof {
                            assert(members@ == ms0.push(mw));
                            assert(obj_put(members_view(ms0), segs[0], x@) == members_view(
                                ms0,
                            ).push((segs[0], x@)));
                            assert(out@ == JsonView::Obj(
                                obj_put(members_view(ms0), segs[0], x@),
                            ));
                        }
                        Ok(out)
                    } else {
                        Err(String::from_str("add: missing object member on the path"))
                    }
                }
            }
        }
        JsonValue::Arr(mut items) => {
            let ghost es0 = items@;
            let len = items.len();
            proof {
                assert(doc@ == JsonView::Arr(elems_view(es0)));
                assert(es0.len() <= usize::MAX);
            }
            let seg = &ptr.segments[si];
            if is_last {
                if seg_is_dash(seg) {
                    proof {
                        lemma_elems_view_push(es0, x);
                    }
                    items.push(x);
                    let out = JsonValue::Arr(items);
                    proof {
                        assert(items@ == es0.push(x));
                        assert(out@ == JsonView::Arr(elems_view(es0).push(x@)));
                    }
                    Ok(out)
                } else {
                    proof {
                        assert(segs[0] != seq!['-']);
                    }
                    match parse_index(seg.as_str()) {
                        Some(idx) => {
                            if idx <= len {
                                proof {
                                    lemma_elems_view_insert(es0, idx as int, x);
                                }
                                items.insert(idx, x);
                                let out = JsonValue::Arr(items);
                                proof {
                                    assert(items@ == es0.insert(idx as int, x));
                                    assert(out@ == JsonView::Arr(elems_view(es0).insert(
                                        idx as int,
                                        x@,
                                    )));
                                }
                                Ok(out)
                            } else {
                                Err(String::from_str("add: array index out of bounds"))
                            }
                        }
                        None => Err(String::from_str("add: segment is not an array index")),
                    }
                }
            } else {
                match parse_index(seg.as_str()) {
                    Some(idx) => {
                        if idx < len {
                            let e = items.remove(idx);
                            match add_at(e, ptr, si + 1, x) {
                                Ok(w) => {
                                    proof {
                                        lemma_remove_insert(es0, idx as int, w);
                                        lemma_elems_view_update(es0, idx as int, w);
                                    }
                                    items.insert(idx, w);
                                    let out = JsonValue::Arr(items);
                                    proof {
                                        assert(items@ == es0.update(idx as int, w));
                                        assert(out@ == JsonView::Arr(elems_view(es0).update(
                                            idx as int,
                                            w@,
                                        )));
                                        assert(ptr_add(doc@, segs, x@) == Some(out@));
                                    }
                                    Ok(out)
                                }
                                Err(e2) => Err(e2),
                            }
                        } else {
                            Err(String::from_str("add: array index out of bounds"))
                        }
                    }
                    None => Err(String::from_str("add: segment is not an array index")),
                }
            }
        }
        other => {
            proof {
                lemma_view_variant(other);
            }
            Err(String::from_str("add: path walks through a scalar"))
        }
    }
}

/// Apply a `remove` at the path, from segment `si` on.
pub fn remove_at(doc: JsonValue, ptr: &Pointer, si: usize) -> (r: Result<JsonValue, String>)
    requires
        si <= ptr@.len(),
    ensures
        r matches Ok(d) ==> ptr_remove(doc@, suffix(ptr@, si as int)) == Some(d@),
        r is Err ==> ptr_remove(doc@, suffix(ptr@, si as int)) is None,
    decreases ptr@.len() - si,
{
    if si == ptr.segments.len() {
        proof {
            assert(suffix(ptr@, si as int) =~= Seq::<Seq<char>>::empty());
        }
        return Err(String::from_str("remove: the whole document cannot be removed"));
    }
    let ghost segs = suffix(ptr@, si as int);
    proof {
        assert(segs.len() > 0);
        assert(segs[0] == ptr@[si as int]);
        assert(ptr@[si as int] == ptr.segments@[si as int]@);
        assert(segs.drop_first() =~= suffix(ptr@, si + 1 as int));
    }
    let is_last = si + 1 == ptr.segments.len();
    proof {
        assert(is_last == (segs.len() == 1));
    }
    match doc {
        JsonValue::Obj(mut members) => {
            let ghost ms0 = members@;
            proof {
                assert(doc@ == JsonView::Obj(members_view(ms0)));
            }
            match find_member(&members, &ptr.segments[si]) {
                Some(i) => {
                    proof {
                        lemma_key_index(members_view(ms0), segs[0]);
                        lemma_members_view_index(ms0, i as int);
                    }
                    if is_last {
                        proof {
                            lemma_members_view_remove(ms0, i as int);
                        }
                        members.remove(i);
                        let out = JsonValue::Obj(members);
                        proof {
                            assert(members@ == ms0.remove(i as int));
                            assert(out@ == JsonView::Obj(members_view(ms0).remove(i as int)));
                        }
                        Ok(out)
                    } else {
                        let m = members.remove(i);
                        match remove_at(m.value, ptr, si + 1) {
                            Ok(w) => {
                                let mw = JsonMember { key: m.key, value: w };
                                proof {
                                    lemma_remove_insert(ms0, i as int, mw);
                                    lemma_members_view_update(ms0, i as int, mw);
                                }
                                members.insert(i, mw);
                                let out = JsonValue::Obj(members);
                                proof {
                                    assert(members@ == ms0.update(i as int, mw));
                                    assert(mw.key@ == segs[0]);
                                    assert(ptr_remove(doc@, segs) == Some(out@));
                                }
                                Ok(out)
                            }
                            Err(e) => Err(e),
                        }
                    }
                }
                None => Err(String::from_str("remove: missing object member on the path")),
            }
        }
        JsonValue::Arr(mut items) => {
            let ghost es0 = items@;
            let len = items.len();
            proof {
                assert(doc@ == JsonView::Arr(elems_view(es0)));
                assert(es0.len() <= usize::MAX);
            }
            match parse_index(ptr.segments[si].as_str()) {
                Some(idx) => {
                    if idx < len {
                        if is_last {
                            proof {
                                lemma_elems_view_remove(es0, idx as int);
                            }
                            items.remove(idx);
                            let out = JsonValue::Arr(items);
                            proof {
                                assert(items@ == es0.remove(idx as int));
                                assert(out@ == JsonView::Arr(elems_view(es0).remove(idx as int)));
                            }
                            Ok(out)
                        } else {
                            let e = items.remove(idx);
                            match remove_at(e, ptr, si + 1) {
                                Ok(w) => {
                                    proof {
                                        lemma_remove_insert(es0, idx as int, w);
                                        lemma_elems_view_update(es0, idx as int, w);
                                    }
                                    items.insert(idx, w);
                                    let out = JsonValue::Arr(items);
                                    proof {
                                        assert(items@ == es0.update(idx as int, w));
                                        assert(ptr_remove(doc@, segs) == Some(out@));
                                    }
                                    Ok(out)
                                }
                                Err(e2) => Err(e2),
                            }
                        }
                    } else {
                        Err(String::from_str("remove: array index out of bounds"))
                    }
                }
                None => Err(String::from_str("remove: segment is not an array index")),
            }
        }
        other => {
            proof {
                lemma_view_variant(other);
            }
            Err(String::from_str("remove: path walks through a scalar"))
        }
    }
}

/// Apply a `replace` of `x` at the path, from segment `si` on.
pub fn replace_at(doc: JsonValue, ptr: &Pointer, si: usize, x: JsonValue) -> (r: Result<
    JsonValue,
    String,
>)
    requires
        si <= ptr@.len(),
    ensures
        r matches Ok(d) ==> ptr_replace(doc@, suffix(ptr@, si as int), x@) == Some(d@),
        r is Err ==> ptr_replace(doc@, suffix(ptr@, si as int), x@) is None,
    decreases ptr@.len() - si,
{
    if si == ptr.segments.len() {
        proof {
            assert(suffix(ptr@, si as int) =~= Seq::<Seq<char>>::empty());
        }
        return Ok(x);
    }
    let ghost segs = suffix(ptr@, si as int);
    proof {
        assert(segs.len() > 0);
        assert(segs[0] == ptr@[si as int]);
        assert(ptr@[si as int] == ptr.segments@[si as int]@);
        assert(segs.drop_first() =~= suffix(ptr@, si + 1 as int));
    }
    let is_last = si + 1 == ptr.segments.len();
    proof {
        assert(is_last == (segs.len() == 1));
    }
    match doc {
        JsonValue::Obj(mut members) => {
            let ghost ms0 = members@;
            proof {
                assert(doc@ == JsonView::Obj(members_view(ms0)));
            }
            match find_member(&members, &ptr.segments[si]) {
                Some(i) => {
                    proof {
                        lemma_key_index(members_view(ms0), segs[0]);
                        lemma_members_view_index(ms0, i as int);
                    }
                    let m = members.remove(i);
                    let inner = if is_last {
                        Ok(x)
                    } else {
                        replace_at(m.value, ptr, si + 1, x)
                    };
                    match inner {
                        Ok(w) => {
                            let mw = JsonMember { key: m.key, value: w };
                            proof {
                                lemma_remove_insert(ms0, i as int, mw);
                                lemma_members_view_update(ms0, i as int, mw);
                            }
                            members.insert(i, mw);
                            let out = JsonValue::Obj(members);
                            proof {
                                assert(members@ == ms0.update(i as int, mw));
                                assert(mw.key@ == segs[0]);
                                assert(ptr_replace(doc@, segs, x@) == Some(out@));
                            }
                            Ok(out)
                        }
                        Err(e) => Err(e),
                    }
                }
                None => Err(String::from_str("replace: missing object member on the path")),
            }
        }
        JsonValue::Arr(mut items) => {
            let ghost es0 = items@;
            let len = items.len();
            proof {
                assert(doc@ == JsonView::Arr(elems_view(es0)));
                assert(es0.len() <= usize::MAX);
            }
            match parse_index(ptr.segments[si].as_str()) {
                Some(idx) => {
                    if idx < len {
                        let e = items.remove(idx);
                        let inner = if is_last {
                            Ok(x)
                        } else {
                            replace_at(e, ptr, si + 1, x)
                        };
                        match inner {
                            Ok(w) => {
                                proof {
                                    lemma_remove_insert(es0, idx as int, w);
                                    lemma_elems_view_update(es0, idx as int, w);
                                }
                                items.insert(idx, w);
                                let out = JsonValue::Arr(items);
                                proof {
                                    assert(items@ == es0.update(idx as int, w));
                                    assert(ptr_replace(doc@, segs, x@) == Some(out@));
                                }
                                Ok(out)
                            }
                            Err(e2) => Err(e2),
                        }
                    } else {
                        Err(String::from_str("replace: array index out of bounds"))
                    }
                }
                None => Err(String::from_str("replace: segment is not an array index")),
            }
        }
        other => {
            proof {
                lemma_view_variant(other);
            }
            Err(String::from_str("replace: path walks through a scalar"))
        }
    }
}

/// Whether `a`'s segments are a proper prefix of `b`'s.
#[verifier::loop_isolation(false)]
pub fn is_proper_prefix(a: &Pointer, b: &Pointer) -> (r: bool)
    ensures
        r == proper_prefix(a@, b@),
{
    if a.segments.len() >= b.segments.len() {
        return false;
    }
    let mut i: usize = 0;
    while i < a.segments.len()
        invariant
            i <= a.segments.len(),
            forall|j: int| 0 <= j < i as int ==> a@[j] == b@[j],
        decreases a.segments.len() - i,
    {
        if a.segments[i] != b.segments[i] {
            proof {
                assert(a@[i as int] != b@[i as int]);
                assert(b@.subrange(0, a@.len() as int)[i as int] == b@[i as int]);
            }
            return false;
        }
        i = i + 1;
    }
    proof {
        assert(a@ =~= b@.subrange(0, a@.len() as int));
    }
    true
}

/// Apply one operation to the document, returning the changed document.
///
/// The error names the failed step; an error comes back exactly when the
/// operation does not apply to this document.
pub fn apply_operation(doc: &JsonValue, op: &PatchOperation) -> (r: Result<JsonValue, String>)
    ensures
        r matches Ok(d) ==> apply_op_spec(doc@, op@) == Some(d@),
        (r is Err) == (apply_op_spec(doc@, op@) is None),
{
    match op {
        PatchOperation::Add { path, value } => {
            proof {
                assert(suffix(path@, 0) =~= path@);
            }
            add_at(doc.clone(), path, 0, value.clone())
        }
        PatchOperation::Remove { path } => {
            proof {
                assert(suffix(path@, 0) =~= path@);
            }
            remove_at(doc.clone(), path, 0)
        }
        PatchOperation::Replace { path, value } => {
            proof {
                assert(suffix(path@, 0) =~= path@);
            }
            replace_at(doc.clone(), path, 0, value.clone())
        }
        PatchOperation::Move { from, path } => {
            proof {
                assert(suffix(from@, 0) =~= from@);
                assert(suffix(path@, 0) =~= path@);
            }
            if is_proper_prefix(from, path) {
                return Err(String::from_str("move: source contains the target"));
            }
            match get_at(doc, from, 0) {
                Some(v) => match remove_at(doc.clone(), from, 0) {
                    Ok(d) => add_at(d, path, 0, v),
                    Err(e) => Err(e),
                },
                None => Err(String::from_str("move: missing source")),
            }
        }
        PatchOperation::Copy { from, path } => {
            proof {
                assert(suffix(from@, 0) =~= from@);
                assert(suffix(path@, 0) =~= path@);
            }
            match get_at(doc, from, 0) {
                Some(v) => add_at(doc.clone(), path, 0, v),
                None => Err(String::from_str("copy: missing source")),
            }
        }
        PatchOperation::Test { path, value } => {
            proof {
                assert(suffix(path@, 0) =~= path@);
            }
            match get_at(doc, path, 0) {
                Some(v) => {
                    if json_eq(&v, value) {
                        Ok(doc.clone())
                    } else {
                        Err(String::from_str("test: value differs"))
                    }
                }
                None => Err(String::from_str("test: missing target")),
            }
        }
    }
}

/// Text of the primary path an operation addresses.
pub fn op_path(op: &PatchOperation) -> (r: String)
    ensures
        r@ == encode_pointer(op_view_path(op@)),
{
    match op {
        PatchOperation::Add { path, .. } => path.to_text(),
        PatchOperation::Remove { path } => path.to_text(),
        PatchOperation::Replace { path, .. } => path.to_text(),
        PatchOperation::Move { path, .. } => path.to_text(),
        PatchOperation::Copy { path, .. } => path.to_text(),
        PatchOperation::Test { path, .. } => path.to_text(),
    }
}

/// The array index named by the last path segment, when there is one.
pub open spec fn op_trailing_index(op: OpView) -> Option<int> {
    let p = op_view_path(op);
    if p.len() == 0 {
        None
    } else {
        arr_index_of(p.last())
    }
}

/// Extract the array index from an operation's trailing path segment.
pub fn extract_array_index(op: &PatchOperation) -> (r: Option<usize>)
    ensures
        r matches Some(n) ==> op_trailing_index(op@) == Some(n as int),
        r is None ==> op_trailing_index(op@) is None || op_trailing_index(op@)->Some_0
            > usize::MAX,
{
    let path = match op {
        PatchOperation::Add { path, .. } => path,
        PatchOperation::Remove { path } => path,
        PatchOperation::Replace { path, .. } => path,
        PatchOperation::Move { path, .. } => path,
        PatchOperation::Copy { path, .. } => path,
        PatchOperation::Test { path, .. } => path,
    };
    let n = path.segments.len();
    if n == 0 {
        return None;
    }
    let r = parse_index(path.segments[n - 1].as_str());
    proof {
        assert(op_view_path(op@).last() == path@[n - 1]);
    }
    r
}

/// The operations from position `i` on.
pub open spec fn ops_suffix(ops: Seq<OpView>, i: int) -> Seq<OpView> {
    ops.subrange(i, ops.len() as int)
}

/// The document an operation list yields when every operation applies in
/// turn, each to the previous result.
pub open spec fn apply_ops_spec(doc: JsonView, ops: Seq<OpView>) -> Option<JsonView>
    decreases ops.len(),
{
    if ops.len() == 0 {
        Some(doc)
    } else {
        match apply_op_spec(doc, ops[0]) {
            Some(d) => apply_ops_spec(d, ops.drop_first()),
            None => None,
        }
    }
}

/// Whether one operation of a partial application goes through: its parent
/// path intact and the operation itself applicable.
pub open spec fn partial_ok(doc: JsonView, op: OpView) -> bool {
    parent_ok(doc, op_view_path(op)) && apply_op_spec(doc, op) is Some
}

/// The document after one step of a partial application: changed when the
/// operation goes through, kept as it was when it does not.
pub open spec fn partial_next(doc: JsonView, op: OpView) -> JsonView {
    if partial_ok(doc, op) {
        apply_op_spec(doc, op)->Some_0
    } else {
        doc
    }
}

/// The document a partial application yields: every operation that goes
/// through leaves its effect, every other is skipped.
pub open spec fn partial_result(doc: JsonView, ops: Seq<OpView>) -> JsonView
    decreases ops.len(),
{
    if ops.len() == 0 {
        doc
    } else {
        partial_result(partial_next(doc, ops[0]), ops.drop_first())
    }
}

/// How many operations a partial application skips.
pub open spec fn partial_fail_count(doc: JsonView, ops: Seq<OpView>) -> int
    decreases ops.len(),
{
    if ops.len() == 0 {
        0
    } else {
        (if partial_ok(doc, ops[0]) {
            0int
        } else {
            1int
        }) + partial_fail_count(partial_next(doc, ops[0]), ops.drop_first())
    }
}

/// How a patch is applied to the working document.
#[derive(Clone, Copy, Debug, Default, PartialEq, Eq)]
pub enum PatchStrategy {
    /// Apply operations one at a time; keep the successful changes even if
    /// some operations fail.
    #[default]
    PartialApply,
    /// Apply the whole patch as one transaction; any failure leaves the
    /// document untouched.
    Atomic,
}

/// Apply a patch as a single transaction.
///
/// When every operation applies, the result carries all their effects and
/// no error; when any fails, the original document comes back unchanged
/// beside one error.
#[verifier::loop_isolation(false)]
pub fn apply_patch_atomic(doc: &JsonValue, patch: &Patch) -> (r: (JsonValue, Vec<String>))
    ensures
        apply_ops_spec(doc@, patch@) matches Some(d) ==> r.0@ == d && r.1@.len() == 0,
        apply_ops_spec(doc@, patch@) is None ==> r.0@ == doc@ && r.1@.len() == 1,
{
    let mut working = doc.clone();
    let mut i: usize = 0;
    proof {
        assert(ops_suffix(patch@, 0) =~= patch@);
    }
    while i < patch.ops.len()
        invariant
            i <= patch.ops.len(),
            apply_ops_spec(doc@, patch@) == apply_ops_spec(working@, ops_suffix(patch@, i as int)),
        decreases patch.ops.len() - i,
    {
        proof {
            assert(ops_suffix(patch@, i as int)[0] == patch@[i as int]);
            assert(ops_suffix(patch@, i as int).drop_first() =~= ops_suffix(
                patch@,
                i + 1 as int,
            ));
        }
        match apply_operation(&working, &patch.ops[i]) {
            Ok(d) => {
                working = d;
            }
            Err(e) => {
                let mut msg = String::from_str("atomic failure: ");
                msg.append(e.as_str());
                let mut errors: Vec<String> = Vec::new();
                errors.push(msg);
                return (doc.clone(), errors);
            }
        }
        i = i + 1;
    }
    proof {
        assert(ops_suffix(patch@, patch.ops@.len() as int) =~= Seq::<OpView>::empty());
    }
    (working, Vec::new())
}

/// Apply a patch one operation at a time.
///
/// An operation whose parent path is null or missing, or which does not
/// apply, is skipped with a recorded error; every other operation leaves
/// its effect on the running document.
#[verifier::loop_isolation(false)]
pub fn apply_patch_partial(doc: &JsonValue, patch: &Patch) -> (r: (JsonValue, Vec<String>))
    ensures
        r.0@ == partial_result(doc@, patch@),
        r.1@.len() == partial_fail_count(doc@, patch@),
{
    let mut working = doc.clone();
    let mut errors: Vec<String> = Vec::new();
    let mut i: usize = 0;
    proof {
        assert(ops_suffix(patch@, 0) =~= patch@);
    }
    while i < patch.ops.len()
        invariant
            i <= patch.ops.len(),
            partial_result(doc@, patch@) == partial_result(
                working@,
                ops_suffix(patch@, i as int),
            ),
            partial_fail_count(doc@, patch@) == errors@.len() + partial_fail_count(
                working@,
                ops_suffix(patch@, i as int),
            ),
        decreases patch.ops.len() - i,
    {
        proof {
            assert(ops_suffix(patch@, i as int)[0] == patch@[i as int]);
            assert(ops_suffix(patch@, i as int).drop_first() =~= ops_suffix(
                patch@,
                i + 1 as int,
            ));
        }
        let op = &patch.ops[i];
        let path = match op {
            PatchOperation::Add { path, .. } => path,
            PatchOperation::Remove { path } => path,
            PatchOperation::Replace { path, .. } => path,
            PatchOperation::Move { path, .. } => path,
            PatchOperation::Copy { path, .. } => path,
            PatchOperation::Test { path, .. } => path,
        };
        proof {
            assert(suffix(path@, 0) =~= path@);
            assert(path@ == op_view_path(op@));
        }
        if !parent_intact(&working, path, 0) {
            let mut msg = String::from_str("op skipped (path: ");
            msg.append(op_path(op).as_str());
            msg.append("): parent path is null or missing");
            errors.push(msg);
        } else {
            match apply_operation(&working, op) {
                Ok(d) => {
                    working = d;
                }
                Err(e) => {
                    let mut msg = String::from_str("op failed (path: ");
                    msg.append(op_path(op).as_str());
                    msg.append("): ");
                    msg.append(e.as_str());
                    errors.push(msg);
                }
            }
        }
        i = i + 1;
    }
    proof {
        assert(ops_suffix(patch@, patch.ops@.len() as int) =~= Seq::<OpView>::empty());
    }
    (working, errors)
}

/// Apply a patch under the chosen strategy, returning the resulting
/// document beside the recorded errors.
pub fn apply(doc: &JsonValue, patch: &Patch, strategy: &PatchStrategy) -> (r: (
    JsonValue,
    Vec<String>,
))
    ensures
        strategy is Atomic ==> {
            &&& apply_ops_spec(doc@, patch@) matches Some(d) ==> r.0@ == d && r.1@.len() == 0
            &&& apply_ops_spec(doc@, patch@) is None ==> r.0@ == doc@ && r.1@.len() == 1
        },
        strategy is PartialApply ==> {
            &&& r.0@ == partial_result(doc@, patch@)
            &&& r.1@.len() == partial_fail_count(doc@, patch@)
        },
{
    match strategy {
        PatchStrategy::Atomic => apply_patch_atomic(doc, patch),
        PatchStrategy::PartialApply => apply_patch_partial(doc, patch),
    }
}

/// The view of each operation in a list.
pub open spec fn opseq_view(s: Seq<PatchOperation>) -> Seq<OpView> {
    Seq::new(s.len(), |i: int| s[i]@)
}

/// The operations that are not removals, in their order.
pub open spec fn non_removals(ops: Seq<OpView>) -> Seq<OpView> {
    ops.filter(|op: OpView| !(op is Remove))
}

/// The removal operations, in their order.
pub open spec fn removals(ops: Seq<OpView>) -> Seq<OpView> {
    ops.filter(|op: OpView| op is Remove)
}

/// The key removals are ordered by: the trailing array index, with `-1`
/// for a path that does not end in a machine-sized index.
pub open spec fn sort_key(op: OpView) -> int {
    match op_trailing_index(op) {
        Some(v) => if v <= usize::MAX {
            v
        } else {
            -1
        },
        None => -1,
    }
}

/// Whether the keys run highest first.
pub open spec fn sorted_desc(s: Seq<OpView>) -> bool {
    forall|i: int, j: int| 0 <= i <= j < s.len() ==> sort_key(#[trigger] s[i]) >= sort_key(
        #[trigger] s[j],
    )
}

/// Whether `a` sorts at or before `b` in descending key order.
fn key_ge(a: &PatchOperation, b: &PatchOperation) -> (r: bool)
    ensures
        r == (sort_key(a@) >= sort_key(b@)),
{
    match (extract_array_index(a), extract_array_index(b)) {
        (Some(x), Some(y)) => x >= y,
        (Some(_), None) => true,
        (None, None) => true,
        (None, Some(_)) => false,
    }
}

/// Inserting an element anywhere adds exactly it to the multiset.
proof fn lemma_insert_to_multiset<T>(s: Seq<T>, pos: int, x: T)
    requires
        0 <= pos <= s.len(),
    ensures
        s.insert(pos, x).to_multiset() == s.to_multiset().insert(x),
{
    broadcast use vstd::seq_lib::group_to_multiset_ensures;

    let t = s.insert(pos, x);
    assert(t.remove(pos) =~= s);
    assert(t.remove(pos).to_multiset() =~= t.to_multiset().remove(t[pos]));
    assert(t.to_multiset().count(x) > 0) by {
        assert(t[pos] == x);
        assert(t.contains(x));
    }
    assert(t.to_multiset().remove(x).insert(x) =~= t.to_multiset());
}

/// Reorder a patch so that removals come last, highest trailing index
/// first: removing several elements of one array then works against the
/// original, unshifted positions.
///
/// The other operations keep their order and stay in front; the removals
/// are the same multiset, sorted by descending trailing index.
#[verifier::loop_isolation(false)]
pub fn reorder_removals(patch: Patch) -> (r: Patch)
    ensures
        r@.len() == patch@.len(),
        r@.subrange(0, non_removals(patch@).len() as int) == non_removals(patch@),
        r@.subrange(non_removals(patch@).len() as int, r@.len() as int).to_multiset() == removals(
            patch@,
        ).to_multiset(),
        sorted_desc(r@.subrange(non_removals(patch@).len() as int, r@.len() as int)),
{
    broadcast use vstd::seq_lib::group_to_multiset_ensures;

    let mut others: Vec<PatchOperation> = Vec::new();
    let mut rems: Vec<PatchOperation> = Vec::new();
    let n = patch.ops.len();
    let mut i: usize = 0;
    proof {
        assert(patch@.subrange(0, 0) =~= Seq::<OpView>::empty());
        reveal_with_fuel(Seq::filter, 1);
        assert(non_removals(patch@.subrange(0, 0)) =~= Seq::<OpView>::empty());
        assert(removals(patch@.subrange(0, 0)) =~= Seq::<OpView>::empty());
    }
    while i < n
        invariant
            i <= n,
            opseq_view(others@) == non_removals(patch@.subrange(0, i as int)),
            opseq_view(rems@) == removals(patch@.subrange(0, i as int)),
        decreases n - i,
    {
        let ghost prefix = patch@.subrange(0, i as int);
        let ghost prefix1 = patch@.subrange(0, i + 1 as int);
        proof {
            assert(prefix1.drop_last() =~= prefix);
            assert(prefix1.last() == patch@[i as int]);
        }
        let op = patch.ops[i].clone();
        match &op {
            PatchOperation::Remove { .. } => {
                rems.push(op);
                proof {
                    assert(opseq_view(rems@) =~= removals(prefix1));
                    assert(opseq_view(others@) =~= non_removals(prefix1));
                }
            }
            _ => {
                others.push(op);
                proof {
                    assert(opseq_view(others@) =~= non_removals(prefix1));
                    assert(opseq_view(rems@) =~= removals(prefix1));
                }
            }
        }
        i = i + 1;
    }
    proof {
        assert(patch@.subrange(0, n as int) =~= patch@);
    }
    let mut sorted: Vec<PatchOperation> = Vec::new();
    let mut k: usize = 0;
    proof {
        assert(opseq_view(rems@).subrange(0, 0) =~= Seq::<OpView>::empty());
        assert(opseq_view(sorted@) =~= Seq::<OpView>::empty());
        assert(Seq::<OpView>::empty().to_multiset() =~= opseq_view(rems@).subrange(
            0,
            0,
        ).to_multiset());
    }
    while k < rems.len()
        invariant
            k <= rems.len(),
            sorted_desc(opseq_view(sorted@)),
            opseq_view(sorted@).to_multiset() == opseq_view(rems@).subrange(
                0,
                k as int,
            ).to_multiset(),
        decreases rems.len() - k,
    {
        let x = rems[k].clone();
        let mut pos: usize = 0;
        while pos < sorted.len()
            invariant
                pos <= sorted.len(),
                forall|j: int| 0 <= j < pos as int ==> sort_key(opseq_view(sorted@)[j])
                    >= sort_key(x@),
            decreases sorted.len() - pos,
        {
            if !key_ge(&sorted[pos], &x) {
                break;
            }
            pos = pos + 1;
        }
        let ghost sv0 = opseq_view(sorted@);
        proof {
            lemma_insert_to_multiset(sv0, pos as int, x@);
        }
        sorted.insert(pos, x);
        proof {
            let sv1 = opseq_view(sorted@);
            assert(sv1 =~= sv0.insert(pos as int, x@));
            assert forall|a: int, b: int| 0 <= a <= b < sv1.len() implies sort_key(sv1[a])
                >= sort_key(sv1[b]) by {
                if a < pos as int {
                    assert(sv1[a] == sv0[a]);
                }
                if b < pos as int {
                    assert(sv1[b] == sv0[b]);
                }
                if a > pos as int {
                    assert(sv1[a] == sv0[a - 1]);
                }
                if b > pos as int {
                    assert(sv1[b] == sv0[b - 1]);
                }
                if b == pos as int {
                    assert(sv1[b] == x@);
                }
                if a == pos as int {
                    assert(sv1[a] == x@);
                    if b > a && (pos as int) < sv0.len() {
                        assert(sort_key(sv0[pos as int]) < sort_key(x@));
                    }
                }
            }
            let ghost rk = opseq_view(rems@).subrange(0, k as int);
            let ghost rk1 = opseq_view(rems@).subrange(0, k + 1 as int);
            assert(rk1.drop_last() =~= rk);
            assert(rk1 =~= rk.push(x@));
        }
        k = k + 1;
    }
    proof {
        assert(opseq_view(rems@).subrange(0, rems@.len() as int) =~= opseq_view(rems@));
    }
    let mut out = others;
    let ghost nonrem = non_removals(patch@);
    let ghost sortedv = opseq_view(sorted@);
    let mut t: usize = 0;
    proof {
        assert(opseq_view(out@) + sortedv.subrange(0, 0) =~= opseq_view(out@));
    }
    while t < sorted.len()
        invariant
            t <= sorted.len(),
            out@.len() == nonrem.len() + t as int,
            opseq_view(out@) == nonrem + sortedv.subrange(0, t as int),
        decreases sorted.len() - t,
    {
        let ghost out0 = out@;
        out.push(sorted[t].clone());
        proof {
            let ov1 = opseq_view(out@);
            let target = nonrem + sortedv.subrange(0, t + 1 as int);
            assert(out@ == out0.push(out@[out0.len() as int]));
            assert forall|j: int| 0 <= j < ov1.len() implies ov1[j] == target[j] by {
                if j < out0.len() {
                    assert(ov1[j] == opseq_view(out0)[j]);
                } else {
                    assert(ov1[j] == out@[j]@);
                    assert(target[j] == sortedv[t as int]);
                }
            }
            assert(ov1 =~= target);
        }
        t = t + 1;
    }
    let r = Patch { ops: out };
    proof {
        assert(sortedv.subrange(0, sorted@.len() as int) =~= sortedv);
        assert(r@ == opseq_view(r.ops@));
        assert(r@ =~= nonrem + sortedv);
        assert(r@.subrange(0, nonrem.len() as int) =~= nonrem);
        assert(r@.subrange(nonrem.len() as int, r@.len() as int) =~= sortedv);
        assert(sortedv.to_multiset().len() == sortedv.len());
        assert(opseq_view(rems@).to_multiset().len() == opseq_view(rems@).len());
        assert(sortedv.len() == removals(patch@).len());
        lemma_filter_partition(patch@);
    }
    r
}

/// Every operation is a removal or not: the two filtered lists cover the
/// patch.
proof fn lemma_filter_partition(ops: Seq<OpView>)
    ensures
        non_removals(ops).len() + removals(ops).len() == ops.len(),
    decreases ops.len(),
{
    reveal_with_fuel(Seq::filter, 2);
    if ops.len() > 0 {
        lemma_filter_partition(ops.drop_last());
    }
}

/// The elements left after removing at each listed index in turn, every
/// index read against the array as it then stands.
pub open spec fn remove_in_turn(es: Seq<JsonView>, idxs: Seq<int>) -> Seq<JsonView>
    decreases idxs.len(),
{
    if idxs.len() == 0 {
        es
    } else if 0 <= idxs[0] < es.len() {
        remove_in_turn(es.remove(idxs[0]), idxs.drop_first())
    } else {
        remove_in_turn(es, idxs.drop_first())
    }
}

/// The elements whose original position is not named, in their order.
pub open spec fn keep_unnamed(es: Seq<JsonView>, idxs: Seq<int>) -> Seq<JsonView>
    decreases es.len(),
{
    if es.len() == 0 {
        Seq::empty()
    } else {
        let rest = keep_unnamed(es.drop_last(), idxs);
        if idxs.contains(es.len() - 1) {
            rest
        } else {
            rest.push(es.last())
        }
    }
}

proof fn lemma_keep_unnamed_empty(es: Seq<JsonView>, idxs: Seq<int>)
    requires
        forall|j: int| 0 <= j < es.len() ==> !idxs.contains(j),
    ensures
        keep_unnamed(es, idxs) == es,
    decreases es.len(),
{
    if es.len() > 0 {
        lemma_keep_unnamed_empty(es.drop_last(), idxs);
        assert(keep_unnamed(es, idxs) =~= es);
    }
}

/// Only membership below the array length matters to `keep_unnamed`.
proof fn lemma_keep_unnamed_congruence(es: Seq<JsonView>, a: Seq<int>, b: Seq<int>)
    requires
        forall|j: int| 0 <= j < es.len() ==> (a.contains(j) == b.contains(j)),
    ensures
        keep_unnamed(es, a) == keep_unnamed(es, b),
    decreases es.len(),
{
    if es.len() > 0 {
        lemma_keep_unnamed_congruence(es.drop_last(), a, b);
    }
}

/// Removing at the largest named index first leaves the complement
/// unchanged: the remaining names all address unshifted positions.
proof fn lemma_keep_unnamed_remove(es: Seq<JsonView>, k: int, rest: Seq<int>)
    requires
        0 <= k < es.len(),
        forall|j: int| #[trigger] rest.contains(j) ==> 0 <= j < k,
    ensures
        keep_unnamed(es.remove(k), rest) == keep_unnamed(es, seq![k] + rest),
    decreases es.len(),
{
    let cons = seq![k] + rest;
    assert forall|j: int| #[trigger] cons.contains(j) implies (j == k || rest.contains(j)) by {
        let w = choose|w: int| 0 <= w < cons.len() && cons[w] == j;
        if w > 0 {
            assert(rest[w - 1] == j);
        }
    }
    assert(cons.contains(k)) by {
        assert(cons[0] == k);
    }
    assert forall|j: int| #[trigger] rest.contains(j) implies cons.contains(j) by {
        let w = choose|w: int| 0 <= w < rest.len() && rest[w] == j;
        assert(cons[w + 1] == j);
    }
    let last_pos = es.len() - 1;
    if k == last_pos {
        assert(es.remove(k) =~= es.drop_last());
        assert(keep_unnamed(es, cons) == keep_unnamed(es.drop_last(), cons));
        lemma_keep_unnamed_congruence(es.drop_last(), rest, cons);
    } else {
        assert(es.remove(k).len() == es.len() - 1);
        assert(es.remove(k).last() == es.last());
        assert(!rest.contains(es.remove(k).len() - 1));
        assert(!cons.contains(last_pos));
        assert(es.remove(k).drop_last() =~= es.drop_last().remove(k));
        lemma_keep_unnamed_remove(es.drop_last(), k, rest);
        assert(keep_unnamed(es.remove(k), rest) == keep_unnamed(
            es.drop_last().remove(k),
            rest,
        ).push(es.last()));
        assert(keep_unnamed(es, cons) == keep_unnamed(es.drop_last(), cons).push(es.last()));
    }
}

/// Removing at strictly descending in-bounds indices keeps exactly the
/// elements whose original index is not named.
pub proof fn lemma_descending_removals(es: Seq<JsonView>, idxs: Seq<int>)
    requires
        forall|i: int, j: int| 0 <= i < j < idxs.len() ==> idxs[i] > idxs[j],
        forall|i: int| 0 <= i < idxs.len() ==> 0 <= #[trigger] idxs[i] < es.len(),
    ensures
        remove_in_turn(es, idxs) == keep_unnamed(es, idxs),
    decreases idxs.len(),
{
    if idxs.len() == 0 {
        lemma_keep_unnamed_empty(es, idxs);
    } else {
        let k = idxs[0];
        let rest = idxs.drop_first();
        assert forall|j: int| #[trigger] rest.contains(j) implies 0 <= j < k by {
            let w = choose|w: int| 0 <= w < rest.len() && rest[w] == j;
            assert(idxs[w + 1] == j);
        }
        assert forall|i: int| 0 <= i < rest.len() implies 0 <= #[trigger] rest[i] < es.remove(
            k,
        ).len() by {
            assert(rest[i] == idxs[i + 1]);
        }
        lemma_descending_removals(es.remove(k), rest);
        lemma_keep_unnamed_remove(es, k, rest);
        assert(seq![k] + rest =~= idxs);
    }
}

/// Removals reordered to run highest index first act on the original,
/// unshifted array: whatever order the indices were emitted in, the
/// result keeps exactly the elements whose original index is not named.
pub proof fn lemma_reorder_removals_index_invariance(
    es: Seq<JsonView>,
    emitted: Seq<int>,
    descending: Seq<int>,
)
    requires
        forall|i: int, j: int| 0 <= i < j < descending.len() ==> descending[i] > descending[j],
        forall|i: int| 0 <= i < descending.len() ==> 0 <= #[trigger] descending[i] < es.len(),
        forall|j: int| descending.contains(j) == emitted.contains(j),
    ensures
        remove_in_turn(es, descending) == keep_unnamed(es, emitted),
{
    lemma_descending_removals(es, descending);
    lemma_keep_unnamed_congruence(es, descending, emitted);
}

/// A removal addressed at an array element is exactly the removal of
/// that element.
pub proof fn lemma_remove_op_is_element_removal(es: Seq<JsonView>, seg: Seq<char>, idx: int)
    requires
        arr_index_of(seg) == Some(idx),
        0 <= idx < es.len(),
    ensures
        apply_op_spec(JsonView::Arr(es), OpView::Remove { path: seq![seg] }) == Some(
            JsonView::Arr(es.remove(idx)),
        ),
{
    let path = seq![seg];
    assert(path.len() == 1);
    assert(path[0] == seg);
}

/// A patch of nothing but removals at strictly descending in-bounds
/// element indices applies in full, and acts on the original, unshifted
/// array: it keeps exactly the elements whose index no operation named.
pub proof fn lemma_removal_patch_keeps_unnamed(
    es: Seq<JsonView>,
    ops: Seq<OpView>,
    idxs: Seq<int>,
)
    requires
        ops.len() == idxs.len(),
        forall|i: int| 0 <= i < ops.len() ==> #[trigger] ops[i] == (OpView::Remove {
            path: seq![nat_seg(idxs[i])],
        }),
        forall|i: int| 0 <= i < idxs.len() ==> arr_index_of(nat_seg(#[trigger] idxs[i]))
            == Some(idxs[i]),
        forall|i: int, j: int| 0 <= i < j < idxs.len() ==> idxs[i] > idxs[j],
        forall|i: int| 0 <= i < idxs.len() ==> 0 <= #[trigger] idxs[i] < es.len(),
    ensures
        apply_ops_spec(JsonView::Arr(es), ops) == Some(
            JsonView::Arr(keep_unnamed(es, idxs)),
        ),
    decreases ops.len(),
{
    if ops.len() == 0 {
        lemma_keep_unnamed_empty(es, idxs);
    } else {
        let k = idxs[0];
        lemma_remove_op_is_element_removal(es, nat_seg(k), k);
        assert(apply_op_spec(JsonView::Arr(es), ops[0]) == Some(JsonView::Arr(es.remove(k))));
        let rest_ops = ops.drop_first();
        let rest_idxs = idxs.drop_first();
        assert forall|i: int| 0 <= i < rest_ops.len() implies #[trigger] rest_ops[i]
            == (OpView::Remove { path: seq![nat_seg(rest_idxs[i])] }) by {
            assert(rest_ops[i] == ops[i + 1]);
            assert(rest_idxs[i] == idxs[i + 1]);
        }
        assert forall|i: int| 0 <= i < rest_idxs.len() implies arr_index_of(
            nat_seg(#[trigger] rest_idxs[i]),
        ) == Some(rest_idxs[i]) by {
            assert(rest_idxs[i] == idxs[i + 1]);
        }
        assert forall|i: int, j: int| 0 <= i < j < rest_idxs.len() implies rest_idxs[i]
            > rest_idxs[j] by {
            assert(rest_idxs[i] == idxs[i + 1]);
            assert(rest_idxs[j] == idxs[j + 1]);
        }
        assert forall|i: int| 0 <= i < rest_idxs.len() implies 0 <= #[trigger] rest_idxs[i]
            < es.remove(k).len() by {
            assert(rest_idxs[i] == idxs[i + 1]);
        }
        lemma_removal_patch_keeps_unnamed(es.remove(k), rest_ops, rest_idxs);
        assert forall|j: int| #[trigger] rest_idxs.contains(j) implies 0 <= j < k by {
            let w = choose|w: int| 0 <= w < rest_idxs.len() && rest_idxs[w] == j;
            assert(idxs[w + 1] == j);
        }
        lemma_keep_unnamed_remove(es, k, rest_idxs);
        assert(seq![k] + rest_idxs =~= idxs);
    }
}

/// The canonical decimal segment naming a non-negative index.
pub open spec fn nat_seg(i: int) -> Seq<char> {
    crate::render::nat_text(i)
}

} // verus!
