//! The library's own JSON document model.
//!
//! Documents are held as an owned tree. Numbers are either 64-bit integers
//! or decimal texts carried through untouched; object members keep their
//! insertion order, and member order is significant for equality.

use vstd::prelude::*;

verus! {

/// Mathematical model of a JSON tree.
#[verifier::ext_equal]
pub enum JsonView {
    Null,
    Bool(bool),
    Int(int),
    Num(Seq<char>),
    Text(Seq<char>),
    Arr(Seq<JsonView>),
    Obj(Seq<(Seq<char>, JsonView)>),
}

/// One member of a JSON object: a key and its value.
#[derive(Debug)]
pub struct JsonMember {
    pub key: String,
    pub value: JsonValue,
}

/// An owned JSON document tree.
///
/// `Num` carries the decimal text of a number that is not a 64-bit
/// integer (a fraction, an exponent form, or an integer out of range), so
/// such numbers survive a round trip without any arithmetic being done on
/// them.
#[derive(Debug)]
pub enum JsonValue {
    Null,
    Bool(bool),
    Int(i64),
    Num(String),
    Text(String),
    Arr(Vec<JsonValue>),
    Obj(Vec<JsonMember>),
}

/// Model of a sequence of array elements.
pub open spec fn elems_view(s: Seq<JsonValue>) -> Seq<JsonView>
    decreases s,
{
    if s.len() == 0 {
        Seq::empty()
    } else {
        elems_view(s.drop_last()).push(json_view(s.last()))
    }
}

/// Model of a sequence of object members.
pub open spec fn members_view(s: Seq<JsonMember>) -> Seq<(Seq<char>, JsonView)>
    decreases s,
{
    if s.len() == 0 {
        Seq::empty()
    } else {
        members_view(s.drop_last()).push((s.last().key@, json_view(s.last().value)))
    }
}

/// Model of one document tree.
pub open spec fn json_view(v: JsonValue) -> JsonView
    decreases v,
{
    match v {
        JsonValue::Null => JsonView::Null,
        JsonValue::Bool(b) => JsonView::Bool(b),
        JsonValue::Int(i) => JsonView::Int(i as int),
        JsonValue::Num(t) => JsonView::Num(t@),
        JsonValue::Text(s) => JsonView::Text(s@),
        JsonValue::Arr(items) => JsonView::Arr(elems_view(items@)),
        JsonValue::Obj(members) => JsonView::Obj(members_view(members@)),
    }
}

pub broadcast proof fn lemma_elems_view_len(s: Seq<JsonValue>)
    ensures
        #[trigger] elems_view(s).len() == s.len(),
    decreases s,
{
    if s.len() > 0 {
        lemma_elems_view_len(s.drop_last());
    }
}

pub broadcast proof fn lemma_elems_view_index(s: Seq<JsonValue>, i: int)
    requires
        0 <= i < s.len(),
    ensures
        #[trigger] elems_view(s)[i] == json_view(s[i]),
    decreases s,
{
    lemma_elems_view_len(s);
    if i < s.len() - 1 {
        lemma_elems_view_index(s.drop_last(), i);
    }
}

pub broadcast proof fn lemma_members_view_len(s: Seq<JsonMember>)
    ensures
        #[trigger] members_view(s).len() == s.len(),
    decreases s,
{
    if s.len() > 0 {
        lemma_members_view_len(s.drop_last());
    }
}

pub broadcast proof fn lemma_members_view_index(s: Seq<JsonMember>, i: int)
    requires
        0 <= i < s.len(),
    ensures
        #[trigger] members_view(s)[i] == (s[i].key@, json_view(s[i].value)),
    decreases s,
{
    lemma_members_view_len(s);
    if i < s.len() - 1 {
        lemma_members_view_index(s.drop_last(), i);
    }
}

pub broadcast proof fn lemma_elems_view_update(s: Seq<JsonValue>, i: int, x: JsonValue)
    requires
        0 <= i < s.len(),
    ensures
        #[trigger] elems_view(s.update(i, x)) == elems_view(s).update(i, json_view(x)),
{
    lemma_elems_view_len(s);
    lemma_elems_view_len(s.update(i, x));
    assert forall|j: int| 0 <= j < s.len() implies elems_view(s.update(i, x))[j] == elems_view(
        s,
    ).update(i, json_view(x))[j] by {
        lemma_elems_view_index(s.update(i, x), j);
        lemma_elems_view_index(s, j);
    }
    assert(elems_view(s.update(i, x)) =~= elems_view(s).update(i, json_view(x)));
}

pub broadcast proof fn lemma_elems_view_push(s: Seq<JsonValue>, x: JsonValue)
    ensures
        #[trigger] elems_view(s.push(x)) == elems_view(s).push(json_view(x)),
{
    assert(s.push(x).drop_last() =~= s);
}

pub broadcast proof fn lemma_elems_view_insert(s: Seq<JsonValue>, i: int, x: JsonValue)
    requires
        0 <= i <= s.len(),
    ensures
        #[trigger] elems_view(s.insert(i, x)) == elems_view(s).insert(i, json_view(x)),
{
    lemma_elems_view_len(s);
    lemma_elems_view_len(s.insert(i, x));
    assert forall|j: int| 0 <= j < s.len() + 1 implies elems_view(s.insert(i, x))[j] == elems_view(
        s,
    ).insert(i, json_view(x))[j] by {
        lemma_elems_view_index(s.insert(i, x), j);
        if j < i {
            lemma_elems_view_index(s, j);
        } else if j > i {
            lemma_elems_view_index(s, j - 1);
        }
    }
    assert(elems_view(s.insert(i, x)) =~= elems_view(s).insert(i, json_view(x)));
}

pub broadcast proof fn lemma_elems_view_remove(s: Seq<JsonValue>, i: int)
    requires
        0 <= i < s.len(),
    ensures
        #[trigger] elems_view(s.remove(i)) == elems_view(s).remove(i),
{
    lemma_elems_view_len(s);
    lemma_elems_view_len(s.remove(i));
    assert forall|j: int| 0 <= j < s.len() - 1 implies elems_view(s.remove(i))[j] == elems_view(
        s,
    ).remove(i)[j] by {
        lemma_elems_view_index(s.remove(i), j);
        if j < i {
            lemma_elems_view_index(s, j);
        } else {
            lemma_elems_view_index(s, j + 1);
        }
    }
    assert(elems_view(s.remove(i)) =~= elems_view(s).remove(i));
}

pub broadcast proof fn lemma_members_view_update(s: Seq<JsonMember>, i: int, m: JsonMember)
    requires
        0 <= i < s.len(),
    ensures
        #[trigger] members_view(s.update(i, m)) == members_view(s).update(
            i,
            (m.key@, json_view(m.value)),
        ),
{
    lemma_members_view_len(s);
    lemma_members_view_len(s.update(i, m));
    assert forall|j: int| 0 <= j < s.len() implies members_view(s.update(i, m))[j] == members_view(
        s,
    ).update(i, (m.key@, json_view(m.value)))[j] by {
        lemma_members_view_index(s.update(i, m), j);
        lemma_members_view_index(s, j);
    }
    assert(members_view(s.update(i, m)) =~= members_view(s).update(
        i,
        (m.key@, json_view(m.value)),
    ));
}

pub broadcast proof fn lemma_members_view_push(s: Seq<JsonMember>, m: JsonMember)
    ensures
        #[trigger] members_view(s.push(m)) == members_view(s).push((m.key@, json_view(m.value))),
{
    assert(s.push(m).drop_last() =~= s);
}

pub broadcast proof fn lemma_members_view_insert(s: Seq<JsonMember>, i: int, m: JsonMember)
    requires
        0 <= i <= s.len(),
    ensures
        #[trigger] members_view(s.insert(i, m)) == members_view(s).insert(
            i,
            (m.key@, json_view(m.value)),
        ),
{
    lemma_members_view_len(s);
    lemma_members_view_len(s.insert(i, m));
    assert forall|j: int| 0 <= j < s.len() + 1 implies members_view(s.insert(i, m))[j]
        == members_view(s).insert(i, (m.key@, json_view(m.value)))[j] by {
        lemma_members_view_index(s.insert(i, m), j);
        if j < i {
            lemma_members_view_index(s, j);
        } else if j > i {
            lemma_members_view_index(s, j - 1);
        }
    }
    assert(members_view(s.insert(i, m)) =~= members_view(s).insert(
        i,
        (m.key@, json_view(m.value)),
    ));
}

pub broadcast proof fn lemma_members_view_remove(s: Seq<JsonMember>, i: int)
    requires
        0 <= i < s.len(),
    ensures
        #[trigger] members_view(s.remove(i)) == members_view(s).remove(i),
{
    lemma_members_view_len(s);
    lemma_members_view_len(s.remove(i));
    assert forall|j: int| 0 <= j < s.len() - 1 implies members_view(s.remove(i))[j]
        == members_view(s).remove(i)[j] by {
        lemma_members_view_index(s.remove(i), j);
        if j < i {
            lemma_members_view_index(s, j);
        } else {
            lemma_members_view_index(s, j + 1);
        }
    }
    assert(members_view(s.remove(i)) =~= members_view(s).remove(i));
}

pub broadcast group group_json_view_lemmas {
    lemma_elems_view_len,
    lemma_elems_view_index,
    lemma_members_view_len,
    lemma_members_view_index,
}

pub broadcast group group_json_view_edit_lemmas {
    lemma_elems_view_update,
    lemma_elems_view_push,
    lemma_elems_view_insert,
    lemma_elems_view_remove,
    lemma_members_view_update,
    lemma_members_view_push,
    lemma_members_view_insert,
    lemma_members_view_remove,
}

impl View for JsonValue {
    type V = JsonView;

    open spec fn view(&self) -> JsonView {
        json_view(*self)
    }
}

impl View for JsonMember {
    type V = (Seq<char>, JsonView);

    open spec fn view(&self) -> (Seq<char>, JsonView) {
        (self.key@, json_view(self.value))
    }
}

impl Clone for JsonMember {
    fn clone(&self) -> (r: Self)
        ensures
            r@ == self@,
    {
        JsonMember { key: self.key.clone(), value: self.value.clone() }
    }
}

impl Clone for JsonValue {
    #[verifier::loop_isolation(false)]
    fn clone(&self) -> (r: Self)
        ensures
            r@ == self@,
        decreases self,
    {
        broadcast use group_json_view_lemmas;

        match self {
            JsonValue::Null => JsonValue::Null,
            JsonValue::Bool(b) => JsonValue::Bool(*b),
            JsonValue::Int(i) => JsonValue::Int(*i),
            JsonValue::Num(t) => JsonValue::Num(t.clone()),
            JsonValue::Text(s) => JsonValue::Text(s.clone()),
            JsonValue::Arr(items) => {
                let mut out: Vec<JsonValue> = Vec::new();
                let mut i: usize = 0;
                while i < items.len()
                    invariant
                        i <= items.len(),
                        out@.len() == i as int,
                        forall|j: int| 0 <= j < i as int ==> out@[j]@ == items@[j]@,
                    decreases items.len() - i,
                {
                    proof {
                        assert(decreases_to!(*self => *items));
                        assert(decreases_to!(*items => items@));
                        assert(decreases_to!(items@ => items@[i as int]));
                    }
                    out.push(items[i].clone());
                    i = i + 1;
                }
                let result = JsonValue::Arr(out);
                proof {
                    assert(elems_view(result->Arr_0@) =~= elems_view(items@));
                }
                result
            }
            JsonValue::Obj(members) => {
                let mut out: Vec<JsonMember> = Vec::new();
                let mut i: usize = 0;
                while i < members.len()
                    invariant
                        i <= members.len(),
                        out@.len() == i as int,
                        forall|j: int| 0 <= j < i as int ==> out@[j]@ == members@[j]@,
                    decreases members.len() - i,
                {
                    let m = &members[i];
                    proof {
                        assert(decreases_to!(*self => *members));
                        assert(decreases_to!(*members => members@));
                        assert(decreases_to!(members@ => members@[i as int]));
                        assert(decreases_to!(members@[i as int] => members@[i as int].value));
                    }
                    out.push(JsonMember { key: m.key.clone(), value: m.value.clone() });
                    i = i + 1;
                }
                let result = JsonValue::Obj(out);
                proof {
                    assert(members_view(result->Obj_0@) =~= members_view(members@));
                }
                result
            }
        }
    }
}

/// First index of `key` among the members, or `-1` when absent.
pub open spec fn key_index(s: Seq<(Seq<char>, JsonView)>, key: Seq<char>) -> int
    decreases s.len(),
{
    if s.len() == 0 {
        -1
    } else if s[0].0 == key {
        0
    } else {
        let rest = key_index(s.drop_first(), key);
        if rest < 0 {
            -1
        } else {
            rest + 1
        }
    }
}

pub broadcast proof fn lemma_key_index(s: Seq<(Seq<char>, JsonView)>, key: Seq<char>)
    ensures
        #[trigger] key_index(s, key) < 0 ==> forall|j: int|
            0 <= j < s.len() ==> s[j].0 != key,
        key_index(s, key) >= 0 ==> {
            let i = key_index(s, key);
            &&& i < s.len()
            &&& s[i].0 == key
            &&& forall|j: int| 0 <= j < i ==> s[j].0 != key
        },
    decreases s.len(),
{
    if s.len() > 0 && s[0].0 != key {
        lemma_key_index(s.drop_first(), key);
        assert forall|j: int| 1 <= j < s.len() implies s.drop_first()[j - 1] == s[j] by {}
    }
}

/// Index of the first member with the given key, when there is one.
#[verifier::loop_isolation(false)]
pub fn find_member(members: &Vec<JsonMember>, key: &String) -> (r: Option<usize>)
    ensures
        match r {
            Some(i) => i == key_index(members_view(members@), key@),
            None => key_index(members_view(members@), key@) < 0,
        },
{
    broadcast use group_json_view_lemmas;

    proof {
        lemma_members_view_len(members@);
    }
    let mut i: usize = 0;
    while i < members.len()
        invariant
            i <= members.len(),
            forall|j: int| 0 <= j < i as int ==> members@[j].key@ != key@,
        decreases members.len() - i,
    {
        if members[i].key == *key {
            proof {
                lemma_key_index(members_view(members@), key@);
                assert forall|j: int|
                    0 <= j < members@.len() implies members_view(members@)[j].0
                    == members@[j].key@ by {
                    lemma_members_view_index(members@, j);
                }
                assert(members_view(members@)[i as int].0 == key@);
                assert(key_index(members_view(members@), key@) == i as int);
            }
            return Some(i);
        }
        i = i + 1;
    }
    proof {
        lemma_key_index(members_view(members@), key@);
        assert forall|j: int|
            0 <= j < members@.len() implies members_view(members@)[j].0 == members@[j].key@ by {
            lemma_members_view_index(members@, j);
        }
    }
    None
}

impl JsonValue {
    /// Index of the first member with the given key, when this is an object
    /// that has one.
    #[verifier::loop_isolation(false)]
    pub fn member_index(&self, key: &String) -> (r: Option<usize>)
        ensures
            match r {
                Some(i) => self@ matches JsonView::Obj(ms) && i == key_index(ms, key@),
                None => !(self@ matches JsonView::Obj(ms) && key_index(ms, key@) >= 0),
            },
    {
        broadcast use group_json_view_lemmas;

        match self {
            JsonValue::Obj(members) => {
                let mut i: usize = 0;
                while i < members.len()
                    invariant
                        i <= members.len(),
                        self@ matches JsonView::Obj(ms) && ms == members_view(members@),
                        forall|j: int| 0 <= j < i as int ==> members@[j].key@ != key@,
                    decreases members.len() - i,
                {
                    if members[i].key == *key {
                        proof {
                            lemma_key_index(members_view(members@), key@);
                            assert forall|j: int|
                                0 <= j < members@.len() implies members_view(members@)[j].0
                                == members@[j].key@ by {
                                lemma_members_view_index(members@, j);
                            }
                            assert(members_view(members@)[i as int].0 == key@);
                            assert(key_index(members_view(members@), key@) == i as int);
                        }
                        return Some(i);
                    }
                    i = i + 1;
                }
                proof {
                    lemma_key_index(members_view(members@), key@);
                    assert forall|j: int|
                        0 <= j < members@.len() implies members_view(members@)[j].0
                        == members@[j].key@ by {
                        lemma_members_view_index(members@, j);
                    }
                }
                None
            }
            _ => None,
        }
    }
}

/// The model keeps the constructor of the value it models.
pub proof fn lemma_view_variant(v: JsonValue)
    ensures
        (json_view(v) is Null) == (v is Null),
        (json_view(v) is Bool) == (v is Bool),
        (json_view(v) is Int) == (v is Int),
        (json_view(v) is Num) == (v is Num),
        (json_view(v) is Text) == (v is Text),
        (json_view(v) is Arr) == (v is Arr),
        (json_view(v) is Obj) == (v is Obj),
{
    match v {
        JsonValue::Null => {}
        JsonValue::Bool(_) => {}
        JsonValue::Int(_) => {}
        JsonValue::Num(_) => {}
        JsonValue::Text(_) => {}
        JsonValue::Arr(_) => {}
        JsonValue::Obj(_) => {}
    }
}

/// Structural deep equality of two documents.
///
/// Object member order is significant: documents that hold the same members
/// in a different order are not equal.
#[verifier::loop_isolation(false)]
pub fn json_eq(a: &JsonValue, b: &JsonValue) -> (r: bool)
    ensures
        r == (a@ == b@),
    decreases a,
{
    broadcast use group_json_view_lemmas;

    match (a, b) {
        (JsonValue::Null, JsonValue::Null) => {
            proof { assert(a@ == b@); }
            true
        }
        (JsonValue::Bool(x), JsonValue::Bool(y)) => {
            proof { assert((*x == *y) == (a@ == b@)); }
            *x == *y
        }
        (JsonValue::Int(x), JsonValue::Int(y)) => {
            proof { assert((*x == *y) == (a@ == b@)); }
            *x == *y
        }
        (JsonValue::Num(x), JsonValue::Num(y)) => {
            proof { assert((x@ == y@) == (a@ == b@)); }
            *x == *y
        }
        (JsonValue::Text(x), JsonValue::Text(y)) => {
            proof { assert((x@ == y@) == (a@ == b@)); }
            *x == *y
        }
        (JsonValue::Arr(xs), JsonValue::Arr(ys)) => {
            if xs.len() != ys.len() {
                proof {
                    assert(a@->Arr_0 == elems_view(xs@));
                    assert(b@->Arr_0 == elems_view(ys@));
                }
                return false;
            }
            let mut i: usize = 0;
            while i < xs.len()
                invariant
                    i <= xs.len(),
                    forall|j: int| 0 <= j < i as int ==> elems_view(xs@)[j] == elems_view(ys@)[j],
                decreases xs.len() - i,
            {
                proof {
                    assert(decreases_to!(*a => *xs));
                    assert(decreases_to!(*xs => xs@));
                    assert(decreases_to!(xs@ => xs@[i as int]));
                }
                if !json_eq(&xs[i], &ys[i]) {
                    proof {
                        lemma_elems_view_index(xs@, i as int);
                        lemma_elems_view_index(ys@, i as int);
                        assert(a@->Arr_0 == elems_view(xs@));
                        assert(b@->Arr_0 == elems_view(ys@));
                        assert(a@->Arr_0[i as int] != b@->Arr_0[i as int]);
                    }
                    return false;
                }
                i = i + 1;
            }
            proof {
                assert(elems_view(xs@) =~= elems_view(ys@));
            }
            true
        }
        (JsonValue::Obj(xs), JsonValue::Obj(ys)) => {
            if xs.len() != ys.len() {
                proof {
                    assert(a@->Obj_0 == members_view(xs@));
                    assert(b@->Obj_0 == members_view(ys@));
                }
                return false;
            }
            let mut i: usize = 0;
            while i < xs.len()
                invariant
                    i <= xs.len(),
                    forall|j: int| 0 <= j < i as int ==> members_view(xs@)[j] == members_view(
                        ys@,
                    )[j],
                decreases xs.len() - i,
            {
                proof {
                    assert(decreases_to!(*a => *xs));
                    assert(decreases_to!(*xs => xs@));
                    assert(decreases_to!(xs@ => xs@[i as int]));
                    assert(decreases_to!(xs@[i as int] => xs@[i as int].value));
                }
                if xs[i].key != ys[i].key {
                    proof {
                        lemma_members_view_index(xs@, i as int);
                        lemma_members_view_index(ys@, i as int);
                        assert(a@->Obj_0 == members_view(xs@));
                        assert(b@->Obj_0 == members_view(ys@));
                        assert(a@->Obj_0[i as int].0 != b@->Obj_0[i as int].0);
                    }
                    return false;
                }
                if !json_eq(&xs[i].value, &ys[i].value) {
                    proof {
                        lemma_members_view_index(xs@, i as int);
                        lemma_members_view_index(ys@, i as int);
                        assert(a@->Obj_0 == members_view(xs@));
                        assert(b@->Obj_0 == members_view(ys@));
                        assert(a@->Obj_0[i as int].1 != b@->Obj_0[i as int].1);
                    }
                    return false;
                }
                i = i + 1;
            }
            proof {
                assert(members_view(xs@) =~= members_view(ys@));
            }
            true
        }
        _ => {
            proof {
                lemma_view_variant(*a);
                lemma_view_variant(*b);
            }
            false
        }
    }
}

} // verus!
