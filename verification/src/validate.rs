//! Checking a candidate document against a JSON Schema document.
//!
//! The checker covers the keywords the engine's schemas use: `type`,
//! `required`, `properties`, `items`, `enum` and `anyOf`. A schema that is
//! not an object constrains nothing.

use vstd::prelude::*;

use crate::json::{
    find_member, group_json_view_lemmas, json_eq, key_index, lemma_key_index,
    lemma_members_view_index, lemma_view_variant, members_view, JsonMember, JsonValue, JsonView,
};
use crate::parse::obj_field;

verus! {

broadcast use group_json_view_lemmas;

/// Whether a candidate has the primitive kind a `type` keyword names.
/// `number` admits both integer and carried-text numbers; an unknown name
/// constrains nothing.
pub open spec fn type_name_ok(name: Seq<char>, v: JsonView) -> bool {
    if name == seq!['o', 'b', 'j', 'e', 'c', 't'] {
        v is Obj
    } else if name == seq!['a', 'r', 'r', 'a', 'y'] {
        v is Arr
    } else if name == seq!['s', 't', 'r', 'i', 'n', 'g'] {
        v is Text
    } else if name == seq!['n', 'u', 'm', 'b', 'e', 'r'] {
        v is Int || v is Num
    } else if name == seq!['i', 'n', 't', 'e', 'g', 'e', 'r'] {
        v is Int
    } else if name == seq!['b', 'o', 'o', 'l', 'e', 'a', 'n'] {
        v is Bool
    } else if name == seq!['n', 'u', 'l', 'l'] {
        v is Null
    } else {
        true
    }
}

/// The `type` keyword: when the schema names a type as a string, the
/// candidate must have that kind.
pub open spec fn type_ok(schema_members: Seq<(Seq<char>, JsonView)>, v: JsonView) -> bool {
    match obj_field(schema_members, seq!['t', 'y', 'p', 'e']) {
        Some(JsonView::Text(name)) => type_name_ok(name, v),
        _ => true,
    }
}

/// The `required` keyword: every name in the list must be a member key of
/// the candidate object. The keyword binds only objects.
pub open spec fn required_ok(names: Seq<JsonView>, v: JsonView) -> bool
    decreases names.len(),
{
    if names.len() == 0 {
        true
    } else {
        let head_ok = match names[0] {
            JsonView::Text(name) => !(v is Obj) || key_index(v->Obj_0, name) >= 0,
            _ => true,
        };
        head_ok && required_ok(names.drop_first(), v)
    }
}

/// The `properties` keyword, one property at a time: a candidate member
/// whose key has a subschema must satisfy it.
pub open spec fn properties_ok(
    props: Seq<(Seq<char>, JsonView)>,
    candidate_members: Seq<(Seq<char>, JsonView)>,
) -> bool
    decreases props, 1int,
{
    if props.len() == 0 {
        true
    } else {
        let head_ok = match obj_field(candidate_members, props[0].0) {
            Some(field) => schema_ok(props[0].1, field),
            None => true,
        };
        head_ok && properties_ok(props.drop_first(), candidate_members)
    }
}

/// The `items` keyword, one element at a time.
pub open spec fn items_ok(item_schema: JsonView, elems: Seq<JsonView>) -> bool
    decreases item_schema, elems.len() + 1,
{
    if elems.len() == 0 {
        true
    } else {
        schema_ok(item_schema, elems[0]) && items_ok(item_schema, elems.drop_first())
    }
}

/// The `enum` keyword: the candidate must equal one of the listed values.
pub open spec fn enum_ok(allowed: Seq<JsonView>, v: JsonView) -> bool
    decreases allowed.len(),
{
    if allowed.len() == 0 {
        false
    } else {
        allowed[0] == v || enum_ok(allowed.drop_first(), v)
    }
}

/// The `anyOf` keyword: at least one listed schema must accept the
/// candidate.
pub open spec fn any_of_ok(schemas: Seq<JsonView>, v: JsonView) -> bool
    decreases schemas, 1int,
{
    if schemas.len() == 0 {
        false
    } else {
        schema_ok(schemas[0], v) || any_of_ok(schemas.drop_first(), v)
    }
}

/// Whether the schema accepts the candidate.
pub open spec fn schema_ok(schema: JsonView, v: JsonView) -> bool
    decreases schema, 0int,
    via schema_ok_dec
{
    match schema {
        JsonView::Obj(ms) => {
            &&& type_ok(ms, v)
            &&& match obj_field(ms, seq!['r', 'e', 'q', 'u', 'i', 'r', 'e', 'd']) {
                Some(JsonView::Arr(names)) => required_ok(names, v),
                _ => true,
            }
            &&& match obj_field(ms, seq!['p', 'r', 'o', 'p', 'e', 'r', 't', 'i', 'e', 's']) {
                Some(JsonView::Obj(props)) => !(v is Obj) || properties_ok(props, v->Obj_0),
                _ => true,
            }
            &&& match obj_field(ms, seq!['i', 't', 'e', 'm', 's']) {
                Some(item_schema) => !(v is Arr) || items_ok(item_schema, v->Arr_0),
                _ => true,
            }
            &&& match obj_field(ms, seq!['e', 'n', 'u', 'm']) {
                Some(JsonView::Arr(allowed)) => enum_ok(allowed, v),
                _ => true,
            }
            &&& match obj_field(ms, seq!['a', 'n', 'y', 'O', 'f']) {
                Some(JsonView::Arr(schemas)) => any_of_ok(schemas, v),
                _ => true,
            }
        }
        _ => true,
    }
}

#[via_fn]
proof fn schema_ok_dec(schema: JsonView, v: JsonView) {
    match schema {
        JsonView::Obj(ms) => {
            assert(decreases_to!(schema => ms));
            let pk = seq!['p', 'r', 'o', 'p', 'e', 'r', 't', 'i', 'e', 's'];
            lemma_key_index(ms, pk);
            let pi = key_index(ms, pk);
            if pi >= 0 {
                assert(decreases_to!(ms => ms[pi]));
                assert(decreases_to!(ms[pi] => ms[pi].1));
                match ms[pi].1 {
                    JsonView::Obj(props) => {
                        assert(decreases_to!(ms[pi].1 => props));
                    }
                    _ => {}
                }
            }
            let ik = seq!['i', 't', 'e', 'm', 's'];
            lemma_key_index(ms, ik);
            let ii = key_index(ms, ik);
            if ii >= 0 {
                assert(decreases_to!(ms => ms[ii]));
                assert(decreases_to!(ms[ii] => ms[ii].1));
            }
            let ak = seq!['a', 'n', 'y', 'O', 'f'];
            lemma_key_index(ms, ak);
            let ai = key_index(ms, ak);
            if ai >= 0 {
                assert(decreases_to!(ms => ms[ai]));
                assert(decreases_to!(ms[ai] => ms[ai].1));
                match ms[ai].1 {
                    JsonView::Arr(schemas) => {
                        assert(decreases_to!(ms[ai].1 => schemas));
                    }
                    _ => {}
                }
            }
        }
        _ => {}
    }
}

/// Check the `required` names against the candidate.
#[verifier::loop_isolation(false)]
fn required_check(names: &Vec<JsonValue>, v: &JsonValue) -> (r: bool)
    ensures
        r == required_ok(crate::json::elems_view(names@), v@),
{
    let ghost full = crate::json::elems_view(names@);
    let mut i: usize = 0;
    proof {
        assert(full.subrange(0, full.len() as int) =~= full);
    }
    while i < names.len()
        invariant
            i <= names.len(),
            required_ok(full, v@) == required_ok(full.subrange(i as int, full.len() as int), v@),
        decreases names.len() - i,
    {
        let ghost sfx = full.subrange(i as int, full.len() as int);
        proof {
            assert(sfx[0] == full[i as int]);
            assert(sfx.drop_first() =~= full.subrange(i + 1 as int, full.len() as int));
        }
        match &names[i] {
            JsonValue::Text(name) => {
                match v {
                    JsonValue::Obj(_) => {
                        if v.member_index(name).is_none() {
                            return false;
                        }
                    }
                    _ => {
                        proof {
                            lemma_view_variant(*v);
                        }
                    }
                }
            }
            other => {
                proof {
                    lemma_view_variant(*other);
                }
            }
        }
        i = i + 1;
    }
    proof {
        assert(full.subrange(names@.len() as int, full.len() as int)
            =~= Seq::<JsonView>::empty());
    }
    true
}

/// Check the listed `enum` values against the candidate.
#[verifier::loop_isolation(false)]
pub(crate) fn enum_check(allowed: &Vec<JsonValue>, v: &JsonValue) -> (r: bool)
    ensures
        r == enum_ok(crate::json::elems_view(allowed@), v@),
{
    let ghost full = crate::json::elems_view(allowed@);
    let mut i: usize = 0;
    proof {
        assert(full.subrange(0, full.len() as int) =~= full);
    }
    while i < allowed.len()
        invariant
            i <= allowed.len(),
            enum_ok(full, v@) == enum_ok(full.subrange(i as int, full.len() as int), v@),
        decreases allowed.len() - i,
    {
        let ghost sfx = full.subrange(i as int, full.len() as int);
        proof {
            assert(sfx[0] == full[i as int]);
            assert(sfx.drop_first() =~= full.subrange(i + 1 as int, full.len() as int));
        }
        if json_eq(&allowed[i], v) {
            return true;
        }
        i = i + 1;
    }
    proof {
        assert(full.subrange(allowed@.len() as int, full.len() as int)
            =~= Seq::<JsonView>::empty());
    }
    false
}

/// Check the candidate's name against a `type` keyword value.
fn type_name_check(name: &String, v: &JsonValue) -> (r: bool)
    ensures
        r == type_name_ok(name@, v@),
{
    proof {
        reveal_strlit("object");
        reveal_strlit("array");
        reveal_strlit("string");
        reveal_strlit("number");
        reveal_strlit("integer");
        reveal_strlit("boolean");
        reveal_strlit("null");
        assert("object"@ =~= seq!['o', 'b', 'j', 'e', 'c', 't']);
        assert("array"@ =~= seq!['a', 'r', 'r', 'a', 'y']);
        assert("string"@ =~= seq!['s', 't', 'r', 'i', 'n', 'g']);
        assert("number"@ =~= seq!['n', 'u', 'm', 'b', 'e', 'r']);
        assert("integer"@ =~= seq!['i', 'n', 't', 'e', 'g', 'e', 'r']);
        assert("boolean"@ =~= seq!['b', 'o', 'o', 'l', 'e', 'a', 'n']);
        assert("null"@ =~= seq!['n', 'u', 'l', 'l']);
        lemma_view_variant(*v);
    }
    let object_k = String::from_str("object");
    let array_k = String::from_str("array");
    let string_k = String::from_str("string");
    let number_k = String::from_str("number");
    let integer_k = String::from_str("integer");
    let boolean_k = String::from_str("boolean");
    let null_k = String::from_str("null");
    if *name == object_k {
        matches!(v, JsonValue::Obj(_))
    } else if *name == array_k {
        matches!(v, JsonValue::Arr(_))
    } else if *name == string_k {
        matches!(v, JsonValue::Text(_))
    } else if *name == number_k {
        matches!(v, JsonValue::Int(_)) || matches!(v, JsonValue::Num(_))
    } else if *name == integer_k {
        matches!(v, JsonValue::Int(_))
    } else if *name == boolean_k {
        matches!(v, JsonValue::Bool(_))
    } else if *name == null_k {
        matches!(v, JsonValue::Null)
    } else {
        true
    }
}

/// Check the candidate against the schema.
#[verifier::loop_isolation(false)]
pub fn schema_check(schema: &JsonValue, v: &JsonValue) -> (r: bool)
    ensures
        r == schema_ok(schema@, v@),
    decreases schema, 0int,
{
    proof {
        reveal_strlit("type");
        reveal_strlit("required");
        reveal_strlit("properties");
        reveal_strlit("items");
        reveal_strlit("enum");
        reveal_strlit("anyOf");
        assert("type"@ =~= seq!['t', 'y', 'p', 'e']);
        assert("required"@ =~= seq!['r', 'e', 'q', 'u', 'i', 'r', 'e', 'd']);
        assert("properties"@ =~= seq!['p', 'r', 'o', 'p', 'e', 'r', 't', 'i', 'e', 's']);
        assert("items"@ =~= seq!['i', 't', 'e', 'm', 's']);
        assert("enum"@ =~= seq!['e', 'n', 'u', 'm']);
        assert("anyOf"@ =~= seq!['a', 'n', 'y', 'O', 'f']);
    }
    let members = match schema {
        JsonValue::Obj(members) => members,
        other => {
            proof {
                lemma_view_variant(*other);
            }
            return true;
        }
    };
    let ghost ms = members_view(members@);
    proof {
        assert(schema@ == JsonView::Obj(ms));
    }
    let type_field = lookup_member(members, "type");
    match type_field {
        Some(ti) => {
            match &members[ti].value {
                JsonValue::Text(name) => {
                    if !type_name_check(name, v) {
                        return false;
                    }
                }
                other => {
                    proof {
                        lemma_view_variant(*other);
                    }
                }
            }
        }
        None => {}
    }
    let required_field = lookup_member(members, "required");
    match required_field {
        Some(ri) => {
            match &members[ri].value {
                JsonValue::Arr(names) => {
                    if !required_check(names, v) {
                        return false;
                    }
                }
                other => {
                    proof {
                        lemma_view_variant(*other);
                    }
                }
            }
        }
        None => {}
    }
    let props_field = lookup_member(members, "properties");
    match props_field {
        Some(pi) => {
            match &members[pi].value {
                JsonValue::Obj(props) => {
                    match v {
                        JsonValue::Obj(cand) => {
                            proof {
                                assert(decreases_to!(*schema => *members));
                                assert(decreases_to!(*members => members@));
                                assert(decreases_to!(members@ => members@[pi as int]));
                                assert(decreases_to!(members@[pi as int] =>
                                    members@[pi as int].value));
                                assert(decreases_to!(members@[pi as int].value => *props));
                            }
                            if !properties_check(props, cand, v) {
                                return false;
                            }
                        }
                        other => {
                            proof {
                                lemma_view_variant(*other);
                            }
                        }
                    }
                }
                other => {
                    proof {
                        lemma_view_variant(*other);
                    }
                }
            }
        }
        None => {}
    }
    let items_field = lookup_member(members, "items");
    match items_field {
        Some(ii) => {
            match v {
                JsonValue::Arr(elems) => {
                    proof {
                        assert(decreases_to!(*schema => *members));
                        assert(decreases_to!(*members => members@));
                        assert(decreases_to!(members@ => members@[ii as int]));
                        assert(decreases_to!(members@[ii as int] => members@[ii as int].value));
                    }
                    if !items_check(&members[ii].value, elems, v) {
                        return false;
                    }
                }
                other => {
                    proof {
                        lemma_view_variant(*other);
                    }
                }
            }
        }
        None => {}
    }
    let enum_field = lookup_member(members, "enum");
    match enum_field {
        Some(ei) => {
            match &members[ei].value {
                JsonValue::Arr(allowed) => {
                    if !enum_check(allowed, v) {
                        return false;
                    }
                }
                other => {
                    proof {
                        lemma_view_variant(*other);
                    }
                }
            }
        }
        None => {}
    }
    let anyof_field = lookup_member(members, "anyOf");
    match anyof_field {
        Some(ai) => {
            match &members[ai].value {
                JsonValue::Arr(schemas) => {
                    proof {
                        assert(decreases_to!(*schema => *members));
                        assert(decreases_to!(*members => members@));
                        assert(decreases_to!(members@ => members@[ai as int]));
                        assert(decreases_to!(members@[ai as int] => members@[ai as int].value));
                        assert(decreases_to!(members@[ai as int].value => *schemas));
                    }
                    if !any_of_check(schemas, v) {
                        return false;
                    }
                }
                other => {
                    proof {
                        lemma_view_variant(*other);
                    }
                }
            }
        }
        None => {}
    }
    true
}

/// Look a key up among members and connect the result to `obj_field`.
pub(crate) fn lookup_member(members: &Vec<JsonMember>, key: &str) -> (r: Option<usize>)
    ensures
        r matches Some(i) ==> i < members@.len() && obj_field(members_view(members@), key@)
            == Some(members@[i as int].value@),
        r is None ==> obj_field(members_view(members@), key@) is None,
{
    let owned = String::from_str(key);
    match find_member(members, &owned) {
        Some(i) => {
            proof {
                lemma_key_index(members_view(members@), key@);
                lemma_members_view_index(members@, i as int);
            }
            Some(i)
        }
        None => None,
    }
}

/// Check each property subschema against the matching candidate member.
#[verifier::loop_isolation(false)]
fn properties_check(props: &Vec<JsonMember>, cand: &Vec<JsonMember>, v: &JsonValue) -> (r: bool)
    requires
        v@ == JsonView::Obj(members_view(cand@)),
    ensures
        r == properties_ok(members_view(props@), members_view(cand@)),
    decreases props, 1int,
{
    let ghost full = members_view(props@);
    let ghost cms = members_view(cand@);
    let mut i: usize = 0;
    proof {
        assert(full.subrange(0, full.len() as int) =~= full);
    }
    while i < props.len()
        invariant
            i <= props.len(),
            properties_ok(full, cms) == properties_ok(
                full.subrange(i as int, full.len() as int),
                cms,
            ),
        decreases props.len() - i,
    {
        let ghost sfx = full.subrange(i as int, full.len() as int);
        proof {
            assert(sfx[0] == full[i as int]);
            assert(sfx.drop_first() =~= full.subrange(i + 1 as int, full.len() as int));
        }
        match v.member_index(&props[i].key) {
            Some(ci) => {
                proof {
                    lemma_key_index(cms, props@[i as int].key@);
                    lemma_members_view_index(cand@, ci as int);
                    assert(decreases_to!(*props => props@));
                    assert(decreases_to!(props@ => props@[i as int]));
                    assert(decreases_to!(props@[i as int] => props@[i as int].value));
                }
                if !schema_check(&props[i].value, &cand[ci].value) {
                    return false;
                }
            }
            None => {
                proof {
                    assert(obj_field(cms, full[i as int].0) is None);
                }
            }
        }
        i = i + 1;
    }
    proof {
        assert(full.subrange(props@.len() as int, full.len() as int) =~= Seq::<(
            Seq<char>,
            JsonView,
        )>::empty());
    }
    true
}

/// Check each array element against the `items` subschema.
#[verifier::loop_isolation(false)]
fn items_check(item_schema: &JsonValue, elems: &Vec<JsonValue>, v: &JsonValue) -> (r: bool)
    requires
        v@ == JsonView::Arr(crate::json::elems_view(elems@)),
    ensures
        r == items_ok(item_schema@, crate::json::elems_view(elems@)),
    decreases item_schema, elems@.len() + 1,
{
    let ghost full = crate::json::elems_view(elems@);
    let mut i: usize = 0;
    proof {
        assert(full.subrange(0, full.len() as int) =~= full);
    }
    while i < elems.len()
        invariant
            i <= elems.len(),
            items_ok(item_schema@, full) == items_ok(
                item_schema@,
                full.subrange(i as int, full.len() as int),
            ),
        decreases elems.len() - i,
    {
        let ghost sfx = full.subrange(i as int, full.len() as int);
        proof {
            assert(sfx[0] == full[i as int]);
            assert(sfx.drop_first() =~= full.subrange(i + 1 as int, full.len() as int));
        }
        if !schema_check(item_schema, &elems[i]) {
            return false;
        }
        i = i + 1;
    }
    proof {
        assert(full.subrange(elems@.len() as int, full.len() as int)
            =~= Seq::<JsonView>::empty());
    }
    true
}

/// Check the candidate against each `anyOf` subschema until one accepts.
#[verifier::loop_isolation(false)]
fn any_of_check(schemas: &Vec<JsonValue>, v: &JsonValue) -> (r: bool)
    ensures
        r == any_of_ok(crate::json::elems_view(schemas@), v@),
    decreases schemas, 1int,
{
    let ghost full = crate::json::elems_view(schemas@);
    let mut i: usize = 0;
    proof {
        assert(full.subrange(0, full.len() as int) =~= full);
    }
    while i < schemas.len()
        invariant
            i <= schemas.len(),
            any_of_ok(full, v@) == any_of_ok(full.subrange(i as int, full.len() as int), v@),
        decreases schemas.len() - i,
    {
        let ghost sfx = full.subrange(i as int, full.len() as int);
        proof {
            assert(sfx[0] == full[i as int]);
            assert(sfx.drop_first() =~= full.subrange(i + 1 as int, full.len() as int));
            assert(decreases_to!(*schemas => schemas@));
            assert(decreases_to!(schemas@ => schemas@[i as int]));
        }
        if schema_check(&schemas[i], v) {
            return true;
        }
        i = i + 1;
    }
    proof {
        assert(full.subrange(schemas@.len() as int, full.len() as int)
            =~= Seq::<JsonView>::empty());
    }
    false
}

/// The messages the missing `required` names contribute, one per
/// missing member.
pub open spec fn required_errors(
    names: Seq<JsonView>,
    v: JsonView,
    path: Seq<char>,
) -> Seq<Seq<char>>
    decreases names.len(),
{
    if names.len() == 0 {
        Seq::empty()
    } else {
        let head: Seq<Seq<char>> = match names[0] {
            JsonView::Text(name) => if !(v is Obj) || key_index(v->Obj_0, name) >= 0 {
                Seq::empty()
            } else {
                seq![path + ": the required member "@ + name + " is missing"@]
            },
            _ => Seq::empty(),
        };
        head + required_errors(names.drop_first(), v, path)
    }
}

/// The messages the `properties` subschemas contribute, each under its
/// member's extended path.
pub open spec fn properties_errors(
    props: Seq<(Seq<char>, JsonView)>,
    candidate_members: Seq<(Seq<char>, JsonView)>,
    path: Seq<char>,
) -> Seq<Seq<char>>
    decreases props, 1int,
{
    if props.len() == 0 {
        Seq::empty()
    } else {
        let head: Seq<Seq<char>> = match obj_field(candidate_members, props[0].0) {
            Some(field) => schema_errors(props[0].1, field, path + "/"@ + props[0].0),
            None => Seq::empty(),
        };
        head + properties_errors(props.drop_first(), candidate_members, path)
    }
}

/// The messages the `items` subschema contributes, one element at a
/// time, each under its index path.
pub open spec fn items_errors(
    item_schema: JsonView,
    elems: Seq<JsonView>,
    path: Seq<char>,
    idx: int,
) -> Seq<Seq<char>>
    decreases item_schema, elems.len() + 1,
{
    if elems.len() == 0 {
        Seq::empty()
    } else {
        schema_errors(item_schema, elems[0], path + "/"@ + crate::render::nat_text(idx))
            + items_errors(item_schema, elems.drop_first(), path, idx + 1)
    }
}

/// Every violation the schema finds in the candidate, as one message per
/// violation, prefixed with the instance path.
pub open spec fn schema_errors(schema: JsonView, v: JsonView, path: Seq<char>) -> Seq<Seq<char>>
    decreases schema, 0int,
    via schema_errors_dec
{
    match schema {
        JsonView::Obj(ms) => {
            let type_part: Seq<Seq<char>> = if type_ok(ms, v) {
                Seq::empty()
            } else {
                seq![path + ": the value does not have the type the schema names"@]
            };
            let required_part: Seq<Seq<char>> = match obj_field(
                ms,
                seq!['r', 'e', 'q', 'u', 'i', 'r', 'e', 'd'],
            ) {
                Some(JsonView::Arr(names)) => required_errors(names, v, path),
                _ => Seq::empty(),
            };
            let props_part: Seq<Seq<char>> = match obj_field(
                ms,
                seq!['p', 'r', 'o', 'p', 'e', 'r', 't', 'i', 'e', 's'],
            ) {
                Some(JsonView::Obj(props)) => if v is Obj {
                    properties_errors(props, v->Obj_0, path)
                } else {
                    Seq::empty()
                },
                _ => Seq::empty(),
            };
            let items_part: Seq<Seq<char>> = match obj_field(ms, seq!['i', 't', 'e', 'm', 's']) {
                Some(item_schema) => if v is Arr {
                    items_errors(item_schema, v->Arr_0, path, 0)
                } else {
                    Seq::empty()
                },
                _ => Seq::empty(),
            };
            let enum_part: Seq<Seq<char>> = match obj_field(ms, seq!['e', 'n', 'u', 'm']) {
                Some(JsonView::Arr(allowed)) => if enum_ok(allowed, v) {
                    Seq::empty()
                } else {
                    seq![path + ": the value is not one of the allowed values"@]
                },
                _ => Seq::empty(),
            };
            let anyof_part: Seq<Seq<char>> = match obj_field(ms, seq!['a', 'n', 'y', 'O', 'f']) {
                Some(JsonView::Arr(schemas)) => if any_of_ok(schemas, v) {
                    Seq::empty()
                } else {
                    seq![path + ": the value matches none of the allowed variants"@]
                },
                _ => Seq::empty(),
            };
            type_part + required_part + props_part + items_part + enum_part + anyof_part
        }
        _ => Seq::empty(),
    }
}

#[via_fn]
proof fn schema_errors_dec(schema: JsonView, v: JsonView, path: Seq<char>) {
    match schema {
        JsonView::Obj(ms) => {
            assert(decreases_to!(schema => ms));
            let pk = seq!['p', 'r', 'o', 'p', 'e', 'r', 't', 'i', 'e', 's'];
            lemma_key_index(ms, pk);
            let pi = key_index(ms, pk);
            if pi >= 0 {
                assert(decreases_to!(ms => ms[pi]));
                assert(decreases_to!(ms[pi] => ms[pi].1));
                match ms[pi].1 {
                    JsonView::Obj(props) => {
                        assert(decreases_to!(ms[pi].1 => props));
                    }
                    _ => {}
                }
            }
            let ik = seq!['i', 't', 'e', 'm', 's'];
            lemma_key_index(ms, ik);
            let ii = key_index(ms, ik);
            if ii >= 0 {
                assert(decreases_to!(ms => ms[ii]));
                assert(decreases_to!(ms[ii] => ms[ii].1));
            }
        }
        _ => {}
    }
}

/// The error list is empty exactly when the schema accepts the
/// candidate.
pub proof fn lemma_schema_errors_empty(schema: JsonView, v: JsonView, path: Seq<char>)
    ensures
        (schema_errors(schema, v, path).len() == 0) == schema_ok(schema, v),
    decreases schema, 0int,
{
    match schema {
        JsonView::Obj(ms) => {
            match obj_field(ms, seq!['r', 'e', 'q', 'u', 'i', 'r', 'e', 'd']) {
                Some(JsonView::Arr(names)) => {
                    lemma_required_errors_empty(names, v, path);
                }
                _ => {}
            }
            match obj_field(ms, seq!['p', 'r', 'o', 'p', 'e', 'r', 't', 'i', 'e', 's']) {
                Some(JsonView::Obj(props)) => {
                    if v is Obj {
                        let pk = seq!['p', 'r', 'o', 'p', 'e', 'r', 't', 'i', 'e', 's'];
                        lemma_key_index(ms, pk);
                        let pi = key_index(ms, pk);
                        assert(decreases_to!(schema => ms));
                        assert(decreases_to!(ms => ms[pi]));
                        assert(decreases_to!(ms[pi] => ms[pi].1));
                        assert(decreases_to!(ms[pi].1 => props));
                        lemma_properties_errors_empty(props, v->Obj_0, path);
                    }
                }
                _ => {}
            }
            match obj_field(ms, seq!['i', 't', 'e', 'm', 's']) {
                Some(item_schema) => {
                    if v is Arr {
                        let ik = seq!['i', 't', 'e', 'm', 's'];
                        lemma_key_index(ms, ik);
                        let ii = key_index(ms, ik);
                        assert(decreases_to!(schema => ms));
                        assert(decreases_to!(ms => ms[ii]));
                        assert(decreases_to!(ms[ii] => ms[ii].1));
                        lemma_items_errors_empty(item_schema, v->Arr_0, path, 0);
                    }
                }
                _ => {}
            }
        }
        _ => {}
    }
}

proof fn lemma_required_errors_empty(names: Seq<JsonView>, v: JsonView, path: Seq<char>)
    ensures
        (required_errors(names, v, path).len() == 0) == required_ok(names, v),
    decreases names.len(),
{
    if names.len() > 0 {
        lemma_required_errors_empty(names.drop_first(), v, path);
    }
}

proof fn lemma_properties_errors_empty(
    props: Seq<(Seq<char>, JsonView)>,
    candidate_members: Seq<(Seq<char>, JsonView)>,
    path: Seq<char>,
)
    ensures
        (properties_errors(props, candidate_members, path).len() == 0) == properties_ok(
            props,
            candidate_members,
        ),
    decreases props, 2int,
{
    if props.len() > 0 {
        lemma_properties_errors_empty(props.drop_first(), candidate_members, path);
        match obj_field(candidate_members, props[0].0) {
            Some(field) => {
                assert(decreases_to!(props => props[0]));
                assert(decreases_to!(props[0] => props[0].1));
                lemma_schema_errors_empty(props[0].1, field, path + "/"@ + props[0].0);
            }
            None => {}
        }
    }
}

proof fn lemma_items_errors_empty(
    item_schema: JsonView,
    elems: Seq<JsonView>,
    path: Seq<char>,
    idx: int,
)
    ensures
        (items_errors(item_schema, elems, path, idx).len() == 0) == items_ok(item_schema, elems),
    decreases item_schema, elems.len() + 2,
{
    if elems.len() > 0 {
        lemma_items_errors_empty(item_schema, elems.drop_first(), path, idx + 1);
        lemma_schema_errors_empty(
            item_schema,
            elems[0],
            path + "/"@ + crate::render::nat_text(idx),
        );
    }
}

/// Move every element of `sub` onto the end of `out`.
#[verifier::loop_isolation(false)]
fn push_all(out: &mut Vec<String>, sub: Vec<String>)
    ensures
        crate::helpers::str_views(final(out)@) == crate::helpers::str_views(old(out)@)
            + crate::helpers::str_views(sub@),
{
    let ghost sv = crate::helpers::str_views(sub@);
    let ghost base = crate::helpers::str_views(old(out)@);
    let mut rest = sub;
    let n = rest.len();
    let mut taken: usize = 0;
    proof {
        assert(sv.subrange(0, 0) =~= Seq::<Seq<char>>::empty());
        assert(crate::helpers::str_views(out@) =~= base + sv.subrange(0, 0));
    }
    while taken < n
        invariant
            taken <= n,
            rest@.len() == n - taken,
            forall|j: int| 0 <= j < rest@.len() ==> (#[trigger] rest@[j])@ == sv[taken + j],
            crate::helpers::str_views(out@) =~= base + sv.subrange(0, taken as int),
        decreases n - taken,
    {
        let ghost out_top = crate::helpers::str_views(out@);
        let s = rest.remove(0);
        proof {
            assert(s@ == sv[taken as int]);
        }
        out.push(s);
        proof {
            let target = base + sv.subrange(0, taken + 1 as int);
            assert forall|j: int|
                0 <= j < out@.len() implies crate::helpers::str_views(out@)[j] == target[j] by {
                if j < out@.len() - 1 {
                    assert(crate::helpers::str_views(out@)[j] == out_top[j]);
                    assert(target[j] == (base + sv.subrange(0, taken as int))[j]);
                } else {
                    assert(crate::helpers::str_views(out@)[j] == s@);
                    assert(target[j] == sv[taken as int]);
                }
            }
            assert(crate::helpers::str_views(out@) =~= target);
        }
        taken = taken + 1;
    }
    proof {
        assert(sv.subrange(0, n as int) =~= sv);
    }
}

/// Collect every violation the schema finds in the candidate, one
/// message per violation, each prefixed with the instance path.
#[verifier::loop_isolation(false)]
#[verifier::rlimit(100)]
fn collect_schema_errors(schema: &JsonValue, v: &JsonValue, path: &String) -> (r: Vec<String>)
    ensures
        crate::helpers::str_views(r@) == schema_errors(schema@, v@, path@),
    decreases schema, 0int,
{
    let mut out: Vec<String> = Vec::new();
    let members = match schema {
        JsonValue::Obj(members) => members,
        other => {
            proof {
                lemma_view_variant(*other);
                assert(crate::helpers::str_views(out@) =~= schema_errors(schema@, v@, path@));
            }
            return out;
        }
    };
    let ghost ms = members_view(members@);
    proof {
        assert(schema@ == JsonView::Obj(ms));
    }
    let type_field = lookup_member(members, "type");
    match type_field {
        Some(ti) => {
            match &members[ti].value {
                JsonValue::Text(name) => {
                    if !type_name_check(name, v) {
                        let mut m = path.clone();
                        m.append(": the value does not have the type the schema names");
                        out.push(m);
                    }
                }
                other => {
                    proof {
                        lemma_view_variant(*other);
                    }
                }
            }
        }
        None => {}
    }
    proof {
        reveal_strlit("type");
        assert("type"@ =~= seq!['t', 'y', 'p', 'e']);
    }
    let ghost type_part: Seq<Seq<char>> = if type_ok(ms, v@) {
        Seq::empty()
    } else {
        seq![path@ + ": the value does not have the type the schema names"@]
    };
    proof {
        assert(crate::helpers::str_views(out@) =~= type_part);
    }
    let required_field = lookup_member(members, "required");
    match required_field {
        Some(ri) => {
            match &members[ri].value {
                JsonValue::Arr(names) => {
                    let ghost full = crate::json::elems_view(names@);
                    let mut i: usize = 0;
                    proof {
                        assert(full.subrange(0, full.len() as int) =~= full);
                    }
                    while i < names.len()
                        invariant
                            i <= names.len(),
                            crate::helpers::str_views(out@) + required_errors(
                                full.subrange(i as int, full.len() as int),
                                v@,
                                path@,
                            ) =~= type_part + required_errors(full, v@, path@),
                        decreases names.len() - i,
                    {
                        let ghost sfx = full.subrange(i as int, full.len() as int);
                        proof {
                            assert(sfx[0] == full[i as int]);
                            assert(sfx.drop_first() =~= full.subrange(
                                i + 1 as int,
                                full.len() as int,
                            ));
                        }
                        match &names[i] {
                            JsonValue::Text(name) => {
                                let missing = match v {
                                    JsonValue::Obj(_) => v.member_index(name).is_none(),
                                    other => {
                                        proof {
                                            lemma_view_variant(*other);
                                        }
                                        false
                                    }
                                };
                                if missing {
                                    let mut m = path.clone();
                                    m.append(": the required member ");
                                    m.append(name.as_str());
                                    m.append(" is missing");
                                    out.push(m);
                                }
                            }
                            other => {
                                proof {
                                    lemma_view_variant(*other);
                                }
                            }
                        }
                        i = i + 1;
                    }
                    proof {
                        assert(full.subrange(names@.len() as int, full.len() as int)
                            =~= Seq::<JsonView>::empty());
                    }
                }
                other => {
                    proof {
                        lemma_view_variant(*other);
                    }
                }
            }
        }
        None => {}
    }
    let ghost required_part: Seq<Seq<char>> = match crate::parse::obj_field(
        ms,
        seq!['r', 'e', 'q', 'u', 'i', 'r', 'e', 'd'],
    ) {
        Some(JsonView::Arr(names)) => required_errors(names, v@, path@),
        _ => Seq::empty(),
    };
    proof {
        reveal_strlit("required");
        assert("required"@ =~= seq!['r', 'e', 'q', 'u', 'i', 'r', 'e', 'd']);
        assert(crate::helpers::str_views(out@) =~= type_part + required_part);
    }
    let props_field = lookup_member(members, "properties");
    match props_field {
        Some(pi) => {
            match &members[pi].value {
                JsonValue::Obj(props) => {
                    match v {
                        JsonValue::Obj(cand) => {
                            let ghost pv = members_view(props@);
                            let ghost cms = members_view(cand@);
                            let mut j: usize = 0;
                            proof {
                                assert(v@ == JsonView::Obj(cms));
                                assert(pv.subrange(0, pv.len() as int) =~= pv);
                            }
                            while j < props.len()
                                invariant
                                    j <= props.len(),
                                    crate::helpers::str_views(out@) + properties_errors(
                                        pv.subrange(j as int, pv.len() as int),
                                        cms,
                                        path@,
                                    ) =~= type_part + required_part + properties_errors(
                                        pv,
                                        cms,
                                        path@,
                                    ),
                                decreases props.len() - j,
                            {
                                let ghost sfx = pv.subrange(j as int, pv.len() as int);
                                proof {
                                    assert(sfx[0] == pv[j as int]);
                                    assert(sfx.drop_first() =~= pv.subrange(
                                        j + 1 as int,
                                        pv.len() as int,
                                    ));
                                }
                                match v.member_index(&props[j].key) {
                                    Some(ci) => {
                                        let mut p2 = path.clone();
                                        p2.append("/");
                                        p2.append(props[j].key.as_str());
                                        proof {
                                            reveal_strlit("/");
                                            assert("/"@ =~= seq!['/']);
                                            lemma_key_index(cms, props@[j as int].key@);
                                            lemma_members_view_index(cand@, ci as int);
                                            assert(decreases_to!(*props => props@));
                                            assert(decreases_to!(props@ => props@[j as int]));
                                            assert(decreases_to!(props@[j as int] =>
                                                props@[j as int].value));
                                        }
                                        let sub = collect_schema_errors(
                                            &props[j].value,
                                            &cand[ci].value,
                                            &p2,
                                        );
                                        push_all(&mut out, sub);
                                    }
                                    None => {}
                                }
                                j = j + 1;
                            }
                            proof {
                                assert(pv.subrange(props@.len() as int, pv.len() as int) =~= Seq::<
                                    (Seq<char>, JsonView),
                                >::empty());
                            }
                        }
                        other => {
                            proof {
                                lemma_view_variant(*other);
                            }
                        }
                    }
                }
                other => {
                    proof {
                        lemma_view_variant(*other);
                    }
                }
            }
        }
        None => {}
    }
    let ghost props_part: Seq<Seq<char>> = match crate::parse::obj_field(
        ms,
        seq!['p', 'r', 'o', 'p', 'e', 'r', 't', 'i', 'e', 's'],
    ) {
        Some(JsonView::Obj(props)) => if v@ is Obj {
            properties_errors(props, v@->Obj_0, path@)
        } else {
            Seq::empty()
        },
        _ => Seq::empty(),
    };
    proof {
        reveal_strlit("properties");
        assert("properties"@ =~= seq!['p', 'r', 'o', 'p', 'e', 'r', 't', 'i', 'e', 's']);
        assert(crate::helpers::str_views(out@) =~= type_part + required_part + props_part);
    }
    let items_field = lookup_member(members, "items");
    match items_field {
        Some(ii) => {
            match v {
                JsonValue::Arr(elems) => {
                    let ghost full = crate::json::elems_view(elems@);
                    let mut k: usize = 0;
                    proof {
                        assert(v@ == JsonView::Arr(full));
                        assert(full.subrange(0, full.len() as int) =~= full);
                    }
                    while k < elems.len()
                        invariant
                            k <= elems.len(),
                            crate::helpers::str_views(out@) + items_errors(
                                members@[ii as int].value@,
                                full.subrange(k as int, full.len() as int),
                                path@,
                                k as int,
                            ) =~= type_part + required_part + props_part + items_errors(
                                members@[ii as int].value@,
                                full,
                                path@,
                                0,
                            ),
                        decreases elems.len() - k,
                    {
                        let ghost sfx = full.subrange(k as int, full.len() as int);
                        proof {
                            assert(sfx[0] == full[k as int]);
                            assert(sfx.drop_first() =~= full.subrange(
                                k + 1 as int,
                                full.len() as int,
                            ));
                        }
                        let mut p2 = path.clone();
                        p2.append("/");
                        crate::render::append_nat(&mut p2, k as u64);
                        proof {
                            reveal_strlit("/");
                            assert("/"@ =~= seq!['/']);
                            assert(decreases_to!(*members => members@));
                            assert(decreases_to!(members@ => members@[ii as int]));
                            assert(decreases_to!(members@[ii as int] =>
                                members@[ii as int].value));
                        }
                        let sub = collect_schema_errors(&members[ii].value, &elems[k], &p2);
                        push_all(&mut out, sub);
                        k = k + 1;
                    }
                    proof {
                        assert(full.subrange(elems@.len() as int, full.len() as int)
                            =~= Seq::<JsonView>::empty());
                    }
                }
                other => {
                    proof {
                        lemma_view_variant(*other);
                    }
                }
            }
        }
        None => {}
    }
    let ghost items_part: Seq<Seq<char>> = match crate::parse::obj_field(
        ms,
        seq!['i', 't', 'e', 'm', 's'],
    ) {
        Some(item_schema) => if v@ is Arr {
            items_errors(item_schema, v@->Arr_0, path@, 0)
        } else {
            Seq::empty()
        },
        _ => Seq::empty(),
    };
    proof {
        reveal_strlit("items");
        assert("items"@ =~= seq!['i', 't', 'e', 'm', 's']);
        assert(crate::helpers::str_views(out@) =~= type_part + required_part + props_part
            + items_part);
    }
    let enum_field = lookup_member(members, "enum");
    match enum_field {
        Some(ei) => {
            match &members[ei].value {
                JsonValue::Arr(allowed) => {
                    if !enum_check(allowed, v) {
                        let mut m = path.clone();
                        m.append(": the value is not one of the allowed values");
                        out.push(m);
                    }
                }
                other => {
                    proof {
                        lemma_view_variant(*other);
                    }
                }
            }
        }
        None => {}
    }
    let ghost enum_part: Seq<Seq<char>> = match crate::parse::obj_field(
        ms,
        seq!['e', 'n', 'u', 'm'],
    ) {
        Some(JsonView::Arr(allowed)) => if enum_ok(allowed, v@) {
            Seq::empty()
        } else {
            seq![path@ + ": the value is not one of the allowed values"@]
        },
        _ => Seq::empty(),
    };
    proof {
        reveal_strlit("enum");
        assert("enum"@ =~= seq!['e', 'n', 'u', 'm']);
        assert(crate::helpers::str_views(out@) =~= type_part + required_part + props_part
            + items_part + enum_part);
    }
    let anyof_field = lookup_member(members, "anyOf");
    match anyof_field {
        Some(ai) => {
            match &members[ai].value {
                JsonValue::Arr(schemas) => {
                    proof {
                        assert(decreases_to!(*members => members@));
                        assert(decreases_to!(members@ => members@[ai as int]));
                        assert(decreases_to!(members@[ai as int] => members@[ai as int].value));
                        assert(decreases_to!(members@[ai as int].value => *schemas));
                    }
                    if !any_of_check(schemas, v) {
                        let mut m = path.clone();
                        m.append(": the value matches none of the allowed variants");
                        out.push(m);
                    }
                }
                other => {
                    proof {
                        lemma_view_variant(*other);
                    }
                }
            }
        }
        None => {}
    }
    let ghost anyof_part: Seq<Seq<char>> = match crate::parse::obj_field(
        ms,
        seq!['a', 'n', 'y', 'O', 'f'],
    ) {
        Some(JsonView::Arr(schemas)) => if any_of_ok(schemas, v@) {
            Seq::empty()
        } else {
            seq![path@ + ": the value matches none of the allowed variants"@]
        },
        _ => Seq::empty(),
    };
    proof {
        reveal_strlit("anyOf");
        assert("anyOf"@ =~= seq!['a', 'n', 'y', 'O', 'f']);
        assert(crate::helpers::str_views(out@) =~= type_part + required_part + props_part
            + items_part + enum_part + anyof_part);
        assert(crate::helpers::str_views(out@) =~= schema_errors(schema@, v@, path@));
    }
    out
}

/// Collect the schema findings for a candidate: one message per
/// violation, prefixed with its instance path, and an empty list exactly
/// when the schema accepts the candidate.
pub fn validation_errors(schema: &JsonValue, v: &JsonValue) -> (r: Vec<String>)
    ensures
        crate::helpers::str_views(r@) == schema_errors(schema@, v@, Seq::<char>::empty()),
        (r@.len() == 0) == schema_ok(schema@, v@),
{
    let root = String::new();
    let r = collect_schema_errors(schema, v, &root);
    proof {
        lemma_schema_errors_empty(schema@, v@, Seq::<char>::empty());
    }
    r
}

} // verus!
