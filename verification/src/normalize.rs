//! Repairing a raw candidate against the target schema.
//!
//! Models often emit a flattened or padded shape for tagged unions: variant
//! fields merged into one object with nulls for the fields that do not
//! apply, a bare discriminator string, or an enum value spelt loosely. The
//! normalizer runs four passes over the whole tree, schema in hand: prune
//! nulls, rebuild externally tagged wrappers, coerce enum strings, and
//! recover internally tagged discriminators. Each pass is a pure function
//! of the candidate and the schema.

use vstd::prelude::*;

use crate::json::{
    find_member, group_json_view_lemmas, json_eq, key_index, lemma_key_index,
    lemma_members_view_index, lemma_view_variant, members_view, JsonMember, JsonValue, JsonView,
};
use crate::parse::obj_field;

verus! {

broadcast use group_json_view_lemmas;

/// The members that survive pruning: each value pruned, the null ones
/// dropped.
pub open spec fn prune_members(ms: Seq<(Seq<char>, JsonView)>) -> Seq<(Seq<char>, JsonView)>
    decreases ms, 1int,
{
    if ms.len() == 0 {
        Seq::empty()
    } else {
        let rest = prune_members(ms.drop_last());
        let pv = prune(ms.last().1);
        if pv is Null {
            rest
        } else {
            rest.push((ms.last().0, pv))
        }
    }
}

/// The elements that survive pruning: each element pruned, the null ones
/// dropped.
pub open spec fn prune_elems(es: Seq<JsonView>) -> Seq<JsonView>
    decreases es, 1int,
{
    if es.len() == 0 {
        Seq::empty()
    } else {
        let rest = prune_elems(es.drop_last());
        let pv = prune(es.last());
        if pv is Null {
            rest
        } else {
            rest.push(pv)
        }
    }
}

/// The first pass: remove every object member whose value is null, and
/// every null array element, throughout the tree.
pub open spec fn prune(v: JsonView) -> JsonView
    decreases v, 0int,
{
    match v {
        JsonView::Obj(ms) => JsonView::Obj(prune_members(ms)),
        JsonView::Arr(es) => JsonView::Arr(prune_elems(es)),
        other => other,
    }
}

/// Pruning keeps the constructor: only a null input prunes to null.
pub proof fn lemma_prune_null_iff(v: JsonView)
    ensures
        (prune(v) is Null) == (v is Null),
{
    match v {
        JsonView::Obj(_) => {}
        JsonView::Arr(_) => {}
        _ => {}
    }
}

/// Pruning twice is pruning once.
pub proof fn lemma_prune_idempotent(v: JsonView)
    ensures
        prune(prune(v)) == prune(v),
    decreases v, 0int,
{
    match v {
        JsonView::Obj(ms) => {
            lemma_prune_members_idempotent(ms);
        }
        JsonView::Arr(es) => {
            lemma_prune_elems_idempotent(es);
        }
        _ => {}
    }
}

proof fn lemma_prune_members_idempotent(ms: Seq<(Seq<char>, JsonView)>)
    ensures
        prune_members(prune_members(ms)) == prune_members(ms),
    decreases ms, 1int,
{
    if ms.len() > 0 {
        lemma_prune_members_idempotent(ms.drop_last());
        let rest = prune_members(ms.drop_last());
        let pv = prune(ms.last().1);
        if pv is Null {
        } else {
            lemma_prune_idempotent(ms.last().1);
            lemma_prune_null_iff(ms.last().1);
            let whole = rest.push((ms.last().0, pv));
            assert(whole.drop_last() =~= rest);
            assert(whole.last() == (ms.last().0, pv));
            assert(prune_members(whole) == prune_members(rest).push((ms.last().0, prune(pv))));
        }
    }
}

proof fn lemma_prune_elems_idempotent(es: Seq<JsonView>)
    ensures
        prune_elems(prune_elems(es)) == prune_elems(es),
    decreases es, 1int,
{
    if es.len() > 0 {
        lemma_prune_elems_idempotent(es.drop_last());
        let rest = prune_elems(es.drop_last());
        let pv = prune(es.last());
        if pv is Null {
        } else {
            lemma_prune_idempotent(es.last());
            lemma_prune_null_iff(es.last());
            let whole = rest.push(pv);
            assert(whole.drop_last() =~= rest);
            assert(whole.last() == pv);
            assert(prune_elems(whole) == prune_elems(rest).push(prune(pv)));
        }
    }
}

/// Prune the candidate: drop null members and null elements throughout.
#[verifier::loop_isolation(false)]
pub fn prune_nulls(v: JsonValue) -> (r: JsonValue)
    ensures
        r@ == prune(v@),
    decreases v,
{
    match v {
        JsonValue::Obj(members) => {
            let ghost ms0 = members@;
            let mut out: Vec<JsonMember> = Vec::new();
            let mut i: usize = 0;
            proof {
                assert(ms0.subrange(0, 0) =~= Seq::<JsonMember>::empty());
                assert(members_view(ms0.subrange(0, 0)) =~= Seq::<(Seq<char>, JsonView)>::empty());
            }
            let mut members = members;
            let n = members.len();
            let mut taken: usize = 0;
            while taken < n
                invariant
                    taken <= n,
                    members@ =~= ms0.subrange(taken as int, n as int),
                    members_view(out@) =~= prune_members(members_view(ms0.subrange(
                        0,
                        taken as int,
                    ))),
                decreases n - taken,
            {
                let m = members.remove(0);
                proof {
                    assert(ms0.subrange(taken as int, n as int).drop_first() =~= ms0.subrange(
                        taken + 1 as int,
                        n as int,
                    ));
                    assert(m == ms0[taken as int]);
                    assert(decreases_to!(ms0 => ms0[taken as int]));
                    assert(decreases_to!(ms0[taken as int] => ms0[taken as int].value));
                }
                let key = m.key;
                let pruned = prune_nulls(m.value);
                let keep = match &pruned {
                    JsonValue::Null => false,
                    other => {
                        proof {
                            lemma_view_variant(*other);
                        }
                        true
                    }
                };
                let ghost done0 = members_view(ms0.subrange(0, taken as int));
                let ghost done1 = members_view(ms0.subrange(0, taken + 1 as int));
                proof {
                    assert(ms0.subrange(0, taken + 1 as int).drop_last() =~= ms0.subrange(
                        0,
                        taken as int,
                    ));
                    assert(ms0.subrange(0, taken + 1 as int).last() == ms0[taken as int]);
                    assert(done1 =~= done0.push(
                        (ms0[taken as int].key@, crate::json::json_view(ms0[taken as int].value)),
                    ));
                    assert(done1.drop_last() =~= done0);
                }
                if keep {
                    out.push(JsonMember { key, value: pruned });
                    proof {
                        assert(members_view(out@) =~= prune_members(done1));
                    }
                } else {
                    proof {
                        assert(members_view(out@) =~= prune_members(done1));
                    }
                }
                taken = taken + 1;
            }
            proof {
                assert(ms0.subrange(0, n as int) =~= ms0);
            }
            JsonValue::Obj(out)
        }
        JsonValue::Arr(items) => {
            let ghost es0 = items@;
            let mut out: Vec<JsonValue> = Vec::new();
            let mut items = items;
            let n = items.len();
            let mut taken: usize = 0;
            proof {
                assert(crate::json::elems_view(es0.subrange(0, 0)) =~= Seq::<JsonView>::empty());
            }
            while taken < n
                invariant
                    taken <= n,
                    items@ =~= es0.subrange(taken as int, n as int),
                    crate::json::elems_view(out@) =~= prune_elems(crate::json::elems_view(
                        es0.subrange(0, taken as int),
                    )),
                decreases n - taken,
            {
                let e = items.remove(0);
                proof {
                    assert(es0.subrange(taken as int, n as int).drop_first() =~= es0.subrange(
                        taken + 1 as int,
                        n as int,
                    ));
                    assert(e == es0[taken as int]);
                    assert(decreases_to!(es0 => es0[taken as int]));
                }
                let pruned = prune_nulls(e);
                let keep = match &pruned {
                    JsonValue::Null => false,
                    other => {
                        proof {
                            lemma_view_variant(*other);
                        }
                        true
                    }
                };
                let ghost dv0 = crate::json::elems_view(es0.subrange(0, taken as int));
                let ghost dv1 = crate::json::elems_view(es0.subrange(0, taken + 1 as int));
                proof {
                    assert(es0.subrange(0, taken + 1 as int).drop_last() =~= es0.subrange(
                        0,
                        taken as int,
                    ));
                    assert(es0.subrange(0, taken + 1 as int).last() == es0[taken as int]);
                    assert(dv1 =~= dv0.push(crate::json::json_view(es0[taken as int])));
                    assert(dv1.drop_last() =~= dv0);
                }
                if keep {
                    out.push(pruned);
                    proof {
                        assert(crate::json::elems_view(out@) =~= prune_elems(dv1));
                    }
                } else {
                    proof {
                        assert(crate::json::elems_view(out@) =~= prune_elems(dv1));
                    }
                }
                taken = taken + 1;
            }
            proof {
                assert(es0.subrange(0, n as int) =~= es0);
            }
            JsonValue::Arr(out)
        }
        other => {
            proof {
                lemma_view_variant(other);
            }
            other
        }
    }
}

/// Whether a character is an ASCII letter or digit.
pub open spec fn is_alnum(c: char) -> bool {
    ('a' <= c && c <= 'z') || ('A' <= c && c <= 'Z') || ('0' <= c && c <= '9')
}

/// Whether two characters are equal up to ASCII case.
pub open spec fn char_eq_ci(x: char, y: char) -> bool {
    ||| x == y
    ||| (x as int == y as int + 32 && 'a' <= x && x <= 'z')
    ||| (y as int == x as int + 32 && 'a' <= y && y <= 'z')
}

/// The text with everything but ASCII letters and digits removed.
pub open spec fn strip_punct(s: Seq<char>) -> Seq<char>
    decreases s.len(),
{
    if s.len() == 0 {
        Seq::empty()
    } else if is_alnum(s.last()) {
        strip_punct(s.drop_last()).push(s.last())
    } else {
        strip_punct(s.drop_last())
    }
}

/// Whether two texts agree character by character up to ASCII case.
pub open spec fn seq_eq_ci(a: Seq<char>, b: Seq<char>) -> bool {
    a.len() == b.len() && forall|i: int| 0 <= i < a.len() ==> char_eq_ci(#[trigger] a[i], b[i])
}

/// Whether a loosely spelt candidate matches an allowed enum text: equal
/// after case folding and punctuation stripping, or the allowed text is a
/// leading word of the candidate.
pub open spec fn ci_match(allowed: Seq<char>, cand: Seq<char>) -> bool {
    let sa = strip_punct(allowed);
    let sc = strip_punct(cand);
    ||| seq_eq_ci(sa, sc)
    ||| (sa.len() < sc.len() && seq_eq_ci(sa, sc.subrange(0, sa.len() as int)))
}

/// Strip a text to its ASCII letters and digits.
#[verifier::loop_isolation(false)]
fn strip_punct_text(s: &str) -> (r: String)
    ensures
        r@ == strip_punct(s@),
{
    let n = s.unicode_len();
    let mut out = String::new();
    let mut i: usize = 0;
    proof {
        assert(strip_punct(s@.subrange(0, 0)) =~= Seq::<char>::empty());
        assert(out@ =~= strip_punct(s@.subrange(0, 0)));
    }
    while i < n
        invariant
            i <= n,
            out@ == strip_punct(s@.subrange(0, i as int)),
        decreases n - i,
    {
        let c = s.get_char(i);
        let keep = (('a' <= c && c <= 'z') || ('A' <= c && c <= 'Z') || ('0' <= c && c <= '9'));
        if keep {
            out.append(s.substring_char(i, i + 1));
        }
        proof {
            assert(s@.subrange(0, i + 1 as int).drop_last() =~= s@.subrange(0, i as int));
            assert(s@.subrange(0, i + 1 as int).last() == c);
            assert(out@ =~= strip_punct(s@.subrange(0, i + 1 as int)));
        }
        i = i + 1;
    }
    proof {
        assert(s@.subrange(0, n as int) =~= s@);
    }
    out
}

/// Compare two texts character by character up to ASCII case.
#[verifier::loop_isolation(false)]
fn eq_ci_text(a: &str, b: &str) -> (r: bool)
    ensures
        r == seq_eq_ci(a@, b@),
{
    let na = a.unicode_len();
    let nb = b.unicode_len();
    if na != nb {
        return false;
    }
    let mut i: usize = 0;
    while i < na
        invariant
            i <= na,
            forall|j: int| 0 <= j < i as int ==> char_eq_ci(#[trigger] a@[j], b@[j]),
        decreases na - i,
    {
        let x = a.get_char(i);
        let y = b.get_char(i);
        let xi = x as u32;
        let yi = y as u32;
        let ok = x == y || (xi == yi + 32 && 'a' <= x && x <= 'z') || (yi == xi + 32 && 'a' <= y
            && y <= 'z');
        if !ok {
            proof {
                assert(!char_eq_ci(a@[i as int], b@[i as int]));
            }
            return false;
        }
        i = i + 1;
    }
    true
}

/// Whether a loosely spelt candidate matches an allowed enum text.
fn ci_match_text(allowed: &str, cand: &str) -> (r: bool)
    ensures
        r == ci_match(allowed@, cand@),
{
    let sa = strip_punct_text(allowed);
    let sc = strip_punct_text(cand);
    if eq_ci_text(sa.as_str(), sc.as_str()) {
        return true;
    }
    let la = sa.as_str().unicode_len();
    let lc = sc.as_str().unicode_len();
    if la < lc {
        let prefix = sc.as_str().substring_char(0, la);
        eq_ci_text(sa.as_str(), prefix)
    } else {
        false
    }
}

/// Which repair a walk applies at each node.
#[derive(Clone, Copy, Debug, PartialEq, Eq)]
pub enum RepairKind {
    /// Rebuild `{"Variant": {...}}` wrappers from flattened objects.
    Unflatten,
    /// Coerce loosely spelt strings onto allowed enum values.
    Coerce,
    /// Inject or repair an internal `type` discriminator.
    Recover,
}

/// The member list under a `properties` keyword, when the schema has one.
pub open spec fn props_of(x: JsonView) -> Option<Seq<(Seq<char>, JsonView)>> {
    if x is Obj && (obj_field(x->Obj_0, seq!['p', 'r', 'o', 'p', 'e', 'r', 't', 'i', 'e', 's'])
        matches Some(JsonView::Obj(props))) {
        Some(
            obj_field(x->Obj_0, seq!['p', 'r', 'o', 'p', 'e', 'r', 't', 'i', 'e', 's'])
                ->Some_0->Obj_0,
        )
    } else {
        None
    }
}

/// An externally tagged variant schema: exactly one property, the variant
/// name, wrapping the payload schema.
pub open spec fn single_prop(variant: JsonView) -> Option<(Seq<char>, JsonView)> {
    match props_of(variant) {
        Some(props) => if props.len() == 1 {
            Some((props[0].0, props[0].1))
        } else {
            None
        },
        None => None,
    }
}

/// Whether every member key occurs among the property keys.
pub open spec fn keys_subset(
    cms: Seq<(Seq<char>, JsonView)>,
    props: Seq<(Seq<char>, JsonView)>,
) -> bool
    decreases cms.len(),
{
    if cms.len() == 0 {
        true
    } else {
        key_index(props, cms[0].0) >= 0 && keys_subset(cms.drop_first(), props)
    }
}

/// Whether some property key equals `k` up to ASCII case.
pub open spec fn has_key_ci(props: Seq<(Seq<char>, JsonView)>, k: Seq<char>) -> bool
    decreases props.len(),
{
    if props.len() == 0 {
        false
    } else {
        seq_eq_ci(props[0].0, k) || has_key_ci(props.drop_first(), k)
    }
}

/// Whether every member key occurs among the property keys up to ASCII
/// case.
pub open spec fn keys_subset_ci(
    cms: Seq<(Seq<char>, JsonView)>,
    props: Seq<(Seq<char>, JsonView)>,
) -> bool
    decreases cms.len(),
{
    if cms.len() == 0 {
        true
    } else {
        has_key_ci(props, cms[0].0) && keys_subset_ci(cms.drop_first(), props)
    }
}

/// Whether a payload schema asks for an array.
pub open spec fn payload_is_array(payload: JsonView) -> bool {
    payload is Obj && obj_field(payload->Obj_0, seq!['t', 'y', 'p', 'e']) == Some(
        JsonView::Text(seq!['a', 'r', 'r', 'a', 'y']),
    )
}

/// Walk the variants for one the candidate can be wrapped into: an
/// already tagged candidate is kept; a single key differing only in case
/// is renamed; a flat object whose field set matches the payload exactly,
/// or a bare array where the payload wants one, is wrapped.
pub open spec fn unflatten_scan(variants: Seq<JsonView>, v: JsonView) -> Option<JsonView>
    decreases variants.len(),
{
    if variants.len() == 0 {
        None
    } else {
        match single_prop(variants[0]) {
            Some((name, payload)) => {
                if v is Obj && v->Obj_0.len() == 1 && v->Obj_0[0].0 == name {
                    Some(v)
                } else if v is Obj && v->Obj_0.len() == 1 && seq_eq_ci(v->Obj_0[0].0, name) {
                    Some(JsonView::Obj(seq![(name, v->Obj_0[0].1)]))
                } else if v is Obj && (props_of(payload) matches Some(pprops)
                    && v->Obj_0.len() == pprops.len() && keys_subset(v->Obj_0, pprops)) {
                    Some(JsonView::Obj(seq![(name, v)]))
                } else if v is Arr && payload_is_array(payload) {
                    Some(JsonView::Obj(seq![(name, v)]))
                } else {
                    unflatten_scan(variants.drop_first(), v)
                }
            }
            None => unflatten_scan(variants.drop_first(), v),
        }
    }
}

/// The second pass's node rule.
pub open spec fn unflatten_node(v: JsonView, schema: JsonView) -> JsonView {
    if schema is Obj && (obj_field(schema->Obj_0, seq!['a', 'n', 'y', 'O', 'f']) matches Some(
        JsonView::Arr(variants),
    )) {
        match unflatten_scan(
            obj_field(schema->Obj_0, seq!['a', 'n', 'y', 'O', 'f'])->Some_0->Arr_0,
            v,
        ) {
            Some(w) => w,
            None => v,
        }
    } else {
        v
    }
}

/// Walk the allowed enum texts for one the candidate text loosely
/// matches.
pub open spec fn coerce_scan(allowed: Seq<JsonView>, t: Seq<char>) -> Option<Seq<char>>
    decreases allowed.len(),
{
    if allowed.len() == 0 {
        None
    } else {
        match allowed[0] {
            JsonView::Text(e) => if ci_match(e, t) {
                Some(e)
            } else {
                coerce_scan(allowed.drop_first(), t)
            },
            _ => coerce_scan(allowed.drop_first(), t),
        }
    }
}

/// The third pass's node rule: a string that is not an allowed enum value
/// becomes the first allowed value it loosely matches.
pub open spec fn coerce_node(v: JsonView, schema: JsonView) -> JsonView {
    if schema is Obj && (obj_field(schema->Obj_0, seq!['e', 'n', 'u', 'm']) matches Some(
        JsonView::Arr(allowed),
    )) && v is Text && !crate::validate::enum_ok(
        obj_field(schema->Obj_0, seq!['e', 'n', 'u', 'm'])->Some_0->Arr_0,
        v,
    ) {
        match coerce_scan(
            obj_field(schema->Obj_0, seq!['e', 'n', 'u', 'm'])->Some_0->Arr_0,
            v->Text_0,
        ) {
            Some(e) => JsonView::Text(e),
            None => v,
        }
    } else {
        v
    }
}

/// The tag text an internally tagged variant schema fixes for its `type`
/// property, through `const` or a single-value `enum`.
pub open spec fn internal_tag(variant: JsonView) -> Option<Seq<char>> {
    match props_of(variant) {
        Some(props) => match obj_field(props, seq!['t', 'y', 'p', 'e']) {
            Some(JsonView::Obj(tp)) => {
                if obj_field(tp, seq!['c', 'o', 'n', 's', 't']) matches Some(JsonView::Text(t)) {
                    Some(obj_field(tp, seq!['c', 'o', 'n', 's', 't'])->Some_0->Text_0)
                } else if obj_field(tp, seq!['e', 'n', 'u', 'm']) matches Some(JsonView::Arr(a))
                    && a.len() == 1 && a[0] is Text {
                    Some(obj_field(tp, seq!['e', 'n', 'u', 'm'])->Some_0->Arr_0[0]->Text_0)
                } else {
                    None
                }
            }
            _ => None,
        },
        None => None,
    }
}

/// Walk the variants for a tag equal to the bare string, up to case.
pub open spec fn recover_scan_text(variants: Seq<JsonView>, s: Seq<char>) -> Option<Seq<char>>
    decreases variants.len(),
{
    if variants.len() == 0 {
        None
    } else {
        match internal_tag(variants[0]) {
            Some(t) => if seq_eq_ci(s, t) {
                Some(t)
            } else {
                recover_scan_text(variants.drop_first(), s)
            },
            None => recover_scan_text(variants.drop_first(), s),
        }
    }
}

/// Walk the variants for one whose fields cover the object's keys, up to
/// case.
pub open spec fn recover_scan_obj(
    variants: Seq<JsonView>,
    cms: Seq<(Seq<char>, JsonView)>,
) -> Option<Seq<char>>
    decreases variants.len(),
{
    if variants.len() == 0 {
        None
    } else {
        match internal_tag(variants[0]) {
            Some(t) => if props_of(variants[0]) matches Some(props) && keys_subset_ci(
                cms,
                props,
            ) {
                Some(t)
            } else {
                recover_scan_obj(variants.drop_first(), cms)
            },
            None => recover_scan_obj(variants.drop_first(), cms),
        }
    }
}

/// The fourth pass's node rule: a bare string becomes `{"type": tag}`;
/// an object without a `type` member gets the matching variant's tag
/// injected in front.
pub open spec fn recover_node(v: JsonView, schema: JsonView) -> JsonView {
    if schema is Obj && (obj_field(schema->Obj_0, seq!['a', 'n', 'y', 'O', 'f']) matches Some(
        JsonView::Arr(variants),
    )) {
        let vars = obj_field(schema->Obj_0, seq!['a', 'n', 'y', 'O', 'f'])->Some_0->Arr_0;
        if v is Text {
            match recover_scan_text(vars, v->Text_0) {
                Some(t) => JsonView::Obj(seq![(seq!['t', 'y', 'p', 'e'], JsonView::Text(t))]),
                None => v,
            }
        } else if v is Obj && key_index(v->Obj_0, seq!['t', 'y', 'p', 'e']) < 0 {
            match recover_scan_obj(vars, v->Obj_0) {
                Some(t) => JsonView::Obj(
                    seq![(seq!['t', 'y', 'p', 'e'], JsonView::Text(t))] + v->Obj_0,
                ),
                None => v,
            }
        } else {
            v
        }
    } else {
        v
    }
}

/// The repair one kind applies at a node.
pub open spec fn repair_node(kind: RepairKind, v: JsonView, schema: JsonView) -> JsonView {
    match kind {
        RepairKind::Unflatten => unflatten_node(v, schema),
        RepairKind::Coerce => coerce_node(v, schema),
        RepairKind::Recover => recover_node(v, schema),
    }
}

/// One repair pass over the whole tree: the node rule first, then the
/// members and elements that have subschemas under `properties` and
/// `items`.
pub open spec fn repair_walk(kind: RepairKind, v: JsonView, schema: JsonView) -> JsonView
    decreases schema, 0int,
    via repair_walk_dec
{
    let w = repair_node(kind, v, schema);
    if schema is Obj {
        let ms = schema->Obj_0;
        let w2 = if w is Obj && (obj_field(ms, seq!['p', 'r', 'o', 'p', 'e', 'r', 't', 'i', 'e',
            's']) matches Some(JsonView::Obj(props))) {
            JsonView::Obj(
                repair_members(
                    kind,
                    w->Obj_0,
                    obj_field(ms, seq!['p', 'r', 'o', 'p', 'e', 'r', 't', 'i', 'e', 's'])
                        ->Some_0->Obj_0,
                ),
            )
        } else {
            w
        };
        if w2 is Arr && obj_field(ms, seq!['i', 't', 'e', 'm', 's']) is Some {
            JsonView::Arr(
                repair_elems(
                    kind,
                    w2->Arr_0,
                    obj_field(ms, seq!['i', 't', 'e', 'm', 's'])->Some_0,
                ),
            )
        } else {
            w2
        }
    } else {
        w
    }
}

/// Repair each member that has a property subschema.
pub open spec fn repair_members(
    kind: RepairKind,
    cms: Seq<(Seq<char>, JsonView)>,
    props: Seq<(Seq<char>, JsonView)>,
) -> Seq<(Seq<char>, JsonView)>
    decreases props, cms.len() + 1,
    via repair_members_dec
{
    if cms.len() == 0 {
        Seq::empty()
    } else {
        let rest = repair_members(kind, cms.drop_last(), props);
        let m = cms.last();
        let nv = match obj_field(props, m.0) {
            Some(sub) => repair_walk(kind, m.1, sub),
            None => m.1,
        };
        rest.push((m.0, nv))
    }
}

/// Repair each element against the `items` subschema.
pub open spec fn repair_elems(
    kind: RepairKind,
    es: Seq<JsonView>,
    item_schema: JsonView,
) -> Seq<JsonView>
    decreases item_schema, es.len() + 1,
{
    if es.len() == 0 {
        Seq::empty()
    } else {
        repair_elems(kind, es.drop_last(), item_schema).push(
            repair_walk(kind, es.last(), item_schema),
        )
    }
}

#[via_fn]
proof fn repair_walk_dec(kind: RepairKind, v: JsonView, schema: JsonView) {
    match schema {
        JsonView::Obj(ms) => {
            assert(decreases_to!(schema => ms));
            let pk = seq!['p', 'r', 'o', 'p', 'e', 'r', 't', 'i', 'e', 's'];
            lemma_key_index(ms, pk);
            let pi = key_index(ms, pk);
            if pi >= 0 {
                assert(decreases_to!(ms => ms[pi]));
                assert(decreases_to!(ms[pi] => ms[pi].1));
                match ms[pi].1 {
                    JsonView::Obj(props) => {
                        assert(decreases_to!(ms[pi].1 => props));
                    }
                    _ => {}
                }
            }
            let ik = seq!['i', 't', 'e', 'm', 's'];
            lemma_key_index(ms, ik);
            let ii = key_index(ms, ik);
            if ii >= 0 {
                assert(decreases_to!(ms => ms[ii]));
                assert(decreases_to!(ms[ii] => ms[ii].1));
            }
        }
        _ => {}
    }
}

#[via_fn]
proof fn repair_members_dec(
    kind: RepairKind,
    cms: Seq<(Seq<char>, JsonView)>,
    props: Seq<(Seq<char>, JsonView)>,
) {
    if cms.len() > 0 {
        let m = cms.last();
        lemma_key_index(props, m.0);
        let i = key_index(props, m.0);
        if i >= 0 {
            assert(decreases_to!(props => props[i]));
            assert(decreases_to!(props[i] => props[i].1));
        }
    }
}

/// The four-pass normalizer: prune nulls, rebuild external tags, coerce
/// enum strings, recover internal tags.
pub open spec fn normalize_spec(v: JsonView, schema: JsonView) -> JsonView {
    repair_walk(
        RepairKind::Recover,
        repair_walk(
            RepairKind::Coerce,
            repair_walk(RepairKind::Unflatten, prune(v), schema),
            schema,
        ),
        schema,
    )
}

/// The member list under `properties`, when the schema node carries one.
fn get_props<'a>(x: &'a JsonValue) -> (r: Option<&'a Vec<JsonMember>>)
    ensures
        r matches Some(props) ==> props_of(x@) == Some(members_view(props@)),
        r is None ==> props_of(x@) is None,
{
    match x {
        JsonValue::Obj(members) => {
            proof {
                assert(x@ == JsonView::Obj(members_view(members@)));
            }
            match crate::validate::lookup_member(members, "properties") {
                Some(i) => {
                    proof {
                        reveal_strlit("properties");
                        assert("properties"@ =~= seq!['p', 'r', 'o', 'p', 'e', 'r', 't', 'i',
                            'e', 's']);
                    }
                    match &members[i].value {
                        JsonValue::Obj(props) => Some(props),
                        other => {
                            proof {
                                lemma_view_variant(*other);
                            }
                            None
                        }
                    }
                }
                None => {
                    proof {
                        reveal_strlit("properties");
                        assert("properties"@ =~= seq!['p', 'r', 'o', 'p', 'e', 'r', 't', 'i',
                            'e', 's']);
                    }
                    None
                }
            }
        }
        other => {
            proof {
                lemma_view_variant(*other);
            }
            None
        }
    }
}

/// The single variant name and payload of an externally tagged variant
/// schema.
fn single_prop_of(variant: &JsonValue) -> (r: Option<(String, JsonValue)>)
    ensures
        r matches Some(np) ==> single_prop(variant@) == Some((np.0@, np.1@)),
        r is None ==> single_prop(variant@) is None,
{
    match get_props(variant) {
        Some(props) => {
            if props.len() == 1 {
                proof {
                    lemma_members_view_index(props@, 0);
                }
                Some((props[0].key.clone(), props[0].value.clone()))
            } else {
                None
            }
        }
        None => None,
    }
}

/// Check that every member key occurs among the property keys.
#[verifier::loop_isolation(false)]
fn keys_subset_check(cms: &Vec<JsonMember>, props: &Vec<JsonMember>) -> (r: bool)
    ensures
        r == keys_subset(members_view(cms@), members_view(props@)),
{
    let ghost full = members_view(cms@);
    let ghost pv = members_view(props@);
    let mut i: usize = 0;
    proof {
        assert(full.subrange(0, full.len() as int) =~= full);
    }
    while i < cms.len()
        invariant
            i <= cms.len(),
            keys_subset(full, pv) == keys_subset(full.subrange(i as int, full.len() as int), pv),
        decreases cms.len() - i,
    {
        let ghost sfx = full.subrange(i as int, full.len() as int);
        proof {
            assert(sfx[0] == full[i as int]);
            assert(sfx.drop_first() =~= full.subrange(i + 1 as int, full.len() as int));
        }
        match find_member(props, &cms[i].key) {
            Some(_) => {}
            None => {
                return false;
            }
        }
        i = i + 1;
    }
    proof {
        assert(full.subrange(cms@.len() as int, full.len() as int) =~= Seq::<(
            Seq<char>,
            JsonView,
        )>::empty());
    }
    true
}

/// Check whether some property key equals `k` up to ASCII case.
#[verifier::loop_isolation(false)]
fn has_key_ci_check(props: &Vec<JsonMember>, k: &String) -> (r: bool)
    ensures
        r == has_key_ci(members_view(props@), k@),
{
    let ghost pv = members_view(props@);
    let mut i: usize = 0;
    proof {
        assert(pv.subrange(0, pv.len() as int) =~= pv);
    }
    while i < props.len()
        invariant
            i <= props.len(),
            has_key_ci(pv, k@) == has_key_ci(pv.subrange(i as int, pv.len() as int), k@),
        decreases props.len() - i,
    {
        let ghost sfx = pv.subrange(i as int, pv.len() as int);
        proof {
            assert(sfx[0] == pv[i as int]);
            assert(sfx.drop_first() =~= pv.subrange(i + 1 as int, pv.len() as int));
        }
        if eq_ci_text(props[i].key.as_str(), k.as_str()) {
            return true;
        }
        i = i + 1;
    }
    proof {
        assert(pv.subrange(props@.len() as int, pv.len() as int) =~= Seq::<(
            Seq<char>,
            JsonView,
        )>::empty());
    }
    false
}

/// Check that every member key occurs among the property keys up to ASCII
/// case.
#[verifier::loop_isolation(false)]
fn keys_subset_ci_check(cms: &Vec<JsonMember>, props: &Vec<JsonMember>) -> (r: bool)
    ensures
        r == keys_subset_ci(members_view(cms@), members_view(props@)),
{
    let ghost full = members_view(cms@);
    let ghost pv = members_view(props@);
    let mut i: usize = 0;
    proof {
        assert(full.subrange(0, full.len() as int) =~= full);
    }
    while i < cms.len()
        invariant
            i <= cms.len(),
            keys_subset_ci(full, pv) == keys_subset_ci(
                full.subrange(i as int, full.len() as int),
                pv,
            ),
        decreases cms.len() - i,
    {
        let ghost sfx = full.subrange(i as int, full.len() as int);
        proof {
            assert(sfx[0] == full[i as int]);
            assert(sfx.drop_first() =~= full.subrange(i + 1 as int, full.len() as int));
        }
        if !has_key_ci_check(props, &cms[i].key) {
            return false;
        }
        i = i + 1;
    }
    proof {
        assert(full.subrange(cms@.len() as int, full.len() as int) =~= Seq::<(
            Seq<char>,
            JsonView,
        )>::empty());
    }
    true
}

/// Check whether a payload schema asks for an array.
fn payload_is_array_check(payload: &JsonValue) -> (r: bool)
    ensures
        r == payload_is_array(payload@),
{
    proof {
        reveal_strlit("type");
        reveal_strlit("array");
        assert("type"@ =~= seq!['t', 'y', 'p', 'e']);
        assert("array"@ =~= seq!['a', 'r', 'r', 'a', 'y']);
    }
    match payload {
        JsonValue::Obj(members) => {
            proof {
                assert(payload@ == JsonView::Obj(members_view(members@)));
            }
            match crate::validate::lookup_member(members, "type") {
                Some(i) => {
                    match &members[i].value {
                        JsonValue::Text(t) => {
                            let array_k = String::from_str("array");
                            *t == array_k
                        }
                        other => {
                            proof {
                                lemma_view_variant(*other);
                            }
                            false
                        }
                    }
                }
                None => false,
            }
        }
        other => {
            proof {
                lemma_view_variant(*other);
            }
            false
        }
    }
}

/// The fixed tag text of an internally tagged variant schema.
fn internal_tag_of(variant: &JsonValue) -> (r: Option<String>)
    ensures
        r matches Some(t) ==> internal_tag(variant@) == Some(t@),
        r is None ==> internal_tag(variant@) is None,
{
    proof {
        reveal_strlit("type");
        reveal_strlit("const");
        reveal_strlit("enum");
        assert("type"@ =~= seq!['t', 'y', 'p', 'e']);
        assert("const"@ =~= seq!['c', 'o', 'n', 's', 't']);
        assert("enum"@ =~= seq!['e', 'n', 'u', 'm']);
    }
    let props = match get_props(variant) {
        Some(props) => props,
        None => {
            return None;
        }
    };
    let ti = match crate::validate::lookup_member(props, "type") {
        Some(i) => i,
        None => {
            return None;
        }
    };
    match &props[ti].value {
        JsonValue::Obj(tp) => {
            proof {
                assert(props@[ti as int].value@ == JsonView::Obj(members_view(tp@)));
            }
            match crate::validate::lookup_member(tp, "const") {
                Some(ci) => {
                    match &tp[ci].value {
                        JsonValue::Text(t) => {
                            return Some(t.clone());
                        }
                        other => {
                            proof {
                                lemma_view_variant(*other);
                            }
                        }
                    }
                }
                None => {}
            }
            match crate::validate::lookup_member(tp, "enum") {
                Some(ei) => {
                    match &tp[ei].value {
                        JsonValue::Arr(a) => {
                            if a.len() == 1 {
                                proof {
                                    crate::json::lemma_elems_view_index(a@, 0);
                                }
                                match &a[0] {
                                    JsonValue::Text(t) => Some(t.clone()),
                                    other => {
                                        proof {
                                            lemma_view_variant(*other);
                                        }
                                        None
                                    }
                                }
                            } else {
                                None
                            }
                        }
                        other => {
                            proof {
                                lemma_view_variant(*other);
                            }
                            None
                        }
                    }
                }
                None => None,
            }
        }
        other => {
            proof {
                lemma_view_variant(*other);
            }
            None
        }
    }
}

/// Walk the variants for one the candidate can be wrapped into.
#[verifier::loop_isolation(false)]
fn unflatten_scan_exec(variants: &Vec<JsonValue>, v: &JsonValue) -> (r: Option<JsonValue>)
    ensures
        r matches Some(w) ==> unflatten_scan(crate::json::elems_view(variants@), v@) == Some(w@),
        r is None ==> unflatten_scan(crate::json::elems_view(variants@), v@) is None,
{
    let ghost full = crate::json::elems_view(variants@);
    let mut i: usize = 0;
    proof {
        assert(full.subrange(0, full.len() as int) =~= full);
    }
    while i < variants.len()
        invariant
            i <= variants.len(),
            unflatten_scan(full, v@) == unflatten_scan(
                full.subrange(i as int, full.len() as int),
                v@,
            ),
        decreases variants.len() - i,
    {
        let ghost sfx = full.subrange(i as int, full.len() as int);
        proof {
            assert(sfx[0] == full[i as int]);
            assert(sfx.drop_first() =~= full.subrange(i + 1 as int, full.len() as int));
        }
        match single_prop_of(&variants[i]) {
            Some((name, payload)) => {
                match v {
                    JsonValue::Obj(cms) => {
                        proof {
                            assert(v@ == JsonView::Obj(members_view(cms@)));
                        }
                        if cms.len() == 1 {
                            proof {
                                lemma_members_view_index(cms@, 0);
                            }
                            if cms[0].key == name {
                                return Some(v.clone());
                            }
                            if eq_ci_text(cms[0].key.as_str(), name.as_str()) {
                                let ghost gname = name@;
                                let ghost gval = members_view(cms@)[0].1;
                                let mut out: Vec<JsonMember> = Vec::new();
                                out.push(JsonMember { key: name, value: cms[0].value.clone() });
                                proof {
                                    lemma_members_view_index(out@, 0);
                                    assert(members_view(out@) =~= seq![(gname, gval)]);
                                }
                                let w = JsonValue::Obj(out);
                                return Some(w);
                            }
                        }
                        match get_props(&payload) {
                            Some(pprops) => {
                                if cms.len() == pprops.len() && keys_subset_check(cms, pprops) {
                                    let ghost gname = name@;
                                    let mut out: Vec<JsonMember> = Vec::new();
                                    out.push(JsonMember { key: name, value: v.clone() });
                                    proof {
                                        lemma_members_view_index(out@, 0);
                                        assert(members_view(out@) =~= seq![(gname, v@)]);
                                    }
                                    let w = JsonValue::Obj(out);
                                    return Some(w);
                                }
                            }
                            None => {}
                        }
                    }
                    JsonValue::Arr(_) => {
                        proof {
                            lemma_view_variant(*v);
                        }
                        if payload_is_array_check(&payload) {
                            let ghost gname = name@;
                            let mut out: Vec<JsonMember> = Vec::new();
                            out.push(JsonMember { key: name, value: v.clone() });
                            proof {
                                lemma_members_view_index(out@, 0);
                                assert(members_view(out@) =~= seq![(gname, v@)]);
                            }
                            let w = JsonValue::Obj(out);
                            return Some(w);
                        }
                    }
                    other => {
                        proof {
                            lemma_view_variant(*other);
                        }
                    }
                }
            }
            None => {}
        }
        i = i + 1;
    }
    proof {
        assert(full.subrange(variants@.len() as int, full.len() as int)
            =~= Seq::<JsonView>::empty());
    }
    None
}

/// Walk the allowed enum texts for one the candidate loosely matches.
#[verifier::loop_isolation(false)]
fn coerce_scan_exec(allowed: &Vec<JsonValue>, t: &String) -> (r: Option<String>)
    ensures
        r matches Some(e) ==> coerce_scan(crate::json::elems_view(allowed@), t@) == Some(e@),
        r is None ==> coerce_scan(crate::json::elems_view(allowed@), t@) is None,
{
    let ghost full = crate::json::elems_view(allowed@);
    let mut i: usize = 0;
    proof {
        assert(full.subrange(0, full.len() as int) =~= full);
    }
    while i < allowed.len()
        invariant
            i <= allowed.len(),
            coerce_scan(full, t@) == coerce_scan(full.subrange(i as int, full.len() as int), t@),
        decreases allowed.len() - i,
    {
        let ghost sfx = full.subrange(i as int, full.len() as int);
        proof {
            assert(sfx[0] == full[i as int]);
            assert(sfx.drop_first() =~= full.subrange(i + 1 as int, full.len() as int));
        }
        match &allowed[i] {
            JsonValue::Text(e) => {
                if ci_match_text(e.as_str(), t.as_str()) {
                    return Some(e.clone());
                }
            }
            other => {
                proof {
                    lemma_view_variant(*other);
                }
            }
        }
        i = i + 1;
    }
    proof {
        assert(full.subrange(allowed@.len() as int, full.len() as int)
            =~= Seq::<JsonView>::empty());
    }
    None
}

/// Walk the variants for a tag the bare string names, up to case.
#[verifier::loop_isolation(false)]
fn recover_scan_text_exec(variants: &Vec<JsonValue>, s: &String) -> (r: Option<String>)
    ensures
        r matches Some(t) ==> recover_scan_text(crate::json::elems_view(variants@), s@) == Some(
            t@,
        ),
        r is None ==> recover_scan_text(crate::json::elems_view(variants@), s@) is None,
{
    let ghost full = crate::json::elems_view(variants@);
    let mut i: usize = 0;
    proof {
        assert(full.subrange(0, full.len() as int) =~= full);
    }
    while i < variants.len()
        invariant
            i <= variants.len(),
            recover_scan_text(full, s@) == recover_scan_text(
                full.subrange(i as int, full.len() as int),
                s@,
            ),
        decreases variants.len() - i,
    {
        let ghost sfx = full.subrange(i as int, full.len() as int);
        proof {
            assert(sfx[0] == full[i as int]);
            assert(sfx.drop_first() =~= full.subrange(i + 1 as int, full.len() as int));
        }
        match internal_tag_of(&variants[i]) {
            Some(t) => {
                if eq_ci_text(s.as_str(), t.as_str()) {
                    return Some(t);
                }
            }
            None => {}
        }
        i = i + 1;
    }
    proof {
        assert(full.subrange(variants@.len() as int, full.len() as int)
            =~= Seq::<JsonView>::empty());
    }
    None
}

/// Walk the variants for one whose fields cover the object's keys.
#[verifier::loop_isolation(false)]
fn recover_scan_obj_exec(variants: &Vec<JsonValue>, cms: &Vec<JsonMember>) -> (r: Option<String>)
    ensures
        r matches Some(t) ==> recover_scan_obj(
            crate::json::elems_view(variants@),
            members_view(cms@),
        ) == Some(t@),
        r is None ==> recover_scan_obj(
            crate::json::elems_view(variants@),
            members_view(cms@),
        ) is None,
{
    let ghost full = crate::json::elems_view(variants@);
    let ghost cv = members_view(cms@);
    let mut i: usize = 0;
    proof {
        assert(full.subrange(0, full.len() as int) =~= full);
    }
    while i < variants.len()
        invariant
            i <= variants.len(),
            recover_scan_obj(full, cv) == recover_scan_obj(
                full.subrange(i as int, full.len() as int),
                cv,
            ),
        decreases variants.len() - i,
    {
        let ghost sfx = full.subrange(i as int, full.len() as int);
        proof {
            assert(sfx[0] == full[i as int]);
            assert(sfx.drop_first() =~= full.subrange(i + 1 as int, full.len() as int));
        }
        match internal_tag_of(&variants[i]) {
            Some(t) => {
                match get_props(&variants[i]) {
                    Some(props) => {
                        if keys_subset_ci_check(cms, props) {
                            return Some(t);
                        }
                    }
                    None => {}
                }
            }
            None => {}
        }
        i = i + 1;
    }
    proof {
        assert(full.subrange(variants@.len() as int, full.len() as int)
            =~= Seq::<JsonView>::empty());
    }
    None
}

/// The member list under `anyOf`, when the schema node carries one.
fn get_any_of<'a>(schema: &'a JsonValue) -> (r: Option<&'a Vec<JsonValue>>)
    ensures
        r matches Some(vs) ==> schema@ is Obj && obj_field(
            schema@->Obj_0,
            seq!['a', 'n', 'y', 'O', 'f'],
        ) == Some(JsonView::Arr(crate::json::elems_view(vs@))),
        r is None ==> !(schema@ is Obj && (obj_field(
            schema@->Obj_0,
            seq!['a', 'n', 'y', 'O', 'f'],
        ) matches Some(w) && w is Arr)),
{
    proof {
        reveal_strlit("anyOf");
        assert("anyOf"@ =~= seq!['a', 'n', 'y', 'O', 'f']);
    }
    match schema {
        JsonValue::Obj(members) => {
            proof {
                assert(schema@ == JsonView::Obj(members_view(members@)));
            }
            match crate::validate::lookup_member(members, "anyOf") {
                Some(i) => {
                    match &members[i].value {
                        JsonValue::Arr(vs) => Some(vs),
                        other => {
                            proof {
                                lemma_view_variant(*other);
                            }
                            None
                        }
                    }
                }
                None => None,
            }
        }
        other => {
            proof {
                lemma_view_variant(*other);
            }
            None
        }
    }
}

/// Apply one kind's node rule.
fn repair_node_apply(kind: RepairKind, v: JsonValue, schema: &JsonValue) -> (r: JsonValue)
    ensures
        r@ == repair_node(kind, v@, schema@),
{
    proof {
        reveal_strlit("enum");
        reveal_strlit("type");
        assert("enum"@ =~= seq!['e', 'n', 'u', 'm']);
        assert("type"@ =~= seq!['t', 'y', 'p', 'e']);
    }
    match kind {
        RepairKind::Unflatten => {
            match get_any_of(schema) {
                Some(variants) => {
                    match unflatten_scan_exec(variants, &v) {
                        Some(w) => w,
                        None => v,
                    }
                }
                None => v,
            }
        }
        RepairKind::Coerce => {
            let members = match schema {
                JsonValue::Obj(members) => members,
                other => {
                    proof {
                        lemma_view_variant(*other);
                    }
                    return v;
                }
            };
            proof {
                assert(schema@ == JsonView::Obj(members_view(members@)));
            }
            let ei = match crate::validate::lookup_member(members, "enum") {
                Some(ei) => ei,
                None => {
                    return v;
                }
            };
            let allowed = match &members[ei].value {
                JsonValue::Arr(allowed) => allowed,
                other => {
                    proof {
                        lemma_view_variant(*other);
                    }
                    return v;
                }
            };
            match &v {
                JsonValue::Text(t) => {
                    if crate::validate::enum_check(allowed, &v) {
                        return v;
                    }
                    match coerce_scan_exec(allowed, t) {
                        Some(e) => JsonValue::Text(e),
                        None => v,
                    }
                }
                other => {
                    proof {
                        lemma_view_variant(*other);
                    }
                    v
                }
            }
        }
        RepairKind::Recover => {
            let variants = match get_any_of(schema) {
                Some(variants) => variants,
                None => {
                    return v;
                }
            };
            match v {
                JsonValue::Text(s) => {
                    match recover_scan_text_exec(variants, &s) {
                        Some(t) => {
                            let key = String::from_str("type");
                            let ghost gt = t@;
                            let mut out: Vec<JsonMember> = Vec::new();
                            out.push(JsonMember { key, value: JsonValue::Text(t) });
                            proof {
                                lemma_members_view_index(out@, 0);
                                assert(members_view(out@) =~= seq![
                                    (seq!['t', 'y', 'p', 'e'], JsonView::Text(gt)),
                                ]);
                            }
                            JsonValue::Obj(out)
                        }
                        None => JsonValue::Text(s),
                    }
                }
                JsonValue::Obj(cms) => {
                    let type_key = String::from_str("type");
                    let has_type = find_member(&cms, &type_key).is_some();
                    proof {
                        lemma_key_index(members_view(cms@), "type"@);
                    }
                    if has_type {
                        let out = JsonValue::Obj(cms);
                        proof {
                            assert(out@ == JsonView::Obj(members_view(cms@)));
                        }
                        out
                    } else {
                        match recover_scan_obj_exec(variants, &cms) {
                            Some(t) => {
                                let ghost gt = t@;
                                let ghost cv = members_view(cms@);
                                let mut cms2 = cms;
                                proof {
                                    crate::json::lemma_members_view_insert(
                                        cms2@,
                                        0,
                                        JsonMember { key: type_key, value: JsonValue::Text(t) },
                                    );
                                }
                                let tagged = JsonMember {
                                    key: String::from_str("type"),
                                    value: JsonValue::Text(t),
                                };
                                cms2.insert(0, tagged);
                                let out = JsonValue::Obj(cms2);
                                proof {
                                    assert(members_view(cms2@) =~= seq![
                                        (seq!['t', 'y', 'p', 'e'], JsonView::Text(gt)),
                                    ] + cv);
                                }
                                out
                            }
                            None => {
                                let out = JsonValue::Obj(cms);
                                proof {
                                    assert(out@ == JsonView::Obj(members_view(cms@)));
                                }
                                out
                            }
                        }
                    }
                }
                other => {
                    proof {
                        lemma_view_variant(other);
                    }
                    other
                }
            }
        }
    }
}

/// Apply one repair pass over the whole tree.
#[verifier::loop_isolation(false)]
pub fn repair_apply(kind: RepairKind, v: JsonValue, schema: &JsonValue) -> (r: JsonValue)
    ensures
        r@ == repair_walk(kind, v@, schema@),
    decreases schema, 0int,
{
    proof {
        reveal_strlit("properties");
        reveal_strlit("items");
        assert("properties"@ =~= seq!['p', 'r', 'o', 'p', 'e', 'r', 't', 'i', 'e', 's']);
        assert("items"@ =~= seq!['i', 't', 'e', 'm', 's']);
    }
    let w = repair_node_apply(kind, v, schema);
    let sm = match schema {
        JsonValue::Obj(sm) => sm,
        other => {
            proof {
                lemma_view_variant(*other);
            }
            return w;
        }
    };
    proof {
        assert(schema@ == JsonView::Obj(members_view(sm@)));
    }
    let w2 = match crate::validate::lookup_member(sm, "properties") {
        Some(pi) => {
            match &sm[pi].value {
                JsonValue::Obj(props) => {
                    match w {
                        JsonValue::Obj(wms) => {
                            let ghost cms0 = wms@;
                            proof {
                                assert(members_view(cms0.subrange(0, 0)) =~= Seq::<(
                                    Seq<char>,
                                    JsonView,
                                )>::empty());
                                assert(repair_members(
                                    kind,
                                    members_view(cms0.subrange(0, 0)),
                                    members_view(props@),
                                ) =~= Seq::<(Seq<char>, JsonView)>::empty());
                            }
                            let mut rest = wms;
                            let n = rest.len();
                            let mut out: Vec<JsonMember> = Vec::new();
                            let mut taken: usize = 0;
                            while taken < n
                                invariant
                                    taken <= n,
                                    rest@ =~= cms0.subrange(taken as int, n as int),
                                    members_view(out@) =~= repair_members(
                                        kind,
                                        members_view(cms0.subrange(0, taken as int)),
                                        members_view(props@),
                                    ),
                                decreases n - taken,
                            {
                                let m = rest.remove(0);
                                proof {
                                    assert(cms0.subrange(taken as int, n as int).drop_first()
                                        =~= cms0.subrange(taken + 1 as int, n as int));
                                    assert(m == cms0[taken as int]);
                                }
                                let new_value = match find_member(props, &m.key) {
                                    Some(j) => {
                                        proof {
                                            lemma_key_index(members_view(props@), m.key@);
                                            lemma_members_view_index(props@, j as int);
                                            assert(decreases_to!(*schema => *sm));
                                            assert(decreases_to!(*sm => sm@));
                                            assert(decreases_to!(sm@ => sm@[pi as int]));
                                            assert(decreases_to!(sm@[pi as int] =>
                                                sm@[pi as int].value));
                                            assert(decreases_to!(sm@[pi as int].value =>
                                                *props));
                                            assert(decreases_to!(*props => props@));
                                            assert(decreases_to!(props@ => props@[j as int]));
                                            assert(decreases_to!(props@[j as int] =>
                                                props@[j as int].value));
                                        }
                                        repair_apply(kind, m.value, &props[j].value)
                                    }
                                    None => m.value,
                                };
                                let ghost done0 = members_view(cms0.subrange(0, taken as int));
                                let ghost done1 = members_view(
                                    cms0.subrange(0, taken + 1 as int),
                                );
                                proof {
                                    assert(cms0.subrange(0, taken + 1 as int).drop_last()
                                        =~= cms0.subrange(0, taken as int));
                                    assert(cms0.subrange(0, taken + 1 as int).last()
                                        == cms0[taken as int]);
                                    assert(done1 =~= done0.push(
                                        (
                                            cms0[taken as int].key@,
                                            crate::json::json_view(cms0[taken as int].value),
                                        ),
                                    ));
                                    assert(done1.drop_last() =~= done0);
                                }
                                out.push(JsonMember { key: m.key, value: new_value });
                                proof {
                                    assert(members_view(out@) =~= repair_members(
                                        kind,
                                        done1,
                                        members_view(props@),
                                    ));
                                }
                                taken = taken + 1;
                            }
                            proof {
                                assert(cms0.subrange(0, n as int) =~= cms0);
                            }
                            JsonValue::Obj(out)
                        }
                        other => {
                            proof {
                                lemma_view_variant(other);
                            }
                            other
                        }
                    }
                }
                other => {
                    proof {
                        lemma_view_variant(*other);
                    }
                    w
                }
            }
        }
        None => w,
    };
    match crate::validate::lookup_member(sm, "items") {
        Some(ii) => {
            match w2 {
                JsonValue::Arr(elems) => {
                    let ghost es0 = elems@;
                    proof {
                        assert(crate::json::elems_view(es0.subrange(0, 0))
                            =~= Seq::<JsonView>::empty());
                        assert(repair_elems(
                            kind,
                            crate::json::elems_view(es0.subrange(0, 0)),
                            sm@[ii as int].value@,
                        ) =~= Seq::<JsonView>::empty());
                    }
                    let mut rest = elems;
                    let n = rest.len();
                    let mut out: Vec<JsonValue> = Vec::new();
                    let mut taken: usize = 0;
                    while taken < n
                        invariant
                            taken <= n,
                            rest@ =~= es0.subrange(taken as int, n as int),
                            crate::json::elems_view(out@) =~= repair_elems(
                                kind,
                                crate::json::elems_view(es0.subrange(0, taken as int)),
                                sm@[ii as int].value@,
                            ),
                        decreases n - taken,
                    {
                        let e = rest.remove(0);
                        proof {
                            assert(es0.subrange(taken as int, n as int).drop_first()
                                =~= es0.subrange(taken + 1 as int, n as int));
                            assert(e == es0[taken as int]);
                            assert(decreases_to!(*schema => *sm));
                            assert(decreases_to!(*sm => sm@));
                            assert(decreases_to!(sm@ => sm@[ii as int]));
                            assert(decreases_to!(sm@[ii as int] => sm@[ii as int].value));
                        }
                        let ne = repair_apply(kind, e, &sm[ii].value);
                        let ghost dv0 = crate::json::elems_view(es0.subrange(0, taken as int));
                        let ghost dv1 = crate::json::elems_view(
                            es0.subrange(0, taken + 1 as int),
                        );
                        proof {
                            assert(es0.subrange(0, taken + 1 as int).drop_last() =~= es0.subrange(
                                0,
                                taken as int,
                            ));
                            assert(es0.subrange(0, taken + 1 as int).last()
                                == es0[taken as int]);
                            assert(dv1 =~= dv0.push(crate::json::json_view(es0[taken as int])));
                            assert(dv1.drop_last() =~= dv0);
                        }
                        out.push(ne);
                        proof {
                            assert(crate::json::elems_view(out@) =~= repair_elems(
                                kind,
                                dv1,
                                sm@[ii as int].value@,
                            ));
                        }
                        taken = taken + 1;
                    }
                    proof {
                        assert(es0.subrange(0, n as int) =~= es0);
                    }
                    JsonValue::Arr(out)
                }
                other => {
                    proof {
                        lemma_view_variant(other);
                    }
                    other
                }
            }
        }
        None => w2,
    }
}

/// Run the four-pass normalizer on a candidate against the schema.
pub fn normalize_candidate(v: JsonValue, schema: &JsonValue) -> (r: JsonValue)
    ensures
        r@ == normalize_spec(v@, schema@),
{
    let pruned = prune_nulls(v);
    let unflattened = repair_apply(RepairKind::Unflatten, pruned, schema);
    let coerced = repair_apply(RepairKind::Coerce, unflattened, schema);
    repair_apply(RepairKind::Recover, coerced, schema)
}

/// A coercion scan picks one of the allowed values.
proof fn lemma_coerce_scan_in_allowed(allowed: Seq<JsonView>, t: Seq<char>)
    ensures
        coerce_scan(allowed, t) matches Some(e) ==> crate::validate::enum_ok(
            allowed,
            JsonView::Text(e),
        ),
    decreases allowed.len(),
{
    if allowed.len() > 0 {
        lemma_coerce_scan_in_allowed(allowed.drop_first(), t);
        match allowed[0] {
            JsonView::Text(e) => {
                if ci_match(e, t) {
                } else {
                    match coerce_scan(allowed.drop_first(), t) {
                        Some(e2) => {
                            lemma_enum_ok_weaken(allowed, JsonView::Text(e2));
                        }
                        None => {}
                    }
                }
            }
            _ => {
                match coerce_scan(allowed.drop_first(), t) {
                    Some(e2) => {
                        lemma_enum_ok_weaken(allowed, JsonView::Text(e2));
                    }
                    None => {}
                }
            }
        }
    }
}

/// A value one of the tail admits, the whole list admits.
proof fn lemma_enum_ok_weaken(allowed: Seq<JsonView>, v: JsonView)
    requires
        allowed.len() > 0,
        crate::validate::enum_ok(allowed.drop_first(), v),
    ensures
        crate::validate::enum_ok(allowed, v),
{
}

/// The enum-coercion node rule is idempotent: a coerced string is one of
/// the allowed values, and an allowed value passes through unchanged.
pub proof fn lemma_coerce_node_idempotent(v: JsonView, schema: JsonView)
    ensures
        coerce_node(coerce_node(v, schema), schema) == coerce_node(v, schema),
{
    let w = coerce_node(v, schema);
    if schema is Obj && (obj_field(schema->Obj_0, seq!['e', 'n', 'u', 'm']) matches Some(
        JsonView::Arr(allowed),
    )) && v is Text && !crate::validate::enum_ok(
        obj_field(schema->Obj_0, seq!['e', 'n', 'u', 'm'])->Some_0->Arr_0,
        v,
    ) {
        let allowed0 = obj_field(schema->Obj_0, seq!['e', 'n', 'u', 'm'])->Some_0->Arr_0;
        lemma_coerce_scan_in_allowed(allowed0, v->Text_0);
        match coerce_scan(allowed0, v->Text_0) {
            Some(e) => {
                assert(crate::validate::enum_ok(allowed0, JsonView::Text(e)));
            }
            None => {}
        }
    }
}

/// Whether a value is its own pruning: no null members or elements
/// anywhere inside.
pub open spec fn pruned_form(v: JsonView) -> bool {
    prune(v) == v
}

/// Pruned members have pruned, non-null values.
proof fn lemma_pruned_members_invert(ms: Seq<(Seq<char>, JsonView)>)
    requires
        prune_members(ms) == ms,
    ensures
        forall|i: int| 0 <= i < ms.len() ==> prune(#[trigger] ms[i].1) == ms[i].1 && !(
        ms[i].1 is Null),
    decreases ms.len(),
{
    if ms.len() > 0 {
        lemma_prune_members_shorter(ms);
        let rest = prune_members(ms.drop_last());
        let pv = prune(ms.last().1);
        lemma_prune_members_shorter(ms.drop_last());
        if pv is Null {
            assert(prune_members(ms).len() <= ms.len() - 1);
        } else {
            assert(prune_members(ms) == rest.push((ms.last().0, pv)));
            assert(rest.len() == ms.len() - 1);
            assert(rest =~= ms.drop_last());
            lemma_pruned_members_invert(ms.drop_last());
            assert(prune_members(ms)[ms.len() - 1] == ms[ms.len() - 1]);
            assert(pv == ms.last().1);
            lemma_prune_null_iff(ms.last().1);
        }
    }
}

/// Pruned elements are pruned and non-null.
proof fn lemma_pruned_elems_invert(es: Seq<JsonView>)
    requires
        prune_elems(es) == es,
    ensures
        forall|i: int| 0 <= i < es.len() ==> prune(#[trigger] es[i]) == es[i] && !(
        es[i] is Null),
    decreases es.len(),
{
    if es.len() > 0 {
        lemma_prune_elems_shorter(es);
        let rest = prune_elems(es.drop_last());
        let pv = prune(es.last());
        lemma_prune_elems_shorter(es.drop_last());
        if pv is Null {
            assert(prune_elems(es).len() <= es.len() - 1);
        } else {
            assert(prune_elems(es) == rest.push(pv));
            assert(rest =~= es.drop_last());
            lemma_pruned_elems_invert(es.drop_last());
            assert(prune_elems(es)[es.len() - 1] == es[es.len() - 1]);
            lemma_prune_null_iff(es.last());
        }
    }
}

proof fn lemma_prune_members_shorter(ms: Seq<(Seq<char>, JsonView)>)
    ensures
        prune_members(ms).len() <= ms.len(),
    decreases ms.len(),
{
    if ms.len() > 0 {
        lemma_prune_members_shorter(ms.drop_last());
    }
}

proof fn lemma_prune_elems_shorter(es: Seq<JsonView>)
    ensures
        prune_elems(es).len() <= es.len(),
    decreases es.len(),
{
    if es.len() > 0 {
        lemma_prune_elems_shorter(es.drop_last());
    }
}

/// A singleton object over a pruned, non-null value is pruned.
proof fn lemma_singleton_obj_pruned(name: Seq<char>, v: JsonView)
    requires
        pruned_form(v),
        !(v is Null),
    ensures
        pruned_form(JsonView::Obj(seq![(name, v)])),
{
    let ms = seq![(name, v)];
    assert(ms.drop_last() =~= Seq::<(Seq<char>, JsonView)>::empty());
    assert(prune_members(Seq::<(Seq<char>, JsonView)>::empty())
        =~= Seq::<(Seq<char>, JsonView)>::empty());
    assert(ms.last() == (name, v));
    assert(prune(ms.last().1) == v);
    assert(prune_members(ms) =~= ms);
}

/// What the unflatten scan returns of a pruned value is pruned.
proof fn lemma_unflatten_scan_pruned(variants: Seq<JsonView>, v: JsonView)
    requires
        pruned_form(v),
    ensures
        unflatten_scan(variants, v) matches Some(w) ==> pruned_form(w) && !(w is Null),
        !(v is Obj) && !(v is Arr) ==> unflatten_scan(variants, v) is None,
    decreases variants.len(),
{
    lemma_prune_null_iff(v);
    if variants.len() > 0 {
        lemma_unflatten_scan_pruned(variants.drop_first(), v);
        match single_prop(variants[0]) {
            Some((name, payload)) => {
                if v is Obj && v->Obj_0.len() == 1 && v->Obj_0[0].0 == name {
                } else if v is Obj && v->Obj_0.len() == 1 && seq_eq_ci(v->Obj_0[0].0, name) {
                    lemma_pruned_members_invert(v->Obj_0);
                    lemma_singleton_obj_pruned(name, v->Obj_0[0].1);
                } else if v is Obj && (props_of(payload) matches Some(pprops)
                    && v->Obj_0.len() == pprops.len() && keys_subset(v->Obj_0, pprops)) {
                    lemma_singleton_obj_pruned(name, v);
                } else if v is Arr && payload_is_array(payload) {
                    lemma_singleton_obj_pruned(name, v);
                } else {
                }
            }
            None => {}
        }
    }
}

/// Each node repair keeps a pruned value pruned, and never makes a
/// non-null value null.
proof fn lemma_repair_node_pruned(kind: RepairKind, v: JsonView, schema: JsonView)
    requires
        pruned_form(v),
    ensures
        pruned_form(repair_node(kind, v, schema)),
        (repair_node(kind, v, schema) is Null) == (v is Null),
{
    let w = repair_node(kind, v, schema);
    lemma_prune_null_iff(v);
    match kind {
        RepairKind::Unflatten => {
            if schema is Obj && (obj_field(schema->Obj_0, seq!['a', 'n', 'y', 'O', 'f'])
                matches Some(JsonView::Arr(variants))) {
                let vars = obj_field(schema->Obj_0, seq!['a', 'n', 'y', 'O', 'f'])
                    ->Some_0->Arr_0;
                lemma_unflatten_scan_pruned(vars, v);
            }
        }
        RepairKind::Coerce => {
            if w is Text {
                assert(pruned_form(w));
            }
        }
        RepairKind::Recover => {
            if schema is Obj && (obj_field(schema->Obj_0, seq!['a', 'n', 'y', 'O', 'f'])
                matches Some(JsonView::Arr(variants))) {
                let vars = obj_field(schema->Obj_0, seq!['a', 'n', 'y', 'O', 'f'])
                    ->Some_0->Arr_0;
                if v is Text {
                    match recover_scan_text(vars, v->Text_0) {
                        Some(t) => {
                            lemma_singleton_obj_pruned(
                                seq!['t', 'y', 'p', 'e'],
                                JsonView::Text(t),
                            );
                        }
                        None => {}
                    }
                } else if v is Obj && key_index(v->Obj_0, seq!['t', 'y', 'p', 'e']) < 0 {
                    match recover_scan_obj(vars, v->Obj_0) {
                        Some(t) => {
                            let tagged = seq![
                                (seq!['t', 'y', 'p', 'e'], JsonView::Text(t)),
                            ] + v->Obj_0;
                            lemma_pruned_members_invert(v->Obj_0);
                            lemma_tagged_members_pruned(t, v->Obj_0);
                            assert(pruned_form(JsonView::Obj(tagged)));
                        }
                        None => {}
                    }
                }
            }
        }
    }
}

/// A pruned member list with a text tag in front is still pruned.
proof fn lemma_tagged_members_pruned(t: Seq<char>, ms: Seq<(Seq<char>, JsonView)>)
    requires
        prune_members(ms) == ms,
        forall|i: int| 0 <= i < ms.len() ==> prune(#[trigger] ms[i].1) == ms[i].1 && !(
        ms[i].1 is Null),
    ensures
        prune_members(seq![(seq!['t', 'y', 'p', 'e'], JsonView::Text(t))] + ms) == seq![
            (seq!['t', 'y', 'p', 'e'], JsonView::Text(t)),
        ] + ms,
    decreases ms.len(),
{
    let tagged = seq![(seq!['t', 'y', 'p', 'e'], JsonView::Text(t))] + ms;
    if ms.len() == 0 {
        assert(tagged.drop_last() =~= Seq::<(Seq<char>, JsonView)>::empty());
        assert(prune_members(tagged) =~= tagged);
    } else {
        assert(tagged.drop_last() =~= seq![(seq!['t', 'y', 'p', 'e'], JsonView::Text(t))]
            + ms.drop_last());
        assert(prune_members(ms.drop_last()) =~= ms.drop_last()) by {
            assert(prune_members(ms) == ms);
            lemma_prune_members_shorter(ms.drop_last());
            let rest = prune_members(ms.drop_last());
            let pv = prune(ms.last().1);
            assert(!(pv is Null));
            assert(prune_members(ms) == rest.push((ms.last().0, pv)));
            assert(rest =~= ms.drop_last());
        }
        lemma_tagged_members_pruned(t, ms.drop_last());
        assert(tagged.last() == ms.last());
        assert(prune(ms.last().1) == ms.last().1);
        assert(!(ms.last().1 is Null));
        assert(prune_members(tagged) == prune_members(tagged.drop_last()).push(
            (tagged.last().0, prune(tagged.last().1)),
        ));
        assert(prune_members(tagged) =~= tagged);
    }
}

/// A repair pass keeps a pruned value pruned.
proof fn lemma_repair_walk_pruned(kind: RepairKind, v: JsonView, schema: JsonView)
    requires
        pruned_form(v),
    ensures
        pruned_form(repair_walk(kind, v, schema)),
    decreases schema, 2int,
{
    lemma_repair_node_pruned(kind, v, schema);
    let w = repair_node(kind, v, schema);
    if schema is Obj {
        let ms = schema->Obj_0;
        let w2 = if w is Obj && (obj_field(ms, seq!['p', 'r', 'o', 'p', 'e', 'r', 't', 'i',
            'e', 's']) matches Some(JsonView::Obj(props))) {
            let props = obj_field(ms, seq!['p', 'r', 'o', 'p', 'e', 'r', 't', 'i', 'e', 's'])
                ->Some_0->Obj_0;
            lemma_key_index(ms, seq!['p', 'r', 'o', 'p', 'e', 'r', 't', 'i', 'e', 's']);
            let pi = key_index(ms, seq!['p', 'r', 'o', 'p', 'e', 'r', 't', 'i', 'e', 's']);
            assert(decreases_to!(schema => ms));
            assert(decreases_to!(ms => ms[pi]));
            assert(decreases_to!(ms[pi] => ms[pi].1));
            match ms[pi].1 {
                JsonView::Obj(pp) => {
                    assert(decreases_to!(ms[pi].1 => pp));
                }
                _ => {}
            }
            lemma_repair_members_pruned(kind, w->Obj_0, props);
            JsonView::Obj(repair_members(kind, w->Obj_0, props))
        } else {
            w
        };
        if w2 is Arr && obj_field(ms, seq!['i', 't', 'e', 'm', 's']) is Some {
            let item_schema = obj_field(ms, seq!['i', 't', 'e', 'm', 's'])->Some_0;
            lemma_key_index(ms, seq!['i', 't', 'e', 'm', 's']);
            let ii = key_index(ms, seq!['i', 't', 'e', 'm', 's']);
            assert(decreases_to!(schema => ms));
            assert(decreases_to!(ms => ms[ii]));
            assert(decreases_to!(ms[ii] => ms[ii].1));
            if w == w2 {
                lemma_repair_elems_pruned(kind, w2->Arr_0, item_schema);
            } else {
                lemma_repair_elems_pruned(kind, w2->Arr_0, item_schema);
            }
        }
    }
}

/// Rebuilding pruned members through a pass keeps them pruned.
proof fn lemma_repair_members_pruned(
    kind: RepairKind,
    cms: Seq<(Seq<char>, JsonView)>,
    props: Seq<(Seq<char>, JsonView)>,
)
    requires
        prune_members(cms) == cms,
    ensures
        prune_members(repair_members(kind, cms, props)) == repair_members(kind, cms, props),
    decreases props, cms.len() + 3,
{
    if cms.len() > 0 {
        lemma_pruned_members_invert(cms);
        assert(prune_members(cms.drop_last()) =~= cms.drop_last()) by {
            lemma_prune_members_shorter(cms.drop_last());
            let rest = prune_members(cms.drop_last());
            let pv = prune(cms.last().1);
            lemma_prune_null_iff(cms.last().1);
            assert(prune_members(cms) == rest.push((cms.last().0, pv)));
            assert(rest =~= cms.drop_last());
        }
        lemma_repair_members_pruned(kind, cms.drop_last(), props);
        let rest = repair_members(kind, cms.drop_last(), props);
        let m = cms.last();
        let nv = match obj_field(props, m.0) {
            Some(sub) => repair_walk(kind, m.1, sub),
            None => m.1,
        };
        match obj_field(props, m.0) {
            Some(sub) => {
                lemma_key_index(props, m.0);
                let i = key_index(props, m.0);
                assert(decreases_to!(props => props[i]));
                assert(decreases_to!(props[i] => props[i].1));
                lemma_repair_walk_pruned(kind, m.1, sub);
                lemma_repair_walk_null(kind, m.1, sub);
            }
            None => {}
        }
        let whole = rest.push((m.0, nv));
        assert(whole.drop_last() =~= rest);
        assert(prune_members(whole) =~= whole);
    }
}

/// Rebuilding pruned elements through a pass keeps them pruned.
proof fn lemma_repair_elems_pruned(kind: RepairKind, es: Seq<JsonView>, item_schema: JsonView)
    requires
        prune_elems(es) == es,
    ensures
        prune_elems(repair_elems(kind, es, item_schema)) == repair_elems(
            kind,
            es,
            item_schema,
        ),
    decreases item_schema, es.len() + 3,
{
    if es.len() > 0 {
        lemma_pruned_elems_invert(es);
        assert(prune_elems(es.drop_last()) =~= es.drop_last()) by {
            lemma_prune_elems_shorter(es.drop_last());
            let rest = prune_elems(es.drop_last());
            let pv = prune(es.last());
            lemma_prune_null_iff(es.last());
            assert(prune_elems(es) == rest.push(pv));
            assert(rest =~= es.drop_last());
        }
        lemma_repair_elems_pruned(kind, es.drop_last(), item_schema);
        let rest = repair_elems(kind, es.drop_last(), item_schema);
        let nv = repair_walk(kind, es.last(), item_schema);
        lemma_repair_walk_pruned(kind, es.last(), item_schema);
        lemma_repair_walk_null(kind, es.last(), item_schema);
        let whole = rest.push(nv);
        assert(whole.drop_last() =~= rest);
        assert(prune_elems(whole) =~= whole);
    }
}

/// A repair pass never turns a non-null value null.
proof fn lemma_repair_walk_null(kind: RepairKind, v: JsonView, schema: JsonView)
    requires
        pruned_form(v),
        !(v is Null),
    ensures
        !(repair_walk(kind, v, schema) is Null),
    decreases schema, 3int,
{
    lemma_repair_node_pruned(kind, v, schema);
}

/// The four-pass normalizer yields a value that pruning leaves alone: a
/// second run's first pass is the identity, which is what the later
/// passes of the first run relied on.
pub proof fn lemma_normalize_prune_stable(v: JsonView, schema: JsonView)
    ensures
        prune(normalize_spec(v, schema)) == normalize_spec(v, schema),
{
    lemma_prune_idempotent(v);
    lemma_repair_walk_pruned(RepairKind::Unflatten, prune(v), schema);
    lemma_repair_walk_pruned(
        RepairKind::Coerce,
        repair_walk(RepairKind::Unflatten, prune(v), schema),
        schema,
    );
    lemma_repair_walk_pruned(
        RepairKind::Recover,
        repair_walk(
            RepairKind::Coerce,
            repair_walk(RepairKind::Unflatten, prune(v), schema),
            schema,
        ),
        schema,
    );
}

/// The tag-recovery node rule is idempotent: whatever it produces
/// already carries a `type` member, which the rule then leaves alone.
pub proof fn lemma_recover_node_idempotent(v: JsonView, schema: JsonView)
    ensures
        recover_node(recover_node(v, schema), schema) == recover_node(v, schema),
{
    let w = recover_node(v, schema);
    if w == v {
    } else if schema is Obj && (obj_field(schema->Obj_0, seq!['a', 'n', 'y', 'O', 'f'])
        matches Some(JsonView::Arr(variants))) {
        let tk = seq!['t', 'y', 'p', 'e'];
        assert(w is Obj);
        assert(w->Obj_0.len() >= 1 && w->Obj_0[0].0 == tk);
        assert(key_index(w->Obj_0, tk) == 0);
    }
}

/// The coerce pass only rewrites strings: any other value keeps its
/// constructor, and a produced string is one of the allowed values.
proof fn lemma_coerce_node_shape(v: JsonView, schema: JsonView)
    ensures
        !(v is Text) ==> coerce_node(v, schema) == v,
        coerce_node(v, schema) is Text ==> v is Text,
{
}

/// Rebuilding members through the coerce pass twice is rebuilding them
/// once.
proof fn lemma_coerce_members_idempotent(
    cms: Seq<(Seq<char>, JsonView)>,
    props: Seq<(Seq<char>, JsonView)>,
)
    ensures
        repair_members(
            RepairKind::Coerce,
            repair_members(RepairKind::Coerce, cms, props),
            props,
        ) == repair_members(RepairKind::Coerce, cms, props),
    decreases props, cms.len() + 3,
{
    let kind = RepairKind::Coerce;
    if cms.len() > 0 {
        lemma_coerce_members_idempotent(cms.drop_last(), props);
        let rest = repair_members(kind, cms.drop_last(), props);
        let m = cms.last();
        let nv = match obj_field(props, m.0) {
            Some(sub) => repair_walk(kind, m.1, sub),
            None => m.1,
        };
        let once = rest.push((m.0, nv));
        assert(once.drop_last() =~= rest);
        assert(once.last() == (m.0, nv));
        let nv2 = match obj_field(props, m.0) {
            Some(sub) => repair_walk(kind, nv, sub),
            None => nv,
        };
        match obj_field(props, m.0) {
            Some(sub) => {
                lemma_key_index(props, m.0);
                let i = key_index(props, m.0);
                assert(decreases_to!(props => props[i]));
                assert(decreases_to!(props[i] => props[i].1));
                lemma_coerce_walk_idempotent(m.1, sub);
            }
            None => {}
        }
        assert(nv2 == nv);
        assert(repair_members(kind, once, props) =~= once);
    }
}

/// Rebuilding elements through the coerce pass twice is rebuilding them
/// once.
proof fn lemma_coerce_elems_idempotent(es: Seq<JsonView>, item_schema: JsonView)
    ensures
        repair_elems(
            RepairKind::Coerce,
            repair_elems(RepairKind::Coerce, es, item_schema),
            item_schema,
        ) == repair_elems(RepairKind::Coerce, es, item_schema),
    decreases item_schema, es.len() + 3,
{
    let kind = RepairKind::Coerce;
    if es.len() > 0 {
        lemma_coerce_elems_idempotent(es.drop_last(), item_schema);
        let rest = repair_elems(kind, es.drop_last(), item_schema);
        let nv = repair_walk(kind, es.last(), item_schema);
        let once = rest.push(nv);
        assert(once.drop_last() =~= rest);
        assert(once.last() == nv);
        lemma_coerce_walk_idempotent(es.last(), item_schema);
        assert(repair_elems(kind, once, item_schema) =~= once);
    }
}

/// The enum-coercion pass is idempotent over the whole tree: a second
/// run changes nothing.
pub proof fn lemma_coerce_walk_idempotent(v: JsonView, schema: JsonView)
    ensures
        repair_walk(RepairKind::Coerce, repair_walk(RepairKind::Coerce, v, schema), schema)
            == repair_walk(RepairKind::Coerce, v, schema),
    decreases schema, 2int,
{
    let kind = RepairKind::Coerce;
    let w = coerce_node(v, schema);
    lemma_coerce_node_idempotent(v, schema);
    lemma_coerce_node_shape(v, schema);
    if schema is Obj {
        let ms = schema->Obj_0;
        let pk = seq!['p', 'r', 'o', 'p', 'e', 'r', 't', 'i', 'e', 's'];
        let ik = seq!['i', 't', 'e', 'm', 's'];
        lemma_key_index(ms, pk);
        lemma_key_index(ms, ik);
        let pi = key_index(ms, pk);
        let ii = key_index(ms, ik);
        assert(decreases_to!(schema => ms));
        if pi >= 0 {
            assert(decreases_to!(ms => ms[pi]));
            assert(decreases_to!(ms[pi] => ms[pi].1));
            match ms[pi].1 {
                JsonView::Obj(pp) => {
                    assert(decreases_to!(ms[pi].1 => pp));
                }
                _ => {}
            }
        }
        if ii >= 0 {
            assert(decreases_to!(ms => ms[ii]));
            assert(decreases_to!(ms[ii] => ms[ii].1));
        }
        let w2 = if w is Obj && (obj_field(ms, pk) matches Some(JsonView::Obj(props))) {
            let props = obj_field(ms, pk)->Some_0->Obj_0;
            lemma_coerce_members_idempotent(w->Obj_0, props);
            JsonView::Obj(repair_members(kind, w->Obj_0, props))
        } else {
            w
        };
        let w3 = if w2 is Arr && obj_field(ms, ik) is Some {
            let item_schema = obj_field(ms, ik)->Some_0;
            lemma_coerce_elems_idempotent(w2->Arr_0, item_schema);
            JsonView::Arr(repair_elems(kind, w2->Arr_0, item_schema))
        } else {
            w2
        };
        assert(repair_walk(kind, v, schema) == w3);
        lemma_coerce_node_shape(w3, schema);
        if w3 is Text {
            assert(w3 == w);
            assert(coerce_node(w3, schema) == w3);
        } else {
            assert(coerce_node(w3, schema) == w3);
        }
    } else {
        assert(repair_walk(kind, v, schema) == w);
        lemma_coerce_node_shape(w, schema);
        if w is Text {
            assert(coerce_node(w, schema) == w);
        }
    }
}

/// Whether two member lists carry the same keys in the same order.
pub open spec fn same_keys(a: Seq<(Seq<char>, JsonView)>, b: Seq<(Seq<char>, JsonView)>) -> bool {
    a.len() == b.len() && forall|i: int| 0 <= i < a.len() ==> (#[trigger] a[i]).0 == b[i].0
}

/// A repair pass rebuilds members in place: the keys do not move.
proof fn lemma_repair_members_same_keys(
    kind: RepairKind,
    cms: Seq<(Seq<char>, JsonView)>,
    props: Seq<(Seq<char>, JsonView)>,
)
    ensures
        same_keys(repair_members(kind, cms, props), cms),
    decreases cms.len(),
{
    if cms.len() > 0 {
        lemma_repair_members_same_keys(kind, cms.drop_last(), props);
        let rest = repair_members(kind, cms.drop_last(), props);
        let whole = repair_members(kind, cms, props);
        assert(whole.drop_last() =~= rest);
        assert(whole.last().0 == cms.last().0);
        assert forall|i: int| 0 <= i < cms.len() implies (#[trigger] whole[i]).0
            == cms[i].0 by {
            if i < cms.len() - 1 {
                assert(whole[i] == rest[i]);
                assert(cms.drop_last()[i] == cms[i]);
            }
        }
    }
}

/// Key membership agrees between lists with the same keys.
proof fn lemma_key_index_same_keys(
    a: Seq<(Seq<char>, JsonView)>,
    b: Seq<(Seq<char>, JsonView)>,
    k: Seq<char>,
)
    requires
        same_keys(a, b),
    ensures
        key_index(a, k) == key_index(b, k),
    decreases a.len(),
{
    if a.len() > 0 {
        assert(a[0].0 == b[0].0);
        assert(same_keys(a.drop_first(), b.drop_first())) by {
            assert forall|i: int| 0 <= i < a.drop_first().len() implies (#[trigger] (
            a.drop_first()[i])).0 == b.drop_first()[i].0 by {
                assert(a.drop_first()[i] == a[i + 1]);
                assert(b.drop_first()[i] == b[i + 1]);
            }
        }
        lemma_key_index_same_keys(a.drop_first(), b.drop_first(), k);
    }
}

/// The case-insensitive key test agrees between lists with the same
/// keys.
proof fn lemma_keys_subset_ci_same_keys(
    a: Seq<(Seq<char>, JsonView)>,
    b: Seq<(Seq<char>, JsonView)>,
    props: Seq<(Seq<char>, JsonView)>,
)
    requires
        same_keys(a, b),
    ensures
        keys_subset_ci(a, props) == keys_subset_ci(b, props),
    decreases a.len(),
{
    if a.len() > 0 {
        assert(a[0].0 == b[0].0);
        assert(same_keys(a.drop_first(), b.drop_first())) by {
            assert forall|i: int| 0 <= i < a.drop_first().len() implies (#[trigger] (
            a.drop_first()[i])).0 == b.drop_first()[i].0 by {
                assert(a.drop_first()[i] == a[i + 1]);
                assert(b.drop_first()[i] == b[i + 1]);
            }
        }
        lemma_keys_subset_ci_same_keys(a.drop_first(), b.drop_first(), props);
    }
}

/// The variant scan for objects reads only the keys.
proof fn lemma_recover_scan_obj_same_keys(
    variants: Seq<JsonView>,
    a: Seq<(Seq<char>, JsonView)>,
    b: Seq<(Seq<char>, JsonView)>,
)
    requires
        same_keys(a, b),
    ensures
        recover_scan_obj(variants, a) == recover_scan_obj(variants, b),
    decreases variants.len(),
{
    if variants.len() > 0 {
        lemma_recover_scan_obj_same_keys(variants.drop_first(), a, b);
        match internal_tag(variants[0]) {
            Some(_) => {
                match props_of(variants[0]) {
                    Some(props) => {
                        lemma_keys_subset_ci_same_keys(a, b, props);
                    }
                    None => {}
                }
            }
            None => {}
        }
    }
}

/// Rebuilding members through the recover pass twice is rebuilding them
/// once.
proof fn lemma_recover_members_idempotent(
    cms: Seq<(Seq<char>, JsonView)>,
    props: Seq<(Seq<char>, JsonView)>,
)
    ensures
        repair_members(
            RepairKind::Recover,
            repair_members(RepairKind::Recover, cms, props),
            props,
        ) == repair_members(RepairKind::Recover, cms, props),
    decreases props, cms.len() + 3,
{
    let kind = RepairKind::Recover;
    if cms.len() > 0 {
        lemma_recover_members_idempotent(cms.drop_last(), props);
        let rest = repair_members(kind, cms.drop_last(), props);
        let m = cms.last();
        let nv = match obj_field(props, m.0) {
            Some(sub) => repair_walk(kind, m.1, sub),
            None => m.1,
        };
        let once = rest.push((m.0, nv));
        assert(once.drop_last() =~= rest);
        assert(once.last() == (m.0, nv));
        match obj_field(props, m.0) {
            Some(sub) => {
                lemma_key_index(props, m.0);
                let i = key_index(props, m.0);
                assert(decreases_to!(props => props[i]));
                assert(decreases_to!(props[i] => props[i].1));
                lemma_recover_walk_idempotent(m.1, sub);
            }
            None => {}
        }
        assert(repair_members(kind, once, props) =~= once);
    }
}

/// Rebuilding elements through the recover pass twice is rebuilding them
/// once.
proof fn lemma_recover_elems_idempotent(es: Seq<JsonView>, item_schema: JsonView)
    ensures
        repair_elems(
            RepairKind::Recover,
            repair_elems(RepairKind::Recover, es, item_schema),
            item_schema,
        ) == repair_elems(RepairKind::Recover, es, item_schema),
    decreases item_schema, es.len() + 3,
{
    let kind = RepairKind::Recover;
    if es.len() > 0 {
        lemma_recover_elems_idempotent(es.drop_last(), item_schema);
        let rest = repair_elems(kind, es.drop_last(), item_schema);
        let nv = repair_walk(kind, es.last(), item_schema);
        let once = rest.push(nv);
        assert(once.drop_last() =~= rest);
        assert(once.last() == nv);
        lemma_recover_walk_idempotent(es.last(), item_schema);
        assert(repair_elems(kind, once, item_schema) =~= once);
    }
}

/// The tag-recovery pass is idempotent over the whole tree: a second run
/// changes nothing.
pub proof fn lemma_recover_walk_idempotent(v: JsonView, schema: JsonView)
    ensures
        repair_walk(RepairKind::Recover, repair_walk(RepairKind::Recover, v, schema), schema)
            == repair_walk(RepairKind::Recover, v, schema),
    decreases schema, 2int,
{
    let kind = RepairKind::Recover;
    let w = recover_node(v, schema);
    lemma_recover_node_idempotent(v, schema);
    let tk = seq!['t', 'y', 'p', 'e'];
    if schema is Obj {
        let ms = schema->Obj_0;
        let pk = seq!['p', 'r', 'o', 'p', 'e', 'r', 't', 'i', 'e', 's'];
        let ik = seq!['i', 't', 'e', 'm', 's'];
        lemma_key_index(ms, pk);
        lemma_key_index(ms, ik);
        let pi = key_index(ms, pk);
        let ii = key_index(ms, ik);
        assert(decreases_to!(schema => ms));
        if pi >= 0 {
            assert(decreases_to!(ms => ms[pi]));
            assert(decreases_to!(ms[pi] => ms[pi].1));
            match ms[pi].1 {
                JsonView::Obj(pp) => {
                    assert(decreases_to!(ms[pi].1 => pp));
                }
                _ => {}
            }
        }
        if ii >= 0 {
            assert(decreases_to!(ms => ms[ii]));
            assert(decreases_to!(ms[ii] => ms[ii].1));
        }
        let w2 = if w is Obj && (obj_field(ms, pk) matches Some(JsonView::Obj(props))) {
            let props = obj_field(ms, pk)->Some_0->Obj_0;
            lemma_recover_members_idempotent(w->Obj_0, props);
            lemma_repair_members_same_keys(kind, w->Obj_0, props);
            JsonView::Obj(repair_members(kind, w->Obj_0, props))
        } else {
            w
        };
        let w3 = if w2 is Arr && obj_field(ms, ik) is Some {
            let item_schema = obj_field(ms, ik)->Some_0;
            lemma_recover_elems_idempotent(w2->Arr_0, item_schema);
            JsonView::Arr(repair_elems(kind, w2->Arr_0, item_schema))
        } else {
            w2
        };
        assert(repair_walk(kind, v, schema) == w3);
        if w3 is Obj {
            if w2 is Obj && w != w2 {
                assert(same_keys(w3->Obj_0, w->Obj_0));
                lemma_key_index_same_keys(w3->Obj_0, w->Obj_0, tk);
                let avk = seq!['a', 'n', 'y', 'O', 'f'];
                if obj_field(ms, avk) matches Some(JsonView::Arr(variants)) {
                    let vars = obj_field(ms, avk)->Some_0->Arr_0;
                    if key_index(w->Obj_0, tk) < 0 {
                        lemma_recover_scan_obj_same_keys(vars, w3->Obj_0, w->Obj_0);
                        assert(recover_node(w, schema) == w);
                        assert(recover_scan_obj(vars, w->Obj_0) is None);
                        assert(recover_node(w3, schema) == w3);
                    } else {
                        assert(recover_node(w3, schema) == w3);
                    }
                }
            } else {
                assert(w3 == w);
                assert(recover_node(w3, schema) == w3);
            }
        } else {
            assert(recover_node(w3, schema) == w3);
        }
    } else {
        assert(repair_walk(kind, v, schema) == w);
        assert(recover_node(w, schema) == w);
    }
}

} // verus!
