//! JSON documents as the npm registry sends and receives them: a plain
//! value tree whose objects keep their members in order, and its view.
use vstd::prelude::*;
use crate::text::{chars_of, eq_chars};

verus! {

/// A JSON value.  Numbers are kept as whole numbers where they are whole,
/// and by their text otherwise.  An object lists its members; a key is
/// looked up at its first occurrence.
#[derive(Debug)]
pub enum JsonValue {
    Null,
    Bool(bool),
    /// A whole number from zero up.
    Unsigned(u64),
    /// A whole number below zero.
    Negative(i64),
    /// Any other number, by its JSON text.
    Fraction(String),
    Text(String),
    Array(Vec<JsonValue>),
    Object(Vec<(String, JsonValue)>),
}

/// What a JSON value means: the same tree over texts and sequences.
pub enum JsonView {
    Null,
    Bool(bool),
    Unsigned(u64),
    Negative(i64),
    Fraction(Seq<char>),
    Text(Seq<char>),
    Array(Seq<JsonView>),
    Object(Seq<(Seq<char>, JsonView)>),
}

/// The view of a value.
pub open spec fn json_view(v: JsonValue) -> JsonView
    decreases v,
{
    match v {
        JsonValue::Null => JsonView::Null,
        JsonValue::Bool(b) => JsonView::Bool(b),
        JsonValue::Unsigned(n) => JsonView::Unsigned(n),
        JsonValue::Negative(n) => JsonView::Negative(n),
        JsonValue::Fraction(t) => JsonView::Fraction(t@),
        JsonValue::Text(t) => JsonView::Text(t@),
        JsonValue::Array(items) => JsonView::Array(items_view(items@)),
        JsonValue::Object(es) => JsonView::Object(entries_view(es@)),
    }
}

/// The views of the items of an array.
pub open spec fn items_view(s: Seq<JsonValue>) -> Seq<JsonView>
    decreases s,
{
    if s.len() == 0 {
        Seq::empty()
    } else {
        items_view(s.drop_last()).push(json_view(s.last()))
    }
}

/// The views of the members of an object.
pub open spec fn entries_view(s: Seq<(String, JsonValue)>) -> Seq<(Seq<char>, JsonView)>
    decreases s,
{
    if s.len() == 0 {
        Seq::empty()
    } else {
        entries_view(s.drop_last()).push((s.last().0@, json_view(s.last().1)))
    }
}

impl View for JsonValue {
    type V = JsonView;

    open spec fn view(&self) -> JsonView {
        json_view(*self)
    }
}

/// The view of an object is an object of its members' views.
pub proof fn lemma_view_object(es: &Vec<(String, JsonValue)>)
    ensures
        JsonValue::Object(*es)@ == JsonView::Object(entries_view(es@)),
{
}

/// Only objects view as objects, only texts as texts.
pub proof fn lemma_view_not_object(v: &JsonValue)
    ensures
        (v@ is Object) == (*v is Object),
        (v@ is Text) == (*v is Text),
        (v@ is Array) == (*v is Array),
{
}

/// Each member's view is the key's text and the value's view.
pub proof fn lemma_entries_view(s: Seq<(String, JsonValue)>)
    ensures
        entries_view(s).len() == s.len(),
        forall|i: int|
            0 <= i < s.len() ==> #[trigger] entries_view(s)[i] == (s[i].0@, json_view(s[i].1)),
    decreases s.len(),
{
    if s.len() > 0 {
        lemma_entries_view(s.drop_last());
    }
}

/// Each item's view is the view of the item.
pub proof fn lemma_items_view(s: Seq<JsonValue>)
    ensures
        items_view(s).len() == s.len(),
        forall|i: int| 0 <= i < s.len() ==> #[trigger] items_view(s)[i] == json_view(s[i]),
    decreases s.len(),
{
    if s.len() > 0 {
        lemma_items_view(s.drop_last());
    }
}

/// Member views that agree index by index are equal.
pub proof fn lemma_entries_view_ext(s: Seq<(String, JsonValue)>, t: Seq<(Seq<char>, JsonView)>)
    requires
        s.len() == t.len(),
        forall|i: int| 0 <= i < s.len() ==> (s[i].0@, json_view(s[i].1)) == #[trigger] t[i],
    ensures
        entries_view(s) == t,
{
    lemma_entries_view(s);
    assert(entries_view(s) =~= t);
}

/// The value of the first member named `key`.
pub open spec fn member(es: Seq<(Seq<char>, JsonView)>, key: Seq<char>) -> Option<JsonView>
    decreases es.len(),
{
    if es.len() == 0 {
        None
    } else if es[0].0 == key {
        Some(es[0].1)
    } else {
        member(es.drop_first(), key)
    }
}

/// `value.get(key)`: the member of an object, nothing for other values.
pub open spec fn field(v: JsonView, key: Seq<char>) -> Option<JsonView> {
    match v {
        JsonView::Object(es) => member(es, key),
        _ => None,
    }
}

/// `value.as_str()`.
pub open spec fn text_of(v: JsonView) -> Option<Seq<char>> {
    match v {
        JsonView::Text(s) => Some(s),
        _ => None,
    }
}

/// `value.get(key).and_then(as_str)`.
pub open spec fn text_field(v: JsonView, key: Seq<char>) -> Option<Seq<char>> {
    match field(v, key) {
        Some(x) => text_of(x),
        None => None,
    }
}

/// The members after `value` is set for `key`: the first member with that
/// key takes the value, else the member is added at the end.
pub open spec fn with_member(es: Seq<(Seq<char>, JsonView)>, key: Seq<char>, value: JsonView) -> Seq<
    (Seq<char>, JsonView),
>
    decreases es.len(),
{
    if es.len() == 0 {
        seq![(key, value)]
    } else if es[0].0 == key {
        es.update(0, (key, value))
    } else {
        seq![es[0]] + with_member(es.drop_first(), key, value)
    }
}

/// The members without the first one named `key`.
pub open spec fn without_member(es: Seq<(Seq<char>, JsonView)>, key: Seq<char>) -> Seq<
    (Seq<char>, JsonView),
>
    decreases es.len(),
{
    if es.len() == 0 {
        es
    } else if es[0].0 == key {
        es.drop_first()
    } else {
        seq![es[0]] + without_member(es.drop_first(), key)
    }
}

proof fn lemma_member_skip(es: Seq<(Seq<char>, JsonView)>, key: Seq<char>, i: int)
    requires
        0 <= i < es.len(),
        es[i].0 != key,
    ensures
        member(es.skip(i), key) == member(es.skip(i + 1), key),
{
    assert(es.skip(i).drop_first() =~= es.skip(i + 1));
}

/// The index of the first member named `key`.
fn member_index(es: &Vec<(String, JsonValue)>, key: &[char]) -> (r: Option<usize>)
    ensures
        match r {
            Some(i) => i < es@.len() && es@[i as int].0@ == key@ && member(
                entries_view(es@),
                key@,
            ) == Some(json_view(es@[i as int].1)) && forall|j: int|
                0 <= j < i ==> (#[trigger] es@[j]).0@ != key@,
            None => member(entries_view(es@), key@) is None,
        },
{
    let ghost ev = entries_view(es@);
    proof {
        lemma_entries_view(es@);
    }
    let mut i: usize = 0;
    assert(ev.skip(0) =~= ev);
    while i < es.len()
        invariant
            i <= es@.len(),
            ev == entries_view(es@),
            ev.len() == es@.len(),
            forall|j: int| 0 <= j < es@.len() ==> #[trigger] ev[j] == (es@[j].0@, json_view(es@[j].1)),
            member(ev, key@) == member(ev.skip(i as int), key@),
            forall|j: int| 0 <= j < i ==> (#[trigger] es@[j]).0@ != key@,
        decreases es.len() - i,
    {
        let k = chars_of(es[i].0.as_str());
        if eq_chars(k.as_slice(), key) {
            assert(ev.skip(i as int)[0] == ev[i as int]);
            return Some(i);
        }
        proof {
            assert(ev[i as int].0 == es@[i as int].0@);
            lemma_member_skip(ev, key@, i as int);
        }
        i = i + 1;
    }
    assert(ev.skip(i as int).len() == 0);
    None
}

/// `value.get(key)`.
pub fn json_get<'a>(v: &'a JsonValue, key: &str) -> (r: Option<&'a JsonValue>)
    ensures
        match r {
            Some(x) => field(v@, key@) == Some(x@),
            None => field(v@, key@) is None,
        },
{
    match v {
        JsonValue::Object(es) => {
            let k = chars_of(key);
            match member_index(es, k.as_slice()) {
                Some(i) => Some(&es[i].1),
                None => None,
            }
        },
        _ => None,
    }
}

/// `value.get(key).and_then(as_str)`.
pub fn json_text_field<'a>(v: &'a JsonValue, key: &str) -> (r: Option<&'a String>)
    ensures
        match r {
            Some(s) => text_field(v@, key@) == Some(s@),
            None => text_field(v@, key@) is None,
        },
{
    match json_get(v, key) {
        Some(JsonValue::Text(s)) => Some(s),
        _ => None,
    }
}

proof fn lemma_with_member_at(
    es: Seq<(Seq<char>, JsonView)>,
    key: Seq<char>,
    value: JsonView,
    i: int,
)
    requires
        0 <= i < es.len(),
        es[i].0 == key,
        forall|j: int| 0 <= j < i ==> (#[trigger] es[j]).0 != key,
    ensures
        with_member(es, key, value) == es.update(i, (key, value)),
    decreases i,
{
    if i > 0 {
        lemma_with_member_at(es.drop_first(), key, value, i - 1);
        assert(es.update(i, (key, value)) =~= seq![es[0]] + es.drop_first().update(
            i - 1,
            (key, value),
        ));
    }
}

proof fn lemma_with_member_absent(es: Seq<(Seq<char>, JsonView)>, key: Seq<char>, value: JsonView)
    requires
        member(es, key) is None,
    ensures
        with_member(es, key, value) == es.push((key, value)),
    decreases es.len(),
{
    if es.len() > 0 {
        lemma_with_member_absent(es.drop_first(), key, value);
        assert(es.push((key, value)) =~= seq![es[0]] + es.drop_first().push((key, value)));
    } else {
        assert(es.push((key, value)) =~= seq![(key, value)]);
    }
}

/// Sets the member `key` to `value`, in the place of the first member with
/// that key or else at the end.
pub fn set_member(es: &mut Vec<(String, JsonValue)>, key: String, value: JsonValue)
    ensures
        entries_view(final(es)@) == with_member(entries_view(old(es)@), key@, value@),
{
    let ghost before = es@;
    let ghost vv = value@;
    proof {
        lemma_entries_view(before);
    }
    let k = chars_of(key.as_str());
    match member_index(es, k.as_slice()) {
        Some(i) => {
            proof {
                lemma_with_member_at(entries_view(before), key@, vv, i as int);
            }
            let old_key = es[i].0.clone();
            es.set(i, (old_key, value));
            proof {
                lemma_entries_view_ext(es@, entries_view(before).update(i as int, (key@, vv)));
            }
        },
        None => {
            proof {
                lemma_with_member_absent(entries_view(before), key@, vv);
            }
            es.push((key, value));
            proof {
                assert(es@.drop_last() =~= before);
            }
        },
    }
}

proof fn lemma_without_member_at(es: Seq<(Seq<char>, JsonView)>, key: Seq<char>, i: int)
    requires
        0 <= i < es.len(),
        es[i].0 == key,
        forall|j: int| 0 <= j < i ==> (#[trigger] es[j]).0 != key,
    ensures
        without_member(es, key) == es.remove(i),
    decreases i,
{
    if i > 0 {
        lemma_without_member_at(es.drop_first(), key, i - 1);
        assert(es.remove(i) =~= seq![es[0]] + es.drop_first().remove(i - 1));
    } else {
        assert(es.remove(0) =~= es.drop_first());
    }
}

proof fn lemma_without_member_absent(es: Seq<(Seq<char>, JsonView)>, key: Seq<char>)
    requires
        member(es, key) is None,
    ensures
        without_member(es, key) == es,
    decreases es.len(),
{
    if es.len() > 0 {
        lemma_without_member_absent(es.drop_first(), key);
        assert(es =~= seq![es[0]] + es.drop_first());
    }
}

/// Removes the first member named `key`, giving its value.
pub fn take_member(es: &mut Vec<(String, JsonValue)>, key: &str) -> (r: Option<JsonValue>)
    ensures
        match r {
            Some(x) => member(entries_view(old(es)@), key@) == Some(x@),
            None => member(entries_view(old(es)@), key@) is None,
        },
        entries_view(final(es)@) == without_member(entries_view(old(es)@), key@),
{
    let ghost before = es@;
    proof {
        lemma_entries_view(before);
    }
    let k = chars_of(key);
    match member_index(es, k.as_slice()) {
        Some(i) => {
            proof {
                lemma_without_member_at(entries_view(before), key@, i as int);
            }
            let (_, value) = es.remove(i);
            proof {
                lemma_entries_view_ext(es@, entries_view(before).remove(i as int));
            }
            Some(value)
        },
        None => {
            proof {
                lemma_without_member_absent(entries_view(before), key@);
            }
            None
        },
    }
}

/// The index of the first member named `key`.
pub fn find_member(es: &Vec<(String, JsonValue)>, key: &str) -> (r: Option<usize>)
    ensures
        match r {
            Some(i) => i < es@.len() && es@[i as int].0@ == key@ && member(
                entries_view(es@),
                key@,
            ) == Some(json_view(es@[i as int].1)) && forall|j: int|
                0 <= j < i ==> (#[trigger] es@[j]).0@ != key@,
            None => member(entries_view(es@), key@) is None,
        },
{
    let k = chars_of(key);
    member_index(es, k.as_slice())
}

/// Putting a member back at the place of the first member with its key
/// sets that member.
pub proof fn lemma_replace_at(es: Seq<(String, JsonValue)>, i: int, k: String, v: JsonValue)
    requires
        0 <= i < es.len(),
        es[i].0@ == k@,
        forall|j: int| 0 <= j < i ==> (#[trigger] es[j]).0@ != k@,
    ensures
        entries_view(es.remove(i).insert(i, (k, v))) == with_member(entries_view(es), k@, v@),
{
    lemma_entries_view(es);
    let ev = entries_view(es);
    assert forall|j: int| 0 <= j < i implies (#[trigger] ev[j]).0 != k@ by {
        assert(ev[j] == (es[j].0@, json_view(es[j].1)));
    }
    lemma_with_member_at(ev, k@, v@, i);
    let t = es.remove(i).insert(i, (k, v));
    assert forall|j: int| 0 <= j < t.len() implies (t[j].0@, json_view(t[j].1)) == #[trigger] ev.update(
        i,
        (k@, v@),
    )[j] by {
        if j != i {
            assert(t[j] == es[j]);
        }
    }
    lemma_entries_view_ext(t, ev.update(i, (k@, v@)));
}

/// Members that agree in their views have equal views after the same
/// member is added.
pub proof fn lemma_entries_push(es: Seq<(String, JsonValue)>, k: String, v: JsonValue)
    ensures
        entries_view(es.push((k, v))) == entries_view(es).push((k@, v@)),
{
    assert(es.push((k, v)).drop_last() =~= es);
}

/// A copy of a value.
pub fn json_copy(v: &JsonValue) -> (r: JsonValue)
    ensures
        r@ == v@,
    decreases v,
{
    match v {
        JsonValue::Null => JsonValue::Null,
        JsonValue::Bool(b) => JsonValue::Bool(*b),
        JsonValue::Unsigned(n) => JsonValue::Unsigned(*n),
        JsonValue::Negative(n) => JsonValue::Negative(*n),
        JsonValue::Fraction(t) => JsonValue::Fraction(t.clone()),
        JsonValue::Text(t) => JsonValue::Text(t.clone()),
        JsonValue::Array(items) => {
            let mut out: Vec<JsonValue> = Vec::new();
            let mut i: usize = 0;
            while i < items.len()
                invariant
                    *v == JsonValue::Array(*items),
                    i <= items@.len(),
                    out@.len() == i,
                    forall|j: int| 0 <= j < i ==> (#[trigger] out@[j])@ == items@[j]@,
                decreases items.len() - i,
            {
                proof {
                    assert(decreases_to!(*v => (*v)->Array_0));
                    assert(decreases_to!(*items => items@));
                    assert(decreases_to!(items@ => items@[i as int]));
                }
                let c = json_copy(&items[i]);
                out.push(c);
                i = i + 1;
            }
            proof {
                lemma_items_view(out@);
                lemma_items_view(items@);
                assert(items_view(out@) =~= items_view(items@));
            }
            JsonValue::Array(out)
        },
        JsonValue::Object(es) => {
            let mut out: Vec<(String, JsonValue)> = Vec::new();
            let mut i: usize = 0;
            while i < es.len()
                invariant
                    *v == JsonValue::Object(*es),
                    i <= es@.len(),
                    out@.len() == i,
                    forall|j: int|
                        0 <= j < i ==> (#[trigger] out@[j]).0@ == es@[j].0@ && out@[j].1@
                            == es@[j].1@,
                decreases es.len() - i,
            {
                proof {
                    assert(decreases_to!(*v => (*v)->Object_0));
                    assert(decreases_to!(*es => es@));
                    assert(decreases_to!(es@ => es@[i as int]));
                    assert(decreases_to!(es@[i as int] => es@[i as int].1));
                }
                let c = json_copy(&es[i].1);
                out.push((es[i].0.clone(), c));
                i = i + 1;
            }
            proof {
                lemma_entries_view(out@);
                lemma_entries_view(es@);
                assert(entries_view(out@) =~= entries_view(es@));
            }
            JsonValue::Object(out)
        },
    }
}

} // verus!
