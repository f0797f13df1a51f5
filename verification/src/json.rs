//! The JSON form of the generic document tree, and its merge algorithm.
//!
//! A [`JsonValue`] stands for one node of a parsed JSON document: null, a
//! boolean, a number, a piece of text, an ordered sequence, or an ordered
//! key/value mapping.  The mathematical abstraction of a tree is a
//! [`JsonValueView`]; every operation of this module is specified against
//! that abstraction.
//!
//! Merging is total, deterministic and asymmetric: the first operand is the
//! preferred side, the second the overlay.  The rule table lives in
//! [`merged`]; [`merge_values`] is the verified implementation.

use vstd::prelude::*;

verus! {

/// A JSON number: an unsigned integer, a signed (negative) integer, or a
/// floating-point value carried opaquely as its IEEE 754 bit pattern.
/// Verified code never computes with floating point; it only stores and
/// compares the pattern.
#[derive(Clone, Copy, PartialEq, Eq, Structural, Debug)]
pub enum JsonNumber {
    Unsigned(u64),
    Signed(i64),
    Float(u64),
}

/// One node of a JSON document tree.  A mapping is an ordered association
/// list; well-formed documents have unique keys within each mapping (see
/// [`well_formed`]).
#[derive(Debug)]
pub enum JsonValue {
    Null,
    Bool(bool),
    Num(JsonNumber),
    Text(String),
    Array(Vec<JsonValue>),
    Object(Vec<(String, JsonValue)>),
}

/// The mathematical abstraction of a JSON tree.
pub enum JsonValueView {
    Null,
    Bool(bool),
    Num(JsonNumber),
    Text(Seq<char>),
    Arr(Seq<JsonValueView>),
    Obj(Seq<(Seq<char>, JsonValueView)>),
}

impl DeepView for JsonValue {
    type V = JsonValueView;

    open spec fn deep_view(&self) -> JsonValueView
        decreases self,
    {
        match self {
            JsonValue::Null => JsonValueView::Null,
            JsonValue::Bool(b) => JsonValueView::Bool(*b),
            JsonValue::Num(n) => JsonValueView::Num(*n),
            JsonValue::Text(s) => JsonValueView::Text(s@),
            JsonValue::Array(items) => JsonValueView::Arr(item_views(items@)),
            JsonValue::Object(entries) => JsonValueView::Obj(entry_views(entries@)),
        }
    }
}

/// The views of the elements of a sequence of values.  (The range guard
/// lets the termination checker see that the recursion descends into an
/// element.)
pub open spec fn item_views(items: Seq<JsonValue>) -> Seq<JsonValueView>
    decreases items,
{
    Seq::new(
        items.len(),
        |i: int|
            if 0 <= i < items.len() {
                items[i].deep_view()
            } else {
                JsonValueView::Null
            },
    )
}

/// The views of the entries of a mapping.
pub open spec fn entry_views(entries: Seq<(String, JsonValue)>) -> Seq<(Seq<char>, JsonValueView)>
    decreases entries,
{
    Seq::new(
        entries.len(),
        |i: int|
            if 0 <= i < entries.len() {
                (entries[i].0@, entries[i].1.deep_view())
            } else {
                (Seq::empty(), JsonValueView::Null)
            },
    )
}

impl View for JsonValue {
    type V = JsonValueView;

    open spec fn view(&self) -> JsonValueView {
        self.deep_view()
    }
}

/// The value of the first entry of `entries` whose key is `key`, if any.
pub open spec fn field_of(
    entries: Seq<(Seq<char>, JsonValueView)>,
    key: Seq<char>,
) -> Option<JsonValueView>
    decreases entries.len(),
{
    if entries.len() == 0 {
        None
    } else if entries[0].0 == key {
        Some(entries[0].1)
    } else {
        field_of(entries.drop_first(), key)
    }
}

/// Whether `entries` holds an entry whose key is `key`.
pub open spec fn has_field(entries: Seq<(Seq<char>, JsonValueView)>, key: Seq<char>) -> bool {
    field_of(entries, key) is Some
}

/// The merge of two JSON trees, by the first matching rule:
///
/// 1. Either side null: the other side.
/// 2. Two scalars of one kind: the first.
/// 3. Two sequences: the first's elements followed by the second's.
/// 4. A sequence and any other non-null value: the value is merged into
///    every element of the sequence (broadcast).
/// 5. Two mappings: key-wise.  Keys of the first keep its order and merge
///    their values with the second's value under the same key, if any;
///    keys only in the second are appended unchanged, in its order.
/// 6. Any other pairing: the first, the second is dropped.
pub open spec fn merged(a: JsonValueView, b: JsonValueView) -> JsonValueView
    decreases a,
{
    match (a, b) {
        (JsonValueView::Null, _) => b,
        (_, JsonValueView::Null) => a,
        (JsonValueView::Bool(_), JsonValueView::Bool(_)) => a,
        (JsonValueView::Num(_), JsonValueView::Num(_)) => a,
        (JsonValueView::Text(_), JsonValueView::Text(_)) => a,
        (JsonValueView::Arr(items1), JsonValueView::Arr(items2)) => JsonValueView::Arr(
            items1 + items2,
        ),
        (JsonValueView::Arr(items1), _) => JsonValueView::Arr(
            Seq::new(
                items1.len(),
                |i: int|
                    if 0 <= i < items1.len() {
                        merged(items1[i], b)
                    } else {
                        JsonValueView::Null
                    },
            ),
        ),
        (JsonValueView::Obj(entries1), JsonValueView::Obj(entries2)) => JsonValueView::Obj(
            overlaid_entries(entries1, entries2) + extra_entries(entries1, entries2),
        ),
        _ => a,
    }
}

/// The first half of the key-wise rule: the first mapping's entries, in its
/// order, each merged with the second's value under the same key, if any.
pub open spec fn overlaid_entries(
    entries1: Seq<(Seq<char>, JsonValueView)>,
    entries2: Seq<(Seq<char>, JsonValueView)>,
) -> Seq<(Seq<char>, JsonValueView)>
    decreases entries1,
{
    Seq::new(
        entries1.len(),
        |i: int|
            if 0 <= i < entries1.len() {
                (
                    entries1[i].0,
                    match field_of(entries2, entries1[i].0) {
                        Some(v2) => merged(entries1[i].1, v2),
                        None => entries1[i].1,
                    },
                )
            } else {
                (Seq::empty(), JsonValueView::Null)
            },
    )
}

/// The second half of the key-wise rule: the second mapping's entries whose
/// keys are absent from the first, in the second's order.
pub open spec fn extra_entries(
    entries1: Seq<(Seq<char>, JsonValueView)>,
    entries2: Seq<(Seq<char>, JsonValueView)>,
) -> Seq<(Seq<char>, JsonValueView)>
    decreases entries2.len(),
{
    if entries2.len() == 0 {
        Seq::empty()
    } else {
        let rest = extra_entries(entries1, entries2.drop_last());
        if !has_field(entries1, entries2.last().0) {
            rest.push(entries2.last())
        } else {
            rest
        }
    }
}

/// The entries of the merge of two mappings: rule 5 of [`merged`].
pub open spec fn merged_entries(
    entries1: Seq<(Seq<char>, JsonValueView)>,
    entries2: Seq<(Seq<char>, JsonValueView)>,
) -> Seq<(Seq<char>, JsonValueView)> {
    overlaid_entries(entries1, entries2) + extra_entries(entries1, entries2)
}

/// Structural equality of JSON trees, with mappings compared as maps: entry
/// order is insignificant, every key of either side must be present in the
/// other, with equivalent values.  This is the equality that `==` on
/// [`JsonValue`] decides.
pub open spec fn equivalent(a: JsonValueView, b: JsonValueView) -> bool
    decreases a,
{
    match (a, b) {
        (JsonValueView::Null, JsonValueView::Null) => true,
        (JsonValueView::Bool(x), JsonValueView::Bool(y)) => x == y,
        (JsonValueView::Num(x), JsonValueView::Num(y)) => x == y,
        (JsonValueView::Text(x), JsonValueView::Text(y)) => x == y,
        (JsonValueView::Arr(x), JsonValueView::Arr(y)) => x.len() == y.len() && (forall|i: int|
            0 <= i < x.len() ==> equivalent(#[trigger] x[i], y[i])),
        (JsonValueView::Obj(x), JsonValueView::Obj(y)) => x.len() == y.len() && (forall|i: int|
            0 <= i < x.len() ==> match field_of(y, (#[trigger] x[i]).0) {
                Some(v) => equivalent(x[i].1, v),
                None => false,
            }) && (forall|j: int| 0 <= j < y.len() ==> has_field(x, (#[trigger] y[j]).0)),
        _ => false,
    }
}

/// Uniqueness of mapping keys, through the whole tree.
pub open spec fn well_formed(v: JsonValueView) -> bool
    decreases v,
{
    match v {
        JsonValueView::Arr(items) => forall|i: int|
            0 <= i < items.len() ==> well_formed(#[trigger] items[i]),
        JsonValueView::Obj(entries) => (forall|i: int, j: int|
            0 <= i < j < entries.len() ==> (#[trigger] entries[i]).0 != (
            #[trigger] entries[j]).0) && (forall|i: int|
            0 <= i < entries.len() ==> well_formed((#[trigger] entries[i]).1)),
        _ => true,
    }
}

/// Where the first `i` keys of `entries` differ from `key` and the entry at
/// `i` carries it, the lookup returns that entry's value.
proof fn lemma_field_of_first_match(
    entries: Seq<(Seq<char>, JsonValueView)>,
    key: Seq<char>,
    i: int,
)
    requires
        0 <= i < entries.len(),
        entries[i].0 == key,
        forall|j: int| 0 <= j < i ==> (#[trigger] entries[j]).0 != key,
    ensures
        field_of(entries, key) == Some(entries[i].1),
    decreases i,
{
    if i > 0 {
        lemma_field_of_first_match(entries.drop_first(), key, i - 1);
    }
}

/// Where no key of `entries` is `key`, the lookup returns nothing.
proof fn lemma_field_of_absent(entries: Seq<(Seq<char>, JsonValueView)>, key: Seq<char>)
    requires
        forall|j: int| 0 <= j < entries.len() ==> (#[trigger] entries[j]).0 != key,
    ensures
        field_of(entries, key) is None,
    decreases entries.len(),
{
    if entries.len() > 0 {
        lemma_field_of_absent(entries.drop_first(), key);
    }
}

/// A reference to the value of the first entry of `entries` whose key is
/// `key`, if any.
pub fn get_field<'a>(entries: &'a Vec<(String, JsonValue)>, key: &String) -> (r: Option<
    &'a JsonValue,
>)
    ensures
        match r {
            Some(v) => field_of(entry_views(entries@), key@) == Some(v.deep_view()),
            None => !has_field(entry_views(entries@), key@),
        },
{
    let ghost views = entry_views(entries@);
    let mut i: usize = 0;
    while i < entries.len()
        invariant
            views == entry_views(entries@),
            i <= entries.len(),
            forall|j: int| 0 <= j < i ==> (#[trigger] views[j]).0 != key@,
        decreases entries.len() - i,
    {
        let entry = &entries[i];
        if entry.0 == *key {
            proof {
                lemma_field_of_first_match(views, key@, i as int);
            }
            return Some(&entry.1);
        }
        i += 1;
    }
    proof {
        lemma_field_of_absent(views, key@);
    }
    None
}

impl JsonValue {
    /// A structurally equal copy of the tree: merge and conversion allocate
    /// new trees and never share or mutate their inputs.
    pub fn deep_copy(&self) -> (r: JsonValue)
        ensures
            r.deep_view() == self.deep_view(),
        decreases self,
    {
        match self {
            JsonValue::Null => JsonValue::Null,
            JsonValue::Bool(b) => JsonValue::Bool(*b),
            JsonValue::Num(n) => JsonValue::Num(*n),
            JsonValue::Text(s) => JsonValue::Text(s.clone()),
            JsonValue::Array(items) => JsonValue::Array(copy_items(items)),
            JsonValue::Object(entries) => JsonValue::Object(copy_entries(entries)),
        }
    }
}

/// Copies every element of a sequence of values.
fn copy_items(items: &Vec<JsonValue>) -> (r: Vec<JsonValue>)
    ensures
        item_views(r@) == item_views(items@),
    decreases items,
{
    let mut out: Vec<JsonValue> = Vec::new();
    let mut i: usize = 0;
    while i < items.len()
        invariant
            i <= items.len(),
            out@.len() == i,
            forall|j: int| 0 <= j < i ==> (#[trigger] out@[j]).deep_view() == item_views(items@)[j],
        decreases items.len() - i,
    {
        out.push(items[i].deep_copy());
        i += 1;
    }
    proof {
        assert(item_views(out@) =~= item_views(items@));
    }
    out
}

/// Copies every entry of a mapping.
fn copy_entries(entries: &Vec<(String, JsonValue)>) -> (r: Vec<(String, JsonValue)>)
    ensures
        entry_views(r@) == entry_views(entries@),
    decreases entries,
{
    let mut out: Vec<(String, JsonValue)> = Vec::new();
    let mut i: usize = 0;
    while i < entries.len()
        invariant
            i <= entries.len(),
            out@.len() == i,
            forall|j: int| 0 <= j < i ==> entry_views(out@)[j] == entry_views(entries@)[j],
        decreases entries.len() - i,
    {
        let entry = &entries[i];
        out.push((entry.0.clone(), entry.1.deep_copy()));
        i += 1;
    }
    proof {
        assert(entry_views(out@) =~= entry_views(entries@));
    }
    out
}

/// The concatenation rule: all elements of `first` in order, then all
/// elements of `second` in order.  Elements are never merged pairwise.
fn merge_arrays(first: &Vec<JsonValue>, second: &Vec<JsonValue>) -> (r: JsonValue)
    ensures
        r.deep_view() == JsonValueView::Arr(item_views(first@) + item_views(second@)),
{
    let mut out = copy_items(first);
    let mut tail = copy_items(second);
    out.append(&mut tail);
    proof {
        assert(item_views(out@) =~= item_views(first@) + item_views(second@));
    }
    JsonValue::Array(out)
}

/// The broadcast rule: one non-sequence, non-null overlay value is merged
/// into every element of the target sequence.
fn merge_value_into_array(items: &Vec<JsonValue>, value: &JsonValue) -> (r: JsonValue)
    requires
        !(value.deep_view() is Arr),
        !(value.deep_view() is Null),
    ensures
        r.deep_view() == merged(JsonValueView::Arr(item_views(items@)), value.deep_view()),
    decreases items,
{
    let mut out: Vec<JsonValue> = Vec::new();
    let mut i: usize = 0;
    while i < items.len()
        invariant
            !(value.deep_view() is Arr),
            !(value.deep_view() is Null),
            i <= items.len(),
            out@.len() == i,
            forall|j: int|
                0 <= j < i ==> (#[trigger] out@[j]).deep_view() == merged(
                    item_views(items@)[j],
                    value.deep_view(),
                ),
        decreases items.len() - i,
    {
        out.push(merge_values(&items[i], value));
        i += 1;
    }
    proof {
        let a = JsonValueView::Arr(item_views(items@));
        assert(item_views(out@) =~= merged(a, value.deep_view())->Arr_0);
    }
    JsonValue::Array(out)
}

/// The key-wise rule for two mappings.
fn merge_object_maps(
    first: &Vec<(String, JsonValue)>,
    second: &Vec<(String, JsonValue)>,
) -> (r: JsonValue)
    ensures
        r.deep_view() == JsonValueView::Obj(
            merged_entries(entry_views(first@), entry_views(second@)),
        ),
    decreases first,
{
    let ghost views1 = entry_views(first@);
    let ghost views2 = entry_views(second@);
    let mut out: Vec<(String, JsonValue)> = Vec::new();
    // Keys of the first mapping, in its order, with values merged against
    // the second's value under the same key where one exists.
    let mut i: usize = 0;
    while i < first.len()
        invariant
            views1 == entry_views(first@),
            views2 == entry_views(second@),
            i <= first.len(),
            out@.len() == i,
            forall|j: int|
                0 <= j < i ==> entry_views(out@)[j] == overlaid_entries(views1, views2)[j],
        decreases first.len() - i,
    {
        let entry = &first[i];
        let merged_value = match get_field(second, &entry.0) {
            Some(v2) => merge_values(&entry.1, v2),
            None => entry.1.deep_copy(),
        };
        out.push((entry.0.clone(), merged_value));
        i += 1;
    }
    proof {
        assert(entry_views(out@) =~= overlaid_entries(views1, views2));
    }
    // Keys present only in the second mapping are appended unchanged, in
    // its order.
    let ghost head = entry_views(out@);
    let mut k: usize = 0;
    while k < second.len()
        invariant
            views1 == entry_views(first@),
            views2 == entry_views(second@),
            head == overlaid_entries(views1, views2),
            k <= second.len(),
            entry_views(out@) == head + extra_entries(views1, views2.subrange(0, k as int)),
        decreases second.len() - k,
    {
        let ghost old_views = entry_views(out@);
        let entry = &second[k];
        if get_field(first, &entry.0).is_none() {
            out.push((entry.0.clone(), entry.1.deep_copy()));
            proof {
                assert(entry_views(out@) =~= old_views.push(views2[k as int]));
            }
        }
        proof {
            let prefix = views2.subrange(0, k as int);
            let grown = views2.subrange(0, k + 1 as int);
            assert(grown.drop_last() =~= prefix);
            assert(grown.last() == views2[k as int]);
            assert(entry_views(out@) =~= head + extra_entries(views1, grown));
        }
        k += 1;
    }
    proof {
        assert(views2.subrange(0, second@.len() as int) =~= views2);
        assert(entry_views(out@) =~= merged_entries(views1, views2));
    }
    JsonValue::Object(out)
}

/// The merge of two JSON trees: a verified implementation of [`merged`].
/// Total and deterministic; the inputs are never mutated.
pub fn merge_values(first: &JsonValue, second: &JsonValue) -> (r: JsonValue)
    ensures
        r.deep_view() == merged(first.deep_view(), second.deep_view()),
    decreases first,
{
    match (first, second) {
        (JsonValue::Null, _) => second.deep_copy(),
        (_, JsonValue::Null) => first.deep_copy(),
        (JsonValue::Bool(_), JsonValue::Bool(_)) => first.deep_copy(),
        (JsonValue::Num(_), JsonValue::Num(_)) => first.deep_copy(),
        (JsonValue::Text(_), JsonValue::Text(_)) => first.deep_copy(),
        (JsonValue::Array(items1), JsonValue::Array(items2)) => merge_arrays(items1, items2),
        (JsonValue::Array(items1), _) => merge_value_into_array(items1, second),
        (JsonValue::Object(entries1), JsonValue::Object(entries2)) => merge_object_maps(
            entries1,
            entries2,
        ),
        _ => first.deep_copy(),
    }
}

/// Elementwise equivalence of two sequences of values.
fn items_equiv(x: &Vec<JsonValue>, y: &Vec<JsonValue>) -> (r: bool)
    ensures
        r == equivalent(JsonValueView::Arr(item_views(x@)), JsonValueView::Arr(item_views(y@))),
    decreases x,
{
    if x.len() != y.len() {
        return false;
    }
    let mut i: usize = 0;
    while i < x.len()
        invariant
            x@.len() == y@.len(),
            i <= x.len(),
            forall|j: int|
                0 <= j < i ==> equivalent(#[trigger] item_views(x@)[j], item_views(y@)[j]),
        decreases x.len() - i,
    {
        if !value_equiv(&x[i], &y[i]) {
            proof {
                assert(item_views(x@)[i as int] == x@[i as int].deep_view());
                assert(item_views(y@)[i as int] == y@[i as int].deep_view());
            }
            return false;
        }
        i += 1;
    }
    true
}

/// Equivalence of two mappings as maps: equal sizes, every key of either
/// side present in the other, and equivalent values under shared keys.
fn entries_equiv(x: &Vec<(String, JsonValue)>, y: &Vec<(String, JsonValue)>) -> (r: bool)
    ensures
        r == equivalent(
            JsonValueView::Obj(entry_views(x@)),
            JsonValueView::Obj(entry_views(y@)),
        ),
    decreases x,
{
    if x.len() != y.len() {
        return false;
    }
    let ghost xv = entry_views(x@);
    let ghost yv = entry_views(y@);
    let mut i: usize = 0;
    while i < x.len()
        invariant
            xv == entry_views(x@),
            yv == entry_views(y@),
            x@.len() == y@.len(),
            i <= x.len(),
            forall|j: int|
                0 <= j < i ==> match field_of(yv, (#[trigger] xv[j]).0) {
                    Some(v) => equivalent(xv[j].1, v),
                    None => false,
                },
        decreases x.len() - i,
    {
        let entry = &x[i];
        proof {
            assert(xv[i as int] == (x@[i as int].0@, x@[i as int].1.deep_view()));
        }
        match get_field(y, &entry.0) {
            Some(v) => {
                if !value_equiv(&entry.1, v) {
                    return false;
                }
            },
            None => {
                return false;
            },
        }
        i += 1;
    }
    let mut k: usize = 0;
    while k < y.len()
        invariant
            xv == entry_views(x@),
            yv == entry_views(y@),
            x@.len() == y@.len(),
            k <= y.len(),
            forall|j: int|
                0 <= j < x@.len() ==> match field_of(yv, (#[trigger] xv[j]).0) {
                    Some(v) => equivalent(xv[j].1, v),
                    None => false,
                },
            forall|j: int| 0 <= j < k ==> has_field(xv, (#[trigger] yv[j]).0),
        decreases y.len() - k,
    {
        let entry = &y[k];
        proof {
            assert(yv[k as int] == (y@[k as int].0@, y@[k as int].1.deep_view()));
        }
        if get_field(x, &entry.0).is_none() {
            return false;
        }
        k += 1;
    }
    true
}

/// Equivalence of two JSON trees: structural equality, with mappings
/// compared as maps.  A verified implementation of [`equivalent`].
pub fn value_equiv(a: &JsonValue, b: &JsonValue) -> (r: bool)
    ensures
        r == equivalent(a.deep_view(), b.deep_view()),
    decreases a,
{
    match (a, b) {
        (JsonValue::Null, JsonValue::Null) => true,
        (JsonValue::Bool(x), JsonValue::Bool(y)) => *x == *y,
        (JsonValue::Num(x), JsonValue::Num(y)) => *x == *y,
        (JsonValue::Text(x), JsonValue::Text(y)) => *x == *y,
        (JsonValue::Array(x), JsonValue::Array(y)) => items_equiv(x, y),
        (JsonValue::Object(x), JsonValue::Object(y)) => entries_equiv(x, y),
        _ => false,
    }
}

impl PartialEq for JsonValue {
    /// `==` decides [`equivalent`] on the two trees' views.
    fn eq(&self, other: &JsonValue) -> (r: bool) {
        value_equiv(self, other)
    }
}

impl vstd::std_specs::cmp::PartialEqSpecImpl for JsonValue {
    open spec fn obeys_eq_spec() -> bool {
        true
    }

    open spec fn eq_spec(&self, other: &JsonValue) -> bool {
        equivalent(self.deep_view(), other.deep_view())
    }
}

/// Law: merging with null on either side yields the other side unchanged.
pub proof fn lemma_merge_null(a: JsonValueView)
    ensures
        merged(JsonValueView::Null, a) == a,
        merged(a, JsonValueView::Null) == a,
{
}

/// Law: merging two sequences concatenates them: all elements of the first
/// in order, then all elements of the second.  No element-wise merging
/// happens across two sequences.
pub proof fn lemma_merge_sequences(s1: Seq<JsonValueView>, s2: Seq<JsonValueView>)
    ensures
        merged(JsonValueView::Arr(s1), JsonValueView::Arr(s2)) == JsonValueView::Arr(s1 + s2),
        merged(JsonValueView::Arr(s1), JsonValueView::Arr(s2))->Arr_0.len() == s1.len()
            + s2.len(),
{
}

/// Law: merging a non-sequence, non-null overlay into a sequence keeps the
/// sequence's length and merges the overlay into every element.
pub proof fn lemma_merge_broadcast(s: Seq<JsonValueView>, v: JsonValueView)
    requires
        !(v is Arr),
        !(v is Null),
    ensures
        merged(JsonValueView::Arr(s), v) is Arr,
        merged(JsonValueView::Arr(s), v)->Arr_0.len() == s.len(),
        forall|i: int|
            0 <= i < s.len() ==> merged(JsonValueView::Arr(s), v)->Arr_0[i] == merged(#[trigger] s[i], v),
{
}

/// Looking a key up in a concatenation: the front of the list wins.
proof fn lemma_field_of_concat(
    xs: Seq<(Seq<char>, JsonValueView)>,
    ys: Seq<(Seq<char>, JsonValueView)>,
    key: Seq<char>,
)
    ensures
        field_of(xs + ys, key) == if has_field(xs, key) {
            field_of(xs, key)
        } else {
            field_of(ys, key)
        },
    decreases xs.len(),
{
    if xs.len() == 0 {
        assert(xs + ys =~= ys);
    } else {
        assert((xs + ys).drop_first() =~= xs.drop_first() + ys);
        lemma_field_of_concat(xs.drop_first(), ys, key);
    }
}

/// Looking a key up among the overlaid entries: the keys are the first
/// mapping's, each carrying its value merged with the second's value under
/// the same key, if any.
proof fn lemma_field_of_overlaid(
    m1: Seq<(Seq<char>, JsonValueView)>,
    m2: Seq<(Seq<char>, JsonValueView)>,
    key: Seq<char>,
)
    ensures
        field_of(overlaid_entries(m1, m2), key) == match field_of(m1, key) {
            Some(v1) => Some(
                match field_of(m2, key) {
                    Some(v2) => merged(v1, v2),
                    None => v1,
                },
            ),
            None => Option::<JsonValueView>::None,
        },
    decreases m1.len(),
{
    if m1.len() > 0 {
        assert(overlaid_entries(m1, m2).drop_first() =~= overlaid_entries(m1.drop_first(), m2));
        lemma_field_of_overlaid(m1.drop_first(), m2, key);
    }
}

/// Looking a key up among the extra entries: nothing for a key of the first
/// mapping, the second mapping's own result otherwise.
proof fn lemma_field_of_extras(
    m1: Seq<(Seq<char>, JsonValueView)>,
    m2: Seq<(Seq<char>, JsonValueView)>,
    key: Seq<char>,
)
    ensures
        field_of(extra_entries(m1, m2), key) == if has_field(m1, key) {
            Option::<JsonValueView>::None
        } else {
            field_of(m2, key)
        },
    decreases m2.len(),
{
    if m2.len() > 0 {
        let front = m2.drop_last();
        let e = m2.last();
        lemma_field_of_extras(m1, front, key);
        assert(m2 =~= front + seq![e]);
        lemma_field_of_concat(front, seq![e], key);
        assert(field_of(Seq::<(Seq<char>, JsonValueView)>::empty(), key) is None);
        assert(seq![e].drop_first() =~= Seq::<(Seq<char>, JsonValueView)>::empty());
        assert(field_of(seq![e], key) == if e.0 == key {
            Some(e.1)
        } else {
            Option::<JsonValueView>::None
        });
        if !has_field(m1, e.0) {
            assert(extra_entries(m1, m2) =~= extra_entries(m1, front) + seq![e]);
            lemma_field_of_concat(extra_entries(m1, front), seq![e], key);
        } else {
            assert(extra_entries(m1, m2) == extra_entries(m1, front));
        }
    }
}

/// Law: the merge of two mappings is key-wise.  Its key set is the union of
/// the two key sets; a key of both maps to the merge of the two values; a
/// key of one side alone maps to that side's value unchanged.
pub proof fn lemma_merge_mappings(
    m1: Seq<(Seq<char>, JsonValueView)>,
    m2: Seq<(Seq<char>, JsonValueView)>,
    key: Seq<char>,
)
    ensures
        merged(JsonValueView::Obj(m1), JsonValueView::Obj(m2)) is Obj,
        ({
            let entries = merged(JsonValueView::Obj(m1), JsonValueView::Obj(m2))->Obj_0;
            &&& has_field(entries, key) == (has_field(m1, key) || has_field(m2, key))
            &&& field_of(entries, key) == match (field_of(m1, key), field_of(m2, key)) {
                (Some(v1), Some(v2)) => Some(merged(v1, v2)),
                (Some(v1), None) => Some(v1),
                (None, Some(v2)) => Some(v2),
                (None, None) => Option::<JsonValueView>::None,
            }
        }),
{
    lemma_field_of_concat(overlaid_entries(m1, m2), extra_entries(m1, m2), key);
    lemma_field_of_overlaid(m1, m2, key);
    lemma_field_of_extras(m1, m2, key);
}

} // verus!
