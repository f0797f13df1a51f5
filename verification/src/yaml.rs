//! The YAML form of the generic document tree: its merge algorithm and its
//! conversion to the JSON form.
//!
//! A [`YamlValue`] mirrors [`crate::json::JsonValue`] with two differences:
//! mapping keys are whole values rather than text, and a `Tagged` variant
//! carries a type tag around a wrapped value.  Mapping keys are compared by
//! structural equivalence, as [`equivalent`] defines it.
//!
//! Templates are written in YAML and normalised to the JSON form once, at
//! load time, by [`convert_value_to_json`]: scalars convert directly,
//! sequence elements that fail to convert are dropped, mapping keys are
//! rendered to text (entries whose key or value fails to convert are
//! dropped), and tagged values always fail to convert.

use crate::json::JsonNumber;
use crate::json::JsonValue;
use crate::json::JsonValueView;
use crate::text::bool_text;
use crate::text::boolean_text;
use crate::text::int_text;
use crate::text::nat_text;
use crate::text::signed_text;
use crate::text::unsigned_text;
use vstd::prelude::*;

verus! {

/// A YAML number.  A floating-point value is carried opaquely as its IEEE
/// 754 bit pattern together with its canonical rendering, both produced at
/// the parsing boundary: verified code neither computes with nor formats
/// floating point, but the rendering is needed when such a number stands as
/// a mapping key.
#[derive(Debug)]
pub enum YamlNumber {
    Unsigned(u64),
    Signed(i64),
    Float(u64, String),
}

/// The mathematical abstraction of a YAML number.
pub enum YamlNumberView {
    Unsigned(u64),
    Signed(i64),
    Float(u64, Seq<char>),
}

/// The view of a YAML number.
pub open spec fn number_view(n: YamlNumber) -> YamlNumberView {
    match n {
        YamlNumber::Unsigned(u) => YamlNumberView::Unsigned(u),
        YamlNumber::Signed(i) => YamlNumberView::Signed(i),
        YamlNumber::Float(bits, rendering) => YamlNumberView::Float(bits, rendering@),
    }
}

impl DeepView for YamlNumber {
    type V = YamlNumberView;

    open spec fn deep_view(&self) -> YamlNumberView {
        number_view(*self)
    }
}

impl View for YamlNumber {
    type V = YamlNumberView;

    open spec fn view(&self) -> YamlNumberView {
        self.deep_view()
    }
}

impl PartialEq for YamlNumber {
    /// `==` decides equality of the two numbers' views.
    fn eq(&self, other: &YamlNumber) -> (r: bool) {
        match (self, other) {
            (YamlNumber::Unsigned(a), YamlNumber::Unsigned(b)) => *a == *b,
            (YamlNumber::Signed(a), YamlNumber::Signed(b)) => *a == *b,
            (YamlNumber::Float(b1, t1), YamlNumber::Float(b2, t2)) => *b1 == *b2 && *t1 == *t2,
            _ => false,
        }
    }
}

impl vstd::std_specs::cmp::PartialEqSpecImpl for YamlNumber {
    open spec fn obeys_eq_spec() -> bool {
        true
    }

    open spec fn eq_spec(&self, other: &YamlNumber) -> bool {
        self.deep_view() == other.deep_view()
    }
}

/// One node of a YAML document tree.  A mapping is an ordered association
/// list keyed by whole values; well-formed documents have unique keys,
/// up to equivalence, within each mapping (see [`well_formed`]).
#[derive(Debug)]
pub enum YamlValue {
    Null,
    Bool(bool),
    Num(YamlNumber),
    Text(String),
    Sequence(Vec<YamlValue>),
    Mapping(Vec<(YamlValue, YamlValue)>),
    Tagged(String, Box<YamlValue>),
}

/// The mathematical abstraction of a YAML tree.
pub enum YamlValueView {
    Null,
    Bool(bool),
    Num(YamlNumberView),
    Text(Seq<char>),
    Sequence(Seq<YamlValueView>),
    Mapping(Seq<(YamlValueView, YamlValueView)>),
    // The payload is a one-element sequence: a ghost enum cannot hold a
    // directly recursive field, and the sequence gives the indirection.
    Tagged(Seq<char>, Seq<YamlValueView>),
}

impl DeepView for YamlValue {
    type V = YamlValueView;

    open spec fn deep_view(&self) -> YamlValueView
        decreases self,
    {
        match self {
            YamlValue::Null => YamlValueView::Null,
            YamlValue::Bool(b) => YamlValueView::Bool(*b),
            YamlValue::Num(n) => YamlValueView::Num(number_view(*n)),
            YamlValue::Text(s) => YamlValueView::Text(s@),
            YamlValue::Sequence(items) => YamlValueView::Sequence(item_views(items@)),
            YamlValue::Mapping(entries) => YamlValueView::Mapping(entry_views(entries@)),
            YamlValue::Tagged(tag, value) => YamlValueView::Tagged(
                tag@,
                seq![(**value).deep_view()],
            ),
        }
    }
}

/// The views of the elements of a sequence of values.  (The range guard
/// lets the termination checker see that the recursion descends into an
/// element.)
pub open spec fn item_views(items: Seq<YamlValue>) -> Seq<YamlValueView>
    decreases items,
{
    Seq::new(
        items.len(),
        |i: int|
            if 0 <= i < items.len() {
                items[i].deep_view()
            } else {
                YamlValueView::Null
            },
    )
}

/// The views of the entries of a mapping.
pub open spec fn entry_views(entries: Seq<(YamlValue, YamlValue)>) -> Seq<
    (YamlValueView, YamlValueView),
>
    decreases entries,
{
    Seq::new(
        entries.len(),
        |i: int|
            if 0 <= i < entries.len() {
                (entries[i].0.deep_view(), entries[i].1.deep_view())
            } else {
                (YamlValueView::Null, YamlValueView::Null)
            },
    )
}

impl View for YamlValue {
    type V = YamlValueView;

    open spec fn view(&self) -> YamlValueView {
        self.deep_view()
    }
}

/// Structural equivalence of YAML trees, with mappings compared as maps:
/// entry order is insignificant; every entry of the left side must have an
/// entry of the right side with an equivalent key and an equivalent value,
/// and every key of the right side must appear on the left.  Mapping keys
/// throughout the library are compared by this relation.  This is the
/// equality that `==` on [`YamlValue`] decides.
pub open spec fn equivalent(a: YamlValueView, b: YamlValueView) -> bool
    decreases a, 0int,
{
    match (a, b) {
        (YamlValueView::Null, YamlValueView::Null) => true,
        (YamlValueView::Bool(x), YamlValueView::Bool(y)) => x == y,
        (YamlValueView::Num(x), YamlValueView::Num(y)) => x == y,
        (YamlValueView::Text(x), YamlValueView::Text(y)) => x == y,
        (YamlValueView::Sequence(x), YamlValueView::Sequence(y)) => x.len() == y.len() && (
        forall|i: int| 0 <= i < x.len() ==> equivalent(#[trigger] x[i], y[i])),
        (YamlValueView::Mapping(x), YamlValueView::Mapping(y)) => mappings_equivalent(x, y),
        (YamlValueView::Tagged(t1, v1), YamlValueView::Tagged(t2, v2)) => t1 == t2 && v1.len()
            == 1 && v2.len() == 1 && equivalent(v1[0], v2[0]),
        _ => false,
    }
}

/// Equivalence of two mappings as maps: equal sizes, every entry of the
/// left side matched by key and value somewhere on the right, and every
/// right-side key present on the left.
pub open spec fn mappings_equivalent(
    x: Seq<(YamlValueView, YamlValueView)>,
    y: Seq<(YamlValueView, YamlValueView)>,
) -> bool
    decreases x, 2int,
{
    &&& x.len() == y.len()
    &&& forall|i: int| 0 <= i < x.len() ==> entry_matched(y, #[trigger] x[i])
    &&& forall|j: int| 0 <= j < y.len() ==> key_present(x, (#[trigger] y[j]).0)
}

/// Whether the entry `e` has a counterpart in `y`: an entry with an
/// equivalent key and an equivalent value.
pub open spec fn entry_matched(
    y: Seq<(YamlValueView, YamlValueView)>,
    e: (YamlValueView, YamlValueView),
) -> bool
    decreases e, 1int,
{
    exists|j: int|
        0 <= j < y.len() && equivalent(e.0, (#[trigger] y[j]).0) && equivalent(e.1, y[j].1)
}

/// Whether some key of `x` is equivalent to `key`.
pub open spec fn key_present(x: Seq<(YamlValueView, YamlValueView)>, key: YamlValueView) -> bool
    decreases x, 1int,
{
    exists|i: int| 0 <= i < x.len() && equivalent((#[trigger] x[i]).0, key)
}

/// A mapping with an unmatched entry is equivalent to no mapping of the
/// same size.
proof fn lemma_mappings_not_equivalent(
    x: Seq<(YamlValueView, YamlValueView)>,
    y: Seq<(YamlValueView, YamlValueView)>,
    w: int,
)
    requires
        0 <= w < x.len(),
        !entry_matched(y, x[w]),
    ensures
        !mappings_equivalent(x, y),
{
    if mappings_equivalent(x, y) {
        assert(entry_matched(y, x[w]));
    }
}

/// A mapping key absent from the other side refutes equivalence too.
proof fn lemma_mappings_key_missing(
    x: Seq<(YamlValueView, YamlValueView)>,
    y: Seq<(YamlValueView, YamlValueView)>,
    w: int,
)
    requires
        0 <= w < y.len(),
        !key_present(x, y[w].0),
    ensures
        !mappings_equivalent(x, y),
{
}

/// Both directions together establish equivalence of two mappings.
proof fn lemma_mappings_equivalent(
    x: Seq<(YamlValueView, YamlValueView)>,
    y: Seq<(YamlValueView, YamlValueView)>,
)
    requires
        x.len() == y.len(),
        forall|m: int| 0 <= m < x.len() ==> entry_matched(y, #[trigger] x[m]),
        forall|n: int| 0 <= n < y.len() ==> key_present(x, (#[trigger] y[n]).0),
    ensures
        mappings_equivalent(x, y),
{
}

/// The value of the first entry of `entries` whose key is equivalent to
/// `key`, if any.
pub open spec fn value_of(
    entries: Seq<(YamlValueView, YamlValueView)>,
    key: YamlValueView,
) -> Option<YamlValueView>
    decreases entries.len(),
{
    if entries.len() == 0 {
        None
    } else if equivalent(entries[0].0, key) {
        Some(entries[0].1)
    } else {
        value_of(entries.drop_first(), key)
    }
}

/// Whether `entries` holds an entry whose key is equivalent to `key`.
pub open spec fn has_key(entries: Seq<(YamlValueView, YamlValueView)>, key: YamlValueView) -> bool {
    value_of(entries, key) is Some
}

/// The first whole entry of `entries` whose key is equivalent to `key`.
pub open spec fn entry_for(
    entries: Seq<(YamlValueView, YamlValueView)>,
    key: YamlValueView,
) -> Option<(YamlValueView, YamlValueView)>
    decreases entries.len(),
{
    if entries.len() == 0 {
        None
    } else if equivalent(entries[0].0, key) {
        Some(entries[0])
    } else {
        entry_for(entries.drop_first(), key)
    }
}

/// Uniqueness of mapping keys, up to equivalence, through the whole tree.
pub open spec fn well_formed(v: YamlValueView) -> bool
    decreases v,
{
    match v {
        YamlValueView::Sequence(items) => forall|i: int|
            0 <= i < items.len() ==> well_formed(#[trigger] items[i]),
        YamlValueView::Mapping(entries) => (forall|i: int, j: int|
            0 <= i < j < entries.len() ==> !equivalent((#[trigger] entries[i]).0, (
            #[trigger] entries[j]).0)) && (forall|i: int|
            0 <= i < entries.len() ==> well_formed((#[trigger] entries[i]).0) && well_formed(
                entries[i].1,
            )),
        YamlValueView::Tagged(_, inner) => inner.len() == 1 && well_formed(inner[0]),
        _ => true,
    }
}

/// The merge of two YAML trees, by the same rule table as
/// [`crate::json::merged`], with one rule more: two tagged values merge to
/// the first operand verbatim, with no recursion into the tagged payloads.
pub open spec fn merged(a: YamlValueView, b: YamlValueView) -> YamlValueView
    decreases a,
{
    match (a, b) {
        (YamlValueView::Null, _) => b,
        (_, YamlValueView::Null) => a,
        (YamlValueView::Bool(_), YamlValueView::Bool(_)) => a,
        (YamlValueView::Num(_), YamlValueView::Num(_)) => a,
        (YamlValueView::Text(_), YamlValueView::Text(_)) => a,
        (YamlValueView::Sequence(items1), YamlValueView::Sequence(items2)) => YamlValueView::Sequence(
            items1 + items2,
        ),
        (YamlValueView::Sequence(items1), _) => YamlValueView::Sequence(
            Seq::new(
                items1.len(),
                |i: int|
                    if 0 <= i < items1.len() {
                        merged(items1[i], b)
                    } else {
                        YamlValueView::Null
                    },
            ),
        ),
        (YamlValueView::Mapping(entries1), YamlValueView::Mapping(entries2)) => YamlValueView::Mapping(
            overlaid_entries(entries1, entries2) + extra_entries(entries1, entries2),
        ),
        (YamlValueView::Tagged(_, _), YamlValueView::Tagged(_, _)) => a,
        _ => a,
    }
}

/// The first half of the key-wise rule: the first mapping's entries, in its
/// order, each merged with the second's value under an equivalent key, if
/// any.
pub open spec fn overlaid_entries(
    entries1: Seq<(YamlValueView, YamlValueView)>,
    entries2: Seq<(YamlValueView, YamlValueView)>,
) -> Seq<(YamlValueView, YamlValueView)>
    decreases entries1,
{
    Seq::new(
        entries1.len(),
        |i: int|
            if 0 <= i < entries1.len() {
                (
                    entries1[i].0,
                    match value_of(entries2, entries1[i].0) {
                        Some(v2) => merged(entries1[i].1, v2),
                        None => entries1[i].1,
                    },
                )
            } else {
                (YamlValueView::Null, YamlValueView::Null)
            },
    )
}

/// The second half of the key-wise rule: the second mapping's entries whose
/// keys have no equivalent among the first's, in the second's order.
pub open spec fn extra_entries(
    entries1: Seq<(YamlValueView, YamlValueView)>,
    entries2: Seq<(YamlValueView, YamlValueView)>,
) -> Seq<(YamlValueView, YamlValueView)>
    decreases entries2.len(),
{
    if entries2.len() == 0 {
        Seq::empty()
    } else {
        let rest = extra_entries(entries1, entries2.drop_last());
        if !has_key(entries1, entries2.last().0) {
            rest.push(entries2.last())
        } else {
            rest
        }
    }
}

/// The entries of the merge of two mappings.
pub open spec fn merged_entries(
    entries1: Seq<(YamlValueView, YamlValueView)>,
    entries2: Seq<(YamlValueView, YamlValueView)>,
) -> Seq<(YamlValueView, YamlValueView)> {
    overlaid_entries(entries1, entries2) + extra_entries(entries1, entries2)
}

/// Whether the bit pattern stands for a finite floating-point value: the
/// exponent bits are not all ones (which marks an infinity or a not-a-number).
pub open spec fn finite_bits(bits: u64) -> bool {
    (bits >> 52) & 0x7ff != 0x7ff
}

/// The JSON number a YAML number converts to: an unsigned representation
/// where one exists, then a signed one, then a floating-point one; nothing
/// for a non-finite floating-point value.
pub open spec fn json_number_of(n: YamlNumberView) -> Option<JsonNumber> {
    match n {
        YamlNumberView::Unsigned(u) => Some(JsonNumber::Unsigned(u)),
        YamlNumberView::Signed(i) => if i >= 0 {
            Some(JsonNumber::Unsigned(i as u64))
        } else {
            Some(JsonNumber::Signed(i))
        },
        YamlNumberView::Float(bits, _) => if finite_bits(bits) {
            Some(JsonNumber::Float(bits))
        } else {
            None
        },
    }
}

/// The text a mapping key renders to in the JSON form: the canonical form
/// of a boolean or a number, a text key unchanged; nothing for any other
/// kind of key.
pub open spec fn text_of(key: YamlValueView) -> Option<Seq<char>> {
    match key {
        YamlValueView::Bool(b) => Some(bool_text(b)),
        YamlValueView::Num(YamlNumberView::Unsigned(u)) => Some(nat_text(u as nat)),
        YamlValueView::Num(YamlNumberView::Signed(i)) => Some(int_text(i as int)),
        YamlValueView::Num(YamlNumberView::Float(_, rendering)) => Some(rendering),
        YamlValueView::Text(s) => Some(s),
        _ => None,
    }
}

/// The JSON tree a YAML tree converts to, or nothing.  Tagged values never
/// convert; a sequence keeps the elements that convert, in order; a mapping
/// keeps the entries whose key renders to text and whose value converts.
pub open spec fn json_of(v: YamlValueView) -> Option<JsonValueView>
    decreases v,
{
    match v {
        YamlValueView::Null => Some(JsonValueView::Null),
        YamlValueView::Bool(b) => Some(JsonValueView::Bool(b)),
        YamlValueView::Num(n) => match json_number_of(n) {
            Some(jn) => Some(JsonValueView::Num(jn)),
            None => None,
        },
        YamlValueView::Text(s) => Some(JsonValueView::Text(s)),
        YamlValueView::Sequence(items) => Some(JsonValueView::Arr(converted_items(items))),
        YamlValueView::Mapping(entries) => Some(JsonValueView::Obj(converted_entries(entries))),
        YamlValueView::Tagged(_, _) => None,
    }
}

/// The conversions of the elements of a sequence, keeping those that
/// convert, in order.
pub open spec fn converted_items(items: Seq<YamlValueView>) -> Seq<JsonValueView>
    decreases items,
{
    if items.len() == 0 {
        Seq::empty()
    } else {
        let rest = converted_items(items.drop_last());
        match json_of(items.last()) {
            Some(j) => rest.push(j),
            None => rest,
        }
    }
}

/// The conversions of the entries of a mapping, keeping those whose key
/// renders to text and whose value converts, in order.
pub open spec fn converted_entries(entries: Seq<(YamlValueView, YamlValueView)>) -> Seq<
    (Seq<char>, JsonValueView),
>
    decreases entries,
{
    if entries.len() == 0 {
        Seq::empty()
    } else {
        let rest = converted_entries(entries.drop_last());
        match (text_of(entries.last().0), json_of(entries.last().1)) {
            (Some(k), Some(v)) => rest.push((k, v)),
            _ => rest,
        }
    }
}

/// Where the first `i` keys of `entries` are not equivalent to `key` and
/// the key at `i` is, the lookup returns that entry's value.
proof fn lemma_value_of_first_match(
    entries: Seq<(YamlValueView, YamlValueView)>,
    key: YamlValueView,
    i: int,
)
    requires
        0 <= i < entries.len(),
        equivalent(entries[i].0, key),
        forall|j: int| 0 <= j < i ==> !equivalent((#[trigger] entries[j]).0, key),
    ensures
        value_of(entries, key) == Some(entries[i].1),
    decreases i,
{
    if i > 0 {
        lemma_value_of_first_match(entries.drop_first(), key, i - 1);
    }
}

/// Where no key of `entries` is equivalent to `key`, the lookup returns
/// nothing.
proof fn lemma_value_of_absent(entries: Seq<(YamlValueView, YamlValueView)>, key: YamlValueView)
    requires
        forall|j: int| 0 <= j < entries.len() ==> !equivalent((#[trigger] entries[j]).0, key),
    ensures
        value_of(entries, key) is None,
    decreases entries.len(),
{
    if entries.len() > 0 {
        lemma_value_of_absent(entries.drop_first(), key);
    }
}

/// A reference to the value of the first entry of `entries` whose key is
/// equivalent to `key`, if any.
pub fn get_value<'a>(entries: &'a Vec<(YamlValue, YamlValue)>, key: &YamlValue) -> (r: Option<
    &'a YamlValue,
>)
    ensures
        match r {
            Some(v) => value_of(entry_views(entries@), key.deep_view()) == Some(v.deep_view()),
            None => !has_key(entry_views(entries@), key.deep_view()),
        },
{
    let ghost views = entry_views(entries@);
    let mut i: usize = 0;
    while i < entries.len()
        invariant
            views == entry_views(entries@),
            i <= entries.len(),
            forall|j: int| 0 <= j < i ==> !equivalent((#[trigger] views[j]).0, key.deep_view()),
        decreases entries.len() - i,
    {
        let entry = &entries[i];
        if value_equiv(&entry.0, key) {
            proof {
                lemma_value_of_first_match(views, key.deep_view(), i as int);
            }
            return Some(&entry.1);
        }
        i += 1;
    }
    proof {
        lemma_value_of_absent(views, key.deep_view());
    }
    None
}

impl YamlNumber {
    /// A copy of the number.
    pub fn deep_copy(&self) -> (r: YamlNumber)
        ensures
            r.deep_view() == self.deep_view(),
    {
        match self {
            YamlNumber::Unsigned(u) => YamlNumber::Unsigned(*u),
            YamlNumber::Signed(i) => YamlNumber::Signed(*i),
            YamlNumber::Float(bits, rendering) => YamlNumber::Float(*bits, rendering.clone()),
        }
    }
}

impl YamlValue {
    /// A structurally equal copy of the tree: merge and conversion allocate
    /// new trees and never share or mutate their inputs.
    pub fn deep_copy(&self) -> (r: YamlValue)
        ensures
            r.deep_view() == self.deep_view(),
        decreases self,
    {
        match self {
            YamlValue::Null => YamlValue::Null,
            YamlValue::Bool(b) => YamlValue::Bool(*b),
            YamlValue::Num(n) => YamlValue::Num(n.deep_copy()),
            YamlValue::Text(s) => YamlValue::Text(s.clone()),
            YamlValue::Sequence(items) => YamlValue::Sequence(copy_items(items)),
            YamlValue::Mapping(entries) => YamlValue::Mapping(copy_entries(entries)),
            YamlValue::Tagged(tag, value) => YamlValue::Tagged(
                tag.clone(),
                Box::new((**value).deep_copy()),
            ),
        }
    }
}

/// Copies every element of a sequence of values.
fn copy_items(items: &Vec<YamlValue>) -> (r: Vec<YamlValue>)
    ensures
        item_views(r@) == item_views(items@),
    decreases items,
{
    let mut out: Vec<YamlValue> = Vec::new();
    let mut i: usize = 0;
    while i < items.len()
        invariant
            i <= items.len(),
            out@.len() == i,
            forall|j: int| 0 <= j < i ==> (#[trigger] out@[j]).deep_view() == item_views(items@)[j],
        decreases items.len() - i,
    {
        out.push(items[i].deep_copy());
        i += 1;
    }
    proof {
        assert(item_views(out@) =~= item_views(items@));
    }
    out
}

/// Copies every entry of a mapping.
fn copy_entries(entries: &Vec<(YamlValue, YamlValue)>) -> (r: Vec<(YamlValue, YamlValue)>)
    ensures
        entry_views(r@) == entry_views(entries@),
    decreases entries,
{
    let mut out: Vec<(YamlValue, YamlValue)> = Vec::new();
    let mut i: usize = 0;
    while i < entries.len()
        invariant
            i <= entries.len(),
            out@.len() == i,
            forall|j: int| 0 <= j < i ==> entry_views(out@)[j] == entry_views(entries@)[j],
        decreases entries.len() - i,
    {
        let entry = &entries[i];
        out.push((entry.0.deep_copy(), entry.1.deep_copy()));
        i += 1;
    }
    proof {
        assert(entry_views(out@) =~= entry_views(entries@));
    }
    out
}

/// The concatenation rule: all elements of `first` in order, then all
/// elements of `second` in order.  Elements are never merged pairwise.
fn merge_arrays(first: &Vec<YamlValue>, second: &Vec<YamlValue>) -> (r: YamlValue)
    ensures
        r.deep_view() == YamlValueView::Sequence(item_views(first@) + item_views(second@)),
{
    let mut out = copy_items(first);
    let mut tail = copy_items(second);
    out.append(&mut tail);
    proof {
        assert(item_views(out@) =~= item_views(first@) + item_views(second@));
    }
    YamlValue::Sequence(out)
}

/// The broadcast rule: one non-sequence, non-null overlay value is merged
/// into every element of the target sequence.
fn merge_value_into_array(items: &Vec<YamlValue>, value: &YamlValue) -> (r: YamlValue)
    requires
        !(value.deep_view() is Sequence),
        !(value.deep_view() is Null),
    ensures
        r.deep_view() == merged(YamlValueView::Sequence(item_views(items@)), value.deep_view()),
    decreases items,
{
    let mut out: Vec<YamlValue> = Vec::new();
    let mut i: usize = 0;
    while i < items.len()
        invariant
            !(value.deep_view() is Sequence),
            !(value.deep_view() is Null),
            i <= items.len(),
            out@.len() == i,
            forall|j: int|
                0 <= j < i ==> (#[trigger] out@[j]).deep_view() == merged(
                    item_views(items@)[j],
                    value.deep_view(),
                ),
        decreases items.len() - i,
    {
        out.push(merge_values(&items[i], value));
        i += 1;
    }
    proof {
        let a = YamlValueView::Sequence(item_views(items@));
        assert(item_views(out@) =~= merged(a, value.deep_view())->Sequence_0);
    }
    YamlValue::Sequence(out)
}

/// The key-wise rule for two mappings, with keys compared by equivalence.
fn merge_mappings(
    first: &Vec<(YamlValue, YamlValue)>,
    second: &Vec<(YamlValue, YamlValue)>,
) -> (r: YamlValue)
    ensures
        r.deep_view() == YamlValueView::Mapping(
            merged_entries(entry_views(first@), entry_views(second@)),
        ),
    decreases first,
{
    let ghost views1 = entry_views(first@);
    let ghost views2 = entry_views(second@);
    let mut out: Vec<(YamlValue, YamlValue)> = Vec::new();
    // Keys of the first mapping, in its order, with values merged against
    // the second's value under an equivalent key where one exists.
    let mut i: usize = 0;
    while i < first.len()
        invariant
            views1 == entry_views(first@),
            views2 == entry_views(second@),
            i <= first.len(),
            out@.len() == i,
            forall|j: int|
                0 <= j < i ==> entry_views(out@)[j] == overlaid_entries(views1, views2)[j],
        decreases first.len() - i,
    {
        let entry = &first[i];
        let merged_value = match get_value(second, &entry.0) {
            Some(v2) => merge_values(&entry.1, v2),
            None => entry.1.deep_copy(),
        };
        out.push((entry.0.deep_copy(), merged_value));
        i += 1;
    }
    proof {
        assert(entry_views(out@) =~= overlaid_entries(views1, views2));
    }
    // Keys with no equivalent among the first mapping's are appended
    // unchanged, in the second's order.
    let ghost head = entry_views(out@);
    let mut k: usize = 0;
    while k < second.len()
        invariant
            views1 == entry_views(first@),
            views2 == entry_views(second@),
            head == overlaid_entries(views1, views2),
            k <= second.len(),
            entry_views(out@) == head + extra_entries(views1, views2.subrange(0, k as int)),
        decreases second.len() - k,
    {
        let ghost old_views = entry_views(out@);
        let entry = &second[k];
        if get_value(first, &entry.0).is_none() {
            out.push((entry.0.deep_copy(), entry.1.deep_copy()));
            proof {
                assert(entry_views(out@) =~= old_views.push(views2[k as int]));
            }
        }
        proof {
            let prefix = views2.subrange(0, k as int);
            let grown = views2.subrange(0, k + 1 as int);
            assert(grown.drop_last() =~= prefix);
            assert(grown.last() == views2[k as int]);
            assert(entry_views(out@) =~= head + extra_entries(views1, grown));
        }
        k += 1;
    }
    proof {
        assert(views2.subrange(0, second@.len() as int) =~= views2);
        assert(entry_views(out@) =~= merged_entries(views1, views2));
    }
    YamlValue::Mapping(out)
}

/// The merge of two YAML trees: a verified implementation of [`merged`].
/// Total and deterministic; the inputs are never mutated.
pub fn merge_values(first: &YamlValue, second: &YamlValue) -> (r: YamlValue)
    ensures
        r.deep_view() == merged(first.deep_view(), second.deep_view()),
    decreases first,
{
    match (first, second) {
        (YamlValue::Null, _) => second.deep_copy(),
        (_, YamlValue::Null) => first.deep_copy(),
        (YamlValue::Bool(_), YamlValue::Bool(_)) => first.deep_copy(),
        (YamlValue::Num(_), YamlValue::Num(_)) => first.deep_copy(),
        (YamlValue::Text(_), YamlValue::Text(_)) => first.deep_copy(),
        (YamlValue::Sequence(items1), YamlValue::Sequence(items2)) => merge_arrays(
            items1,
            items2,
        ),
        (YamlValue::Sequence(items1), _) => merge_value_into_array(items1, second),
        (YamlValue::Mapping(entries1), YamlValue::Mapping(entries2)) => merge_mappings(
            entries1,
            entries2,
        ),
        (YamlValue::Tagged(_, _), YamlValue::Tagged(_, _)) => first.deep_copy(),
        _ => first.deep_copy(),
    }
}

/// Elementwise equivalence of two sequences of values.
fn items_equiv(x: &Vec<YamlValue>, y: &Vec<YamlValue>) -> (r: bool)
    ensures
        r == equivalent(
            YamlValueView::Sequence(item_views(x@)),
            YamlValueView::Sequence(item_views(y@)),
        ),
    decreases x,
{
    if x.len() != y.len() {
        return false;
    }
    let mut i: usize = 0;
    while i < x.len()
        invariant
            x@.len() == y@.len(),
            i <= x.len(),
            forall|j: int|
                0 <= j < i ==> equivalent(#[trigger] item_views(x@)[j], item_views(y@)[j]),
        decreases x.len() - i,
    {
        if !value_equiv(&x[i], &y[i]) {
            proof {
                assert(item_views(x@)[i as int] == x@[i as int].deep_view());
                assert(item_views(y@)[i as int] == y@[i as int].deep_view());
            }
            return false;
        }
        i += 1;
    }
    true
}

/// Equivalence of two mappings as maps: equal sizes, every entry of the
/// left side matched by key and value somewhere on the right, and every
/// right-side key present on the left.
fn entries_equiv(x: &Vec<(YamlValue, YamlValue)>, y: &Vec<(YamlValue, YamlValue)>) -> (r: bool)
    ensures
        r == equivalent(
            YamlValueView::Mapping(entry_views(x@)),
            YamlValueView::Mapping(entry_views(y@)),
        ),
    decreases x,
{
    if x.len() != y.len() {
        proof {
            assert(entry_views(x@).len() == x@.len());
            assert(entry_views(y@).len() == y@.len());
            assert(!mappings_equivalent(entry_views(x@), entry_views(y@)));
            assert(equivalent(
                YamlValueView::Mapping(entry_views(x@)),
                YamlValueView::Mapping(entry_views(y@)),
            ) == mappings_equivalent(entry_views(x@), entry_views(y@)));
        }
        return false;
    }
    let ghost xv = entry_views(x@);
    let ghost yv = entry_views(y@);
    let mut i: usize = 0;
    while i < x.len()
        invariant
            xv == entry_views(x@),
            yv == entry_views(y@),
            x@.len() == y@.len(),
            i <= x.len(),
            forall|m: int| 0 <= m < i ==> entry_matched(yv, #[trigger] xv[m]),
        decreases x.len() - i,
    {
        let entry = &x[i];
        proof {
            assert(xv[i as int] == (x@[i as int].0.deep_view(), x@[i as int].1.deep_view()));
        }
        let mut j: usize = 0;
        let mut found = false;
        while j < y.len() && !found
            invariant
                xv == entry_views(x@),
                yv == entry_views(y@),
                i < x@.len(),
                entry == &x@[i as int],
                j <= y.len(),
                found ==> entry_matched(yv, xv[i as int]),
                !found ==> forall|n: int|
                    0 <= n < j ==> !(equivalent(xv[i as int].0, ((#[trigger] yv[n])).0)
                        && equivalent(xv[i as int].1, yv[n].1)),
            decreases y.len() - j,
        {
            let candidate = &y[j];
            proof {
                assert(yv[j as int] == (y@[j as int].0.deep_view(), y@[j as int].1.deep_view()));
            }
            if value_equiv(&entry.0, &candidate.0) && value_equiv(&entry.1, &candidate.1) {
                found = true;
                proof {
                    assert(entry_matched(yv, xv[i as int]));
                }
            }
            j += 1;
        }
        if !found {
            proof {
                assert(!entry_matched(yv, xv[i as int]));
                lemma_mappings_not_equivalent(xv, yv, i as int);
                assert(equivalent(YamlValueView::Mapping(xv), YamlValueView::Mapping(yv))
                    == mappings_equivalent(xv, yv));
            }
            return false;
        }
        i += 1;
    }
    let mut k: usize = 0;
    while k < y.len()
        invariant
            xv == entry_views(x@),
            yv == entry_views(y@),
            x@.len() == y@.len(),
            k <= y.len(),
            forall|m: int| 0 <= m < x@.len() ==> entry_matched(yv, #[trigger] xv[m]),
            forall|n: int| 0 <= n < k ==> key_present(xv, (#[trigger] yv[n]).0),
        decreases y.len() - k,
    {
        let entry = &y[k];
        proof {
            assert(yv[k as int] == (y@[k as int].0.deep_view(), y@[k as int].1.deep_view()));
        }
        let mut m: usize = 0;
        let mut found = false;
        while m < x.len() && !found
            invariant
                xv == entry_views(x@),
                yv == entry_views(y@),
                k < y@.len(),
                entry == &y@[k as int],
                m <= x.len(),
                found ==> key_present(xv, yv[k as int].0),
                !found ==> forall|n: int|
                    0 <= n < m ==> !equivalent((#[trigger] xv[n]).0, yv[k as int].0),
            decreases x.len() - m,
        {
            let candidate = &x[m];
            proof {
                assert(xv[m as int] == (x@[m as int].0.deep_view(), x@[m as int].1.deep_view()));
            }
            if value_equiv(&candidate.0, &entry.0) {
                found = true;
                proof {
                    assert(key_present(xv, yv[k as int].0));
                }
            }
            m += 1;
        }
        if !found {
            proof {
                assert(!key_present(xv, yv[k as int].0));
                lemma_mappings_key_missing(xv, yv, k as int);
                assert(equivalent(YamlValueView::Mapping(xv), YamlValueView::Mapping(yv))
                    == mappings_equivalent(xv, yv));
            }
            return false;
        }
        k += 1;
    }
    proof {
        lemma_mappings_equivalent(xv, yv);
        assert(equivalent(YamlValueView::Mapping(xv), YamlValueView::Mapping(yv))
            == mappings_equivalent(xv, yv));
    }
    true
}

/// Equivalence of two YAML trees: structural equality, with mappings
/// compared as maps.  A verified implementation of [`equivalent`].
pub fn value_equiv(a: &YamlValue, b: &YamlValue) -> (r: bool)
    ensures
        r == equivalent(a.deep_view(), b.deep_view()),
    decreases a,
{
    match (a, b) {
        (YamlValue::Null, YamlValue::Null) => true,
        (YamlValue::Bool(x), YamlValue::Bool(y)) => *x == *y,
        (YamlValue::Num(x), YamlValue::Num(y)) => *x == *y,
        (YamlValue::Text(x), YamlValue::Text(y)) => *x == *y,
        (YamlValue::Sequence(x), YamlValue::Sequence(y)) => items_equiv(x, y),
        (YamlValue::Mapping(x), YamlValue::Mapping(y)) => entries_equiv(x, y),
        (YamlValue::Tagged(t1, v1), YamlValue::Tagged(t2, v2)) => *t1 == *t2 && value_equiv(
            v1,
            v2,
        ),
        _ => false,
    }
}

impl PartialEq for YamlValue {
    /// `==` decides [`equivalent`] on the two trees' views.
    fn eq(&self, other: &YamlValue) -> (r: bool) {
        value_equiv(self, other)
    }
}

impl vstd::std_specs::cmp::PartialEqSpecImpl for YamlValue {
    open spec fn obeys_eq_spec() -> bool {
        true
    }

    open spec fn eq_spec(&self, other: &YamlValue) -> bool {
        equivalent(self.deep_view(), other.deep_view())
    }
}

/// Whether the bit pattern stands for a finite floating-point value.
fn bits_are_finite(bits: u64) -> (r: bool)
    ensures
        r == finite_bits(bits),
{
    (bits >> 52u64) & 0x7ff != 0x7ff
}

/// The JSON number this YAML number converts to: a verified implementation
/// of [`json_number_of`].
pub fn convert_number_to_json(n: &YamlNumber) -> (r: Option<JsonNumber>)
    ensures
        r == json_number_of(n.deep_view()),
{
    match n {
        YamlNumber::Unsigned(u) => Some(JsonNumber::Unsigned(*u)),
        YamlNumber::Signed(i) => if *i >= 0 {
            Some(JsonNumber::Unsigned(*i as u64))
        } else {
            Some(JsonNumber::Signed(*i))
        },
        YamlNumber::Float(bits, _) => if bits_are_finite(*bits) {
            Some(JsonNumber::Float(*bits))
        } else {
            None
        },
    }
}

/// The text this value renders to when it stands as a mapping key: a
/// verified implementation of [`text_of`].
pub fn convert_value_to_string(yaml: &YamlValue) -> (r: Option<String>)
    ensures
        r.deep_view() == text_of(yaml.deep_view()),
{
    match yaml {
        YamlValue::Bool(b) => Some(boolean_text(*b)),
        YamlValue::Num(YamlNumber::Unsigned(u)) => Some(unsigned_text(*u)),
        YamlValue::Num(YamlNumber::Signed(i)) => Some(signed_text(*i)),
        YamlValue::Num(YamlNumber::Float(_, rendering)) => Some(rendering.clone()),
        YamlValue::Text(s) => Some(s.clone()),
        _ => None,
    }
}

/// The JSON tree this YAML tree converts to, or nothing: a verified
/// implementation of [`json_of`].
pub fn convert_value_to_json(yaml: &YamlValue) -> (r: Option<JsonValue>)
    ensures
        r.deep_view() == json_of(yaml.deep_view()),
    decreases yaml,
{
    match yaml {
        YamlValue::Null => Some(JsonValue::Null),
        YamlValue::Bool(b) => Some(JsonValue::Bool(*b)),
        YamlValue::Num(n) => match convert_number_to_json(n) {
            Some(jn) => Some(JsonValue::Num(jn)),
            None => None,
        },
        YamlValue::Text(s) => Some(JsonValue::Text(s.clone())),
        YamlValue::Sequence(items) => Some(JsonValue::Array(convert_items(items))),
        YamlValue::Mapping(entries) => Some(JsonValue::Object(convert_entries(entries))),
        YamlValue::Tagged(_, _) => None,
    }
}

/// Converts the elements of a sequence, dropping those that fail.
fn convert_items(items: &Vec<YamlValue>) -> (r: Vec<JsonValue>)
    ensures
        crate::json::item_views(r@) == converted_items(item_views(items@)),
    decreases items,
{
    let ghost views = item_views(items@);
    let mut out: Vec<JsonValue> = Vec::new();
    let mut i: usize = 0;
    while i < items.len()
        invariant
            views == item_views(items@),
            i <= items.len(),
            crate::json::item_views(out@) == converted_items(views.subrange(0, i as int)),
        decreases items.len() - i,
    {
        let ghost old_views = crate::json::item_views(out@);
        match convert_value_to_json(&items[i]) {
            Some(j) => {
                out.push(j);
                proof {
                    assert(crate::json::item_views(out@) =~= old_views.push(
                        json_of(views[i as int])->Some_0,
                    ));
                }
            },
            None => {},
        }
        proof {
            let prefix = views.subrange(0, i as int);
            let grown = views.subrange(0, i + 1 as int);
            assert(grown.drop_last() =~= prefix);
            assert(grown.last() == views[i as int]);
            assert(crate::json::item_views(out@) =~= converted_items(grown));
        }
        i += 1;
    }
    proof {
        assert(views.subrange(0, items@.len() as int) =~= views);
    }
    out
}

/// Converts the entries of a mapping, dropping those whose key or value
/// fails.
fn convert_entries(entries: &Vec<(YamlValue, YamlValue)>) -> (r: Vec<(String, JsonValue)>)
    ensures
        crate::json::entry_views(r@) == converted_entries(entry_views(entries@)),
    decreases entries,
{
    let ghost views = entry_views(entries@);
    let mut out: Vec<(String, JsonValue)> = Vec::new();
    let mut i: usize = 0;
    while i < entries.len()
        invariant
            views == entry_views(entries@),
            i <= entries.len(),
            crate::json::entry_views(out@) == converted_entries(views.subrange(0, i as int)),
        decreases entries.len() - i,
    {
        let ghost old_views = crate::json::entry_views(out@);
        let entry = &entries[i];
        match convert_value_to_string(&entry.0) {
            Some(key_text) => {
                match convert_value_to_json(&entry.1) {
                    Some(value) => {
                        out.push((key_text, value));
                        proof {
                            assert(crate::json::entry_views(out@) =~= old_views.push(
                                (
                                    text_of(views[i as int].0)->Some_0,
                                    json_of(views[i as int].1)->Some_0,
                                ),
                            ));
                        }
                    },
                    None => {},
                }
            },
            None => {},
        }
        proof {
            let prefix = views.subrange(0, i as int);
            let grown = views.subrange(0, i + 1 as int);
            assert(grown.drop_last() =~= prefix);
            assert(grown.last() == views[i as int]);
            assert(crate::json::entry_views(out@) =~= converted_entries(grown));
        }
        i += 1;
    }
    proof {
        assert(views.subrange(0, entries@.len() as int) =~= views);
    }
    out
}

/// Law: merging with null on either side yields the other side unchanged.
pub proof fn lemma_merge_null(a: YamlValueView)
    ensures
        merged(YamlValueView::Null, a) == a,
        merged(a, YamlValueView::Null) == a,
{
}

/// Law: merging two sequences concatenates them: all elements of the first
/// in order, then all elements of the second.  No element-wise merging
/// happens across two sequences.
pub proof fn lemma_merge_sequences(s1: Seq<YamlValueView>, s2: Seq<YamlValueView>)
    ensures
        merged(YamlValueView::Sequence(s1), YamlValueView::Sequence(s2))
            == YamlValueView::Sequence(s1 + s2),
        merged(YamlValueView::Sequence(s1), YamlValueView::Sequence(s2))->Sequence_0.len()
            == s1.len() + s2.len(),
{
}

/// Law: merging a non-sequence, non-null overlay into a sequence keeps the
/// sequence's length and merges the overlay into every element.
pub proof fn lemma_merge_broadcast(s: Seq<YamlValueView>, v: YamlValueView)
    requires
        !(v is Sequence),
        !(v is Null),
    ensures
        merged(YamlValueView::Sequence(s), v) is Sequence,
        merged(YamlValueView::Sequence(s), v)->Sequence_0.len() == s.len(),
        forall|i: int|
            0 <= i < s.len() ==> merged(YamlValueView::Sequence(s), v)->Sequence_0[i] == merged(
                #[trigger] s[i],
                v,
            ),
{
}

/// Looking a key up in a concatenation: the front of the list wins.
proof fn lemma_value_of_concat(
    xs: Seq<(YamlValueView, YamlValueView)>,
    ys: Seq<(YamlValueView, YamlValueView)>,
    key: YamlValueView,
)
    ensures
        value_of(xs + ys, key) == if has_key(xs, key) {
            value_of(xs, key)
        } else {
            value_of(ys, key)
        },
    decreases xs.len(),
{
    if xs.len() == 0 {
        assert(xs + ys =~= ys);
    } else {
        assert((xs + ys).drop_first() =~= xs.drop_first() + ys);
        lemma_value_of_concat(xs.drop_first(), ys, key);
    }
}

/// Looking a key up among the overlaid entries: the keys are the first
/// mapping's; the entry found carries its value merged with the second
/// mapping's value under the entry's own key, if any.
proof fn lemma_value_of_overlaid(
    m1: Seq<(YamlValueView, YamlValueView)>,
    m2: Seq<(YamlValueView, YamlValueView)>,
    key: YamlValueView,
)
    ensures
        value_of(overlaid_entries(m1, m2), key) == match entry_for(m1, key) {
            Some(e) => Some(
                match value_of(m2, e.0) {
                    Some(v2) => merged(e.1, v2),
                    None => e.1,
                },
            ),
            None => Option::<YamlValueView>::None,
        },
        has_key(m1, key) == (entry_for(m1, key) is Some),
    decreases m1.len(),
{
    if m1.len() > 0 {
        assert(overlaid_entries(m1, m2).len() == m1.len());
        assert(overlaid_entries(m1, m2)[0].0 == m1[0].0);
        assert(overlaid_entries(m1, m2).drop_first() =~= overlaid_entries(m1.drop_first(), m2));
        lemma_value_of_overlaid(m1.drop_first(), m2, key);
    }
}

/// Looking a key up among the extra entries: where no key of the first
/// mapping is equivalent to `key`, and the second mapping's keys that are
/// equivalent to `key` are not hidden by the first mapping, the lookup
/// agrees with the second mapping's own.
proof fn lemma_value_of_extras(
    m1: Seq<(YamlValueView, YamlValueView)>,
    m2: Seq<(YamlValueView, YamlValueView)>,
    key: YamlValueView,
)
    requires
        !has_key(m1, key),
        forall|j: int|
            0 <= j < m2.len() ==> (equivalent((#[trigger] m2[j]).0, key) ==> !has_key(
                m1,
                m2[j].0,
            )),
    ensures
        value_of(extra_entries(m1, m2), key) == value_of(m2, key),
    decreases m2.len(),
{
    if m2.len() > 0 {
        let front = m2.drop_last();
        let e = m2.last();
        assert(forall|j: int|
            0 <= j < front.len() ==> (equivalent((#[trigger] front[j]).0, key) ==> !has_key(
                m1,
                front[j].0,
            ))) by {
            assert(forall|j: int| 0 <= j < front.len() ==> front[j] == #[trigger] m2[j]);
        }
        lemma_value_of_extras(m1, front, key);
        assert(m2 =~= front + seq![e]);
        lemma_value_of_concat(front, seq![e], key);
        assert(value_of(Seq::<(YamlValueView, YamlValueView)>::empty(), key) is None);
        assert(seq![e].drop_first() =~= Seq::<(YamlValueView, YamlValueView)>::empty());
        assert(value_of(seq![e], key) == if equivalent(e.0, key) {
            Some(e.1)
        } else {
            Option::<YamlValueView>::None
        });
        if !has_key(m1, e.0) {
            assert(extra_entries(m1, m2) =~= extra_entries(m1, front) + seq![e]);
            lemma_value_of_concat(extra_entries(m1, front), seq![e], key);
        } else {
            assert(extra_entries(m1, m2) == extra_entries(m1, front));
            assert(e == m2[m2.len() - 1]);
            assert(!equivalent(e.0, key));
        }
    }
}

/// Law: the merge of two mappings is key-wise, with keys compared by
/// equivalence.  A lookup that finds an entry of the first mapping yields
/// that entry's value merged with the second mapping's value under the
/// entry's own key, or the entry's value alone where the second has none.
/// A lookup that finds no first-mapping key yields the second mapping's
/// own answer, provided none of the second's entries equivalent to the
/// key hides behind a first-mapping key (equivalence is not transitive in
/// general, so that case is excluded rather than decided).
pub proof fn lemma_merge_mappings(
    m1: Seq<(YamlValueView, YamlValueView)>,
    m2: Seq<(YamlValueView, YamlValueView)>,
    key: YamlValueView,
)
    ensures
        merged(YamlValueView::Mapping(m1), YamlValueView::Mapping(m2)) is Mapping,
        ({
            let entries = merged(YamlValueView::Mapping(m1), YamlValueView::Mapping(m2))->Mapping_0;
            has_key(m1, key) ==> value_of(entries, key) == ({
                let e = entry_for(m1, key)->Some_0;
                Some(
                    match value_of(m2, e.0) {
                        Some(v2) => merged(e.1, v2),
                        None => e.1,
                    },
                )
            })
        }),
        ({
            let entries = merged(YamlValueView::Mapping(m1), YamlValueView::Mapping(m2))->Mapping_0;
            (!has_key(m1, key) && (forall|j: int|
                0 <= j < m2.len() ==> (equivalent((#[trigger] m2[j]).0, key) ==> !has_key(
                    m1,
                    m2[j].0,
                )))) ==> value_of(entries, key) == value_of(m2, key)
        }),
{
    lemma_value_of_concat(overlaid_entries(m1, m2), extra_entries(m1, m2), key);
    lemma_value_of_overlaid(m1, m2, key);
    if !has_key(m1, key) && (forall|j: int|
        0 <= j < m2.len() ==> (equivalent((#[trigger] m2[j]).0, key) ==> !has_key(m1, m2[j].0))) {
        lemma_value_of_extras(m1, m2, key);
    }
}

} // verus!
