//! Resources: the document wrapper that merging and matching work on.
//!
//! A [`Resource`] wraps a document payload (the `spec`) in the usual
//! `apiVersion`/`kind`/`metadata` envelope.  Merging two resources keeps
//! `apiVersion` and `kind` from the first operand and merges metadata and
//! spec independently; [`ObjectMeta`] has its own merge rule, under which
//! the first operand wins on conflicting label or annotation keys.

use crate::json::JsonValue;
use crate::json::JsonValueView;
use crate::yaml::YamlValue;
use crate::yaml::YamlValueView;
use vstd::prelude::*;

verus! {

/// An ordered map from text to text, as labels and annotations use it.
/// The entries keep insertion order; well-formed maps have unique keys.
/// `==` compares two maps by their entries regardless of order.
#[derive(Debug)]
pub struct StringMap {
    pub entries: Vec<(String, String)>,
}

/// The pairs a [`StringMap`] abstracts to.
pub type PairsView = Seq<(Seq<char>, Seq<char>)>;

/// The views of a list of text pairs.
pub open spec fn pair_views(entries: Seq<(String, String)>) -> PairsView {
    Seq::new(entries.len(), |i: int| (entries[i].0@, entries[i].1@))
}

impl DeepView for StringMap {
    type V = PairsView;

    open spec fn deep_view(&self) -> PairsView {
        pair_views(self.entries@)
    }
}

impl View for StringMap {
    type V = PairsView;

    open spec fn view(&self) -> PairsView {
        self.deep_view()
    }
}

/// The value under the first occurrence of `key`, if any.
pub open spec fn pair_value_of(pairs: PairsView, key: Seq<char>) -> Option<Seq<char>>
    decreases pairs.len(),
{
    if pairs.len() == 0 {
        None
    } else if pairs[0].0 == key {
        Some(pairs[0].1)
    } else {
        pair_value_of(pairs.drop_first(), key)
    }
}

/// Whether `pairs` holds an entry under `key`.
pub open spec fn has_pair(pairs: PairsView, key: Seq<char>) -> bool {
    pair_value_of(pairs, key) is Some
}

/// Equality of two maps as maps: equal sizes, every key of either side
/// present in the other, and equal values under shared keys.
pub open spec fn pairs_equal(x: PairsView, y: PairsView) -> bool {
    &&& x.len() == y.len()
    &&& forall|i: int|
        0 <= i < x.len() ==> pair_value_of(y, (#[trigger] x[i]).0) == Some(x[i].1)
    &&& forall|j: int| 0 <= j < y.len() ==> has_pair(x, (#[trigger] y[j]).0)
}

/// The merge of two maps: the first operand wins under conflicting keys;
/// the result holds the second's entries (overwritten where the first has
/// the key) and then the first's entries under keys new to the second.
pub open spec fn merged_pairs(first: PairsView, second: PairsView) -> PairsView {
    Seq::new(
        second.len(),
        |i: int|
            if 0 <= i < second.len() {
                (
                    second[i].0,
                    match pair_value_of(first, second[i].0) {
                        Some(v) => v,
                        None => second[i].1,
                    },
                )
            } else {
                (Seq::empty(), Seq::empty())
            },
    ) + new_pairs(first, second)
}

/// The first map's entries whose keys are absent from the second, in the
/// first's order.
pub open spec fn new_pairs(first: PairsView, second: PairsView) -> PairsView
    decreases first.len(),
{
    if first.len() == 0 {
        Seq::empty()
    } else {
        let rest = new_pairs(first.drop_last(), second);
        if !has_pair(second, first.last().0) {
            rest.push(first.last())
        } else {
            rest
        }
    }
}

/// The merge of two optional maps: one side absent yields the other as is.
pub open spec fn merged_opt_pairs(first: Option<PairsView>, second: Option<PairsView>) -> Option<
    PairsView,
> {
    match (first, second) {
        (Some(f), Some(s)) => Some(merged_pairs(f, s)),
        (Some(f), None) => Some(f),
        (None, s) => s,
    }
}

/// Where the first `i` keys differ from `key` and the key at `i` is `key`,
/// the lookup returns that entry's value.
proof fn lemma_pair_value_of_first_match(pairs: PairsView, key: Seq<char>, i: int)
    requires
        0 <= i < pairs.len(),
        pairs[i].0 == key,
        forall|j: int| 0 <= j < i ==> (#[trigger] pairs[j]).0 != key,
    ensures
        pair_value_of(pairs, key) == Some(pairs[i].1),
    decreases i,
{
    if i > 0 {
        lemma_pair_value_of_first_match(pairs.drop_first(), key, i - 1);
    }
}

/// Where no key of `pairs` is `key`, the lookup returns nothing.
proof fn lemma_pair_value_of_absent(pairs: PairsView, key: Seq<char>)
    requires
        forall|j: int| 0 <= j < pairs.len() ==> (#[trigger] pairs[j]).0 != key,
    ensures
        pair_value_of(pairs, key) is None,
    decreases pairs.len(),
{
    if pairs.len() > 0 {
        lemma_pair_value_of_absent(pairs.drop_first(), key);
    }
}

impl StringMap {
    /// An empty map.
    pub fn new() -> (r: StringMap)
        ensures
            r@ == Seq::<(Seq<char>, Seq<char>)>::empty(),
    {
        let r = StringMap { entries: Vec::new() };
        proof {
            assert(r@ =~= Seq::<(Seq<char>, Seq<char>)>::empty());
        }
        r
    }

    /// A map holding the given entries, in order.
    pub fn from_entries(entries: Vec<(String, String)>) -> (r: StringMap)
        ensures
            r == (StringMap { entries }),
    {
        StringMap { entries }
    }

    /// A reference to the value under the first occurrence of `key`.
    pub fn get<'a>(&'a self, key: &String) -> (r: Option<&'a String>)
        ensures
            match r {
                Some(v) => pair_value_of(self@, key@) == Some(v@),
                None => !has_pair(self@, key@),
            },
    {
        let mut i: usize = 0;
        while i < self.entries.len()
            invariant
                i <= self.entries.len(),
                forall|j: int| 0 <= j < i ==> (#[trigger] self@[j]).0 != key@,
            decreases self.entries.len() - i,
        {
            let entry = &self.entries[i];
            if entry.0 == *key {
                proof {
                    lemma_pair_value_of_first_match(self@, key@, i as int);
                }
                return Some(&entry.1);
            }
            i += 1;
        }
        proof {
            lemma_pair_value_of_absent(self@, key@);
        }
        None
    }

    /// A copy of the map.
    pub fn deep_copy(&self) -> (r: StringMap)
        ensures
            r@ == self@,
    {
        let mut out: Vec<(String, String)> = Vec::new();
        let mut i: usize = 0;
        while i < self.entries.len()
            invariant
                i <= self.entries.len(),
                out@.len() == i,
                forall|j: int|
                    0 <= j < i ==> (out@[j].0@, out@[j].1@) == (#[trigger] self@[j]),
            decreases self.entries.len() - i,
        {
            let entry = &self.entries[i];
            out.push((entry.0.clone(), entry.1.clone()));
            i += 1;
        }
        let r = StringMap { entries: out };
        proof {
            assert(r@ =~= self@);
        }
        r
    }
}

impl PartialEq for StringMap {
    /// `==` decides [`pairs_equal`] on the two maps' views.
    fn eq(&self, other: &StringMap) -> (r: bool) {
        if self.entries.len() != other.entries.len() {
            return false;
        }
        let mut i: usize = 0;
        while i < self.entries.len()
            invariant
                self@.len() == other@.len(),
                i <= self.entries.len(),
                forall|j: int|
                    0 <= j < i ==> pair_value_of(other@, (#[trigger] self@[j]).0) == Some(
                        self@[j].1,
                    ),
            decreases self.entries.len() - i,
        {
            let entry = &self.entries[i];
            proof {
                assert(self@[i as int] == (self.entries@[i as int].0@, self.entries@[i as int].1@));
            }
            match other.get(&entry.0) {
                Some(v) => {
                    if !(*v == entry.1) {
                        return false;
                    }
                },
                None => {
                    return false;
                },
            }
            i += 1;
        }
        let mut k: usize = 0;
        while k < other.entries.len()
            invariant
                self@.len() == other@.len(),
                k <= other.entries.len(),
                forall|j: int|
                    0 <= j < self@.len() ==> pair_value_of(other@, (#[trigger] self@[j]).0)
                        == Some(self@[j].1),
                forall|j: int| 0 <= j < k ==> has_pair(self@, (#[trigger] other@[j]).0),
            decreases other.entries.len() - k,
        {
            let entry = &other.entries[k];
            proof {
                assert(other@[k as int] == (
                    other.entries@[k as int].0@,
                    other.entries@[k as int].1@,
                ));
            }
            if self.get(&entry.0).is_none() {
                return false;
            }
            k += 1;
        }
        true
    }
}

impl vstd::std_specs::cmp::PartialEqSpecImpl for StringMap {
    open spec fn obeys_eq_spec() -> bool {
        true
    }

    open spec fn eq_spec(&self, other: &StringMap) -> bool {
        pairs_equal(self@, other@)
    }
}

/// The metadata of a resource: an optional name and namespace, and
/// optional label and annotation maps.
#[derive(Debug, PartialEq)]
pub struct ObjectMeta {
    pub name: Option<String>,
    pub namespace: Option<String>,
    pub labels: Option<StringMap>,
    pub annotations: Option<StringMap>,
}

/// The mathematical abstraction of metadata.
pub struct MetaView {
    pub name: Option<Seq<char>>,
    pub namespace: Option<Seq<char>>,
    pub labels: Option<PairsView>,
    pub annotations: Option<PairsView>,
}

impl DeepView for ObjectMeta {
    type V = MetaView;

    open spec fn deep_view(&self) -> MetaView {
        MetaView {
            name: self.name.deep_view(),
            namespace: self.namespace.deep_view(),
            labels: self.labels.deep_view(),
            annotations: self.annotations.deep_view(),
        }
    }
}

impl View for ObjectMeta {
    type V = MetaView;

    open spec fn view(&self) -> MetaView {
        self.deep_view()
    }
}

/// The merge of two metadata records: name and namespace come from the
/// first operand verbatim; labels and annotations merge with the first
/// operand winning under conflicting keys.
pub open spec fn merged_meta_records(first: MetaView, second: MetaView) -> MetaView {
    MetaView {
        name: first.name,
        namespace: first.namespace,
        labels: merged_opt_pairs(first.labels, second.labels),
        annotations: merged_opt_pairs(first.annotations, second.annotations),
    }
}

/// The merge of two optional metadata records: one side absent yields the
/// other as is.
pub open spec fn merged_meta(first: Option<MetaView>, second: Option<MetaView>) -> Option<
    MetaView,
> {
    match (first, second) {
        (Some(f), Some(s)) => Some(merged_meta_records(f, s)),
        (Some(f), None) => Some(f),
        (None, s) => s,
    }
}

impl ObjectMeta {
    /// A metadata record with the given fields.
    pub fn new(
        name: Option<String>,
        namespace: Option<String>,
        labels: Option<StringMap>,
        annotations: Option<StringMap>,
    ) -> (r: ObjectMeta)
        ensures
            r == (ObjectMeta { name, namespace, labels, annotations }),
    {
        ObjectMeta { name, namespace, labels, annotations }
    }

    /// A copy of the record.
    pub fn deep_copy(&self) -> (r: ObjectMeta)
        ensures
            r.deep_view() == self.deep_view(),
    {
        ObjectMeta {
            name: clone_opt_string(&self.name),
            namespace: clone_opt_string(&self.namespace),
            labels: copy_opt_map(&self.labels),
            annotations: copy_opt_map(&self.annotations),
        }
    }
}

/// Copies an optional piece of text.
fn clone_opt_string(s: &Option<String>) -> (r: Option<String>)
    ensures
        r.deep_view() == s.deep_view(),
{
    match s {
        Some(v) => Some(v.clone()),
        None => None,
    }
}

/// Copies an optional map.
fn copy_opt_map(m: &Option<StringMap>) -> (r: Option<StringMap>)
    ensures
        r.deep_view() == m.deep_view(),
{
    match m {
        Some(v) => Some(v.deep_copy()),
        None => None,
    }
}

/// The merge of two optional maps: a verified implementation of
/// [`merged_opt_pairs`].
pub fn merge_maps(first: &Option<StringMap>, second: &Option<StringMap>) -> (r: Option<StringMap>)
    ensures
        r.deep_view() == merged_opt_pairs(first.deep_view(), second.deep_view()),
{
    match (first, second) {
        (Some(f), Some(s)) => {
            let ghost fv = f@;
            let ghost sv = s@;
            let mut out: Vec<(String, String)> = Vec::new();
            // The second map's entries, overwritten where the first map
            // carries the key: the first operand wins.
            let mut i: usize = 0;
            while i < s.entries.len()
                invariant
                    fv == f.deep_view(),
                    sv == s.deep_view(),
                    i <= s.entries.len(),
                    out@.len() == i,
                    forall|j: int|
                        0 <= j < i ==> ((#[trigger] out@[j]).0@, out@[j].1@) == merged_pairs(
                            fv,
                            sv,
                        )[j],
            decreases s.entries.len() - i,
            {
                let entry = &s.entries[i];
                proof {
                    assert(sv[i as int] == (s.entries@[i as int].0@, s.entries@[i as int].1@));
                }
                let value = match f.get(&entry.0) {
                    Some(v) => v.clone(),
                    None => entry.1.clone(),
                };
                out.push((entry.0.clone(), value));
                i += 1;
            }
            // The first map's entries under keys new to the second, in the
            // first's order.
            let ghost head = pair_views(out@);
            proof {
                assert(head =~= merged_pairs(fv, sv).subrange(0, sv.len() as int));
            }
            let mut k: usize = 0;
            while k < f.entries.len()
                invariant
                    fv == f.deep_view(),
                    sv == s.deep_view(),
                    k <= f.entries.len(),
                    out@.len() >= sv.len(),
                    pair_views(out@) == head + new_pairs(fv.subrange(0, k as int), sv),
                    head == merged_pairs(fv, sv).subrange(0, sv.len() as int),
                decreases f.entries.len() - k,
            {
                let ghost old_pairs = pair_views(out@);
                let entry = &f.entries[k];
                proof {
                    assert(fv[k as int] == (f.entries@[k as int].0@, f.entries@[k as int].1@));
                }
                if s.get(&entry.0).is_none() {
                    out.push((entry.0.clone(), entry.1.clone()));
                    proof {
                        assert(pair_views(out@) =~= old_pairs.push(fv[k as int]));
                    }
                }
                proof {
                    let prefix = fv.subrange(0, k as int);
                    let grown = fv.subrange(0, k + 1 as int);
                    assert(grown.drop_last() =~= prefix);
                    assert(grown.last() == fv[k as int]);
                    assert(pair_views(out@) =~= head + new_pairs(grown, sv));
                }
                k += 1;
            }
            let r = StringMap { entries: out };
            proof {
                assert(fv.subrange(0, f.entries@.len() as int) =~= fv);
                assert(r@ =~= merged_pairs(fv, sv));
            }
            Some(r)
        },
        (Some(f), None) => Some(f.deep_copy()),
        (None, Some(s)) => Some(s.deep_copy()),
        (None, None) => None,
    }
}

/// The merge of two optional metadata records: a verified implementation
/// of [`merged_meta`].
pub fn merge_meta(first: &Option<ObjectMeta>, second: &Option<ObjectMeta>) -> (r: Option<
    ObjectMeta,
>)
    ensures
        r.deep_view() == merged_meta(first.deep_view(), second.deep_view()),
{
    match (first, second) {
        (Some(f), Some(s)) => Some(
            ObjectMeta {
                name: clone_opt_string(&f.name),
                namespace: clone_opt_string(&f.namespace),
                labels: merge_maps(&f.labels, &s.labels),
                annotations: merge_maps(&f.annotations, &s.annotations),
            },
        ),
        (Some(f), None) => Some(f.deep_copy()),
        (None, Some(s)) => Some(s.deep_copy()),
        (None, None) => None,
    }
}

/// A document in its envelope: the identity fields `apiVersion` and
/// `kind`, optional metadata, and an optional payload.
#[derive(Debug, PartialEq)]
pub struct Resource<T> {
    pub api_version: String,
    pub kind: String,
    pub metadata: Option<ObjectMeta>,
    pub spec: Option<T>,
}

/// The mathematical abstraction of a resource.
pub struct ResourceView<V> {
    pub api_version: Seq<char>,
    pub kind: Seq<char>,
    pub metadata: Option<MetaView>,
    pub spec: Option<V>,
}

impl<T: DeepView> DeepView for Resource<T> {
    type V = ResourceView<T::V>;

    open spec fn deep_view(&self) -> ResourceView<T::V> {
        ResourceView {
            api_version: self.api_version@,
            kind: self.kind@,
            metadata: self.metadata.deep_view(),
            spec: self.spec.deep_view(),
        }
    }
}

impl<T: DeepView> View for Resource<T> {
    type V = ResourceView<T::V>;

    open spec fn view(&self) -> ResourceView<T::V> {
        self.deep_view()
    }
}

impl<T: DeepView> Resource<T> {
    /// A resource with the given identity and no metadata or payload.
    pub fn new(api_version: &str, kind: &str) -> (r: Resource<T>)
        ensures
            r.deep_view().api_version == api_version@,
            r.deep_view().kind == kind@,
            r.deep_view().metadata is None,
            r.deep_view().spec is None,
    {
        Resource {
            api_version: api_version.to_owned(),
            kind: kind.to_owned(),
            metadata: None,
            spec: None,
        }
    }
}

/// The merge of two optional payloads under a payload merge: one side
/// absent yields the other as is.
pub open spec fn merged_opt_json(first: Option<JsonValueView>, second: Option<JsonValueView>) -> Option<
    JsonValueView,
> {
    match (first, second) {
        (Some(f), Some(s)) => Some(crate::json::merged(f, s)),
        (Some(f), None) => Some(f),
        (None, s) => s,
    }
}

/// The merge of two JSON resources: identity from the first operand,
/// metadata and payload merged independently.
pub open spec fn merged_resource_json(
    a: ResourceView<JsonValueView>,
    b: ResourceView<JsonValueView>,
) -> ResourceView<JsonValueView> {
    ResourceView {
        api_version: a.api_version,
        kind: a.kind,
        metadata: merged_meta(a.metadata, b.metadata),
        spec: merged_opt_json(a.spec, b.spec),
    }
}

impl Resource<JsonValue> {
    /// The merge of this resource with another: a verified implementation
    /// of [`merged_resource_json`].  The first operand is the preferred
    /// side.
    pub fn merge(&self, other: &Resource<JsonValue>) -> (r: Resource<JsonValue>)
        ensures
            r.deep_view() == merged_resource_json(self.deep_view(), other.deep_view()),
    {
        Resource {
            api_version: self.api_version.clone(),
            kind: self.kind.clone(),
            metadata: merge_meta(&self.metadata, &other.metadata),
            spec: match (&self.spec, &other.spec) {
                (Some(f), Some(s)) => Some(crate::json::merge_values(f, s)),
                (Some(f), None) => Some(f.deep_copy()),
                (None, Some(s)) => Some(s.deep_copy()),
                (None, None) => None,
            },
        }
    }
}

/// The merge of two optional YAML payloads.
pub open spec fn merged_opt_yaml(first: Option<YamlValueView>, second: Option<YamlValueView>) -> Option<
    YamlValueView,
> {
    match (first, second) {
        (Some(f), Some(s)) => Some(crate::yaml::merged(f, s)),
        (Some(f), None) => Some(f),
        (None, s) => s,
    }
}

/// The merge of two YAML resources.
pub open spec fn merged_resource_yaml(
    a: ResourceView<YamlValueView>,
    b: ResourceView<YamlValueView>,
) -> ResourceView<YamlValueView> {
    ResourceView {
        api_version: a.api_version,
        kind: a.kind,
        metadata: merged_meta(a.metadata, b.metadata),
        spec: merged_opt_yaml(a.spec, b.spec),
    }
}

/// The conversion of a YAML resource to its JSON form: identity and
/// metadata carry over; the payload converts by
/// [`crate::yaml::json_of`], absent where the conversion fails.
pub open spec fn converted_resource(a: ResourceView<YamlValueView>) -> ResourceView<
    JsonValueView,
> {
    ResourceView {
        api_version: a.api_version,
        kind: a.kind,
        metadata: a.metadata,
        spec: match a.spec {
            Some(v) => crate::yaml::json_of(v),
            None => None,
        },
    }
}

impl Resource<YamlValue> {
    /// The merge of this resource with another: a verified implementation
    /// of [`merged_resource_yaml`].
    pub fn merge(&self, other: &Resource<YamlValue>) -> (r: Resource<YamlValue>)
        ensures
            r.deep_view() == merged_resource_yaml(self.deep_view(), other.deep_view()),
    {
        Resource {
            api_version: self.api_version.clone(),
            kind: self.kind.clone(),
            metadata: merge_meta(&self.metadata, &other.metadata),
            spec: match (&self.spec, &other.spec) {
                (Some(f), Some(s)) => Some(crate::yaml::merge_values(f, s)),
                (Some(f), None) => Some(f.deep_copy()),
                (None, Some(s)) => Some(s.deep_copy()),
                (None, None) => None,
            },
        }
    }

    /// The JSON form of this YAML resource: a verified implementation of
    /// [`converted_resource`].
    pub fn convert_to_json(&self) -> (r: Resource<JsonValue>)
        ensures
            r.deep_view() == converted_resource(self.deep_view()),
    {
        Resource {
            api_version: self.api_version.clone(),
            kind: self.kind.clone(),
            metadata: match &self.metadata {
                Some(m) => Some(m.deep_copy()),
                None => None,
            },
            spec: match &self.spec {
                Some(v) => crate::yaml::convert_value_to_json(v),
                None => None,
            },
        }
    }
}

/// Law: merging a resource without metadata and without a payload with
/// itself yields the resource unchanged.
pub proof fn lemma_merge_self_identity(r: ResourceView<JsonValueView>)
    requires
        r.metadata is None,
        r.spec is None,
    ensures
        merged_resource_json(r, r) == r,
{
}

} // verus!
