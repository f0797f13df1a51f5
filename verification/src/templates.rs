//! Templates and their selection.
//!
//! A [`Template`] carries an override document together with its selector:
//! the resource's `apiVersion` and `kind`, and, through its metadata, an
//! optional namespace, label and annotation filter.  A [`Templates`] set
//! applies the first template whose selector matches a candidate, merging
//! the candidate (preferred side) with the template (overlay side).

use crate::json::JsonValue;
use crate::json::JsonValueView;
use crate::resource::MetaView;
use crate::resource::PairsView;
use crate::resource::Resource;
use crate::resource::ResourceView;
use crate::resource::StringMap;
use crate::resource::has_pair;
use crate::resource::merged_resource_json;
use crate::resource::pair_value_of;
use crate::yaml::YamlValue;
use vstd::prelude::*;

verus! {

/// One template: an override resource whose identity and metadata double
/// as the selector.
#[derive(Debug, PartialEq)]
pub struct Template {
    pub resource: Resource<JsonValue>,
}

impl DeepView for Template {
    type V = ResourceView<JsonValueView>;

    open spec fn deep_view(&self) -> ResourceView<JsonValueView> {
        self.resource.deep_view()
    }
}

impl View for Template {
    type V = ResourceView<JsonValueView>;

    open spec fn view(&self) -> ResourceView<JsonValueView> {
        self.deep_view()
    }
}

/// Whether every required pair stands in `have` with an equal value.
/// Extra pairs in `have` are ignored.
pub open spec fn pairs_subset(required: PairsView, have: PairsView) -> bool {
    forall|i: int|
        0 <= i < required.len() ==> pair_value_of(have, (#[trigger] required[i]).0) == Some(
            required[i].1,
        )
}

/// Whether one optional selector map accepts the candidate's map: no
/// selector accepts anything; a selector requires the candidate's map to
/// be present and to contain every selector pair.
pub open spec fn selector_accepts(selector: Option<PairsView>, have: Option<PairsView>) -> bool {
    match selector {
        None => true,
        Some(required) => match have {
            Some(pairs) => pairs_subset(required, pairs),
            None => false,
        },
    }
}

/// Whether the namespace selector accepts the candidate's metadata.
pub open spec fn namespace_accepts(
    selector: Option<Seq<char>>,
    metadata: Option<MetaView>,
) -> bool {
    match selector {
        None => true,
        Some(ns) => match metadata {
            Some(meta) => meta.namespace == Some(ns),
            None => false,
        },
    }
}

/// The labels of an optional metadata record.
pub open spec fn labels_of(metadata: Option<MetaView>) -> Option<PairsView> {
    match metadata {
        Some(meta) => meta.labels,
        None => None,
    }
}

/// The annotations of an optional metadata record.
pub open spec fn annotations_of(metadata: Option<MetaView>) -> Option<PairsView> {
    match metadata {
        Some(meta) => meta.annotations,
        None => None,
    }
}

/// Whether a template's selector matches a candidate: `apiVersion` and
/// `kind` must be equal; a template without metadata matches any such
/// candidate; a template with metadata additionally requires each
/// populated selector field to be satisfied.
pub open spec fn selector_matches(
    template: ResourceView<JsonValueView>,
    candidate: ResourceView<JsonValueView>,
) -> bool {
    &&& template.api_version == candidate.api_version
    &&& template.kind == candidate.kind
    &&& match template.metadata {
        None => true,
        Some(selector) => {
            &&& namespace_accepts(selector.namespace, candidate.metadata)
            &&& selector_accepts(selector.labels, labels_of(candidate.metadata))
            &&& selector_accepts(selector.annotations, annotations_of(candidate.metadata))
        },
    }
}

/// The application of one template: the merge of the candidate with the
/// template where the selector matches, nothing otherwise.
pub open spec fn applied(
    template: ResourceView<JsonValueView>,
    candidate: ResourceView<JsonValueView>,
) -> Option<ResourceView<JsonValueView>> {
    if selector_matches(template, candidate) {
        Some(merged_resource_json(candidate, template))
    } else {
        None
    }
}

/// Whether every required pair stands in the candidate map, decided by
/// scanning the required pairs.
fn check_subset(required: &StringMap, have: &StringMap) -> (r: bool)
    ensures
        r == pairs_subset(required@, have@),
{
    let mut i: usize = 0;
    while i < required.entries.len()
        invariant
            i <= required.entries.len(),
            forall|j: int|
                0 <= j < i ==> pair_value_of(have@, (#[trigger] required@[j]).0) == Some(
                    required@[j].1,
                ),
        decreases required.entries.len() - i,
    {
        let entry = &required.entries[i];
        proof {
            assert(required@[i as int] == (
                required.entries@[i as int].0@,
                required.entries@[i as int].1@,
            ));
        }
        match have.get(&entry.0) {
            Some(v) => {
                if !(*v == entry.1) {
                    return false;
                }
            },
            None => {
                return false;
            },
        }
        i += 1;
    }
    true
}

/// Whether one optional selector map accepts the candidate's map: a
/// verified implementation of [`selector_accepts`].
fn check_selector(selector: &Option<StringMap>, have: &Option<StringMap>) -> (r: bool)
    ensures
        r == selector_accepts(selector.deep_view(), have.deep_view()),
{
    match selector {
        None => true,
        Some(required) => match have {
            Some(pairs) => check_subset(required, pairs),
            None => false,
        },
    }
}

impl Template {
    /// Whether this template's selector matches the candidate: a verified
    /// implementation of [`selector_matches`].
    pub fn matches(&self, resource: &Resource<JsonValue>) -> (r: bool)
        ensures
            r == selector_matches(self.deep_view(), resource.deep_view()),
    {
        if !(self.resource.api_version == resource.api_version) {
            return false;
        }
        if !(self.resource.kind == resource.kind) {
            return false;
        }
        match &self.resource.metadata {
            None => true,
            Some(selector) => {
                let namespace_ok = match &selector.namespace {
                    None => true,
                    Some(ns) => match &resource.metadata {
                        Some(meta) => match &meta.namespace {
                            Some(have) => *have == *ns,
                            None => false,
                        },
                        None => false,
                    },
                };
                if !namespace_ok {
                    return false;
                }
                let candidate_labels = match &resource.metadata {
                    Some(meta) => &meta.labels,
                    None => &None,
                };
                if !check_selector(&selector.labels, candidate_labels) {
                    return false;
                }
                let candidate_annotations = match &resource.metadata {
                    Some(meta) => &meta.annotations,
                    None => &None,
                };
                check_selector(&selector.annotations, candidate_annotations)
            },
        }
    }

    /// The merge of the candidate with this template where the selector
    /// matches: a verified implementation of [`applied`].
    pub fn apply_to(&self, resource: &Resource<JsonValue>) -> (r: Option<Resource<JsonValue>>)
        ensures
            match r {
                Some(merged) => applied(self.deep_view(), resource.deep_view()) == Some(
                    merged.deep_view(),
                ),
                None => applied(self.deep_view(), resource.deep_view()) is None,
            },
    {
        if self.matches(resource) {
            return Some(resource.merge(&self.resource));
        }
        None
    }
}

/// An ordered set of templates, built once at start-up and read-only
/// afterwards.
#[derive(Debug, PartialEq)]
pub struct Templates {
    pub templates: Vec<Template>,
}

/// The views of a list of templates.
pub open spec fn template_views(templates: Seq<Template>) -> Seq<ResourceView<JsonValueView>> {
    Seq::new(templates.len(), |i: int| templates[i].deep_view())
}

impl DeepView for Templates {
    type V = Seq<ResourceView<JsonValueView>>;

    open spec fn deep_view(&self) -> Seq<ResourceView<JsonValueView>> {
        template_views(self.templates@)
    }
}

impl View for Templates {
    type V = Seq<ResourceView<JsonValueView>>;

    open spec fn view(&self) -> Seq<ResourceView<JsonValueView>> {
        self.deep_view()
    }
}

/// The application of a template list: the first template whose selector
/// matches is merged with the candidate; later templates are never
/// consulted.
pub open spec fn first_applied(
    templates: Seq<ResourceView<JsonValueView>>,
    candidate: ResourceView<JsonValueView>,
) -> Option<ResourceView<JsonValueView>>
    decreases templates.len(),
{
    if templates.len() == 0 {
        None
    } else if selector_matches(templates[0], candidate) {
        Some(merged_resource_json(candidate, templates[0]))
    } else {
        first_applied(templates.drop_first(), candidate)
    }
}

/// Where the first `i` templates do not match and template `i` does, the
/// application takes template `i`.
proof fn lemma_first_applied_match(
    templates: Seq<ResourceView<JsonValueView>>,
    candidate: ResourceView<JsonValueView>,
    i: int,
)
    requires
        0 <= i < templates.len(),
        selector_matches(templates[i], candidate),
        forall|j: int| 0 <= j < i ==> !selector_matches(#[trigger] templates[j], candidate),
    ensures
        first_applied(templates, candidate) == Some(
            merged_resource_json(candidate, templates[i]),
        ),
    decreases i,
{
    if i > 0 {
        lemma_first_applied_match(templates.drop_first(), candidate, i - 1);
    }
}

/// Where no template matches, the application yields nothing.
proof fn lemma_first_applied_absent(
    templates: Seq<ResourceView<JsonValueView>>,
    candidate: ResourceView<JsonValueView>,
)
    requires
        forall|j: int|
            0 <= j < templates.len() ==> !selector_matches(#[trigger] templates[j], candidate),
    ensures
        first_applied(templates, candidate) is None,
    decreases templates.len(),
{
    if templates.len() > 0 {
        lemma_first_applied_absent(templates.drop_first(), candidate);
    }
}

impl Templates {
    /// The number of templates in the set.
    pub fn len(&self) -> (r: usize)
        ensures
            r == self.deep_view().len(),
    {
        self.templates.len()
    }

    /// The template set built from already-parsed YAML resources, each
    /// converted to its JSON form, in the given order.
    pub fn from_resources(resources: Vec<Resource<YamlValue>>) -> (r: Templates)
        ensures
            r.deep_view().len() == resources@.len(),
            forall|i: int|
                0 <= i < resources@.len() ==> r.deep_view()[i] == crate::resource::converted_resource(
                    (#[trigger] resources@[i]).deep_view(),
                ),
    {
        let mut templates: Vec<Template> = Vec::new();
        let mut i: usize = 0;
        while i < resources.len()
            invariant
                i <= resources.len(),
                templates@.len() == i,
                forall|j: int|
                    0 <= j < i ==> (#[trigger] templates@[j]).deep_view()
                        == crate::resource::converted_resource(resources@[j].deep_view()),
            decreases resources.len() - i,
        {
            templates.push(Template { resource: resources[i].convert_to_json() });
            i += 1;
        }
        let r = Templates { templates };
        proof {
            assert(forall|i: int|
                0 <= i < r.deep_view().len() ==> #[trigger] r.deep_view()[i] == r.templates@[
                    i
                ].deep_view());
        }
        r
    }

    /// The merge of the candidate with the first matching template, or
    /// nothing: a verified implementation of [`first_applied`].
    pub fn apply_to(&self, target: &Resource<JsonValue>) -> (r: Option<Resource<JsonValue>>)
        ensures
            match r {
                Some(merged) => first_applied(self.deep_view(), target.deep_view()) == Some(
                    merged.deep_view(),
                ),
                None => first_applied(self.deep_view(), target.deep_view()) is None,
            },
    {
        let ghost views = self.deep_view();
        let mut i: usize = 0;
        while i < self.templates.len()
            invariant
                views == self.deep_view(),
                i <= self.templates.len(),
                forall|j: int| 0 <= j < i ==> !selector_matches(#[trigger] views[j], target.deep_view()),
            decreases self.templates.len() - i,
        {
            let template = &self.templates[i];
            proof {
                assert(views[i as int] == self.templates@[i as int].deep_view());
            }
            match template.apply_to(target) {
                Some(merged) => {
                    proof {
                        lemma_first_applied_match(views, target.deep_view(), i as int);
                    }
                    return Some(merged);
                },
                None => {},
            }
            i += 1;
        }
        proof {
            lemma_first_applied_absent(views, target.deep_view());
        }
        None
    }
}

/// Law: a template without metadata matches every candidate that shares
/// its `apiVersion` and `kind`, whatever the candidate's metadata holds.
pub proof fn lemma_matches_without_selector(
    template: ResourceView<JsonValueView>,
    candidate: ResourceView<JsonValueView>,
)
    requires
        template.metadata is None,
        template.api_version == candidate.api_version,
        template.kind == candidate.kind,
    ensures
        selector_matches(template, candidate),
{
}

/// Law: a template label requirement that the candidate does not carry
/// with an equal value defeats the match, whether the key is absent, bound
/// to another value, or the candidate has no labels at all.
pub proof fn lemma_label_mismatch(
    template: ResourceView<JsonValueView>,
    candidate: ResourceView<JsonValueView>,
    i: int,
)
    requires
        template.metadata is Some,
        template.metadata->Some_0.labels is Some,
        0 <= i < template.metadata->Some_0.labels->Some_0.len(),
        ({
            let required = template.metadata->Some_0.labels->Some_0[i];
            match labels_of(candidate.metadata) {
                Some(have) => pair_value_of(have, required.0) != Some(required.1),
                None => true,
            }
        }),
    ensures
        !selector_matches(template, candidate),
{
    let required = template.metadata->Some_0.labels->Some_0;
    if selector_matches(template, candidate) {
        assert(selector_accepts(Some(required), labels_of(candidate.metadata)));
        assert(pair_value_of(labels_of(candidate.metadata)->Some_0, required[i].0) == Some(
            required[i].1,
        ));
    }
}

} // verus!
