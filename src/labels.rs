use vstd::prelude::*;

use crate::error::ReportError;

verus! {

#[verifier::external_type_specification]
#[verifier::external_body]
pub struct ExRegexSet(regex::RegexSet);

#[verifier::external_type_specification]
#[verifier::external_body]
pub struct ExRegexError(regex::Error);

/// The patterns a compiled set was built from, in order (what
/// `RegexSet::patterns` hands back).
pub uninterp spec fn regex_set_patterns(set: regex::RegexSet) -> Seq<Seq<char>>;

/// Whether `RegexSet::new` accepts these patterns.
pub uninterp spec fn regex_set_accepts(patterns: Seq<Seq<char>>) -> bool;

/// Whether a set that `RegexSet::new` built from these patterns, with its
/// default options, matches somewhere in the text.
pub uninterp spec fn regex_set_matches(patterns: Seq<Seq<char>>, text: Seq<char>) -> bool;

/// The texts of a list of strings.
pub open spec fn texts(v: Seq<String>) -> Seq<Seq<char>> {
    v.map_values(|s: String| s@)
}

/// Relies on `regex::RegexSet::new`: it fails on exactly the pattern lists it
/// does not accept, and a set it builds keeps the patterns in order.
#[verifier::external_body]
fn compile_set(patterns: &Vec<String>) -> (r: Result<regex::RegexSet, regex::Error>)
    ensures
        r is Ok == regex_set_accepts(texts(patterns@)),
        r is Ok ==> regex_set_patterns(r->Ok_0) == texts(patterns@),
{
    regex::RegexSet::new(patterns)
}

/// Relies on `regex::RegexSet::empty`: a set of no patterns.
#[verifier::external_body]
fn empty_set() -> (r: regex::RegexSet)
    ensures
        regex_set_patterns(r) == Seq::<Seq<char>>::empty(),
{
    regex::RegexSet::empty()
}

/// Relies on `regex::RegexSet::is_match`: whether any pattern of the set
/// matches; a set of no patterns matches nothing. A `LabelSet` only ever
/// holds a set built by `RegexSet::new` or `RegexSet::empty` with default
/// options, or a clone of one.
#[verifier::external_body]
fn set_is_match(labels: &LabelSet, text: &str) -> (r: bool)
    ensures
        r == regex_set_matches(labels.patterns(), text@),
        labels.patterns().len() == 0 ==> !r,
{
    labels.set.is_match(text)
}

/// Relies on `Clone` for `regex::RegexSet`: the copy holds the same patterns.
#[verifier::external_body]
fn clone_set(set: &regex::RegexSet) -> (r: regex::RegexSet)
    ensures
        regex_set_patterns(r) == regex_set_patterns(*set),
{
    set.clone()
}

/// A compiled list of label patterns. It can only be built here, from
/// pattern texts with the default options.
pub struct LabelSet {
    set: regex::RegexSet,
}

impl LabelSet {
    /// The pattern texts, in order.
    pub closed spec fn patterns(&self) -> Seq<Seq<char>> {
        regex_set_patterns(self.set)
    }

    /// Whether some pattern matches somewhere in `text`; never when there are
    /// no patterns.
    pub fn is_match(&self, text: &str) -> (r: bool)
        ensures
            r == (self.patterns().len() > 0 && regex_set_matches(self.patterns(), text@)),
    {
        set_is_match(self, text)
    }
}

/// A compiled list of label patterns; `field` names where the list came from
/// when it is rejected.
pub fn compile_labels(field: &str, patterns: &Vec<String>) -> (r: Result<LabelSet, ReportError>)
    ensures
        r is Ok == regex_set_accepts(texts(patterns@)),
        r is Ok ==> r->Ok_0.patterns() == texts(patterns@),
        r is Err ==> (r matches Err(ReportError::InvalidPattern { field: f }) && f@ == field@),
{
    match compile_set(patterns) {
        Ok(set) => Ok(LabelSet { set }),
        Err(_) => Err(ReportError::InvalidPattern { field: String::from_str(field) }),
    }
}

/// The set of no patterns, which matches no label.
pub fn no_labels() -> (r: LabelSet)
    ensures
        r.patterns() == Seq::<Seq<char>>::empty(),
        forall|labels: Seq<Seq<char>>| !#[trigger] any_label_matches(r.patterns(), labels),
{
    LabelSet { set: empty_set() }
}

/// A copy of a compiled set.
pub fn copy_labels(labels: &LabelSet) -> (r: LabelSet)
    ensures
        r.patterns() == labels.patterns(),
{
    LabelSet { set: clone_set(&labels.set) }
}

/// A named bucket of requests, chosen by label patterns.
pub struct Category {
    pub title: String,
    pub labels: LabelSet,
}

impl Category {
    pub open spec fn patterns(&self) -> Seq<Seq<char>> {
        self.labels.patterns()
    }

    /// A category whose patterns are compiled from `labels`.
    pub fn new(title: String, labels: &Vec<String>) -> (r: Result<Category, ReportError>)
        ensures
            r is Ok == regex_set_accepts(texts(labels@)),
            r is Ok ==> r->Ok_0.title@ == title@ && r->Ok_0.patterns() == texts(labels@),
            r is Err ==> r matches Err(ReportError::InvalidPattern { .. }),
    {
        let set = compile_labels("categories", labels)?;
        Ok(Category { title, labels: set })
    }

    /// A copy with the same title and patterns.
    pub fn duplicate(&self) -> (r: Category)
        ensures
            r.title@ == self.title@,
            r.patterns() == self.patterns(),
    {
        Category { title: self.title.clone(), labels: copy_labels(&self.labels) }
    }
}

/// Whether some label matches some pattern of the set. A set of no patterns
/// matches nothing.
pub open spec fn any_label_matches(patterns: Seq<Seq<char>>, labels: Seq<Seq<char>>) -> bool {
    &&& patterns.len() > 0
    &&& exists|i: int| 0 <= i < labels.len() && regex_set_matches(patterns, #[trigger] labels[i])
}

/// For each category in order, whether it matches some label.
pub open spec fn category_hits(categories: Seq<Category>, labels: Seq<Seq<char>>) -> Seq<bool> {
    Seq::new(categories.len(), |i: int| any_label_matches(categories[i].patterns(), labels))
}

/// Where a request goes.
#[derive(Clone, Copy, Debug, PartialEq, Eq, Structural)]
pub enum Classification {
    /// Dropped from the report.
    Skip,
    /// Into the category at this index.
    Category(usize),
    /// Into the list of requests without a category.
    Uncategorized,
}

/// A skip match drops the request before categories are tried; otherwise the
/// first matching category wins; otherwise it is uncategorized.
pub open spec fn classified(skip_hit: bool, hits: Seq<bool>, c: Classification) -> bool {
    match c {
        Classification::Skip => skip_hit,
        Classification::Category(i) => {
            &&& !skip_hit
            &&& i < hits.len()
            &&& hits[i as int]
            &&& forall|j: int| 0 <= j < i ==> !(#[trigger] hits[j])
        },
        Classification::Uncategorized => {
            &&& !skip_hit
            &&& forall|j: int| 0 <= j < hits.len() ==> !(#[trigger] hits[j])
        },
    }
}

/// Decides where a request goes from whether the skip patterns matched it
/// and, for each category in order, whether that category matched it.
pub fn decide(skip_hit: bool, category_hits: &Vec<bool>) -> (r: Classification)
    ensures
        classified(skip_hit, category_hits@, r),
{
    if skip_hit {
        return Classification::Skip;
    }
    let mut i: usize = 0;
    while i < category_hits.len()
        invariant
            !skip_hit,
            i <= category_hits@.len(),
            forall|j: int| 0 <= j < i ==> !(#[trigger] category_hits@[j]),
        decreases category_hits@.len() - i,
    {
        if category_hits[i] {
            return Classification::Category(i);
        }
        i = i + 1;
    }
    Classification::Uncategorized
}

/// Whether some label matches some pattern of the set.
pub fn labels_match(set: &LabelSet, labels: &Vec<String>) -> (r: bool)
    ensures
        r == any_label_matches(set.patterns(), texts(labels@)),
{
    let mut i: usize = 0;
    while i < labels.len()
        invariant
            i <= labels@.len(),
            forall|j: int| 0 <= j < i ==> !regex_set_matches(set.patterns(), #[trigger] texts(labels@)[j]),
        decreases labels@.len() - i,
    {
        if set_is_match(set, labels[i].as_str()) {
            assert(texts(labels@)[i as int] == labels@[i as int]@);
            return true;
        }
        i = i + 1;
    }
    false
}

/// Where a request with these labels goes: skipped when a label matches a
/// skip pattern, else into the first category with a matching label, else
/// uncategorized.
pub fn classify(labels: &Vec<String>, skip: &LabelSet, categories: &Vec<Category>) -> (r:
    Classification)
    ensures
        classified(
            any_label_matches(skip.patterns(), texts(labels@)),
            category_hits(categories@, texts(labels@)),
            r,
        ),
{
    let skip_hit = labels_match(skip, labels);
    let mut hits: Vec<bool> = Vec::new();
    let mut i: usize = 0;
    while i < categories.len()
        invariant
            i <= categories@.len(),
            hits@.len() == i,
            forall|j: int| 0 <= j < i ==> #[trigger] hits@[j] == category_hits(categories@, texts(labels@))[j],
        decreases categories@.len() - i,
    {
        let hit = labels_match(&categories[i].labels, labels);
        hits.push(hit);
        i = i + 1;
    }
    assert(hits@ =~= category_hits(categories@, texts(labels@)));
    decide(skip_hit, &hits)
}

} // verus!
