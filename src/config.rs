use vstd::prelude::*;

use crate::labels::{copy_labels, no_labels, Category, LabelSet};
use crate::template::Template;
use crate::timeframe::{DateKind, Instant, ReleaseKind, Timeframe, TimeframeView};

verus! {

/// The date-format pattern used when the configuration names none.
pub const DEFAULT_DATE_FORMAT: &'static str = "%Y-%m-%d";

/// `release:latest`, the default start of the window.
pub fn default_from() -> (r: Timeframe)
    ensures
        r@ == TimeframeView::Latest,
{
    Timeframe::Release(ReleaseKind::Latest)
}

/// `today`, the default end of the window.
pub fn default_to() -> (r: Timeframe)
    ensures
        r@ == TimeframeView::Today,
{
    Timeframe::Date(DateKind::Today)
}

/// `%Y-%m-%d`, the default date format.
pub fn default_date_format() -> (r: String)
    ensures
        r@ == DEFAULT_DATE_FORMAT@,
{
    String::from_str(DEFAULT_DATE_FORMAT)
}

pub open spec fn opt_text(o: Option<String>) -> Option<Seq<char>> {
    match o {
        Some(s) => Some(s@),
        None => None,
    }
}

/// Two category lists with the same titles and patterns, in the same order.
pub open spec fn same_categories(a: Seq<Category>, b: Seq<Category>) -> bool {
    &&& a.len() == b.len()
    &&& forall|i: int|
        0 <= i < a.len() ==> (#[trigger] a[i]).title@ == b[i].title@ && a[i].patterns() == b[i].patterns()
}

/// A copy of a category list.
pub fn copy_categories(v: &Vec<Category>) -> (r: Vec<Category>)
    ensures
        same_categories(r@, v@),
{
    let mut out: Vec<Category> = Vec::new();
    let mut i: usize = 0;
    while i < v.len()
        invariant
            i <= v@.len(),
            same_categories(out@, v@.subrange(0, i as int)),
        decreases v@.len() - i,
    {
        out.push(v[i].duplicate());
        i = i + 1;
    }
    assert(v@.subrange(0, v@.len() as int) =~= v@);
    out
}

fn copy_opt_text(o: &Option<String>) -> (r: Option<String>)
    ensures
        opt_text(r) == opt_text(*o),
{
    match o {
        Some(s) => Some(s.clone()),
        None => None,
    }
}

/// A secondary repository under a configuration. Every field left unset takes
/// the parent's value.
pub struct IncludeConfig {
    pub owner: String,
    pub repo: String,
    pub title: Option<String>,
    pub from: Option<Timeframe>,
    pub to: Option<Timeframe>,
    pub date_format: Option<String>,
    pub skip_labels: Option<LabelSet>,
    pub categories: Option<Vec<Category>>,
    /// Resolve the timeframe against the parent's repository.
    pub use_parent_for_timeframe: bool,
}

/// One repository's report configuration.
pub struct Config {
    pub from: Timeframe,
    pub to: Timeframe,
    pub owner: String,
    pub repo: String,
    pub title: Option<String>,
    pub date_format: String,
    pub skip_labels: LabelSet,
    pub categories: Vec<Category>,
    pub template: Template,
    pub includes: Vec<IncludeConfig>,
    /// The repository that timeframes are resolved against, where it is not
    /// this one: a lookup key, `(owner, repo)`.
    pub parent: Option<(String, String)>,
}

/// The configuration that an include stands for under `parent`: owner and
/// repository its own, every other field the include's where it sets it,
/// else the parent's; no includes of its own; anchored to
/// the parent's repository when the include asks for it.
pub open spec fn derived_from(parent: Config, ic: IncludeConfig, c: Config) -> bool {
    &&& c.owner@ == ic.owner@
    &&& c.repo@ == ic.repo@
    &&& opt_text(c.title) == (match ic.title {
        Some(t) => Some(t@),
        None => opt_text(parent.title),
    })
    &&& c.from@ == (match ic.from {
        Some(t) => t@,
        None => parent.from@,
    })
    &&& c.to@ == (match ic.to {
        Some(t) => t@,
        None => parent.to@,
    })
    &&& c.date_format@ == (match ic.date_format {
        Some(f) => f@,
        None => parent.date_format@,
    })
    &&& c.skip_labels.patterns() == (match ic.skip_labels {
        Some(s) => s.patterns(),
        None => parent.skip_labels.patterns(),
    })
    &&& same_categories(
        c.categories@,
        match ic.categories {
            Some(v) => v@,
            None => parent.categories@,
        },
    )
    &&& c.template.0@ == parent.template.0@
    &&& c.includes@.len() == 0
    &&& if ic.use_parent_for_timeframe {
        c.parent matches Some((o, r)) && o@ == parent.owner@ && r@ == parent.repo@
    } else {
        c.parent is None
    }
}

/// An include that asks to use the parent's timeframe resolves its
/// timeframes against the parent's repository, while its requests are still
/// searched in its own repository (`search_query` reads `owner` and `repo`).
pub proof fn lemma_anchored_include(parent: Config, ic: IncludeConfig, child: Config)
    requires
        derived_from(parent, ic, child),
        ic.use_parent_for_timeframe,
    ensures
        anchor_of(child) == (parent.owner@, parent.repo@),
        child.owner@ == ic.owner@,
        child.repo@ == ic.repo@,
{
}

/// An include that leaves its categories unset carries the parent's
/// categories, title for title and pattern for pattern.
pub proof fn lemma_inherited_categories(parent: Config, ic: IncludeConfig, child: Config)
    requires
        derived_from(parent, ic, child),
        ic.categories is None,
    ensures
        same_categories(child.categories@, parent.categories@),
{
}

/// The repository that a configuration's timeframes are resolved against.
pub open spec fn anchor_of(c: Config) -> (Seq<char>, Seq<char>) {
    match c.parent {
        Some((o, r)) => (o@, r@),
        None => (c.owner@, c.repo@),
    }
}

/// What must be looked up to resolve a timeframe.
pub enum Lookup {
    /// The publish instant of the latest release of the repository.
    Latest { owner: String, repo: String },
    /// The publish instant of the release with this tag.
    Tag { owner: String, repo: String, tag: String },
    /// Every release of the repository, to rank them by creation (see
    /// `nth_latest`).
    Ranked { owner: String, repo: String, back: u8 },
    /// The current instant.
    Now,
    /// Nothing: the instant is given.
    Fixed(Instant),
}

impl Config {
    /// A configuration for one repository with every default: from the
    /// latest release to today, `%Y-%m-%d`, no skip patterns, no categories,
    /// the default template, no includes.
    pub fn new(owner: String, repo: String) -> (r: Config)
        ensures
            r.owner@ == owner@,
            r.repo@ == repo@,
            r.title is None,
            r.from@ == TimeframeView::Latest,
            r.to@ == TimeframeView::Today,
            r.date_format@ == DEFAULT_DATE_FORMAT@,
            r.skip_labels.patterns().len() == 0,
            r.categories@.len() == 0,
            r.template.0@ == crate::template::DEFAULT_TEMPLATE@,
            r.includes@.len() == 0,
            r.parent is None,
    {
        Config {
            categories: Vec::new(),
            date_format: default_date_format(),
            from: default_from(),
            includes: Vec::new(),
            owner,
            parent: None,
            repo,
            skip_labels: no_labels(),
            template: Template::default(),
            title: None,
            to: default_to(),
        }
    }

    /// The configuration of one include under this one.
    pub fn derive_include(&self, ic: &IncludeConfig) -> (r: Config)
        ensures
            derived_from(*self, *ic, r),
    {
        let parent = if ic.use_parent_for_timeframe {
            Some((self.owner.clone(), self.repo.clone()))
        } else {
            None
        };
        let from = match &ic.from {
            Some(t) => t.duplicate(),
            None => self.from.duplicate(),
        };
        let to = match &ic.to {
            Some(t) => t.duplicate(),
            None => self.to.duplicate(),
        };
        let date_format = match &ic.date_format {
            Some(f) => f.clone(),
            None => self.date_format.clone(),
        };
        let skip_labels = match &ic.skip_labels {
            Some(s) => copy_labels(s),
            None => copy_labels(&self.skip_labels),
        };
        let categories = match &ic.categories {
            Some(v) => copy_categories(v),
            None => copy_categories(&self.categories),
        };
        Config {
            owner: ic.owner.clone(),
            repo: ic.repo.clone(),
            title: match &ic.title {
                Some(t) => Some(t.clone()),
                None => copy_opt_text(&self.title),
            },
            from,
            to,
            date_format,
            skip_labels,
            categories,
            template: self.template.duplicate(),
            includes: Vec::new(),
            parent,
        }
    }

    /// The configurations of this one's includes, in declaration order. Each
    /// holds its own copies of what it inherits.
    pub fn includes(&self) -> (r: Vec<Config>)
        ensures
            r@.len() == self.includes@.len(),
            forall|i: int| 0 <= i < r@.len() ==> derived_from(*self, self.includes@[i], #[trigger] r@[i]),
    {
        let mut out: Vec<Config> = Vec::new();
        let mut i: usize = 0;
        while i < self.includes.len()
            invariant
                i <= self.includes@.len(),
                out@.len() == i,
                forall|j: int| 0 <= j < i ==> derived_from(*self, self.includes@[j], #[trigger] out@[j]),
            decreases self.includes@.len() - i,
        {
            out.push(self.derive_include(&self.includes[i]));
            i = i + 1;
        }
        out
    }

    /// The `(owner, repo)` that timeframes of this configuration are resolved
    /// against: the parent reference if there is one, else its own.
    pub fn anchor(&self) -> (r: (String, String))
        ensures
            (r.0@, r.1@) == anchor_of(*self),
    {
        match &self.parent {
            Some((o, r)) => (o.clone(), r.clone()),
            None => (self.owner.clone(), self.repo.clone()),
        }
    }

    /// What to look up to resolve `tf` for this configuration.
    pub fn lookup(&self, tf: &Timeframe) -> (r: Lookup)
        ensures
            match tf@ {
                TimeframeView::Latest => r matches Lookup::Latest { owner, repo } && (owner@, repo@)
                    == anchor_of(*self),
                TimeframeView::Tag(t) => r matches Lookup::Tag { owner, repo, tag } && (owner@, repo@)
                    == anchor_of(*self) && tag@ == t,
                TimeframeView::FromLast(n) => r matches Lookup::Ranked { owner, repo, back } && (
                owner@, repo@) == anchor_of(*self) && back == n,
                TimeframeView::Today => r is Now,
                TimeframeView::At(t) => r == Lookup::Fixed(t),
            },
    {
        let (owner, repo) = self.anchor();
        match tf {
            Timeframe::Release(ReleaseKind::Latest) => Lookup::Latest { owner, repo },
            Timeframe::Release(ReleaseKind::Absolute(tag)) => Lookup::Tag { owner, repo, tag: tag.clone() },
            Timeframe::Release(ReleaseKind::RelativeFromLast(n)) => Lookup::Ranked { owner, repo, back: *n },
            Timeframe::Date(DateKind::Today) => Lookup::Now,
            Timeframe::Date(DateKind::Absolute(t)) => Lookup::Fixed(*t),
        }
    }
}

} // verus!
