use vstd::prelude::*;

use crate::config::Config;
use crate::error::ReportError;
use crate::labels::{any_label_matches, category_hits, classified, classify, texts, Category, Classification};
use crate::timeframe::{format_instant, strftime_text, Instant};

verus! {

/// The resolved window must not end before it starts.
pub fn check_window(from: Instant, to: Instant) -> (r: Result<(), ReportError>)
    ensures
        r is Ok <==> from.ns() <= to.ns(),
        r is Err ==> r == Err::<(), ReportError>(ReportError::WindowOrder { from, to }),
{
    if from.is_later_than(&to) {
        Err(ReportError::WindowOrder { from, to })
    } else {
        Ok(())
    }
}

/// The search text for merged pull requests of `owner/repo` merged between
/// two days, both included.
pub open spec fn query_text(owner: Seq<char>, repo: Seq<char>, from_day: Seq<char>, to_day: Seq<char>) -> Seq<
    char,
> {
    "repo:"@ + owner + "/"@ + repo + " is:pr is:merged merged:"@ + from_day + ".."@ + to_day
}

/// Builds the search text from the two days already rendered.
pub fn query_for(owner: &str, repo: &str, from_day: &str, to_day: &str) -> (r: String)
    ensures
        r@ == query_text(owner@, repo@, from_day@, to_day@),
{
    let mut q = String::from_str("repo:");
    q.append(owner);
    q.append("/");
    q.append(repo);
    q.append(" is:pr is:merged merged:");
    q.append(from_day);
    q.append("..");
    q.append(to_day);
    q
}

/// The search text for the requests of the configuration's own repository
/// merged in the window, with days written `%Y-%m-%d`.
pub fn search_query(config: &Config, from: Instant, to: Instant) -> (r: Result<String, ReportError>)
    ensures
        match (strftime_text(from, "%Y-%m-%d"@), strftime_text(to, "%Y-%m-%d"@)) {
            (Some(a), Some(b)) => r is Ok && r->Ok_0@ == query_text(config.owner@, config.repo@, a, b),
            _ => r matches Err(ReportError::InvalidDateFormat { .. }),
        },
{
    let day = "%Y-%m-%d";
    let from_day = match format_instant(from, day) {
        Some(d) => d,
        None => return Err(ReportError::InvalidDateFormat { format: String::from_str(day) }),
    };
    let to_day = match format_instant(to, day) {
        Some(d) => d,
        None => return Err(ReportError::InvalidDateFormat { format: String::from_str(day) }),
    };
    Ok(query_for(config.owner.as_str(), config.repo.as_str(), from_day.as_str(), to_day.as_str()))
}

/// The items of a paginated result, gathered page by page.
pub struct Pages<T> {
    pub items: Vec<T>,
    /// The pages received so far, in order.
    pub received: Ghost<Seq<Seq<T>>>,
}

impl<T> Pages<T> {
    /// What is gathered is every received page, concatenated in order.
    pub open spec fn wf(&self) -> bool {
        self.items@ == self.received@.flatten()
    }

    pub fn new() -> (r: Pages<T>)
        ensures
            r.wf(),
            r.received@ == Seq::<Seq<T>>::empty(),
    {
        Pages { items: Vec::new(), received: Ghost(Seq::empty()) }
    }

    /// Takes in the next page.
    pub fn receive(&mut self, page: Vec<T>)
        requires
            old(self).wf(),
        ensures
            final(self).wf(),
            final(self).received@ == old(self).received@.push(page@),
            final(self).items@ == old(self).items@ + page@,
    {
        let ghost seen = self.received@;
        let mut page = page;
        let ghost items = page@;
        self.items.append(&mut page);
        self.received = Ghost(seen.push(items));
        proof {
            seen.lemma_flatten_push(items);
        }
    }

    /// Everything gathered.
    pub fn into_items(self) -> (r: Vec<T>)
        requires
            self.wf(),
        ensures
            r@ == self.received@.flatten(),
    {
        self.items
    }
}

/// Item `j` of page `i` stands in the gathered items right after all the
/// items of the pages before it: pages are concatenated whole, in order.
pub proof fn lemma_pages_in_order<T>(pages: Seq<Seq<T>>, i: int, j: int)
    requires
        0 <= i < pages.len(),
        0 <= j < pages[i].len(),
    ensures
        pages.subrange(0, i).flatten().len() + j < pages.flatten().len(),
        pages.flatten()[pages.subrange(0, i).flatten().len() + j] == pages[i][j],
{
    let before = pages.subrange(0, i);
    let after = pages.subrange(i, pages.len() as int);
    assert(pages =~= before + after);
    vstd::seq_lib::lemma_flatten_concat(before, after);
    assert(after.first() == pages[i]);
    assert(after.flatten() == after.first() + after.drop_first().flatten());
}

/// A search result: the labels it carries and where its full request lives.
pub struct Hit {
    pub labels: Vec<String>,
    pub url: String,
}

/// Whether the configuration's skip patterns drop a request with these labels.
pub open spec fn skipped(config: Config, labels: Seq<Seq<char>>) -> bool {
    any_label_matches(config.skip_labels.patterns(), labels)
}

/// Where the hit at `j` goes, as the configuration classifies it.
pub open spec fn hit_class(config: Config, hits: Seq<Hit>, j: int, c: Classification) -> bool {
    classified(
        skipped(config, texts(hits[j].labels@)),
        category_hits(config.categories@, texts(hits[j].labels@)),
        c,
    )
}

/// The hits that need their full request fetched: every hit that is not
/// skipped, once each, in the order the hits came, with where it goes.
/// Skipped hits need no further remote call.
pub fn plan_requests(config: &Config, hits: &Vec<Hit>) -> (r: Vec<(usize, Classification)>)
    ensures
        forall|k: int| 0 <= k < r@.len() ==> {
            &&& (#[trigger] r@[k]).0 < hits@.len()
            &&& r@[k].1 != Classification::Skip
            &&& hit_class(*config, hits@, r@[k].0 as int, r@[k].1)
        },
        forall|k: int, m: int| 0 <= k < m < r@.len() ==> (#[trigger] r@[k]).0 < (#[trigger] r@[m]).0,
        forall|j: int|
            0 <= j < hits@.len() && !skipped(*config, texts((#[trigger] hits@[j]).labels@)) ==> exists|k: int|
                0 <= k < r@.len() && (#[trigger] r@[k]).0 == j,
{
    let mut out: Vec<(usize, Classification)> = Vec::new();
    let mut i: usize = 0;
    while i < hits.len()
        invariant
            i <= hits@.len(),
            forall|k: int| 0 <= k < out@.len() ==> {
                &&& (#[trigger] out@[k]).0 < i
                &&& out@[k].1 != Classification::Skip
                &&& hit_class(*config, hits@, out@[k].0 as int, out@[k].1)
            },
            forall|k: int, m: int| 0 <= k < m < out@.len() ==> (#[trigger] out@[k]).0 < (#[trigger] out@[m]).0,
            forall|j: int|
                0 <= j < i && !skipped(*config, texts((#[trigger] hits@[j]).labels@)) ==> exists|k: int|
                    0 <= k < out@.len() && (#[trigger] out@[k]).0 == j,
        decreases hits@.len() - i,
    {
        let c = classify(&hits[i].labels, &config.skip_labels, &config.categories);
        let ghost before = out@;
        match c {
            Classification::Skip => {},
            _ => {
                out.push((i, c));
                proof {
                    assert forall|j: int|
                        0 <= j < i && !skipped(*config, texts((#[trigger] hits@[j]).labels@)) implies exists|k: int|
                        0 <= k < out@.len() && (#[trigger] out@[k]).0 == j by {
                        let k = choose|k: int| 0 <= k < before.len() && (#[trigger] before[k]).0 == j;
                        assert(out@[k] == before[k]);
                    }
                    assert(out@[out@.len() - 1].0 == i);
                }
            },
        }
        i = i + 1;
    }
    out
}

/// Requests of one category title, in the order they were met.
pub struct Bucket<R> {
    pub title: String,
    pub requests: Vec<R>,
}

pub open spec fn buckets_view<R>(v: Seq<Bucket<R>>) -> Seq<(Seq<char>, Seq<R>)> {
    v.map_values(|b: Bucket<R>| (b.title@, b.requests@))
}

pub open spec fn distinct_titles<R>(b: Seq<(Seq<char>, Seq<R>)>) -> bool {
    forall|i: int, j: int| 0 <= i < b.len() && 0 <= j < b.len() && i != j ==> #[trigger] b[i].0 != #[trigger] b[j].0
}

/// Adds a request under a title: at the end of that title's bucket, or in a
/// new bucket at the end when the title has none yet.
pub open spec fn place<R>(b: Seq<(Seq<char>, Seq<R>)>, title: Seq<char>, item: R) -> Seq<(Seq<char>, Seq<R>)> {
    if exists|k: int| 0 <= k < b.len() && (#[trigger] b[k]).0 == title {
        let k = choose|k: int| 0 <= k < b.len() && (#[trigger] b[k]).0 == title;
        b.update(k, (title, b[k].1.push(item)))
    } else {
        b.push((title, seq![item]))
    }
}

/// The category titles of a list of categories.
pub open spec fn titles(categories: Seq<Category>) -> Seq<Seq<char>> {
    categories.map_values(|c: Category| c.title@)
}

/// The buckets and the uncategorized list after sorting `entries` in order:
/// skipped ones are dropped, categorized ones go under their category's
/// title, the rest to the uncategorized list.
pub open spec fn sorted_entries<R>(titles: Seq<Seq<char>>, entries: Seq<(Classification, R)>) -> (Seq<
    (Seq<char>, Seq<R>),
>, Seq<R>)
    decreases entries.len(),
{
    if entries.len() == 0 {
        (Seq::empty(), Seq::empty())
    } else {
        let prev = sorted_entries(titles, entries.drop_last());
        let (c, item) = entries.last();
        match c {
            Classification::Skip => prev,
            Classification::Category(i) => (place(prev.0, titles[i as int], item), prev.1),
            Classification::Uncategorized => (prev.0, prev.1.push(item)),
        }
    }
}

/// How many requests the buckets hold together.
pub open spec fn bucket_total<R>(b: Seq<(Seq<char>, Seq<R>)>) -> nat
    decreases b.len(),
{
    if b.len() == 0 {
        0
    } else {
        bucket_total(b.drop_last()) + b.last().1.len()
    }
}

/// How many entries are not skipped.
pub open spec fn kept_count<R>(entries: Seq<(Classification, R)>) -> nat
    decreases entries.len(),
{
    if entries.len() == 0 {
        0
    } else {
        kept_count(entries.drop_last()) + if entries.last().0 is Skip {
            0nat
        } else {
            1nat
        }
    }
}

proof fn lemma_total_grow<R>(b: Seq<(Seq<char>, Seq<R>)>, k: int, t: Seq<char>, x: R)
    requires
        0 <= k < b.len(),
    ensures
        bucket_total(b.update(k, (t, b[k].1.push(x)))) == bucket_total(b) + 1,
    decreases b.len(),
{
    let u = b.update(k, (t, b[k].1.push(x)));
    if k == b.len() - 1 {
        assert(u.drop_last() =~= b.drop_last());
    } else {
        let d = b.drop_last();
        assert(d[k] == b[k]);
        assert(u.drop_last() =~= d.update(k, (t, d[k].1.push(x))));
        lemma_total_grow(d, k, t, x);
    }
}

proof fn lemma_total_place<R>(b: Seq<(Seq<char>, Seq<R>)>, t: Seq<char>, x: R)
    ensures
        bucket_total(place(b, t, x)) == bucket_total(b) + 1,
{
    if exists|k: int| 0 <= k < b.len() && (#[trigger] b[k]).0 == t {
        assert forall|k: int| 0 <= k < b.len() implies #[trigger] bucket_total(b.update(k, (t, b[k].1.push(x))))
            == bucket_total(b) + 1 by {
            lemma_total_grow(b, k, t, x);
        }
    } else {
        let p = b.push((t, seq![x]));
        assert(p.drop_last() =~= b);
        assert(p.last().1.len() == 1);
        assert(place(b, t, x) == p);
    }
}

/// Sorting drops exactly the skipped entries: every other entry ends up in
/// exactly one list, the buckets or the uncategorized list, and nothing else
/// does.
pub proof fn lemma_kept_entries_placed_once<R>(titles: Seq<Seq<char>>, entries: Seq<(Classification, R)>)
    ensures
        bucket_total(sorted_entries(titles, entries).0) + sorted_entries(titles, entries).1.len() == kept_count(
            entries,
        ),
    decreases entries.len(),
{
    if entries.len() > 0 {
        let prev = sorted_entries(titles, entries.drop_last());
        lemma_kept_entries_placed_once(titles, entries.drop_last());
        let (c, item) = entries.last();
        match c {
            Classification::Category(i) => {
                lemma_total_place(prev.0, titles[i as int], item);
            },
            _ => {},
        }
    }
}

/// Whether every category index names one of `n` categories.
pub open spec fn indices_below<R>(entries: Seq<(Classification, R)>, n: nat) -> bool {
    forall|k: int| 0 <= k < entries.len() ==> match (#[trigger] entries[k]).0 {
        Classification::Category(i) => i < n,
        _ => true,
    }
}

fn place_in<R>(buckets: &mut Vec<Bucket<R>>, title: &String, item: R)
    requires
        distinct_titles(buckets_view(old(buckets)@)),
    ensures
        buckets_view(final(buckets)@) == place(buckets_view(old(buckets)@), title@, item),
        distinct_titles(buckets_view(final(buckets)@)),
{
    let ghost before = buckets_view(buckets@);
    let mut k: usize = 0;
    while k < buckets.len()
        invariant
            k <= buckets@.len(),
            before == buckets_view(buckets@),
            before == buckets_view(old(buckets)@),
            distinct_titles(before),
            forall|j: int| 0 <= j < k ==> before[j].0 != title@,
        decreases buckets@.len() - k,
    {
        if crate::timeframe::same_text(buckets[k].title.as_str(), title.as_str()) {
            assert(before[k as int].0 == title@);
            let mut b = buckets.remove(k);
            b.requests.push(item);
            buckets.insert(k, b);
            proof {
                assert(exists|c: int| 0 <= c < before.len() && (#[trigger] before[c]).0 == title@);
                let c = choose|c: int| 0 <= c < before.len() && (#[trigger] before[c]).0 == title@;
                assert(c == k);
                let after = before.update(k as int, (title@, before[k as int].1.push(item)));
                assert forall|j: int| 0 <= j < after.len() implies #[trigger] buckets_view(buckets@)[j] == after[j] by {
                    if j == k {
                        assert(buckets@[j].requests@ == before[j].1.push(item));
                    }
                }
                assert(buckets_view(buckets@) =~= after);
                assert(place(before, title@, item) == after);
            }
            return;
        }
        k = k + 1;
    }
    let ghost pre = buckets@;
    let mut fresh: Vec<R> = Vec::new();
    fresh.push(item);
    buckets.push(Bucket { title: title.clone(), requests: fresh });
    proof {
        assert(fresh@ =~= seq![item]);
        assert(buckets_view(buckets@).len() == before.len() + 1);
        assert forall|j: int| 0 <= j < before.len() + 1 implies #[trigger] buckets_view(buckets@)[j] == before.push((title@, seq![item]))[j] by {
            if j < before.len() {
                assert(buckets@[j] == pre[j]);
            }
        }
        assert(buckets_view(buckets@) =~= before.push((title@, seq![item])));
    }
}

/// Sorts classified requests into category buckets and the uncategorized
/// list, keeping the order in which they come.
pub fn sort_requests<R>(categories: &Vec<Category>, entries: Vec<(Classification, R)>) -> (r: (
    Vec<Bucket<R>>,
    Vec<R>,
))
    requires
        indices_below(entries@, categories@.len()),
    ensures
        (buckets_view(r.0@), r.1@) == sorted_entries(titles(categories@), entries@),
        distinct_titles(buckets_view(r.0@)),
{
    let ghost all = entries@;
    let ghost names = titles(categories@);
    let mut entries = entries;
    let mut buckets: Vec<Bucket<R>> = Vec::new();
    let mut rest: Vec<R> = Vec::new();
    let mut i: usize = 0;
    let n = entries.len();
    while entries.len() > 0
        invariant
            n == all.len(),
            i + entries@.len() == n,
            entries@ == all.subrange(i as int, n as int),
            indices_below(all, categories@.len()),
            names == titles(categories@),
            distinct_titles(buckets_view(buckets@)),
            (buckets_view(buckets@), rest@) == sorted_entries(names, all.subrange(0, i as int)),
        decreases entries@.len(),
    {
        let (c, item) = entries.remove(0);
        proof {
            assert(all.subrange(0, i + 1).drop_last() =~= all.subrange(0, i as int));
            assert(all[i as int] == (c, item));
        }
        match c {
            Classification::Skip => {},
            Classification::Category(k) => {
                assert(k < categories@.len()) by {
                    assert(all[i as int].0 == c);
                }
                place_in(&mut buckets, &categories[k].title, item);
            },
            Classification::Uncategorized => {
                rest.push(item);
            },
        }
        i = i + 1;
        proof {
            assert(entries@ =~= all.subrange(i as int, n as int));
        }
    }
    assert(all.subrange(0, n as int) =~= all);
    (buckets, rest)
}

/// One repository's part of the report, and those of its includes in order.
pub struct Data<R> {
    pub version: String,
    pub owner: String,
    pub repo: String,
    pub title: String,
    pub date: String,
    pub categories: Vec<Bucket<R>>,
    pub prs: Vec<R>,
    pub includes: Vec<Data<R>>,
}

/// Shapes a node from a date already rendered: the title is the
/// configuration's, or the repository name when it has none.
pub fn node_with_date<R>(
    version: String,
    config: &Config,
    date: String,
    categories: Vec<Bucket<R>>,
    prs: Vec<R>,
    includes: Vec<Data<R>>,
) -> (r: Data<R>)
    ensures
        r.version@ == version@,
        r.owner@ == config.owner@,
        r.repo@ == config.repo@,
        r.title@ == (match config.title {
            Some(t) => t@,
            None => config.repo@,
        }),
        r.date@ == date@,
        r.categories@ == categories@,
        r.prs@ == prs@,
        r.includes@ == includes@,
{
    let title = match &config.title {
        Some(t) => t.clone(),
        None => config.repo.clone(),
    };
    Data {
        version,
        owner: config.owner.clone(),
        repo: config.repo.clone(),
        title,
        date,
        categories,
        prs,
        includes,
    }
}

/// Shapes a node, with the end of the window rendered by the configuration's
/// date format.
pub fn assemble<R>(
    version: String,
    config: &Config,
    to: Instant,
    categories: Vec<Bucket<R>>,
    prs: Vec<R>,
    includes: Vec<Data<R>>,
) -> (r: Result<Data<R>, ReportError>)
    ensures
        match strftime_text(to, config.date_format@) {
            Some(d) => r is Ok && r->Ok_0.date@ == d && r->Ok_0.version@ == version@ && r->Ok_0.owner@
                == config.owner@ && r->Ok_0.repo@ == config.repo@ && r->Ok_0.title@ == (match config.title {
                Some(t) => t@,
                None => config.repo@,
            }) && r->Ok_0.categories@ == categories@ && r->Ok_0.prs@ == prs@ && r->Ok_0.includes@ == includes@,
            None => r matches Err(ReportError::InvalidDateFormat { format }) && format@ == config.date_format@,
        },
{
    match format_instant(to, config.date_format.as_str()) {
        Some(date) => Ok(node_with_date(version, config, date, categories, prs, includes)),
        None => Err(ReportError::InvalidDateFormat { format: config.date_format.clone() }),
    }
}

} // verus!
