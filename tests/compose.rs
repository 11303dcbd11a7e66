use release_notes::config::{Config, IncludeConfig, Lookup};
use release_notes::error::ReportError;
use release_notes::labels::{classify, compile_labels, Category, Classification};
use release_notes::report::{assemble, check_window, plan_requests, search_query, sort_requests, Hit, Pages};
use release_notes::template::{Template, DEFAULT_TEMPLATE};
use release_notes::timeframe::{parse_timeframe, DateKind, Instant, ReleaseKind, Timeframe};

fn at(seconds: i64) -> Instant {
    Instant { seconds, nanos: 0 }
}

fn strings(v: &[&str]) -> Vec<String> {
    v.iter().map(|s| s.to_string()).collect()
}

fn sub_repo(owner: &str, repo: &str, anchored: bool) -> IncludeConfig {
    IncludeConfig {
        owner: owner.to_string(),
        repo: repo.to_string(),
        title: None,
        from: None,
        to: None,
        date_format: None,
        skip_labels: None,
        categories: None,
        use_parent_for_timeframe: anchored,
    }
}

#[test]
fn pages_concatenate_in_order() {
    let mut pages = Pages::new();
    pages.receive(vec![1, 2, 3]);
    pages.receive(vec![4]);
    pages.receive(Vec::new());
    pages.receive(vec![5, 6]);
    assert_eq!(pages.into_items(), vec![1, 2, 3, 4, 5, 6]);
    let single: Pages<u8> = Pages::new();
    assert!(single.into_items().is_empty());
}

#[test]
fn window_must_not_run_backwards() {
    assert!(check_window(at(10), at(10)).is_ok());
    assert!(check_window(at(10), at(11)).is_ok());
    match check_window(at(11), at(10)) {
        Err(ReportError::WindowOrder { from, to }) => {
            assert_eq!(from, at(11));
            assert_eq!(to, at(10));
        }
        _ => panic!("expected a window order error"),
    }
}

#[test]
fn search_query_names_repo_and_days() {
    let config = Config::new("acme".to_string(), "widget".to_string());
    let q = search_query(&config, at(1_705_276_800), at(1_705_363_199)).unwrap();
    assert_eq!(q, "repo:acme/widget is:pr is:merged merged:2024-01-15..2024-01-15");
    let q = search_query(&config, at(0), at(1_705_363_200)).unwrap();
    assert_eq!(q, "repo:acme/widget is:pr is:merged merged:1970-01-01..2024-01-16");
}

#[test]
fn new_config_has_defaults() {
    let c = Config::new("o".to_string(), "r".to_string());
    assert!(matches!(c.from, Timeframe::Release(ReleaseKind::Latest)));
    assert!(matches!(c.to, Timeframe::Date(DateKind::Today)));
    assert_eq!(c.date_format, "%Y-%m-%d");
    assert!(!c.skip_labels.is_match("anything") && !c.skip_labels.is_match(""));
    assert!(c.categories.is_empty() && c.includes.is_empty() && c.parent.is_none() && c.title.is_none());
    assert_eq!(c.template.as_str(), DEFAULT_TEMPLATE);
    assert_eq!(Template::default().as_str(), DEFAULT_TEMPLATE);
}

#[test]
fn include_inherits_parent_fields() {
    let mut parent = Config::new("acme".to_string(), "widget".to_string());
    parent.categories.push(Category::new("Features".to_string(), &strings(&["^feat"])).unwrap());
    parent.skip_labels = compile_labels("skip-labels", &strings(&["^wontfix"])).unwrap();
    parent.date_format = "%d.%m.%Y".to_string();
    parent.title = Some("Widget".to_string());
    parent.from = parse_timeframe("release:v1").unwrap();
    let mut own = sub_repo("acme", "gadget", false);
    own.title = Some("Gadget".to_string());
    own.to = Some(parse_timeframe("2024-02-01").unwrap());
    own.categories = Some(vec![Category::new("Fixes".to_string(), &strings(&["^fix"])).unwrap()]);
    parent.includes = vec![sub_repo("acme", "widget-docs", true), own];

    let children = parent.includes();
    assert_eq!(children.len(), 2);

    // Mutating the parent afterwards leaves the derived children alone.
    parent.categories.clear();
    parent.categories.push(Category::new("Other".to_string(), &strings(&["x"])).unwrap());

    let docs = &children[0];
    assert_eq!(docs.owner, "acme");
    assert_eq!(docs.repo, "widget-docs");
    assert_eq!(docs.title.as_deref(), Some("Widget"));
    assert_eq!(docs.categories.len(), 1);
    assert_eq!(docs.categories[0].title, "Features");
    assert!(docs.categories[0].labels.is_match("feature") && !docs.categories[0].labels.is_match("defeat"));
    assert!(docs.skip_labels.is_match("wontfix") && !docs.skip_labels.is_match("fix"));
    assert_eq!(docs.date_format, "%d.%m.%Y");
    assert!(matches!(&docs.from, Timeframe::Release(ReleaseKind::Absolute(t)) if t == "v1"));
    assert!(matches!(docs.to, Timeframe::Date(DateKind::Today)));
    assert!(docs.includes.is_empty());
    assert_eq!(docs.parent, Some(("acme".to_string(), "widget".to_string())));
    assert_eq!(docs.anchor(), ("acme".to_string(), "widget".to_string()));

    let gadget = &children[1];
    assert_eq!(gadget.title.as_deref(), Some("Gadget"));
    assert_eq!(gadget.categories[0].title, "Fixes");
    assert!(matches!(gadget.to, Timeframe::Date(DateKind::Absolute(i)) if i == at(1_706_745_600)));
    assert!(gadget.parent.is_none());
    assert_eq!(gadget.anchor(), ("acme".to_string(), "gadget".to_string()));
}

#[test]
fn lookups_follow_the_anchor() {
    let mut c = Config::new("acme".to_string(), "widget-docs".to_string());
    c.parent = Some(("acme".to_string(), "widget".to_string()));
    match c.lookup(&parse_timeframe("release:latest").unwrap()) {
        Lookup::Latest { owner, repo } => assert_eq!((owner.as_str(), repo.as_str()), ("acme", "widget")),
        _ => panic!("expected the latest release"),
    }
    match c.lookup(&parse_timeframe("release:v2").unwrap()) {
        Lookup::Tag { repo, tag, .. } => assert_eq!((repo.as_str(), tag.as_str()), ("widget", "v2")),
        _ => panic!("expected a tag lookup"),
    }
    assert!(matches!(c.lookup(&parse_timeframe("release:latest-4").unwrap()), Lookup::Ranked { back: 4, .. }));
    assert!(matches!(c.lookup(&parse_timeframe("today").unwrap()), Lookup::Now));
    assert!(matches!(c.lookup(&parse_timeframe("1970-01-02").unwrap()), Lookup::Fixed(i) if i == at(86_400)));
}

#[test]
fn requests_sorted_into_buckets() {
    let cats = vec![
        Category::new("Features".to_string(), &strings(&["^feat"])).unwrap(),
        Category::new("Fixes".to_string(), &strings(&["^fix"])).unwrap(),
        Category::new("Features".to_string(), &strings(&["^enh"])).unwrap(),
    ];
    let entries = vec![
        (Classification::Category(1), "a"),
        (Classification::Uncategorized, "b"),
        (Classification::Skip, "c"),
        (Classification::Category(0), "d"),
        (Classification::Category(2), "e"),
        (Classification::Category(1), "f"),
        (Classification::Uncategorized, "g"),
    ];
    let (buckets, rest) = sort_requests(&cats, entries);
    assert_eq!(buckets.len(), 2);
    assert_eq!(buckets[0].title, "Fixes");
    assert_eq!(buckets[0].requests, vec!["a", "f"]);
    assert_eq!(buckets[1].title, "Features");
    assert_eq!(buckets[1].requests, vec!["d", "e"]);
    assert_eq!(rest, vec!["b", "g"]);
}

#[test]
fn assemble_defaults_title_and_formats_date() {
    let mut config = Config::new("acme".to_string(), "widget".to_string());
    let node = assemble::<u8>("1.0".to_string(), &config, at(1_705_276_800), Vec::new(), vec![7], Vec::new()).unwrap();
    assert_eq!(node.title, "widget");
    assert_eq!(node.date, "2024-01-15");
    assert_eq!(node.version, "1.0");
    assert_eq!(node.prs, vec![7]);
    config.title = Some("Widget".to_string());
    config.date_format = "%d/%m/%Y".to_string();
    let node = assemble::<u8>("1.0".to_string(), &config, at(1_705_276_800), Vec::new(), Vec::new(), Vec::new()).unwrap();
    assert_eq!(node.title, "Widget");
    assert_eq!(node.date, "15/01/2024");
    config.date_format = "%Q".to_string();
    match assemble::<u8>("1.0".to_string(), &config, at(0), Vec::new(), Vec::new(), Vec::new()) {
        Err(ReportError::InvalidDateFormat { format }) => assert_eq!(format, "%Q"),
        _ => panic!("expected an invalid date format"),
    }
}

/// Root `acme/widget` from its latest release to today, one category, one
/// include anchored to the root's timeframe; remote answers given by hand.
#[test]
fn end_to_end_widget_with_docs_include() {
    let mut root = Config::new("acme".to_string(), "widget".to_string());
    root.categories.push(Category::new("Features".to_string(), &strings(&["^feat"])).unwrap());
    root.includes.push(sub_repo("acme", "widget-docs", true));

    let latest_published = at(1_704_067_200);
    let now = at(1_705_276_800);
    let resolve = |c: &Config, tf: &Timeframe| match c.lookup(tf) {
        Lookup::Latest { owner, repo } => {
            assert_eq!((owner.as_str(), repo.as_str()), ("acme", "widget"));
            latest_published
        }
        Lookup::Now => now,
        _ => panic!("unexpected lookup"),
    };

    let build = |c: &Config, hits: Vec<(Vec<String>, &'static str)>, children| {
        let from = resolve(c, &c.from);
        let to = resolve(c, &c.to);
        check_window(from, to).unwrap();
        let query = search_query(c, from, to).unwrap();
        let found: Vec<Hit> = hits.iter().map(|(labels, body)| Hit { labels: labels.clone(), url: body.to_string() }).collect();
        let mut entries = Vec::new();
        for (k, class) in plan_requests(c, &found) {
            assert_eq!(class, classify(&found[k].labels, &c.skip_labels, &c.categories));
            entries.push((class, hits[k].1));
        }
        let (buckets, rest) = sort_requests(&c.categories, entries);
        (query, from, to, assemble("2.0".to_string(), c, to, buckets, rest, children).unwrap())
    };

    let docs = &root.includes()[0];
    let (docs_query, docs_from, docs_to, docs_node) =
        build(docs, vec![(strings(&["feat-docs"]), "d1"), (strings(&["typo"]), "d2")], Vec::new());
    assert_eq!(docs_query, "repo:acme/widget-docs is:pr is:merged merged:2024-01-01..2024-01-15");

    let (query, from, to, node) = build(
        &root,
        vec![
            (strings(&["feature"]), "w1"),
            (strings(&["bug"]), "w2"),
            (strings(&["chore", "feat-x"]), "w3"),
            (Vec::new(), "w4"),
        ],
        vec![docs_node],
    );
    assert_eq!(query, "repo:acme/widget is:pr is:merged merged:2024-01-01..2024-01-15");
    assert_eq!((docs_from, docs_to), (from, to));
    assert_eq!(node.title, "widget");
    assert_eq!(node.categories.len(), 1);
    assert_eq!(node.categories[0].title, "Features");
    assert_eq!(node.categories[0].requests, vec!["w1", "w3"]);
    assert_eq!(node.prs, vec!["w2", "w4"]);
    assert_eq!(node.includes.len(), 1);
    let child = &node.includes[0];
    assert_eq!(child.repo, "widget-docs");
    assert_eq!(child.date, node.date);
    assert_eq!(child.categories[0].requests, vec!["d1"]);
    assert_eq!(child.prs, vec!["d2"]);
    assert!(child.includes.is_empty());
}

fn hit(labels: &[&str], url: &str) -> Hit {
    Hit { labels: strings(labels), url: url.to_string() }
}

#[test]
fn plan_requests_passes_over_skipped_hits() {
    let mut c = Config::new("acme".to_string(), "widget".to_string());
    c.skip_labels = compile_labels("skip-labels", &strings(&["^skip"])).unwrap();
    c.categories.push(Category::new("Features".to_string(), &strings(&["^feat"])).unwrap());
    let hits = vec![
        hit(&["skip-me", "feature"], "u0"),
        hit(&["feature"], "u1"),
        hit(&["skip"], "u2"),
        hit(&["docs"], "u3"),
        hit(&["skipped"], "u4"),
        hit(&[], "u5"),
    ];
    assert_eq!(
        plan_requests(&c, &hits),
        vec![(1, Classification::Category(0)), (3, Classification::Uncategorized), (5, Classification::Uncategorized)]
    );
    assert!(plan_requests(&c, &Vec::new()).is_empty());
}

#[test]
fn collected_pages_each_land_once() {
    let mut c = Config::new("acme".to_string(), "widget".to_string());
    c.categories.push(Category::new("Features".to_string(), &strings(&["^feat"])).unwrap());
    let mut pages = Pages::new();
    pages.receive(vec![hit(&["feat-a"], "p1"), hit(&["bug"], "p2")]);
    pages.receive(vec![hit(&["feat-b"], "p3")]);
    pages.receive(vec![hit(&[], "p4"), hit(&["feature"], "p5")]);
    let hits = pages.into_items();
    let urls: Vec<&str> = hits.iter().map(|h| h.url.as_str()).collect();
    assert_eq!(urls, vec!["p1", "p2", "p3", "p4", "p5"]);
    let entries: Vec<(Classification, String)> =
        plan_requests(&c, &hits).into_iter().map(|(k, class)| (class, hits[k].url.clone())).collect();
    let (buckets, rest) = sort_requests(&c.categories, entries);
    assert_eq!(buckets.len(), 1);
    assert_eq!(buckets[0].requests, vec!["p1", "p3", "p5"]);
    assert_eq!(rest, vec!["p2", "p4"]);
}

#[test]
fn timeframe_from_str() {
    let t: Timeframe = "release:latest-3".parse().unwrap();
    assert!(matches!(t, Timeframe::Release(ReleaseKind::RelativeFromLast(3))));
    assert!("nope".parse::<Timeframe>().is_err());
}
