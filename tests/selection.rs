use veisku::cfg::{files_default, Cfg, Criterion, Query as QueryOpts, ThemeCfg};
use veisku::doc::{DocRead, MetaError, MetaState};
use veisku::meta::MetaValue;
use veisku::query::{select_one, Phase, Query, QueryError, SelectFault, SelectOneError, Selection, Verdict};

fn cfg() -> Cfg {
    Cfg { root: String::new(), writable: false, files: files_default(), theme: ThemeCfg::default() }
}

fn compile(criteria: &[&str]) -> Result<Query, QueryError> {
    let opts = QueryOpts {
        preset: "default".to_string(),
        criteria: criteria.iter().map(|c| Criterion::parse(c).unwrap()).collect(),
    };
    Query::from_opt(&cfg(), &opts)
}

fn s(v: &str) -> MetaValue {
    MetaValue::Str(v.to_string())
}

fn mapping(entries: Vec<(&str, MetaValue)>) -> MetaValue {
    MetaValue::Mapping(entries.into_iter().map(|(k, v)| (s(k), v)).collect())
}

fn doc_with(path: &str, meta: MetaValue) -> DocRead {
    let mut d = DocRead::new(path.to_string());
    d.record_meta(Ok(meta));
    d
}

/// Runs a selection, answering every request for metadata from `meta`.
fn run(query: Query, paths: &[&str], meta: &dyn Fn(&str) -> MetaValue) -> Vec<Result<DocRead, SelectFault<String>>> {
    let entries = paths.iter().map(|p| Ok(DocRead::new(p.to_string()))).collect();
    let mut sel: Selection<String> = Selection::new(query, entries);
    while let Some(i) = sel.advance() {
        let path = sel.path_of(i).unwrap().to_string();
        sel.supply(i, Ok(meta(&path)));
    }
    assert!(sel.done());
    sel.finish()
}

fn paths_of(results: &[Result<DocRead, SelectFault<String>>]) -> Vec<String> {
    results.iter().map(|r| r.as_ref().ok().unwrap().path().to_string()).collect()
}

fn no_meta(_: &str) -> MetaValue {
    MetaValue::Null
}

#[test]
fn exact_name_wins_over_prefix() {
    let q = compile(&["foo"]).unwrap();
    let r = run(q, &["docs/foo.md", "docs/foobar.md"], &no_meta);
    assert_eq!(paths_of(&r), vec!["docs/foo.md"]);
}

#[test]
fn prefix_pass_runs_only_when_exact_pass_is_empty() {
    let q = compile(&["fo"]).unwrap();
    let r = run(q, &["docs/foo.md", "docs/foobar.md", "docs/bar.md"], &no_meta);
    assert_eq!(paths_of(&r), vec!["docs/foo.md", "docs/foobar.md"]);
}

#[test]
fn no_smart_name_selects_every_document() {
    let q = compile(&[]).unwrap();
    let r = run(q, &["a.md", "b.md"], &no_meta);
    assert_eq!(paths_of(&r), vec!["a.md", "b.md"]);
}

#[test]
fn name_regex_matches_the_stem() {
    let q = compile(&["/^a.*/"]).unwrap();
    let r = run(q, &["x/abc.md", "x/bac.md"], &no_meta);
    assert_eq!(paths_of(&r), vec!["x/abc.md"]);
    let q = compile(&["!/^a/"]).unwrap();
    let r = run(q, &["x/abc.md", "x/bac.md"], &no_meta);
    assert_eq!(paths_of(&r), vec!["x/bac.md"]);
}

#[test]
fn path_key_matches_the_full_path() {
    let q = compile(&["path:/notes/"]).unwrap();
    let r = run(q, &["notes/a.md", "work/b.md"], &|_| panic!("the path needs no metadata"));
    assert_eq!(paths_of(&r), vec!["notes/a.md"]);
}

#[test]
fn metadata_is_read_only_when_needed() {
    let q = compile(&["foo", "tag:x"]).unwrap();
    let asked = std::cell::RefCell::new(Vec::new());
    let r = run(q, &["foo.md", "bar.md"], &|p| {
        asked.borrow_mut().push(p.to_string());
        mapping(vec![("tag", s("x"))])
    });
    assert_eq!(paths_of(&r), vec!["foo.md"]);
    assert_eq!(*asked.borrow(), vec!["foo.md".to_string()]);
}

#[test]
fn tri_state_metadata_matching() {
    let q = compile(&["tags:b"]).unwrap();
    let absent = doc_with("absent.md", mapping(vec![]));
    assert_eq!(q.judge(Phase::Exact, &absent), Verdict::NoMatch);
    let list = doc_with("list.md", mapping(vec![("tags", MetaValue::Sequence(vec![s("a"), s("b")]))]));
    assert_eq!(q.judge(Phase::Exact, &list), Verdict::Match);
    let numbers = doc_with(
        "numbers.md",
        mapping(vec![("tags", MetaValue::Sequence(vec![MetaValue::Number("1".into()), MetaValue::Number("2".into())]))]),
    );
    assert_eq!(q.judge(Phase::Exact, &numbers), Verdict::NoMatch);
    let mixed = doc_with("mixed.md", mapping(vec![("tags", MetaValue::Sequence(vec![MetaValue::Number("1".into()), s("b")]))]));
    assert_eq!(q.judge(Phase::Exact, &mixed), Verdict::Match);
    let empty = doc_with("empty.md", mapping(vec![("tags", MetaValue::Sequence(vec![]))]));
    assert_eq!(q.judge(Phase::Exact, &empty), Verdict::NoMatch);
    let nested = doc_with("nested.md", mapping(vec![("tags", MetaValue::Sequence(vec![MetaValue::Sequence(vec![s("b")])]))]));
    assert_eq!(q.judge(Phase::Exact, &nested), Verdict::Match);
    // An uncomparable field counts as no match before negation.
    let neg = compile(&["!tags:b"]).unwrap();
    assert_eq!(neg.judge(Phase::Exact, &numbers), Verdict::Match);
    assert_eq!(neg.judge(Phase::Exact, &list), Verdict::NoMatch);
}

#[test]
fn metadata_regex_matches_strings() {
    let q = compile(&["title:/^Wee/"]).unwrap();
    let d = doc_with("w.md", mapping(vec![("title", s("Weekly notes"))]));
    assert_eq!(q.judge(Phase::Exact, &d), Verdict::Match);
    let d = doc_with("w.md", mapping(vec![("title", s("Notes"))]));
    assert_eq!(q.judge(Phase::Exact, &d), Verdict::NoMatch);
}

#[test]
fn verdict_waits_for_metadata_and_reports_failures() {
    let q = compile(&["tag:x"]).unwrap();
    let fresh = DocRead::new("a.md".to_string());
    assert_eq!(q.judge(Phase::Exact, &fresh), Verdict::NeedsMetadata);
    let mut failed = DocRead::new("a.md".to_string());
    failed.record_meta(Err(MetaError::Io("denied".to_string())));
    assert_eq!(q.judge(Phase::Exact, &failed), Verdict::Fault);
}

#[test]
fn failed_metadata_is_passed_on_as_an_error() {
    let q = compile(&["tag:x"]).unwrap();
    let entries = vec![Ok(DocRead::new("a.md".to_string())), Err("walk failed".to_string())];
    let mut sel = Selection::new(q, entries);
    while let Some(i) = sel.advance() {
        sel.supply(i, Err(MetaError::Encoding));
    }
    let r = sel.finish();
    assert_eq!(r.len(), 2);
    match &r[0] {
        Err(SelectFault::Metadata(d)) => assert_eq!(d.meta_state(), &MetaState::Failed(MetaError::Encoding)),
        _ => panic!("expected a metadata fault"),
    }
    assert!(matches!(&r[1], Err(SelectFault::Entry(e)) if e == "walk failed"));
}

#[test]
fn query_errors() {
    let opts = QueryOpts { preset: "weekly".to_string(), criteria: vec![] };
    assert!(matches!(Query::from_opt(&cfg(), &opts), Err(QueryError::UnknownPreset(p)) if p == "weekly"));
    let opts = QueryOpts { preset: String::new(), criteria: vec![] };
    assert!(Query::from_opt(&cfg(), &opts).is_ok());
    assert!(matches!(compile(&["a", "b"]), Err(QueryError::DuplicateSmartName)));
    assert!(matches!(compile(&["/(/"]), Err(QueryError::InvalidRegex(p, _)) if p == "("));
    assert!(matches!(compile(&["k:/[/"]), Err(QueryError::InvalidRegex(p, _)) if p == "["));
    assert!(compile(&["a", "k:v"]).unwrap().has_smart_name());
    assert!(!compile(&["k:v"]).unwrap().has_smart_name());
}

fn docs(n: usize) -> Vec<Result<DocRead, String>> {
    (0..n).map(|i| Ok(DocRead::new(format!("d{}.md", i)))).collect()
}

#[test]
fn select_one_of_nothing_is_empty() {
    assert!(matches!(select_one(docs(0)), Err(SelectOneError::Empty)));
}

#[test]
fn select_one_of_one_is_that_document() {
    let d = select_one(docs(1)).ok().unwrap();
    assert_eq!(d.path(), "d0.md");
}

#[test]
fn select_one_of_two_is_ambiguous() {
    match select_one(docs(2)) {
        Err(SelectOneError::Ambiguous { candidates, truncated }) => {
            assert!(!truncated);
            assert_eq!(candidates.len(), 2);
            assert_eq!(candidates[1].path(), "d1.md");
        }
        _ => panic!("expected ambiguity"),
    }
}

#[test]
fn select_one_lists_at_most_ten() {
    match select_one(docs(12)) {
        Err(SelectOneError::Ambiguous { candidates, truncated }) => {
            assert!(truncated);
            assert_eq!(candidates.len(), 10);
            assert_eq!(candidates[9].path(), "d9.md");
        }
        _ => panic!("expected ambiguity"),
    }
    match select_one(docs(10)) {
        Err(SelectOneError::Ambiguous { candidates, truncated }) => {
            assert!(!truncated);
            assert_eq!(candidates.len(), 10);
        }
        _ => panic!("expected ambiguity"),
    }
    match select_one(docs(11)) {
        Err(SelectOneError::Ambiguous { candidates, truncated }) => {
            assert!(truncated);
            assert_eq!(candidates.len(), 10);
        }
        _ => panic!("expected ambiguity"),
    }
}

#[test]
fn select_one_reports_an_early_error() {
    let mut items = docs(3);
    items[2] = Err("broken".to_string());
    assert!(matches!(select_one(items), Err(SelectOneError::Misc(e)) if e == "broken"));
    let mut items = docs(13);
    items[12] = Err("late".to_string());
    assert!(matches!(select_one(items), Err(SelectOneError::Ambiguous { truncated: true, .. })));
}

#[test]
fn limited_selection_stops_early() {
    let q = compile(&["tag:x"]).unwrap();
    let entries: Vec<Result<DocRead, String>> = (0..20).map(|i| Ok(DocRead::new(format!("d{}.md", i)))).collect();
    let mut sel = Selection::with_limit(q, entries, 11);
    let mut reads = 0;
    while let Some(i) = sel.advance() {
        reads += 1;
        sel.supply(i, Ok(mapping(vec![("tag", s("x"))])));
    }
    assert_eq!(reads, 11);
    let r = sel.finish();
    assert_eq!(r.len(), 11);
    match select_one(r) {
        Err(SelectOneError::Ambiguous { candidates, truncated }) => {
            assert!(truncated);
            assert_eq!(candidates.len(), 10);
        }
        _ => panic!("expected ambiguity"),
    }
}

#[test]
fn limited_prefix_pass() {
    let q = compile(&["fo"]).unwrap();
    let entries: Vec<Result<DocRead, String>> =
        vec![Ok(DocRead::new("foa.md".into())), Ok(DocRead::new("fob.md".into())), Ok(DocRead::new("foc.md".into()))];
    let mut sel = Selection::with_limit(q, entries, 2);
    assert_eq!(sel.advance(), None);
    assert_eq!(paths_of(&sel.finish()), vec!["foa.md", "fob.md"]);
}
