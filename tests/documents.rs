use veisku::doc::{DocRead, MetaError, MetaState};
use veisku::meta::{MetaOp, MetaValue};

#[test]
fn stem_of_a_path() {
    let d = DocRead::new("/notes/2020/foo.md".to_string());
    assert_eq!(d.stem(), Some("foo"));
    assert_eq!(d.path(), "/notes/2020/foo.md");
    assert_eq!(DocRead::new("/notes/.hidden".to_string()).stem(), Some(".hidden"));
    assert_eq!(DocRead::new("a.tar.gz".to_string()).stem(), Some("a.tar"));
    assert_eq!(DocRead::new("/".to_string()).stem(), None);
}

#[test]
fn metadata_is_recorded_once() {
    let mut d = DocRead::new("a.md".to_string());
    assert!(d.needs_meta());
    assert!(d.meta().is_none());
    d.record_meta(Ok(MetaValue::Str("first".to_string())));
    assert!(!d.needs_meta());
    d.record_meta(Ok(MetaValue::Str("second".to_string())));
    assert_eq!(d.meta().unwrap().ok(), Some(&MetaValue::Str("first".to_string())));
    assert_eq!(d.meta().unwrap().ok(), Some(&MetaValue::Str("first".to_string())));
    d.record_meta(Err(MetaError::Encoding));
    assert_eq!(d.meta_state(), &MetaState::Fetched(MetaValue::Str("first".to_string())));
}

#[test]
fn failure_is_recorded_once_too() {
    let mut d = DocRead::new("a.md".to_string());
    d.record_meta(Err(MetaError::Syntax("bad".to_string())));
    d.record_meta(Ok(MetaValue::Null));
    assert_eq!(d.meta_state(), &MetaState::Failed(MetaError::Syntax("bad".to_string())));
}

#[test]
fn field_lookup() {
    let m = MetaValue::Mapping(vec![
        (MetaValue::Number("1".to_string()), MetaValue::Str("number key".to_string())),
        (MetaValue::Str("title".to_string()), MetaValue::Str("T".to_string())),
    ]);
    assert_eq!(m.field("title"), &MetaValue::Str("T".to_string()));
    assert_eq!(m.field("1"), &MetaValue::Null);
    assert_eq!(m.field("other"), &MetaValue::Null);
    assert_eq!(MetaValue::Str("x".to_string()).field("title"), &MetaValue::Null);
}

#[test]
fn comparison_outcomes() {
    let eq = MetaOp::Eq("b".to_string());
    assert_eq!(eq.matches(&MetaValue::Null), Some(false));
    assert_eq!(eq.matches(&MetaValue::Str("b".to_string())), Some(true));
    assert_eq!(eq.matches(&MetaValue::Str("bb".to_string())), Some(false));
    assert_eq!(eq.matches(&MetaValue::Bool(true)), None);
    assert_eq!(eq.matches(&MetaValue::Sequence(vec![])), Some(false));
    assert_eq!(eq.matches(&MetaValue::Sequence(vec![MetaValue::Bool(true)])), None);
    assert_eq!(
        eq.matches(&MetaValue::Sequence(vec![MetaValue::Bool(true), MetaValue::Str("a".to_string())])),
        Some(false)
    );
    assert_eq!(eq.matches(&MetaValue::Mapping(vec![])), None);
}
