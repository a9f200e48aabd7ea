use veisku::cfg::{Criterion, CriterionError, SimpleCriterion};

fn simple(negate: bool, simple_criterion: SimpleCriterion) -> Criterion {
    Criterion::Simple { negate, simple_criterion }
}

#[test]
fn smart_name() {
    assert_eq!(Criterion::parse("foo"), Ok(Criterion::NameSmart("foo".to_string())));
    assert_eq!(Criterion::parse(""), Ok(Criterion::NameSmart(String::new())));
}

#[test]
fn negated_smart_name_is_refused() {
    assert_eq!(Criterion::parse("!foo"), Err(CriterionError::NegatedSmartName));
}

#[test]
fn name_regex() {
    assert_eq!(
        Criterion::parse("/^a.*/"),
        Ok(simple(false, SimpleCriterion::NameRegex("^a.*".to_string())))
    );
    assert_eq!(
        Criterion::parse("!/x/"),
        Ok(simple(true, SimpleCriterion::NameRegex("x".to_string())))
    );
    assert_eq!(Criterion::parse("/"), Ok(Criterion::NameSmart("/".to_string())));
}

#[test]
fn metadata_equality() {
    assert_eq!(
        Criterion::parse("tag:work"),
        Ok(simple(false, SimpleCriterion::MetaEq("tag".to_string(), "work".to_string())))
    );
    assert_eq!(
        Criterion::parse("!tag:work"),
        Ok(simple(true, SimpleCriterion::MetaEq("tag".to_string(), "work".to_string())))
    );
    assert_eq!(
        Criterion::parse("a:b:c"),
        Ok(simple(false, SimpleCriterion::MetaEq("a".to_string(), "b:c".to_string())))
    );
}

#[test]
fn metadata_regex() {
    assert_eq!(
        Criterion::parse("tag:/^w/"),
        Ok(simple(false, SimpleCriterion::MetaRegex("tag".to_string(), "^w".to_string())))
    );
    assert_eq!(
        Criterion::parse("path:/foo/"),
        Ok(simple(false, SimpleCriterion::MetaRegex("path".to_string(), "foo".to_string())))
    );
}

#[test]
fn unsupported_syntax_is_refused() {
    assert_eq!(Criterion::parse("=1+1"), Err(CriterionError::ExpressionSyntax));
    assert_eq!(Criterion::parse("size:>10"), Err(CriterionError::ComparisonSyntax));
    assert_eq!(Criterion::parse("size:<10"), Err(CriterionError::ComparisonSyntax));
    assert_eq!(
        CriterionError::NegatedSmartName.message(),
        "Smart name search cannot be used with negation"
    );
}

#[test]
fn criteria_parse_through_from_str() {
    let c: Criterion = "tag:/^w/".parse().unwrap();
    assert_eq!(c, simple(false, SimpleCriterion::MetaRegex("tag".to_string(), "^w".to_string())));
    assert_eq!("!x".parse::<Criterion>(), Err(CriterionError::NegatedSmartName));
}
