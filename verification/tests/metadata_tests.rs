use note_vault::metadata::{
    finite_bits, number_to_value, parse_frontmatter, title_of, yaml_to_value, MetaValue,
    YamlNumber, YamlValue,
};

fn text(s: &str) -> MetaValue {
    MetaValue::Text(s.to_string())
}

fn entry(key: &str, value: MetaValue) -> (String, MetaValue) {
    (key.to_string(), value)
}

fn ystr(s: &str) -> YamlValue {
    YamlValue::String(s.to_string())
}

fn yint(i: i64) -> YamlValue {
    YamlValue::Number(YamlNumber { integer: Some(i), float_bits: Some((i as f64).to_bits()) })
}

#[test]
fn scalars_carry_over() {
    assert_eq!(yaml_to_value(&YamlValue::Null), MetaValue::Null);
    assert_eq!(yaml_to_value(&YamlValue::Bool(true)), MetaValue::Bool(true));
    assert_eq!(yaml_to_value(&ystr("x")), text("x"));
    assert_eq!(yaml_to_value(&yint(-7)), MetaValue::Int(-7));
}

#[test]
fn integer_wins_over_float() {
    let n = YamlNumber { integer: Some(64), float_bits: Some(64.0f64.to_bits()) };
    assert_eq!(number_to_value(n), MetaValue::Int(64));
}

#[test]
fn finite_float_is_kept_by_its_bits() {
    let n = YamlNumber { integer: None, float_bits: Some(256.5f64.to_bits()) };
    assert_eq!(number_to_value(n), MetaValue::Float(256.5f64.to_bits()));
}

#[test]
fn float_that_is_not_finite_becomes_null() {
    for f in [f64::NAN, f64::INFINITY, f64::NEG_INFINITY] {
        let n = YamlNumber { integer: None, float_bits: Some(f.to_bits()) };
        assert_eq!(number_to_value(n), MetaValue::Null);
    }
    assert_eq!(number_to_value(YamlNumber { integer: None, float_bits: None }), MetaValue::Null);
}

#[test]
fn finite_bits_agree_with_the_float() {
    for f in [0.0f64, -0.0, 1.5, -1.0e308, f64::MAX, f64::MIN_POSITIVE, 5e-324] {
        assert!(finite_bits(f.to_bits()));
        assert!(f.is_finite());
    }
    for f in [f64::NAN, f64::INFINITY, f64::NEG_INFINITY, -f64::NAN] {
        assert!(!finite_bits(f.to_bits()));
    }
}

#[test]
fn sequences_carry_over_in_order() {
    let y = YamlValue::Sequence(vec![yint(1), ystr("two"), YamlValue::Sequence(vec![])]);
    assert_eq!(
        yaml_to_value(&y),
        MetaValue::List(vec![MetaValue::Int(1), text("two"), MetaValue::List(vec![])])
    );
}

#[test]
fn mapping_keeps_string_keys_only() {
    let y = YamlValue::Mapping(vec![
        (ystr("title"), ystr("Alpha")),
        (yint(3), ystr("dropped")),
        (YamlValue::Null, ystr("dropped")),
        (YamlValue::Sequence(vec![]), ystr("dropped")),
        (ystr("n"), yint(1)),
    ]);
    assert_eq!(
        yaml_to_value(&y),
        MetaValue::Mapping(vec![entry("title", text("Alpha")), entry("n", MetaValue::Int(1))])
    );
}

#[test]
fn tagged_value_stands_for_what_is_under_the_tag() {
    let y = YamlValue::Tagged(Box::new(YamlValue::Tagged(Box::new(ystr("inner")))));
    assert_eq!(yaml_to_value(&y), text("inner"));
}

#[test]
fn tagged_string_counts_as_a_key() {
    let y = YamlValue::Mapping(vec![(YamlValue::Tagged(Box::new(ystr("k"))), yint(1))]);
    assert_eq!(yaml_to_value(&y), MetaValue::Mapping(vec![entry("k", MetaValue::Int(1))]));
}

#[test]
fn later_value_replaces_earlier_under_the_same_key() {
    let y = YamlValue::Mapping(vec![
        (ystr("a"), yint(1)),
        (ystr("b"), yint(2)),
        (YamlValue::Tagged(Box::new(ystr("a"))), yint(3)),
    ]);
    assert_eq!(
        yaml_to_value(&y),
        MetaValue::Mapping(vec![entry("a", MetaValue::Int(3)), entry("b", MetaValue::Int(2))])
    );
}

#[test]
fn title_is_the_text_under_title() {
    let v = MetaValue::Mapping(vec![entry("tags", MetaValue::List(vec![])), entry("title", text("X"))]);
    assert_eq!(title_of(&v), Some("X".to_string()));
}

#[test]
fn title_that_is_no_text_is_no_title() {
    let v = MetaValue::Mapping(vec![entry("title", MetaValue::Int(3))]);
    assert_eq!(title_of(&v), None);
    assert_eq!(title_of(&MetaValue::Mapping(vec![])), None);
    assert_eq!(title_of(&text("title")), None);
    assert_eq!(title_of(&MetaValue::List(vec![text("title")])), None);
}

#[test]
fn parses_a_yaml_block() {
    let v = parse_frontmatter("title: \"X\"\ncount: 3\nratio: 0.5\ndone: true\nnone: ~\ntags:\n  - a\n  - b\n");
    assert_eq!(
        v,
        MetaValue::Mapping(vec![
            entry("title", text("X")),
            entry("count", MetaValue::Int(3)),
            entry("ratio", MetaValue::Float(0.5f64.to_bits())),
            entry("done", MetaValue::Bool(true)),
            entry("none", MetaValue::Null),
            entry("tags", MetaValue::List(vec![text("a"), text("b")])),
        ])
    );
}

#[test]
fn parses_numbers_by_kind() {
    let v = parse_frontmatter("a: -5\nb: 18446744073709551615\nc: .inf\nd: .nan\n");
    assert_eq!(
        v,
        MetaValue::Mapping(vec![
            entry("a", MetaValue::Int(-5)),
            entry("b", MetaValue::Float((u64::MAX as f64).to_bits())),
            entry("c", MetaValue::Null),
            entry("d", MetaValue::Null),
        ])
    );
}

#[test]
fn parses_non_string_keys_away() {
    let v = parse_frontmatter("1: one\ntrue: yes\nname: n\n");
    assert_eq!(v, MetaValue::Mapping(vec![entry("name", text("n"))]));
}

#[test]
fn parses_tagged_values() {
    let v = parse_frontmatter("title: !special Tagged\n");
    assert_eq!(v, MetaValue::Mapping(vec![entry("title", text("Tagged"))]));
}

#[test]
fn invalid_yaml_is_an_empty_mapping() {
    assert_eq!(parse_frontmatter("title: [unclosed"), MetaValue::Mapping(vec![]));
    assert_eq!(parse_frontmatter("a: b: c: d"), MetaValue::Mapping(vec![]));
}

#[test]
fn yaml_that_is_no_mapping_is_kept_as_it_is() {
    assert_eq!(parse_frontmatter("just text"), text("just text"));
    assert_eq!(parse_frontmatter("- 1\n- 2"), MetaValue::List(vec![MetaValue::Int(1), MetaValue::Int(2)]));
    assert_eq!(parse_frontmatter(""), MetaValue::Null);
}
