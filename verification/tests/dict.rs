use mdbook_althtml::dict::DictValue;
use mdbook_althtml::post_processor::hbs_processor::HbsProcessor;

fn st(x: &str) -> String {
    x.to_string()
}

fn obj(entries: Vec<(&str, DictValue)>) -> DictValue {
    DictValue::Obj(entries.into_iter().map(|(k, v)| (st(k), v)).collect())
}

fn sv(x: &str) -> DictValue {
    DictValue::Str(st(x))
}

#[test]
fn test_merge() {
    let mut processor = HbsProcessor::default();
    processor.merge(&obj(vec![]));
    // blank + blank = blank
    assert_eq!(processor.dict, obj(vec![]));
    processor.merge(&obj(vec![("a", sv("1"))]));
    // add kv
    assert_eq!(processor.dict, obj(vec![("a", sv("1"))]));
    processor.merge(&obj(vec![("b", sv("2"))]));
    // add kv to existing dict
    assert_eq!(processor.dict, obj(vec![("a", sv("1")), ("b", sv("2"))]));
    processor.merge(&obj(vec![("t", obj(vec![("c", sv("3"))]))]));
    // add nested kv
    assert_eq!(
        processor.dict,
        obj(vec![("a", sv("1")), ("b", sv("2")), ("t", obj(vec![("c", sv("3"))]))])
    );
    processor.merge(&obj(vec![("t", obj(vec![("c", sv("4"))]))]));
    // override nested kv
    assert_eq!(
        processor.dict,
        obj(vec![("a", sv("1")), ("b", sv("2")), ("t", obj(vec![("c", sv("4"))]))])
    );
}

#[test]
fn test_add_rule() {
    let mut processor = HbsProcessor::default();
    assert!(processor.add_rule("hoge", "fuga").is_ok());
    assert_eq!(processor.dict, obj(vec![("hoge", sv("fuga"))]));
    assert!(processor.add_rule("foo", "bar").is_ok());
    assert_eq!(processor.dict, obj(vec![("hoge", sv("fuga")), ("foo", sv("bar"))]));
}

#[test]
fn add_rule_rejects_reserved_keys() {
    let mut processor = HbsProcessor::default();
    assert!(processor.add_rule("a.b", "x").is_err());
    assert!(processor.add_rule("a b", "x").is_err());
    assert!(processor.add_rule("a\tb", "x").is_err());
    assert!(processor.add_rule("a\nb", "x").is_err());
    // a rejected key leaves the dictionary untouched
    assert_eq!(processor.dict, obj(vec![]));
}

#[test]
fn merge_blank_into_existing_keeps_it() {
    let mut processor = HbsProcessor::default();
    processor.merge(&obj(vec![("a", DictValue::Int(1))]));
    processor.merge(&obj(vec![]));
    assert_eq!(processor.dict, obj(vec![("a", DictValue::Int(1))]));
}

#[test]
fn merge_nested_leaf_rightmost_wins() {
    let mut processor = HbsProcessor::default();
    processor.merge(&obj(vec![("a", obj(vec![("c", DictValue::Int(3))]))]));
    processor.merge(&obj(vec![("a", obj(vec![("c", DictValue::Int(4))]))]));
    assert_eq!(processor.dict, obj(vec![("a", obj(vec![("c", DictValue::Int(4))]))]));
}

#[test]
fn merge_preserves_untouched_siblings() {
    let mut processor = HbsProcessor::default();
    processor.merge(&obj(vec![("a", DictValue::Int(1)), ("b", DictValue::Int(2))]));
    processor.merge(&obj(vec![("t", obj(vec![("c", DictValue::Int(3))]))]));
    processor.merge(&obj(vec![("t", obj(vec![("c", DictValue::Int(4))]))]));
    assert_eq!(
        processor.dict,
        obj(vec![
            ("a", DictValue::Int(1)),
            ("b", DictValue::Int(2)),
            ("t", obj(vec![("c", DictValue::Int(4))]))
        ])
    );
}

#[test]
fn set_rules_then_look_up_in_any_order() {
    let mut processor = HbsProcessor::default();
    assert!(processor.add_rule("a", "1").is_ok());
    assert!(processor.add_rule("foo", "bar").is_ok());
    assert_eq!(processor.get_rule(&st("foo")), Some(&sv("bar")));
    assert_eq!(processor.get_rule(&st("a")), Some(&sv("1")));
    assert_eq!(processor.get_rule(&st("missing")), None);
    assert_eq!(processor.dict, obj(vec![("a", sv("1")), ("foo", sv("bar"))]));
}

#[test]
fn merge_terminal_replaces_nested_dictionary() {
    let mut processor = HbsProcessor::default();
    processor.merge(&obj(vec![("a", obj(vec![("c", DictValue::Int(3))]))]));
    processor.merge(&obj(vec![("a", DictValue::Bool(true))]));
    assert_eq!(processor.dict, obj(vec![("a", DictValue::Bool(true))]));
}
