use daily_report::template::{parse_template_model, template_from_tree, JsonTree};

const SAMPLE: &str = r#"{
  "merges": [[1, 1, 2, 3], [5, 2, 5, 4]],
  "borders": [[3, 4, 0, 1, 2, 258]],
  "texts": [
    {"r": 1, "c": 1, "text": "City of Edmonton", "size": 14, "bold": true, "h": "center"},
    {"r": 6, "c": 1, "text": "Date:", "size": 8.5},
    {"r": 7, "c": 2, "h": "right"}
  ]
}"#;

#[test]
fn template_reads_merges_borders_and_texts() {
    let m = parse_template_model(SAMPLE).unwrap();
    assert_eq!(m.merges, vec![(1, 1, 2, 3), (5, 2, 5, 4)]);
    assert_eq!(m.borders, vec![(3, 4, 0, 1, 2, 2)]);
    assert_eq!(
        m.texts,
        vec![
            (1, 1, "City of Edmonton".to_string(), true, 1),
            (6, 1, "Date:".to_string(), false, 0),
            (7, 2, String::new(), false, 2),
        ]
    );
}

#[test]
fn template_refuses_what_it_cannot_read() {
    assert!(parse_template_model("not json").is_none());
    assert!(parse_template_model("[]").is_none());
    assert!(parse_template_model(r#"{"merges": [], "borders": []}"#).is_none());
    assert!(parse_template_model(r#"{"merges": [[1, 2, 3]], "borders": [], "texts": []}"#).is_none());
    assert!(parse_template_model(r#"{"merges": [[1, 2, 3, 4.5]], "borders": [], "texts": []}"#).is_none());
    assert!(parse_template_model(r#"{"merges": [], "borders": [[1, 1, -1, 0, 0, 0]], "texts": []}"#).is_none());
    assert!(parse_template_model(r#"{"merges": [], "borders": [], "texts": [{"c": 1}]}"#).is_none());
    assert!(
        parse_template_model(r#"{"merges": [], "borders": [], "texts": [{"r": 9223372036854775808, "c": 1}]}"#)
            .is_none()
    );
}

#[test]
fn template_empty_lists() {
    let m = parse_template_model(r#"{"merges": [], "borders": [], "texts": [], "extra": 1}"#).unwrap();
    assert!(m.merges.is_empty() && m.borders.is_empty() && m.texts.is_empty());
    let neg = parse_template_model(r#"{"merges": [[-1, 0, 2, 3]], "borders": [], "texts": []}"#).unwrap();
    assert_eq!(neg.merges, vec![(-1, 0, 2, 3)]);
}

#[test]
fn template_from_a_built_tree() {
    let tree = JsonTree::Object(vec![
        ("merges".to_string(), JsonTree::Array(vec![JsonTree::Array(vec![
            JsonTree::Uint(2),
            JsonTree::Int(-3),
            JsonTree::Uint(4),
            JsonTree::Uint(5),
        ])])),
        ("borders".to_string(), JsonTree::Array(vec![])),
        ("texts".to_string(), JsonTree::Array(vec![JsonTree::Object(vec![
            ("r".to_string(), JsonTree::Uint(1)),
            ("c".to_string(), JsonTree::Uint(2)),
            ("text".to_string(), JsonTree::Str("x".to_string())),
            ("bold".to_string(), JsonTree::Str("yes".to_string())),
        ])])),
    ]);
    let m = template_from_tree(&tree).unwrap();
    assert_eq!(m.merges, vec![(2, -3, 4, 5)]);
    assert_eq!(m.texts, vec![(1, 2, "x".to_string(), false, 0)]);
    assert!(template_from_tree(&JsonTree::Null).is_none());
}
