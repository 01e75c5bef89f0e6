use vcf_to_csv::model::Property;
use vcf_to_csv::serialize::{serialize, ExclusionSet};

fn prop(name: &str, value: Option<&str>) -> Property {
    Property::new(name.to_string(), value.map(|v| v.to_string()))
}

fn props(properties: &[(&str, Option<&str>)]) -> Vec<Property> {
    properties.iter().map(|(n, v)| prop(n, *v)).collect()
}

fn read_back(text: &str) -> Vec<(String, String)> {
    let body = &text[1..text.len() - 1];
    if body.is_empty() {
        return Vec::new();
    }
    body.split(", ")
        .map(|piece| {
            let inner = &piece[1..piece.len() - 1];
            let at = inner.find("\":\"").unwrap();
            (inner[..at].to_string(), inner[at + 3..].to_string())
        })
        .collect()
}

#[test]
fn serialize_empty_list_is_braces() {
    assert_eq!(serialize(&Vec::new(), &ExclusionSet::standard()), "{}");
    assert_eq!(serialize(&Vec::new(), &ExclusionSet::new()), "{}");
}

#[test]
fn serialize_fully_excluded_list_is_braces() {
    let list = props(&[("EMAIL", Some("x@y.z")), ("VERSION", Some("3.0")), ("PRODID", Some("p"))]);
    assert_eq!(serialize(&list, &ExclusionSet::standard()), "{}");
}

#[test]
fn serialize_one_entry() {
    let list = props(&[("TEL", Some("123"))]);
    assert_eq!(serialize(&list, &ExclusionSet::standard()), "{\"TEL\":\"123\"}");
}

#[test]
fn serialize_joins_entries_in_order() {
    let list = props(&[("TEL", Some("123")), ("ORG", Some("Acme")), ("NOTE", Some("hi"))]);
    assert_eq!(
        serialize(&list, &ExclusionSet::standard()),
        "{\"TEL\":\"123\", \"ORG\":\"Acme\", \"NOTE\":\"hi\"}"
    );
}

#[test]
fn serialize_skips_valueless_properties() {
    let list = props(&[("TEL", None), ("ORG", Some("Acme")), ("NOTE", None)]);
    assert_eq!(serialize(&list, &ExclusionSet::standard()), "{\"ORG\":\"Acme\"}");
    let only_valueless = props(&[("TEL", None)]);
    assert_eq!(serialize(&only_valueless, &ExclusionSet::new()), "{}");
}

#[test]
fn serialize_same_with_and_without_valueless_properties() {
    let with = props(&[("A", None), ("B", Some("1")), ("C", None), ("D", Some("2")), ("E", None)]);
    let without = props(&[("B", Some("1")), ("D", Some("2"))]);
    let set = ExclusionSet::standard();
    assert_eq!(serialize(&with, &set), serialize(&without, &set));
}

#[test]
fn serialize_skips_excluded_names_anywhere() {
    let list = props(&[
        ("VERSION", Some("3.0")),
        ("TEL", Some("123")),
        ("EMAIL", Some("second@x.org")),
        ("ORG", Some("Acme")),
        ("PRODID", Some("x")),
    ]);
    assert_eq!(
        serialize(&list, &ExclusionSet::standard()),
        "{\"TEL\":\"123\", \"ORG\":\"Acme\"}"
    );
}

#[test]
fn serialize_with_nothing_excluded_keeps_everything_with_a_value() {
    let list = props(&[("EMAIL", Some("x@y.z")), ("VERSION", Some("3.0"))]);
    assert_eq!(
        serialize(&list, &ExclusionSet::new()),
        "{\"EMAIL\":\"x@y.z\", \"VERSION\":\"3.0\"}"
    );
}

#[test]
fn serialize_keeps_empty_value() {
    let list = props(&[("NOTE", Some(""))]);
    assert_eq!(serialize(&list, &ExclusionSet::standard()), "{\"NOTE\":\"\"}");
}

#[test]
fn serialize_does_not_escape() {
    let list = props(&[("NOTE", Some("say \"hi\" \\ bye")), ("ADR", Some("1 Main St, Town"))]);
    assert_eq!(
        serialize(&list, &ExclusionSet::standard()),
        "{\"NOTE\":\"say \"hi\" \\ bye\", \"ADR\":\"1 Main St, Town\"}"
    );
}

#[test]
fn serialize_keeps_duplicate_names() {
    let list = props(&[("TEL", Some("1")), ("TEL", Some("2"))]);
    assert_eq!(serialize(&list, &ExclusionSet::standard()), "{\"TEL\":\"1\", \"TEL\":\"2\"}");
}

#[test]
fn serialize_leaves_the_list_untouched() {
    let list = props(&[("TEL", Some("123")), ("NOTE", None)]);
    let copy = list.clone();
    let _ = serialize(&list, &ExclusionSet::standard());
    assert_eq!(list, copy);
}

#[test]
fn serialize_round_trip() {
    let pairs = [
        ("TEL", "123"),
        ("ORG", "Acme;Sales"),
        ("NOTE", "a,b \"c\":\"d\""),
        ("X-EMPTY", ""),
        ("N", "Doe;Ann;;;"),
    ];
    let list: Vec<Property> = pairs.iter().map(|(n, v)| prop(n, Some(*v))).collect();
    let text = serialize(&list, &ExclusionSet::new());
    let expected: Vec<(String, String)> =
        pairs.iter().map(|(n, v)| (n.to_string(), v.to_string())).collect();
    assert_eq!(read_back(&text), expected);
}

#[test]
fn serialize_round_trip_of_nothing() {
    assert_eq!(read_back(&serialize(&Vec::new(), &ExclusionSet::new())), Vec::new());
}

#[test]
fn serialize_round_trip_breaks_on_separator_in_value() {
    let list = props(&[("ADR", Some("1 Main St, \"Town\":\"x\""))]);
    let text = serialize(&list, &ExclusionSet::new());
    assert_ne!(
        read_back(&text),
        vec![("ADR".to_string(), "1 Main St, \"Town\":\"x\"".to_string())]
    );
}

#[test]
fn exclusion_set_standard_names() {
    let set = ExclusionSet::standard();
    assert!(set.contains("EMAIL"));
    assert!(set.contains("VERSION"));
    assert!(set.contains("PRODID"));
    assert!(!set.contains("FN"));
    assert!(!set.contains("TEL"));
    assert!(!set.contains(""));
}

#[test]
fn exclusion_set_new_is_empty() {
    let set = ExclusionSet::new();
    assert!(!set.contains("EMAIL"));
    assert!(!set.contains(""));
}

#[test]
fn exclusion_set_insert_extends() {
    let mut set = ExclusionSet::standard();
    assert!(!set.contains("PHOTO"));
    set.insert("PHOTO");
    assert!(set.contains("PHOTO"));
    assert!(set.contains("EMAIL"));
    let list = props(&[("PHOTO", Some("data")), ("TEL", Some("123"))]);
    assert_eq!(serialize(&list, &set), "{\"TEL\":\"123\"}");
}

#[test]
fn exclusion_set_compares_names_exactly() {
    let set = ExclusionSet::standard();
    assert!(!set.contains("email"));
    assert!(!set.contains("EMAIL "));
    let list = props(&[("email", Some("x@y.z"))]);
    assert_eq!(serialize(&list, &set), "{\"email\":\"x@y.z\"}");
}
