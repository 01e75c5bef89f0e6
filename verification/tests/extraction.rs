use vcf_to_csv::extract::{get_property_and_remove, Extraction};
use vcf_to_csv::model::{Contact, Property};

fn prop(name: &str, value: Option<&str>) -> Property {
    Property::new(name.to_string(), value.map(|v| v.to_string()))
}

fn contact(properties: &[(&str, Option<&str>)]) -> Contact {
    Contact::new(properties.iter().map(|(n, v)| prop(n, *v)).collect())
}

#[test]
fn property_keeps_name_and_value() {
    let p = prop("TEL", Some("123"));
    assert_eq!(p.name(), "TEL");
    assert_eq!(p.value(), Some("123"));
    assert_eq!(p.name, "TEL");
    assert_eq!(p.value, Some("123".to_string()));
}

#[test]
fn property_without_value_is_legal() {
    let p = prop("NOTE", None);
    assert_eq!(p.name(), "NOTE");
    assert_eq!(p.value(), None);
}

#[test]
fn property_clone_is_equal_and_independent() {
    let p = prop("TEL", Some("123"));
    let mut q = p.clone();
    assert_eq!(p, q);
    q.value = None;
    assert_eq!(p.value(), Some("123"));
}

#[test]
fn contact_keeps_insertion_order() {
    let c = contact(&[("B", Some("2")), ("A", Some("1")), ("B", Some("3"))]);
    assert_eq!(c.len(), 3);
    let names: Vec<&str> = c.properties.iter().map(|p| p.name()).collect();
    assert_eq!(names, vec!["B", "A", "B"]);
}

#[test]
fn extract_returns_value_and_removes_property() {
    let mut c = contact(&[("EMAIL", Some("a@b.com")), ("FN", Some("Ann")), ("TEL", Some("123"))]);
    assert_eq!(c.extract("FN"), Extraction::Value("Ann".to_string()));
    assert_eq!(c, contact(&[("EMAIL", Some("a@b.com")), ("TEL", Some("123"))]));
}

#[test]
fn extract_takes_only_the_first_match() {
    let mut c = contact(&[
        ("TEL", Some("1")),
        ("EMAIL", Some("first@x.org")),
        ("EMAIL", Some("second@x.org")),
    ]);
    assert_eq!(c.extract("EMAIL"), Extraction::Value("first@x.org".to_string()));
    assert_eq!(c, contact(&[("TEL", Some("1")), ("EMAIL", Some("second@x.org"))]));
    assert_eq!(c.extract("EMAIL"), Extraction::Value("second@x.org".to_string()));
    assert_eq!(c.extract("EMAIL"), Extraction::NotFound);
}

#[test]
fn extract_present_without_value_is_no_value_and_is_removed() {
    let mut c = contact(&[("FN", None), ("FN", Some("Ann"))]);
    assert_eq!(c.extract("FN"), Extraction::NoValue);
    assert_eq!(c, contact(&[("FN", Some("Ann"))]));
}

#[test]
fn extract_absent_is_not_found_and_leaves_contact_alone() {
    let mut c = contact(&[("EMAIL", Some("a@b.com")), ("TEL", Some("123"))]);
    assert_eq!(c.extract("FN"), Extraction::NotFound);
    assert_eq!(c, contact(&[("EMAIL", Some("a@b.com")), ("TEL", Some("123"))]));
}

#[test]
fn extract_from_empty_contact_is_not_found() {
    let mut c = contact(&[]);
    assert_eq!(c.extract("EMAIL"), Extraction::NotFound);
    assert_eq!(c.len(), 0);
}

#[test]
fn extract_compares_names_exactly() {
    let mut c = contact(&[("email", Some("lower@x.org")), ("EMAIL ", Some("space@x.org"))]);
    assert_eq!(c.extract("EMAIL"), Extraction::NotFound);
    assert_eq!(c.len(), 2);
    assert_eq!(c.extract("email"), Extraction::Value("lower@x.org".to_string()));
}

#[test]
fn extract_twice_leaves_neither_entry() {
    let mut c = contact(&[
        ("VERSION", Some("3.0")),
        ("FN", Some("Ann")),
        ("TEL", Some("123")),
        ("EMAIL", Some("a@b.com")),
        ("NOTE", Some("hi")),
    ]);
    assert_eq!(c.extract("EMAIL"), Extraction::Value("a@b.com".to_string()));
    assert_eq!(c.extract("FN"), Extraction::Value("Ann".to_string()));
    assert_eq!(
        c,
        contact(&[("VERSION", Some("3.0")), ("TEL", Some("123")), ("NOTE", Some("hi"))])
    );
    assert!(c.properties.iter().all(|p| p.name() != "EMAIL" && p.name() != "FN"));
}

#[test]
fn extract_twice_keeps_later_duplicates() {
    let mut c = contact(&[
        ("EMAIL", Some("a@b.com")),
        ("FN", Some("Ann")),
        ("EMAIL", Some("other@b.com")),
        ("FN", Some("Annie")),
    ]);
    assert_eq!(c.extract("EMAIL"), Extraction::Value("a@b.com".to_string()));
    assert_eq!(c.extract("FN"), Extraction::Value("Ann".to_string()));
    assert_eq!(c, contact(&[("EMAIL", Some("other@b.com")), ("FN", Some("Annie"))]));
}

#[test]
fn get_property_and_remove_returns_the_value() {
    let mut c = contact(&[("EMAIL", Some("a@b.com")), ("FN", Some("Ann"))]);
    assert_eq!(
        get_property_and_remove(&mut c, "EMAIL"),
        Extraction::Value("a@b.com".to_string())
    );
    assert_eq!(c, contact(&[("FN", Some("Ann"))]));
}

#[test]
fn get_property_and_remove_says_no_value_and_still_removes() {
    let mut c = contact(&[("EMAIL", None), ("TEL", Some("1")), ("EMAIL", Some("c@d.com"))]);
    assert_eq!(get_property_and_remove(&mut c, "EMAIL"), Extraction::NoValue);
    assert_eq!(c, contact(&[("TEL", Some("1")), ("EMAIL", Some("c@d.com"))]));
}

#[test]
fn get_property_and_remove_says_not_found_for_absent() {
    let mut c = contact(&[("FN", Some("Ann"))]);
    assert_eq!(get_property_and_remove(&mut c, "EMAIL"), Extraction::NotFound);
    assert_eq!(c, contact(&[("FN", Some("Ann"))]));
}

#[test]
fn get_property_and_remove_tells_no_value_from_not_found() {
    let mut valueless = contact(&[("EMAIL", None)]);
    let mut absent = contact(&[("TEL", Some("1"))]);
    assert_ne!(
        get_property_and_remove(&mut valueless, "EMAIL"),
        get_property_and_remove(&mut absent, "EMAIL")
    );
}
