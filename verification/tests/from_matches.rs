use yew_router::from_matches::{required_field, FromMatches, FromMatchesError};
use yew_router::matcher::{CaptureCollection, Captures};

#[allow(unused)]
#[derive(Debug)]
struct TestStruct {
    hello: String,
    there: String,
    general: String,
    kenobi: String,
}

impl FromMatches for TestStruct {
    fn from_matches(matches: &Captures) -> Result<Self, FromMatchesError> {
        Ok(TestStruct {
            hello: required_field(matches, "hello")?,
            there: required_field(matches, "there")?,
            general: required_field(matches, "general")?,
            kenobi: required_field(matches, "kenobi")?,
        })
    }

    fn verify(field_names: &Vec<String>) {
        for name in ["hello", "there", "general", "kenobi"] {
            if !field_names.contains(&name.to_string()) {
                panic!("The struct expected the matches to contain a field named '{}'", name)
            }
        }
    }
}

fn captures(pairs: &[(&str, &str)]) -> Captures {
    let mut c = Captures::new2();
    for (k, v) in pairs {
        c.insert2(k, v.to_string());
    }
    c
}

#[test]
fn underived_verify_impl_is_valid() {
    let names = vec!["hello".to_string(), "there".to_string(), "general".to_string(), "kenobi".to_string()];
    TestStruct::verify(&names);
}

#[test]
#[should_panic]
fn underived_verify_impl_rejects_incomplete_matches() {
    let names = vec!["hello".to_string(), "there".to_string(), "general".to_string()];
    TestStruct::verify(&names);
}

#[test]
fn underived_matches_impl_is_valid() {
    let hm = captures(&[("hello", "You are"), ("there", "a"), ("general", "bold"), ("kenobi", "one")]);
    TestStruct::from_matches(&hm).expect("should generate struct");
}

#[test]
fn underived_matches_rejects_incomplete() {
    let hm = captures(&[("hello", "You are"), ("there", "a"), ("general", "bold")]);
    let e = TestStruct::from_matches(&hm).expect_err("should not generate struct");
    assert_eq!(e, FromMatchesError::MissingField { field_name: "kenobi".to_string() });
    assert_eq!(e.to_string(), "The field: 'kenobi' was not present in your path matcher.");
}

#[test]
fn from_matches_error_texts() {
    assert_eq!(FromMatchesError::UnknownErr.to_string(), "unknown error");
    assert_eq!(FromMatchesError::Error("bad number".to_string()).to_string(), "bad number");
}

#[test]
fn later_insertion_wins() {
    let hm = captures(&[("a", "1"), ("b", "2"), ("a", "3")]);
    assert_eq!(required_field(&hm, "a"), Ok("3".to_string()));
    assert_eq!(hm.get("b"), Some("2".to_string()));
    assert_eq!(hm.get("c"), None);
}

#[test]
fn capture_collections_extend_in_order() {
    let mut v: Vec<(String, String)> = CaptureCollection::new2();
    v.insert2("x", "1".to_string());
    let mut w: Vec<(String, String)> = CaptureCollection::new2();
    w.insert2("y", "2".to_string());
    v.extend2(w);
    assert_eq!(v, vec![("x".to_string(), "1".to_string()), ("y".to_string(), "2".to_string())]);
    let mut c = captures(&[("x", "1")]);
    c.extend2(captures(&[("x", "2")]));
    assert_eq!(c.get("x"), Some("2".to_string()));
}
