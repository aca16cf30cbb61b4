use dgc_contract::errors::{Errors, FieldValidator};
use std::collections::HashMap;
use validator::{ValidationError, ValidationErrors};

fn codes(errors: ValidationErrors) -> HashMap<&'static str, Vec<String>> {
    errors
        .field_errors()
        .into_iter()
        .map(|(k, v)| (k, v.into_iter().map(|e| e.code.to_string()).collect()))
        .collect()
}

#[test]
fn errors_new_records_each_pair_in_order() {
    let e = Errors::new(&[("email", "is invalid"), ("name", "too short"), ("email", "taken")]);
    let c = codes(e.into_validation_errors());
    assert_eq!(c.len(), 2);
    assert_eq!(c["email"], vec!["is invalid", "taken"]);
    assert_eq!(c["name"], vec!["too short"]);
}

#[test]
fn errors_new_of_nothing_is_empty() {
    assert!(Errors::new(&[]).into_validation_errors().is_empty());
}

#[test]
fn default_validator_checks_ok() {
    assert!(FieldValidator::default().check().is_ok());
}

#[test]
fn extract_given_value_records_nothing() {
    let mut v = FieldValidator::default();
    let x: String = v.extract("name", Some("bob".to_string()));
    assert_eq!(x, "bob");
    assert!(v.check().is_ok());
}

#[test]
fn extract_missing_value_records_blank() {
    let mut v = FieldValidator::default();
    let x: String = v.extract("name", None);
    assert_eq!(x, "");
    let n: u32 = v.extract("age", None);
    assert_eq!(n, 0);
    let c = codes(v.check().unwrap_err().into_validation_errors());
    assert_eq!(c["name"], vec!["can't be blank"]);
    assert_eq!(c["age"], vec!["can't be blank"]);
}

#[test]
fn validate_keeps_model_errors() {
    let mut model_errors = ValidationErrors::new();
    model_errors.add("email", ValidationError::new("email"));
    let mut v = FieldValidator::validate(Err(model_errors));
    let _: String = v.extract("email", None);
    let c = codes(v.check().unwrap_err().into_validation_errors());
    assert_eq!(c["email"], vec!["email", "can't be blank"]);
}

#[test]
fn validate_of_valid_model_checks_ok() {
    assert!(FieldValidator::validate(Ok(())).check().is_ok());
}

#[test]
fn extract_given_value_on_nested_field_leaves_errors_alone() {
    let mut child = ValidationErrors::new();
    child.add("inner", ValidationError::new("length"));
    let nested = ValidationErrors::merge(Ok(()), "org_id", Err(child)).unwrap_err();
    let mut v = FieldValidator::validate(Err(nested));
    let x: String = v.extract("org_id", Some("org".to_string()));
    assert_eq!(x, "org");
    let errors = v.check().unwrap_err().into_validation_errors();
    assert!(codes(errors.clone()).is_empty());
    assert_eq!(errors.errors().len(), 1);
}

#[test]
fn default_then_extracts_records_exactly_the_missing_fields() {
    let mut v = FieldValidator::default();
    let _: String = v.extract("a", Some("1".to_string()));
    let _: String = v.extract("b", None);
    let _: String = v.extract("c", Some("3".to_string()));
    let _: String = v.extract("d", None);
    let c = codes(v.check().unwrap_err().into_validation_errors());
    assert_eq!(c.len(), 2);
    assert_eq!(c["b"], vec!["can't be blank"]);
    assert_eq!(c["d"], vec!["can't be blank"]);

    let mut v = FieldValidator::default();
    let _: String = v.extract("a", Some("1".to_string()));
    let _: String = v.extract("b", Some("2".to_string()));
    assert!(v.check().is_ok());
}
