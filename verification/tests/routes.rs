use dgc_contract::routes::agents::{LoginAgent, LoginAgentData, NewAgent, NewAgentData};
use dgc_contract::routes::transactions::{batch_response_status, StatusQuery, TxnQuery};
use std::collections::HashMap;
use validator::{ValidationError, ValidationErrors};

fn codes(errors: ValidationErrors) -> HashMap<&'static str, Vec<String>> {
    errors
        .field_errors()
        .into_iter()
        .map(|(k, v)| (k, v.into_iter().map(|e| e.code.to_string()).collect()))
        .collect()
}

fn s(x: &str) -> Option<String> {
    Some(x.to_string())
}

#[test]
fn new_agent_with_all_fields() {
    let req = NewAgent {
        agent: NewAgentData {
            private_key: s("key"),
            org_id: s("org"),
            roles: s("admin"),
            metadata: s("{}"),
        },
    };
    let f = req.extract_fields(Ok(())).ok().unwrap();
    assert_eq!(f.org_id, "org");
    assert_eq!(f.roles, "admin");
    assert_eq!(f.metadata, "{}");
    assert_eq!(f.private_key, "key");
}

#[test]
fn new_agent_missing_fields_are_each_blank() {
    let req = NewAgent {
        agent: NewAgentData { private_key: None, org_id: s("org"), roles: None, metadata: s("m") },
    };
    let e = req.extract_fields(Ok(())).err().unwrap();
    let c = codes(e.into_validation_errors());
    assert_eq!(c.len(), 2);
    assert_eq!(c["roles"], vec!["can't be blank"]);
    assert_eq!(c["private_key"], vec!["can't be blank"]);
}

#[test]
fn new_agent_failed_validation_fails() {
    let req = NewAgent {
        agent: NewAgentData { private_key: s("k"), org_id: s("o"), roles: s("r"), metadata: s("m") },
    };
    let mut errs = ValidationErrors::new();
    errs.add("org_id", ValidationError::new("length"));
    let c = codes(req.extract_fields(Err(errs)).err().unwrap().into_validation_errors());
    assert_eq!(c.len(), 1);
    assert_eq!(c["org_id"], vec!["length"]);
}

#[test]
fn login_with_both_fields() {
    let req = LoginAgent { agent: LoginAgentData { email: s("a@b.c"), password: s("pw") } };
    let (email, password) = req.extract_credentials().ok().unwrap();
    assert_eq!(email, "a@b.c");
    assert_eq!(password, "pw");
}

#[test]
fn login_missing_password() {
    let req = LoginAgent { agent: LoginAgentData { email: s("a@b.c"), password: None } };
    let c = codes(req.extract_credentials().err().unwrap().into_validation_errors());
    assert_eq!(c.len(), 1);
    assert_eq!(c["password"], vec!["can't be blank"]);
}

#[test]
fn login_missing_both() {
    let req = LoginAgent { agent: LoginAgentData { email: None, password: None } };
    let c = codes(req.extract_credentials().err().unwrap().into_validation_errors());
    assert_eq!(c.len(), 2);
}

#[test]
fn status_query_wait_default() {
    let q = StatusQuery { wait: None, ids: "a".to_string() };
    assert_eq!(q.wait_or_default(), 0);
    let q = StatusQuery { wait: Some(30), ids: "a".to_string() };
    assert_eq!(q.wait_or_default(), 30);
    let t = TxnQuery { wait: 5 };
    assert_eq!(t.wait, 5);
}

#[test]
fn status_query_ids_split_like_str_split() {
    for ids in ["abc,def,ghi", "", ",", "a,,b", "single", "x,", ",y", "\u{e9},\u{e0}"] {
        let q = StatusQuery { wait: None, ids: ids.to_string() };
        let expected: Vec<String> = ids.split(',').map(String::from).collect();
        assert_eq!(q.batch_ids(), expected);
    }
}

#[test]
fn status_query_ids_join_back() {
    let q = StatusQuery { wait: Some(1), ids: "1,2,,3".to_string() };
    assert_eq!(q.batch_ids().join(","), "1,2,,3");
}

#[test]
fn response_status_all_committed() {
    let v = vec!["COMMITTED".to_string(), "COMMITTED".to_string()];
    assert_eq!(batch_response_status(&v), 201);
    assert_eq!(batch_response_status(&vec![]), 201);
}

#[test]
fn response_status_some_pending() {
    let v = vec!["COMMITTED".to_string(), "PENDING".to_string()];
    assert_eq!(batch_response_status(&v), 202);
    assert_eq!(batch_response_status(&vec!["committed".to_string()]), 202);
}
