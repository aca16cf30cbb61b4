use dgc_contract::permission::has_permission;

#[test]
fn proposal_creation_role_grants_permission() {
    let roles = vec!["admin".to_string(), "proposal_creation".to_string()];
    assert!(has_permission(&roles));
}

#[test]
fn other_roles_do_not() {
    assert!(!has_permission(&vec![]));
    assert!(!has_permission(&vec!["admin".to_string(), "proposal".to_string()]));
}
