use dgc_contract::submit::{check_batch_url, check_parsed_url};

#[test]
fn http_url_is_accepted() {
    assert_eq!(check_batch_url("http://dgc-api:9001/batches?wait=120"), Ok(()));
}

#[test]
fn other_scheme_is_refused() {
    assert_eq!(
        check_batch_url("https://dgc-api:9001/batches"),
        Err("Unsupported scheme (https) in URL: https://dgc-api:9001/batches".to_string())
    );
}

#[test]
fn url_without_scheme_is_refused() {
    assert_eq!(
        check_batch_url("/batches"),
        Err("No scheme in URL: /batches".to_string())
    );
}

#[test]
fn unparsable_url_is_refused() {
    let r = check_batch_url("");
    let msg = r.unwrap_err();
    assert!(msg.starts_with("Invalid URL: "));
    assert!(msg.ends_with(": "));
}

#[test]
fn parsed_outcomes_decide() {
    assert_eq!(check_parsed_url("u", Ok(Some("http".to_string()))), Ok(()));
    assert_eq!(
        check_parsed_url("u", Ok(Some("ftp".to_string()))),
        Err("Unsupported scheme (ftp) in URL: u".to_string())
    );
    assert_eq!(check_parsed_url("u", Ok(None)), Err("No scheme in URL: u".to_string()));
    assert_eq!(
        check_parsed_url("u", Err("bad".to_string())),
        Err("Invalid URL: bad: u".to_string())
    );
}

#[test]
fn origin_form_url_has_no_scheme() {
    assert_eq!(check_batch_url("/"), Err("No scheme in URL: /".to_string()));
    assert_eq!(
        check_batch_url("/batches?wait=1"),
        Err("No scheme in URL: /batches?wait=1".to_string())
    );
}
