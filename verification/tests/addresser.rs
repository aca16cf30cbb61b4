use dgc_contract::addresser::{
    byte_to_resource, bytes_to_hex_str, compute_address, compute_agent_address,
    compute_org_address, resource_to_byte, Resource, ResourceError,
};

#[test]
fn resource_codes() {
    assert_eq!(resource_to_byte(Resource::AGENT), "00");
    assert_eq!(resource_to_byte(Resource::ORG), "01");
}

#[test]
fn byte_to_resource_reads_known_codes() {
    assert_eq!(byte_to_resource("00").unwrap(), Resource::AGENT);
    assert_eq!(byte_to_resource("01").unwrap(), Resource::ORG);
}

#[test]
fn resource_code_roundtrip() {
    for r in [Resource::AGENT, Resource::ORG] {
        assert_eq!(byte_to_resource(&resource_to_byte(r)).unwrap(), r);
    }
}

#[test]
fn byte_to_resource_rejects_unknown_codes() {
    for bad in ["02", "0", "000", "", "10", "ff", "0\u{e9}"] {
        match byte_to_resource(bad) {
            Err(ResourceError::UnknownResource(msg)) => assert_eq!(
                msg,
                format!("No resource found matching byte pattern {}", bad)
            ),
            Ok(r) => panic!("{:?} accepted as {:?}", bad, r),
        }
    }
}

#[test]
fn hex_of_bytes_is_lowercase_two_digits_per_byte() {
    assert_eq!(bytes_to_hex_str(&[]), "");
    assert_eq!(bytes_to_hex_str(&[0x00, 0x0f, 0x10, 0xab, 0xff]), "000f10abff");
    assert_eq!(bytes_to_hex_str(&[9, 10]), "090a");
}

#[test]
fn agent_address_of_known_name() {
    assert_eq!(
        compute_agent_address("alice"),
        "cad11d00408b27d3097eea5a46bf2ab6433a7234a33d5e49957b13ec7acc2ca08e1a13"
    );
}

#[test]
fn org_address_of_known_id() {
    assert_eq!(
        compute_org_address("org-42"),
        "cad11d017111ac12e8637d0d539babaec39a1d0b4c7516785a6147f62d6748388fe76d"
    );
}

#[test]
fn address_of_empty_and_non_ascii_names() {
    assert_eq!(
        compute_address("", Resource::AGENT),
        "cad11d00cf83e1357eefb8bdf1542850d66d8007d620e4050b5715dc83f4a921d36ce9"
    );
    assert_eq!(
        compute_address("\u{e9}t\u{e9}", Resource::ORG),
        "cad11d018a2b62049eb520e04016c6daa5f104275f314855c5d777d67f34ca6b8acbe2"
    );
}

#[test]
fn compute_address_agrees_with_typed_addresses() {
    for name in ["alice", "", "org-42", "\u{e9}t\u{e9}", "a much longer agent name 0123456789"] {
        assert_eq!(compute_address(name, Resource::AGENT), compute_agent_address(name));
        assert_eq!(compute_address(name, Resource::ORG), compute_org_address(name));
    }
}

#[test]
fn address_layout() {
    for (name, r, code) in [("bob", Resource::AGENT, "00"), ("bob", Resource::ORG, "01")] {
        let a = compute_address(name, r);
        assert_eq!(a.len(), 70);
        assert!(a.starts_with("cad11d"));
        assert_eq!(&a[6..8], code);
        assert_eq!(byte_to_resource(&a[6..8]).unwrap(), r);
        assert!(a[8..].chars().all(|c| c.is_ascii_digit() || ('a'..='f').contains(&c)));
    }
}

#[test]
fn agent_and_org_addresses_differ() {
    assert_ne!(compute_agent_address("same"), compute_org_address("same"));
}
