use dns_batch::address::Ipv4Address;
use dns_batch::error::{LookupError, LookupKind};
use dns_batch::outcome::{
    dns_all_outcome, dns_outcome, record_all_outcome, record_outcome, reverse_dns_outcome,
    Outcome,
};
use dns_batch::protocol::{reverse_dns_query, IpAnswer};

fn strings(items: &[&str]) -> Vec<String> {
    items.iter().map(|s| s.to_string()).collect()
}

#[test]
fn a_failed_lookup_comes_to_null() {
    assert_eq!(Outcome::from_text(Err(LookupError::NotFound(LookupKind::Reverse))), Outcome::Null);
    assert_eq!(
        Outcome::from_text(Err(LookupError::InvalidAddress("x".to_string()))),
        Outcome::Null
    );
    assert_eq!(
        Outcome::from_list(Err(LookupError::ResolutionError(
            LookupKind::Addresses,
            "down".to_string()
        ))),
        Outcome::Null
    );
    assert_eq!(
        Outcome::from_text(Err(LookupError::UnsupportedRecordType("ZZZ".to_string()))),
        Outcome::Null
    );
}

#[test]
fn a_successful_lookup_keeps_its_value() {
    assert_eq!(Outcome::from_text(Ok("a".to_string())), Outcome::Text("a".to_string()));
    assert_eq!(Outcome::from_list(Ok(strings(&["a", "b"]))), Outcome::List(strings(&["a", "b"])));
}

#[test]
fn outcomes_open_to_their_own_kind_only() {
    assert_eq!(Outcome::Text("a".to_string()).into_text(), Some("a".to_string()));
    assert_eq!(Outcome::Text("a".to_string()).into_list(), None);
    assert_eq!(Outcome::List(strings(&["a"])).into_list(), Some(strings(&["a"])));
    assert_eq!(Outcome::List(strings(&["a"])).into_text(), None);
    assert_eq!(Outcome::Null.into_text(), None);
    assert_eq!(Outcome::Null.into_list(), None);
}

#[test]
fn reverse_outcome_has_no_trailing_dot() {
    assert_eq!(
        reverse_dns_outcome(Ok(strings(&["dns.google."]))),
        Outcome::Text("dns.google".to_string())
    );
    assert_eq!(reverse_dns_outcome(Ok(Vec::new())), Outcome::Null);
    assert_eq!(reverse_dns_outcome(Err("failed".to_string())), Outcome::Null);
}

#[test]
fn forward_outcome_is_first_ipv4_or_null() {
    let a = IpAnswer::V4(Ipv4Address { a: 1, b: 2, c: 3, d: 4 });
    assert_eq!(dns_outcome(Ok(vec![IpAnswer::Other, a])), Outcome::Text("1.2.3.4".to_string()));
    assert_eq!(dns_outcome(Ok(vec![IpAnswer::Other])), Outcome::Null);
    assert_eq!(dns_outcome(Err("failed".to_string())), Outcome::Null);
}

#[test]
fn forward_all_with_no_matching_records_is_null_not_an_empty_list() {
    assert_eq!(dns_all_outcome(Ok(Vec::new())), Outcome::Null);
    assert_eq!(dns_all_outcome(Ok(vec![IpAnswer::Other, IpAnswer::Other])), Outcome::Null);
    assert_eq!(record_all_outcome(Ok(Vec::new())), Outcome::Null);
    assert_eq!(dns_all_outcome(Err("failed".to_string())), Outcome::Null);
    assert_eq!(record_all_outcome(Err("failed".to_string())), Outcome::Null);
}

#[test]
fn forward_all_outcome_lists_in_reply_order() {
    let a = IpAnswer::V4(Ipv4Address { a: 9, b: 9, c: 9, d: 9 });
    let b = IpAnswer::V4(Ipv4Address { a: 149, b: 112, c: 112, d: 112 });
    assert_eq!(
        dns_all_outcome(Ok(vec![a, IpAnswer::Other, b])),
        Outcome::List(strings(&["9.9.9.9", "149.112.112.112"]))
    );
    assert_eq!(record_all_outcome(Ok(strings(&["b", "a"]))), Outcome::List(strings(&["b", "a"])));
}

#[test]
fn record_outcome_is_first_record_or_null() {
    assert_eq!(record_outcome(Ok(strings(&["x", "y"]))), Outcome::Text("x".to_string()));
    assert_eq!(record_outcome(Ok(Vec::new())), Outcome::Null);
    assert_eq!(record_outcome(Err("failed".to_string())), Outcome::Null);
}

#[test]
fn the_same_reply_comes_to_the_same_outcome() {
    let reply = || Ok(strings(&["dns.google."]));
    assert_eq!(reverse_dns_outcome(reply()), reverse_dns_outcome(reply()));
    let failed = || Err("timed out".to_string());
    assert_eq!(reverse_dns_outcome(failed()), reverse_dns_outcome(failed()));
    assert_eq!(reverse_dns_outcome(failed()), reverse_dns_outcome(Err("refused".to_string())));
}

#[test]
fn a_text_that_is_no_address_comes_to_null() {
    let outcome = match reverse_dns_query("not-an-ip") {
        Ok(address) => panic!("{:?}", address),
        Err(e) => Outcome::from_text(Err(e)),
    };
    assert_eq!(outcome, Outcome::Null);
}

#[test]
fn a_reverse_lookup_comes_to_a_host_name_without_the_root_dot() {
    assert!(reverse_dns_query("8.8.8.8").is_ok());
    match reverse_dns_outcome(Ok(strings(&["dns.google."]))) {
        Outcome::Text(host) => {
            assert!(!host.is_empty());
            assert!(!host.ends_with('.'));
            assert_eq!(host, "dns.google");
        }
        other => panic!("{:?}", other),
    }
}
