use dns_batch::error::LookupError;
use dns_batch::record_kind::{parse_record_type, RecordKind};

#[test]
fn case_and_surrounding_whitespace_do_not_count() {
    assert_eq!(parse_record_type("txt"), Ok(RecordKind::TXT));
    assert_eq!(parse_record_type("TXT"), Ok(RecordKind::TXT));
    assert_eq!(parse_record_type(" Txt "), Ok(RecordKind::TXT));
    assert_eq!(parse_record_type("\taAaA\n"), Ok(RecordKind::AAAA));
}

#[test]
fn each_of_the_ten_kinds_is_read_by_its_name() {
    let all = RecordKind::all();
    assert_eq!(
        all,
        vec![
            RecordKind::A,
            RecordKind::AAAA,
            RecordKind::CNAME,
            RecordKind::MX,
            RecordKind::NS,
            RecordKind::PTR,
            RecordKind::SOA,
            RecordKind::SRV,
            RecordKind::TXT,
            RecordKind::CAA,
        ]
    );
    let names = ["A", "AAAA", "CNAME", "MX", "NS", "PTR", "SOA", "SRV", "TXT", "CAA"];
    for (k, name) in all.iter().zip(names.iter()) {
        assert_eq!(k.name(), *name);
        assert_eq!(parse_record_type(name), Ok(*k));
        assert_eq!(parse_record_type(&name.to_lowercase()), Ok(*k));
    }
}

#[test]
fn an_unsupported_kind_is_rejected_with_the_text_as_given() {
    assert_eq!(
        parse_record_type("ZZZ"),
        Err(LookupError::UnsupportedRecordType("ZZZ".to_string()))
    );
    assert_eq!(
        parse_record_type(" zzz "),
        Err(LookupError::UnsupportedRecordType(" zzz ".to_string()))
    );
    for s in ["", " ", "AA", "AAA", "AAAAA", "T XT", "TXT.", "ANY", "DNSKEY", "ſoa", "Ａ"] {
        assert_eq!(
            parse_record_type(s),
            Err(LookupError::UnsupportedRecordType(s.to_string())),
            "{:?}",
            s
        );
    }
}

#[test]
fn unsupported_kind_message_contains_the_text() {
    let e = parse_record_type("ZZZ").unwrap_err();
    assert!(e.message().contains("ZZZ"));
    assert_eq!(e.message(), "Unsupported record type: ZZZ");
    let e = parse_record_type(" zZz ").unwrap_err();
    assert!(e.message().contains(" zZz "));
}
