use public_ip::addr::{Addr, SocketAddr};
use public_ip::dns::{self, DnsClass, QueryMethod, RecordData};
use public_ip::http::{self, extract_address, extract_json_ip_field, ExtractMethod};
use public_ip::{Details, Error, Version};

#[test]
fn test_extract_json_ip_field() {
    const VALID: &str = r#"{
            "ip": "123.123.123.123",
        }"#;

    const INVALID: &str = r#"{
            "ipp": "123.123.123.123",
        }"#;

    const VALID_INVALID: &str = r#"{
            "ip": "123.123.123.123",
            "ip": "321.321.321.321",
        }"#;

    assert_eq!(
        extract_json_ip_field(VALID.as_bytes()).unwrap(),
        b"123.123.123.123".to_vec()
    );
    assert_eq!(
        extract_json_ip_field(VALID_INVALID.as_bytes()).unwrap(),
        b"123.123.123.123".to_vec()
    );
    assert!(matches!(
        extract_json_ip_field(INVALID.as_bytes()).unwrap_err(),
        Error::Addr
    ));
}

#[test]
fn extract_address_plain_text() {
    assert_eq!(
        extract_address(b" 203.0.113.5\r\n", ExtractMethod::PlainText).unwrap(),
        Addr::V4(203, 0, 113, 5)
    );
    assert!(matches!(
        extract_address(b"no address here", ExtractMethod::PlainText),
        Err(Error::Addr)
    ));
}

#[test]
fn extract_address_strips_double_quotes() {
    assert_eq!(
        extract_address(b"\"2001:db8::1\"\n", ExtractMethod::StripDoubleQuotes).unwrap(),
        Addr::V6(0x2001, 0x0db8, 0, 0, 0, 0, 0, 1)
    );
}

#[test]
fn extract_address_json_ip_field() {
    let body = br#"{"ip": "198.51.100.7", "country": "ZZ"}"#;
    assert_eq!(
        extract_address(body, ExtractMethod::ExtractJsonIpField).unwrap(),
        Addr::V4(198, 51, 100, 7)
    );
    let bad = br#"{"address": "198.51.100.7"}"#;
    assert!(matches!(
        extract_address(bad, ExtractMethod::ExtractJsonIpField),
        Err(Error::Addr)
    ));
}

#[test]
fn http_plan_accepts_configured_uri() {
    let resolver = http::Resolver::new_static("http://api.ipify.org", ExtractMethod::PlainText);
    assert_eq!(resolver.plan().unwrap(), "http://api.ipify.org".to_string());
}

#[test]
fn http_plan_rejects_invalid_uri() {
    let resolver = http::Resolver::new(String::new(), ExtractMethod::PlainText);
    assert!(matches!(
        resolver.plan(),
        Err(Error::Http(http::Error::Uri(_)))
    ));
}

#[test]
fn http_resolution_from_body_attaches_details() {
    let resolver = http::Resolver::new_static("http://api.ipify.org", ExtractMethod::PlainText);
    let server = SocketAddr {
        ip: Addr::V4(192, 0, 2, 80),
        port: 80,
    };
    match resolver.resolution_from_body(server, b"203.0.113.5") {
        Ok((addr, Details::Http(details))) => {
            assert_eq!(addr, Addr::V4(203, 0, 113, 5));
            assert_eq!(details.uri().as_str(), "http://api.ipify.org");
            assert_eq!(details.server(), server);
            assert!(matches!(details.extract_method(), ExtractMethod::PlainText));
        }
        other => panic!("unexpected resolution: {other:?}"),
    }
    assert!(matches!(
        resolver.resolution_from_body(server, b"<html></html>"),
        Err(Error::Addr)
    ));
}

#[test]
fn dns_parse_response_a_record() {
    let answers = vec![RecordData::A(203, 0, 113, 5)];
    assert_eq!(
        dns::parse_dns_response(&answers, QueryMethod::A).unwrap(),
        Addr::V4(203, 0, 113, 5)
    );
}

#[test]
fn dns_parse_response_aaaa_record() {
    let answers = vec![RecordData::Aaaa(0x2001, 0x0db8, 0, 0, 0, 0, 0, 1)];
    assert_eq!(
        dns::parse_dns_response(&answers, QueryMethod::AAAA).unwrap(),
        Addr::V6(0x2001, 0x0db8, 0, 0, 0, 0, 0, 1)
    );
}

#[test]
fn dns_parse_response_txt_record() {
    let answers = vec![RecordData::Txt(vec![b"198.51.100.7".to_vec()])];
    assert_eq!(
        dns::parse_dns_response(&answers, QueryMethod::TXT).unwrap(),
        Addr::V4(198, 51, 100, 7)
    );
    let empty_txt = vec![RecordData::Txt(Vec::new())];
    assert!(matches!(
        dns::parse_dns_response(&empty_txt, QueryMethod::TXT),
        Err(Error::Addr)
    ));
    let bad_txt = vec![RecordData::Txt(vec![b"not an ip".to_vec()])];
    assert!(matches!(
        dns::parse_dns_response(&bad_txt, QueryMethod::TXT),
        Err(Error::Addr)
    ));
}

#[test]
fn dns_parse_response_no_answers() {
    let answers: Vec<RecordData> = Vec::new();
    assert!(matches!(
        dns::parse_dns_response(&answers, QueryMethod::A),
        Err(Error::Addr)
    ));
}

#[test]
fn dns_parse_response_mismatched_record() {
    let answers = vec![RecordData::A(1, 2, 3, 4)];
    match dns::parse_dns_response(&answers, QueryMethod::TXT) {
        Err(Error::Dns(e)) => assert_eq!(e.message, "invalid response"),
        other => panic!("unexpected result: {other:?}"),
    }
    let other_record = vec![RecordData::Other];
    assert!(matches!(
        dns::parse_dns_response(&other_record, QueryMethod::A),
        Err(Error::Dns(_))
    ));
}

#[test]
fn dns_plan_filters_servers_by_version() {
    let resolver = dns::Resolver::new_static(
        "myip.example",
        &[
            Addr::V4(208, 67, 222, 222),
            Addr::V6(0x2620, 0, 0xccc, 0, 0, 0, 0, 2),
            Addr::V4(208, 67, 220, 220),
        ],
        53,
        QueryMethod::A,
        DnsClass::In,
    );
    let queries = resolver.plan(Version::V4).unwrap();
    assert_eq!(queries.len(), 2);
    assert_eq!(queries[0].server.ip, Addr::V4(208, 67, 222, 222));
    assert_eq!(queries[1].server.ip, Addr::V4(208, 67, 220, 220));
    assert_eq!(queries[0].server.port, 53);
    assert_eq!(queries[0].name, "myip.example");
    assert!(matches!(queries[0].method, QueryMethod::A));
    assert!(matches!(queries[0].class, DnsClass::In));

    let any = resolver.plan(Version::Any).unwrap();
    assert_eq!(any.len(), 3);

    let six_only = resolver.plan(Version::V6).unwrap();
    assert_eq!(six_only.len(), 1);
    assert_eq!(six_only[0].server.ip, Addr::V6(0x2620, 0, 0xccc, 0, 0, 0, 0, 2));
}

#[test]
fn dns_plan_rejects_invalid_name() {
    let long_label = "a".repeat(300);
    let resolver = dns::Resolver::new(
        long_label,
        vec![Addr::V4(208, 67, 222, 222)],
        53,
        QueryMethod::A,
        DnsClass::In,
    );
    match resolver.plan(Version::Any) {
        Err(Error::Dns(e)) => assert_eq!(e.message, "invalid dns name"),
        other => panic!("unexpected plan: {other:?}"),
    }
}

#[test]
fn dns_resolution_from_response_attaches_details() {
    let resolver = dns::Resolver::new_static(
        "myip.example",
        &[Addr::V4(208, 67, 222, 222)],
        53,
        QueryMethod::A,
        DnsClass::In,
    );
    let server = SocketAddr {
        ip: Addr::V4(208, 67, 222, 222),
        port: 53,
    };
    let answers = vec![RecordData::A(203, 0, 113, 5)];
    match resolver.resolution_from_response(server, &answers) {
        Ok((addr, Details::Dns(details))) => {
            assert_eq!(addr, Addr::V4(203, 0, 113, 5));
            assert_eq!(details.name().as_str(), "myip.example");
            assert_eq!(details.server(), server);
            assert!(matches!(details.query_method(), QueryMethod::A));
        }
        other => panic!("unexpected resolution: {other:?}"),
    }
}
