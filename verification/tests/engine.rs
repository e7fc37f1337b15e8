use public_ip::resolver::{ResolverList, ResultResolver, StaticResolver};
use public_ip::{
    addr_with, addr_with_details, resolve, Addr, Details, Error, FallbackStream, Resolver,
    SocketAddr, Version,
};

fn v4(a: u8, b: u8, c: u8, d: u8) -> Addr {
    Addr::V4(a, b, c, d)
}

fn http_details(uri: &str) -> Details {
    Details::Http(public_ip::http::Details::new(
        uri.to_string(),
        SocketAddr {
            ip: v4(192, 0, 2, 10),
            port: 80,
        },
        public_ip::http::ExtractMethod::PlainText,
    ))
}

fn ok_item(addr: Addr) -> Result<(Addr, Details), Error> {
    Ok((addr, http_details("http://example.invalid")))
}

fn err_item(message: &str) -> Result<(Addr, Details), Error> {
    Err(Error::Other(message.to_string()))
}

#[test]
fn version_matches_partition() {
    let four = v4(203, 0, 113, 5);
    let six = Addr::V6(0x2001, 0x0db8, 0, 0, 0, 0, 0, 1);
    assert!(Version::V4.matches(four));
    assert!(!Version::V4.matches(six));
    assert!(!Version::V6.matches(four));
    assert!(Version::V6.matches(six));
    assert!(Version::Any.matches(four));
    assert!(Version::Any.matches(six));
    assert!(four.is_ipv4() && !four.is_ipv6());
    assert!(six.is_ipv6() && !six.is_ipv4());
}

#[test]
fn empty_resolver_list_yields_nothing() {
    let resolvers: Vec<StaticResolver> = Vec::new();
    let mut stream = resolve(&resolvers, Version::Any);
    assert!(stream.next().is_none());
    assert!(stream.next().is_none());
    assert!(addr_with(&resolvers, Version::Any).is_none());
    assert!(addr_with_details(&resolvers, Version::Any).is_none());
}

#[test]
fn merged_stream_is_concatenation_in_order() {
    let resolvers = vec![
        StaticResolver::new(vec![
            ok_item(v4(192, 0, 2, 1)),
            err_item("first failed"),
            ok_item(v4(192, 0, 2, 2)),
        ]),
        StaticResolver::new(vec![]),
        StaticResolver::new(vec![ok_item(v4(192, 0, 2, 3))]),
    ];
    let mut stream = resolve(&resolvers, Version::Any);
    match stream.next() {
        Some(Ok((addr, _))) => assert_eq!(addr, v4(192, 0, 2, 1)),
        other => panic!("unexpected item: {other:?}"),
    }
    assert!(matches!(stream.next(), Some(Err(Error::Other(_)))));
    match stream.next() {
        Some(Ok((addr, _))) => assert_eq!(addr, v4(192, 0, 2, 2)),
        other => panic!("unexpected item: {other:?}"),
    }
    match stream.next() {
        Some(Ok((addr, _))) => assert_eq!(addr, v4(192, 0, 2, 3)),
        other => panic!("unexpected item: {other:?}"),
    }
    assert!(stream.next().is_none());
}

#[test]
fn nested_lists_flatten_in_order() {
    let inner_a = vec![
        StaticResolver::new(vec![ok_item(v4(192, 0, 2, 1))]),
        StaticResolver::new(vec![ok_item(v4(192, 0, 2, 2))]),
    ];
    let inner_b = vec![StaticResolver::new(vec![ok_item(v4(192, 0, 2, 3))])];
    let nested = vec![inner_a, inner_b];
    let mut stream = resolve(&nested, Version::Any);
    for expected in [v4(192, 0, 2, 1), v4(192, 0, 2, 2), v4(192, 0, 2, 3)] {
        match stream.next() {
            Some(Ok((addr, _))) => assert_eq!(addr, expected),
            other => panic!("unexpected item: {other:?}"),
        }
    }
    assert!(stream.next().is_none());
}

#[test]
fn fallback_stream_pulls_lazily_in_order() {
    let resolvers = vec![
        StaticResolver::new(vec![err_item("a"), err_item("b")]),
        StaticResolver::new(vec![ok_item(v4(198, 51, 100, 7))]),
    ];
    let mut merged = FallbackStream::new(resolvers.as_slice(), Version::Any);
    assert!(matches!(merged.next(), Some(Err(Error::Other(_)))));
    assert!(matches!(merged.next(), Some(Err(Error::Other(_)))));
    match merged.next() {
        Some(Ok((addr, _))) => assert_eq!(addr, v4(198, 51, 100, 7)),
        other => panic!("unexpected item: {other:?}"),
    }
    assert!(merged.next().is_none());
}

#[test]
fn best_effort_skips_failing_resolver() {
    let resolvers = vec![
        StaticResolver::new(vec![err_item("boom"), err_item("boom again")]),
        StaticResolver::new(vec![ok_item(v4(203, 0, 113, 5))]),
    ];
    assert_eq!(addr_with(&resolvers, Version::Any), Some(v4(203, 0, 113, 5)));
}

#[test]
fn best_effort_scenario_error_then_success() {
    let resolvers = vec![
        StaticResolver::new(vec![err_item("strategy failed")]),
        StaticResolver::new(vec![ok_item(v4(203, 0, 113, 5))]),
    ];
    assert_eq!(addr_with(&resolvers, Version::Any), Some(v4(203, 0, 113, 5)));
    let mut stream = resolve(&resolvers, Version::Any);
    assert!(matches!(stream.next(), Some(Err(Error::Other(_)))));
    match stream.next() {
        Some(Ok((addr, details))) => {
            assert_eq!(addr, v4(203, 0, 113, 5));
            assert!(matches!(details, Details::Http(_)));
        }
        other => panic!("unexpected item: {other:?}"),
    }
    assert!(stream.next().is_none());
}

#[test]
fn version_mismatch_is_recorded_not_dropped() {
    let resolvers = vec![StaticResolver::new(vec![ok_item(Addr::V6(
        0x2001, 0x0db8, 0, 0, 0, 0, 0, 1,
    ))])];
    let mut stream = resolve(&resolvers, Version::V4);
    assert!(matches!(stream.next(), Some(Err(Error::Version))));
    assert!(stream.next().is_none());
    assert!(addr_with(&resolvers, Version::V4).is_none());
}

#[test]
fn matching_version_passes_filter() {
    let resolvers = vec![StaticResolver::new(vec![ok_item(v4(203, 0, 113, 5))])];
    let mut stream = resolve(&resolvers, Version::V4);
    assert!(matches!(stream.next(), Some(Ok(_))));
    assert!(stream.next().is_none());
}

#[test]
fn resolve_twice_gives_independent_streams() {
    let resolvers = vec![
        StaticResolver::new(vec![ok_item(v4(192, 0, 2, 1))]),
        StaticResolver::new(vec![ok_item(v4(192, 0, 2, 2))]),
    ];
    let mut first = resolve(&resolvers, Version::Any);
    let mut second = resolve(&resolvers, Version::Any);
    // Drain the first stream completely.
    assert!(first.next().is_some());
    assert!(first.next().is_some());
    assert!(first.next().is_none());
    // The second stream is unaffected and replays the same items.
    match second.next() {
        Some(Ok((addr, _))) => assert_eq!(addr, v4(192, 0, 2, 1)),
        other => panic!("unexpected item: {other:?}"),
    }
    match second.next() {
        Some(Ok((addr, _))) => assert_eq!(addr, v4(192, 0, 2, 2)),
        other => panic!("unexpected item: {other:?}"),
    }
    assert!(second.next().is_none());
}

#[test]
fn result_resolver_wraps_error_as_single_item() {
    let failed: ResultResolver<StaticResolver> =
        ResultResolver::new(Err(Error::Other("could not build".to_string())));
    let mut stream = resolve(&failed, Version::Any);
    assert!(matches!(stream.next(), Some(Err(Error::Other(_)))));
    assert!(stream.next().is_none());
}

#[test]
fn result_resolver_delegates_on_success() {
    let built = ResultResolver::new(Ok(StaticResolver::new(vec![ok_item(v4(198, 51, 100, 9))])));
    assert_eq!(addr_with(&built, Version::Any), Some(v4(198, 51, 100, 9)));
}

#[test]
fn resolver_list_drains_members_in_order() {
    let list = ResolverList::new(vec![
        StaticResolver::new(vec![err_item("no luck")]),
        StaticResolver::new(vec![ok_item(v4(198, 51, 100, 23))]),
    ]);
    let mut stream = list.resolve(Version::Any);
    assert!(matches!(stream.next(), Some(Err(Error::Other(_)))));
    match stream.next() {
        Some(Ok((addr, _))) => assert_eq!(addr, v4(198, 51, 100, 23)),
        other => panic!("unexpected item: {other:?}"),
    }
    assert!(stream.next().is_none());
}

#[test]
fn best_effort_details_kept_for_winner() {
    let resolvers = vec![StaticResolver::new(vec![ok_item(v4(203, 0, 113, 5))])];
    match addr_with_details(&resolvers, Version::Any) {
        Some((addr, Details::Http(details))) => {
            assert_eq!(addr, v4(203, 0, 113, 5));
            assert_eq!(details.uri().as_str(), "http://example.invalid");
        }
        other => panic!("unexpected result: {other:?}"),
    }
}

#[test]
fn error_new_wraps_message() {
    let error = Error::new("something else".to_string());
    assert!(matches!(error, Error::Other(m) if m == "something else"));
}

#[test]
fn error_from_adapter_errors() {
    let dns_error = public_ip::dns::Error::new("dns broke".to_string());
    assert!(matches!(Error::from(dns_error), Error::Dns(_)));
    let http_error = public_ip::http::Error::Hyper("http broke".to_string());
    assert!(matches!(Error::from(http_error), Error::Http(_)));
}
