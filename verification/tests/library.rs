use nftblockd::blocklist::BlockList;
use nftblockd::custom_set::CustomSet;
use nftblockd::error::{AppError, AppErrorKind};
use nftblockd::network::{Ipv4Net, Ipv6Net, ListNetwork};
use nftblockd::retry::{RetryDecision, RetryPolicy};
use nftblockd::nftables::builder::{
    NftRulesetBuilder, PrefixExpr, RulesetObject, Verdict,
};
use nftblockd::nftables::config::NftConfig;
use nftblockd::subnet::{parse_from_string, validate_subnets, SubnetList};
use nftblockd::text::u8_to_dec;

fn sample_config() -> NftConfig {
    let anti = CustomSet::new(
        "anti_lockout_set".to_string(),
        Some(vec!["192.168.1.0/24".to_string()]),
        None,
    )
    .unwrap();
    let custom = CustomSet::new("custom_blocklist_set".to_string(), None, None).unwrap();
    NftConfig {
        table_name: "nftblockd".to_string(),
        prerouting_chain: "prerouting".to_string(),
        postrouting_chain: "postrouting".to_string(),
        blocklist_set_name: "blocklist_set".to_string(),
        anti_lockout_set: anti,
        custom_blocklist_set: custom,
    }
}

#[test]
fn test_strict_mode_fails_fast_on_misaligned_entry() {
    let raw = vec!["10.0.0.0/8".to_string(), "10.0.0.5/24".to_string()];

    let err = validate_subnets::<Ipv4Net>(&raw, true).unwrap_err();
    assert_eq!(
        err,
        AppError::new(
            AppErrorKind::ParseError,
            "invalid ip: 10.0.0.5/24; not a network"
        )
    );

    let kept = validate_subnets::<Ipv4Net>(&raw, false).unwrap().unwrap();
    assert_eq!(kept, vec![Ipv4Net::parse("10.0.0.0/8").unwrap()]);
}

#[test]
fn test_lenient_mode_with_no_survivors_yields_none() {
    let raw = vec!["foo".to_string(), "300.1.1.1/8".to_string()];
    let kept = validate_subnets::<Ipv4Net>(&raw, false).unwrap();
    assert!(kept.is_none());
}

#[test]
fn test_validate_blocklist_keeps_family() {
    let list = SubnetList::IPv6(vec!["2001:db8::/32".to_string()]);
    let validated = list.validate_blocklist(true).unwrap();
    let deduped = validated.deduplicate().unwrap();
    let elems = deduped.transform_to_nft_expressions().get_elements().unwrap();
    assert_eq!(
        elems,
        vec![PrefixExpr {
            addr: "2001:db8::".to_string(),
            len: 32,
        }]
    );
}

#[test]
fn test_network_string_masks_host_bits() {
    let net = Ipv4Net::parse("10.0.0.5/24").unwrap();
    assert_eq!(net.network_string(), "10.0.0.0".to_string());
    assert_eq!(net.cidr_string(), "10.0.0.5/24".to_string());
    assert!(!net.is_network());
}

#[test]
fn test_cidr_string_renders_prefix_in_decimal() {
    let net = Ipv6Net::parse("::1").unwrap();
    assert_eq!(net.cidr_string(), "::1/128".to_string());
    assert_eq!(u8_to_dec(0), "0".to_string());
    assert_eq!(u8_to_dec(32), "32".to_string());
    assert_eq!(u8_to_dec(128), "128".to_string());
}

#[test]
fn test_parse_from_string_splits_on_whitespace() {
    let tokens = parse_from_string(Some("  10.0.0.0/8\n192.168.0.0/16\t8.8.8.0/24 "), None);
    assert_eq!(
        tokens,
        Some(vec![
            "10.0.0.0/8".to_string(),
            "192.168.0.0/16".to_string(),
            "8.8.8.0/24".to_string(),
        ])
    );
}

#[test]
fn test_parse_from_string_splits_on_delimiter_and_trims() {
    let tokens = parse_from_string(Some("a, b,,c"), Some(","));
    assert_eq!(
        tokens,
        Some(vec![
            "a".to_string(),
            "b".to_string(),
            "".to_string(),
            "c".to_string(),
        ])
    );
}

#[test]
fn test_parse_from_string_empty_input() {
    assert!(parse_from_string(None, None).is_none());
    assert!(parse_from_string(Some(""), None).is_none());
}

#[test]
fn test_blocklist_new_parses_headers() {
    let bl = BlockList::new(
        Some("{\"authorization\": \"SECRET-REDACTED\"}".to_string()),
        10,
        Some("http://192.0.2.1/v4".to_string()),
        None,
        None,
    )
    .unwrap();
    let headers = bl.headers.unwrap();
    assert_eq!(headers.len(), 1);
    assert_eq!(headers[0].0, "authorization".to_string());
    assert_eq!(headers[0].1, "SECRET-REDACTED".to_string());
    assert_eq!(bl.timeout_secs, 10);
}

#[test]
fn test_blocklist_new_rejects_malformed_headers() {
    let err = BlockList::new(Some("not json".to_string()), 10, None, None, None).unwrap_err();
    assert_eq!(err.error_kind, AppErrorKind::DeserializeError);
}

#[test]
fn test_update_drops_bad_entries_and_deduplicates() {
    let bl = BlockList::new(None, 10, Some("http://192.0.2.1/v4".to_string()), None, None).unwrap();
    let body = "foo 10.0.0.0/8 10.0.0.5/24 10.1.0.0/16\n".to_string();
    let elems = bl.update_ipv4(Some(body)).unwrap().unwrap();
    assert_eq!(
        elems,
        vec![PrefixExpr {
            addr: "10.0.0.0".to_string(),
            len: 8,
        }]
    );
}

#[test]
fn test_update_tolerates_unconfigured_endpoint() {
    let bl = BlockList::new(None, 10, None, Some("http://192.0.2.1/v6".to_string()), None).unwrap();
    let (v4, v6) = bl
        .update(None, Some("2001:db8::/64 2001:db8::/32".to_string()))
        .unwrap();
    assert!(v4.is_none());
    let v6 = v6.unwrap();
    assert_eq!(
        v6,
        vec![PrefixExpr {
            addr: "2001:db8::".to_string(),
            len: 32,
        }]
    );

    // The synthesized document carries element payloads only for the sets
    // that have elements: the anti-lockout IPv4 set and the IPv6 blocklist.
    let config = sample_config();
    let doc = config.generate_ruleset(&v4, &Some(v6));
    let mut element_sets: Vec<String> = Vec::new();
    for o in &doc.objects {
        if let RulesetObject::Elements { set_name, .. } = o {
            element_sets.push(set_name.clone());
        }
    }
    assert_eq!(
        element_sets,
        vec![
            "anti_lockout_set_ipv4".to_string(),
            "blocklist_set_ipv6".to_string(),
        ]
    );
}

#[test]
fn test_empty_body_is_tolerated() {
    let bl = BlockList::new(None, 10, Some("http://192.0.2.1/v4".to_string()), None, None).unwrap();
    let elems = bl.update_ipv4(Some("   \n ".to_string())).unwrap();
    assert!(elems.is_none());
}

#[test]
fn test_custom_set_strict_and_per_family() {
    let cs = CustomSet::new(
        "custom".to_string(),
        Some(vec!["10.0.0.0/8".to_string(), "10.1.0.0/16".to_string()]),
        None,
    )
    .unwrap();
    assert_eq!(cs.set_name, "custom".to_string());
    assert_eq!(
        cs.ipv4_elements.unwrap(),
        vec![PrefixExpr {
            addr: "10.0.0.0".to_string(),
            len: 8,
        }]
    );
    assert!(cs.ipv6_elements.is_none());

    let err = CustomSet::new(
        "custom".to_string(),
        Some(vec!["10.0.0.1/8".to_string()]),
        None,
    )
    .unwrap_err();
    assert_eq!(err.error_kind, AppErrorKind::ParseError);
}

#[test]
fn test_generate_ruleset_structure() {
    let config = sample_config();
    let v4 = Some(vec![PrefixExpr {
        addr: "8.8.8.0".to_string(),
        len: 24,
    }]);
    let doc = config.generate_ruleset(&v4, &None);

    // 23 fixed objects, then the anti-lockout IPv4 payload and the fetched
    // IPv4 blocklist payload.
    assert_eq!(doc.objects.len(), 25);
    assert!(matches!(&doc.objects[0], RulesetObject::Table { name } if name == "nftblockd"));
    assert!(matches!(&doc.objects[1], RulesetObject::DeleteTable { name } if name == "nftblockd"));
    assert!(matches!(&doc.objects[2], RulesetObject::Table { .. }));
    assert!(matches!(&doc.objects[3], RulesetObject::Chain { priority, .. } if *priority == -300));
    assert!(matches!(&doc.objects[4], RulesetObject::Chain { priority, .. } if *priority == 300));
    for i in 5..11 {
        assert!(matches!(&doc.objects[i], RulesetObject::NamedSet { .. }));
    }
    for i in 11..15 {
        assert!(
            matches!(&doc.objects[i], RulesetObject::Rule { verdict: Verdict::Accept, log_prefix: None, .. })
        );
    }
    for i in 15..23 {
        assert!(
            matches!(&doc.objects[i], RulesetObject::Rule { verdict: Verdict::Drop, log_prefix: Some(_), .. })
        );
    }
    match &doc.objects[11] {
        RulesetObject::Rule { set_ref, comment, .. } => {
            assert_eq!(set_ref, "@anti_lockout_set_ipv4");
            assert_eq!(comment, "prerouting ipv4 anti-lockout rule");
        }
        _ => panic!("expected a rule"),
    }
    match &doc.objects[19] {
        RulesetObject::Rule { set_ref, log_prefix, .. } => {
            assert_eq!(set_ref, "@blocklist_set_ipv4");
            assert_eq!(
                log_prefix.as_ref().unwrap(),
                "nftblockd;prerouting;blocklist_set_ipv4;dropped: "
            );
        }
        _ => panic!("expected a rule"),
    }
    match &doc.objects[24] {
        RulesetObject::Elements { set_name, elements, .. } => {
            assert_eq!(set_name, "blocklist_set_ipv4");
            assert_eq!(elements, &v4.clone().unwrap());
        }
        _ => panic!("expected set elements"),
    }
}

#[test]
fn test_every_accept_rule_precedes_every_drop_rule() {
    let config = sample_config();
    let v4 = Some(vec![PrefixExpr {
        addr: "8.8.8.0".to_string(),
        len: 24,
    }]);
    let v6 = Some(vec![PrefixExpr {
        addr: "2001:db8::".to_string(),
        len: 32,
    }]);
    let doc = config.generate_ruleset(&v4, &v6);
    let mut last_accept: Option<usize> = None;
    let mut first_drop: Option<usize> = None;
    for (i, o) in doc.objects.iter().enumerate() {
        if let RulesetObject::Rule { verdict, .. } = o {
            match verdict {
                Verdict::Accept => last_accept = Some(i),
                Verdict::Drop => {
                    if first_drop.is_none() {
                        first_drop = Some(i);
                    }
                }
            }
        }
    }
    assert!(last_accept.unwrap() < first_drop.unwrap());
}

#[test]
fn test_builder_appends_in_order() {
    let doc = NftRulesetBuilder::new()
        .delete_table("t")
        .build_table("t")
        .build_ruleset();
    assert_eq!(doc.objects.len(), 2);
    assert!(matches!(&doc.objects[0], RulesetObject::DeleteTable { name } if name == "t"));
    assert!(matches!(&doc.objects[1], RulesetObject::Table { name } if name == "t"));
}

#[test]
fn test_error_kinds_carry_their_messages() {
    let e = AppError::new(AppErrorKind::RequestError, "fetch failed");
    assert_eq!(e.error_kind, AppErrorKind::RequestError);
    assert_eq!(e.message, "fetch failed".to_string());
    assert_ne!(e, AppError::new(AppErrorKind::FileError, "fetch failed"));
    assert_ne!(e, AppError::new(AppErrorKind::RequestError, "other"));
    let kinds = vec![
        AppErrorKind::RequestError,
        AppErrorKind::FileError,
        AppErrorKind::NftablesError,
        AppErrorKind::ParseError,
        AppErrorKind::DeserializeError,
        AppErrorKind::NoAddressesParsedError,
        AppErrorKind::TableNotFound,
        AppErrorKind::ChainNotFound,
    ];
    for k in kinds {
        let e = AppError::new(k.clone(), "m");
        assert_eq!(e.error_kind, k);
    }
}

#[test]
fn test_deduplicate_is_idempotent_on_sample() {
    let subnets = vec![
        "192.168.1.0/24",
        "192.168.0.0/16",
        "10.1.0.0/16",
        "10.0.0.0/8",
    ];
    let once: Vec<Ipv4Net> = nftblockd::iptrie::deduplicate(
        subnets
            .iter()
            .map(|s| Ipv4Net::parse(s).unwrap())
            .collect(),
    );
    let twice = nftblockd::iptrie::deduplicate(
        subnets
            .iter()
            .map(|s| Ipv4Net::parse(s).unwrap())
            .collect::<Vec<Ipv4Net>>(),
    );
    let twice = nftblockd::iptrie::deduplicate(twice);
    assert_eq!(once, twice);
}

#[test]
fn test_retry_policy_decisions() {
    let policy = RetryPolicy {
        max_attempts: 3,
        base_interval_secs: 2,
    };
    assert_eq!(policy.decide(1, true), RetryDecision::Proceed);
    assert_eq!(policy.decide(3, true), RetryDecision::Proceed);
    assert_eq!(policy.decide(1, false), RetryDecision::Retry { attempt: 2 });
    assert_eq!(policy.decide(2, false), RetryDecision::Retry { attempt: 3 });
    assert_eq!(policy.decide(3, false), RetryDecision::GiveUp);
    assert_eq!(policy.jitter_bounds_ms(), (1000, 4000));
}

#[test]
fn test_get_strings_returns_raw_entries() {
    let raw = vec!["10.0.0.0/8".to_string()];
    let list = SubnetList::IPv4(raw.clone());
    assert_eq!(list.get_strings(), raw);
}
