use ip_check::codec::{decode_record, encode_record};
use ip_check::ip_addr::{format_ip, ip_text_len, parse_ip, IpAddress};
use ip_check::ip_result::{
    create_reqwest_client_error, json_parse_error_ip_result, not_support_error,
    parse_ip_error_ip_result, request_error_ip_result, restamp_elapsed, sort_records, Coordinates,
    IpCheckError,
    IpResult, IpResultVecExt, Region, Risk, RiskTag, AS,
};
use ip_check::ipip_net::{CheckPlan, FetchOutcome, IpIpNet};
use ip_check::json::JsonValue;
use ip_check::orchestrator::{join_results, plan_all, provider_name, ProviderId, UnitOutcome};

fn v4(a: u8, b: u8, c: u8, d: u8) -> IpAddress {
    IpAddress::V4(a, b, c, d)
}

#[test]
fn format_v4_dotted_decimal() {
    assert_eq!(format_ip(&v4(1, 2, 3, 4)), "1.2.3.4");
    assert_eq!(format_ip(&v4(255, 255, 255, 255)), "255.255.255.255");
    assert_eq!(format_ip(&v4(0, 0, 0, 0)), "0.0.0.0");
    assert_eq!(format_ip(&v4(10, 0, 200, 37)), "10.0.200.37");
}

#[test]
fn format_v6_compresses_longest_zero_run() {
    assert_eq!(format_ip(&IpAddress::V6(0, 0, 0, 0, 0, 0, 0, 0)), "::");
    assert_eq!(format_ip(&IpAddress::V6(0, 0, 0, 0, 0, 0, 0, 1)), "::1");
    assert_eq!(
        format_ip(&IpAddress::V6(0x2001, 0xdb8, 0, 0, 0, 0, 0, 1)),
        "2001:db8::1"
    );
    assert_eq!(
        format_ip(&IpAddress::V6(
            0xffff, 0xffff, 0xffff, 0xffff, 0xffff, 0xffff, 0xffff, 0xffff
        )),
        "ffff:ffff:ffff:ffff:ffff:ffff:ffff:ffff"
    );
    // A single zero group is not compressed.
    assert_eq!(
        format_ip(&IpAddress::V6(1, 0, 2, 3, 4, 5, 6, 7)),
        "1:0:2:3:4:5:6:7"
    );
    // Of two equally long runs, the leftmost is compressed.
    assert_eq!(
        format_ip(&IpAddress::V6(1, 0, 0, 2, 3, 0, 0, 4)),
        "1::2:3:0:0:4"
    );
    // A longer run wins over an earlier shorter one.
    assert_eq!(
        format_ip(&IpAddress::V6(1, 0, 0, 2, 0, 0, 0, 3)),
        "1:0:0:2::3"
    );
}

#[test]
fn format_v6_uses_mapped_v4_notation() {
    assert_eq!(
        format_ip(&IpAddress::V6(0, 0, 0, 0, 0, 0xffff, 0x0102, 0x0304)),
        "::ffff:1.2.3.4"
    );
    assert_eq!(
        format_ip(&IpAddress::V6(0, 0, 0, 0, 0, 0xffff, 0xc0a8, 0x0001)),
        "::ffff:192.168.0.1"
    );
}

#[test]
fn parse_v4_accepts_canonical_forms() {
    assert_eq!(parse_ip("1.2.3.4"), Some(v4(1, 2, 3, 4)));
    assert_eq!(parse_ip("255.255.255.255"), Some(v4(255, 255, 255, 255)));
    assert_eq!(parse_ip("0.0.0.0"), Some(v4(0, 0, 0, 0)));
}

#[test]
fn parse_v4_rejects_malformed_text() {
    assert_eq!(parse_ip("256.1.1.1"), None);
    assert_eq!(parse_ip("01.2.3.4"), None);
    assert_eq!(parse_ip("1.2.3"), None);
    assert_eq!(parse_ip("1.2.3.4.5"), None);
    assert_eq!(parse_ip(""), None);
    assert_eq!(parse_ip("abc"), None);
    assert_eq!(parse_ip("1.2.3.4 "), None);
}

#[test]
fn parse_v6_accepts_usual_forms() {
    assert_eq!(parse_ip("::"), Some(IpAddress::V6(0, 0, 0, 0, 0, 0, 0, 0)));
    assert_eq!(parse_ip("::1"), Some(IpAddress::V6(0, 0, 0, 0, 0, 0, 0, 1)));
    assert_eq!(
        parse_ip("2001:db8::1"),
        Some(IpAddress::V6(0x2001, 0xdb8, 0, 0, 0, 0, 0, 1))
    );
    // Uppercase hexadecimal and leading zeros are accepted.
    assert_eq!(
        parse_ip("2001:DB8::1"),
        Some(IpAddress::V6(0x2001, 0xdb8, 0, 0, 0, 0, 0, 1))
    );
    assert_eq!(parse_ip("00ab::"), Some(IpAddress::V6(0xab, 0, 0, 0, 0, 0, 0, 0)));
    // The full eight-group form is still accepted.
    assert_eq!(
        parse_ip("0:0:0:0:0:0:0:0"),
        Some(IpAddress::V6(0, 0, 0, 0, 0, 0, 0, 0))
    );
    assert_eq!(parse_ip("1:2:3:4:5:6:7::"), Some(IpAddress::V6(1, 2, 3, 4, 5, 6, 7, 0)));
    // An embedded dotted-decimal tail stands for the last two groups.
    assert_eq!(
        parse_ip("::ffff:1.2.3.4"),
        Some(IpAddress::V6(0, 0, 0, 0, 0, 0xffff, 0x0102, 0x0304))
    );
    assert_eq!(
        parse_ip("1:2:3:4:5:6:7.8.9.10"),
        Some(IpAddress::V6(1, 2, 3, 4, 5, 6, 0x0708, 0x090a))
    );
}

#[test]
fn parse_v6_rejects_malformed_text() {
    assert_eq!(parse_ip("1:2:3:4:5:6:7"), None);
    assert_eq!(parse_ip("1:2:3:4:5:6:7:8:9"), None);
    assert_eq!(parse_ip("1::2::3"), None);
    assert_eq!(parse_ip(":::"), None);
    assert_eq!(parse_ip(":"), None);
    assert_eq!(parse_ip("12345::"), None);
    assert_eq!(parse_ip("g::"), None);
    assert_eq!(parse_ip("::1 "), None);
    // An embedded tail may not stand before the `::`.
    assert_eq!(parse_ip("1.2.3.4::"), None);
}

#[test]
fn parse_inverts_format() {
    let ips = [
        v4(1, 2, 3, 4),
        IpAddress::V6(0x2001, 0xdb8, 0, 0, 0x8a2e, 0x370, 0x7334, 1),
        IpAddress::V6(0, 0, 0, 0, 0, 0, 0, 1),
        IpAddress::V6(0, 0, 0, 0, 0, 0xffff, 0x0102, 0x0304),
        IpAddress::V6(1, 0, 0, 2, 0, 0, 0, 3),
    ];
    for ip in ips.iter() {
        assert_eq!(parse_ip(&format_ip(ip)), Some(*ip));
    }
}

#[test]
fn ip_text_len_matches_format() {
    let ips = [
        v4(1, 2, 3, 4),
        v4(255, 255, 255, 255),
        IpAddress::V6(0x2001, 0xdb8, 0, 0, 0, 0, 0, 1),
        IpAddress::V6(0, 0, 0, 0, 0, 0, 0, 1),
        IpAddress::V6(0, 0, 0, 0, 0, 0xffff, 0x0102, 0x0304),
    ];
    for ip in ips.iter() {
        assert_eq!(ip_text_len(ip), format_ip(ip).len());
    }
}

fn assert_bare_failure(r: &IpResult, provider: &str) {
    assert!(!r.success);
    assert_eq!(r.provider, provider);
    assert!(r.ip.is_none());
    assert!(r.autonomous_system.is_none());
    assert!(r.region.is_none());
    assert!(r.risk.is_none());
}

#[test]
fn error_constructors_build_canonical_failures() {
    let r = json_parse_error_ip_result("P", "bad json");
    assert_bare_failure(&r, "P");
    assert!(matches!(r.error, IpCheckError::JsonParse(ref m) if m == "bad json"));
    assert!(r.used_time.is_none());

    let r = request_error_ip_result("P", "no route");
    assert_bare_failure(&r, "P");
    assert!(matches!(r.error, IpCheckError::Request(ref m) if m == "no route"));

    let r = parse_ip_error_ip_result("P", "bad ip");
    assert_bare_failure(&r, "P");
    assert!(matches!(r.error, IpCheckError::ParseIP(ref m) if m == "bad ip"));

    let r = create_reqwest_client_error("P");
    assert_bare_failure(&r, "P");
    assert!(matches!(r.error, IpCheckError::CreateReqwestClient));

    let r = not_support_error("P");
    assert_bare_failure(&r, "P");
    assert!(matches!(r.error, IpCheckError::NotSupport));
}

#[test]
fn explicit_target_is_refused_without_any_probe() {
    // A self-only provider asked for an arbitrary address: exactly one
    // record, Unsupported, and no probe requested at all.
    let plan = IpIpNet.plan(&Some(v4(8, 8, 8, 8)));
    match plan {
        CheckPlan::Finished(records) => {
            assert_eq!(records.len(), 1);
            assert_bare_failure(&records[0], "Ipip.Net");
            assert!(matches!(records[0].error, IpCheckError::NotSupport));
        }
        CheckPlan::Probe(_) => panic!("an unsupported query must not probe"),
    }
}

#[test]
fn self_lookup_plans_one_v4_probe() {
    let plan = IpIpNet.plan(&None);
    match plan {
        CheckPlan::Probe(ps) => {
            assert_eq!(ps.url, "https://myip.ipip.net/json");
            assert_eq!(ps.ipv6, Some(false));
            assert!(ps.identity.is_none());
        }
        CheckPlan::Finished(_) => panic!("a self-lookup needs a probe"),
    }
}

#[test]
fn parsed_self_lookup_yields_success_record() {
    let body = r#"{"data":{"ip":"1.2.3.4","location":["USA","California","Mountain View"]}}"#;
    let records = IpIpNet.conclude(FetchOutcome::Body(body.to_string()), 5);
    assert_eq!(records.len(), 1);
    let r = &records[0];
    assert!(r.success);
    assert!(matches!(r.error, IpCheckError::No));
    assert_eq!(r.provider, "Ipip.Net");
    assert_eq!(r.ip, Some(v4(1, 2, 3, 4)));
    let region = r.region.as_ref().expect("a parsed answer carries a region");
    assert_eq!(region.country.as_deref(), Some("USA"));
    assert_eq!(region.region.as_deref(), Some("California"));
    assert_eq!(region.city.as_deref(), Some("Mountain View"));
    assert!(region.coordinates.is_none());
    assert!(region.time_zone.is_none());
    assert!(r.autonomous_system.is_none());
    assert!(r.risk.is_none());
    assert_eq!(r.used_time, Some(5));
}

#[test]
fn compressed_v6_answer_yields_success_record() {
    let body = r#"{"data":{"ip":"::1","location":["a","b","c"]}}"#;
    let records = IpIpNet.conclude(FetchOutcome::Body(body.to_string()), 4);
    assert_eq!(records.len(), 1);
    let r = &records[0];
    assert!(r.success);
    assert_eq!(r.ip, Some(IpAddress::V6(0, 0, 0, 0, 0, 0, 0, 1)));
    assert_eq!(r.used_time, Some(4));
}

#[test]
fn missing_data_key_yields_parse_ip_failure() {
    let records = IpIpNet.conclude(FetchOutcome::Body("{}".to_string()), 7);
    assert_eq!(records.len(), 1);
    let r = &records[0];
    assert!(!r.success);
    assert!(matches!(r.error, IpCheckError::ParseIP(ref m) if m == "Unable to parse json"));
    assert!(r.ip.is_none());
    assert!(r.region.is_none());
}

#[test]
fn unparseable_ip_yields_parse_ip_failure() {
    let body = r#"{"data":{"ip":"not-an-ip","location":[]}}"#;
    let records = IpIpNet.conclude(FetchOutcome::Body(body.to_string()), 3);
    assert_eq!(records.len(), 1);
    assert!(matches!(records[0].error, IpCheckError::ParseIP(ref m) if m == "Unable to parse ip"));
}

#[test]
fn missing_location_yields_parse_ip_failure() {
    let body = r#"{"data":{"ip":"1.2.3.4"}}"#;
    let records = IpIpNet.conclude(FetchOutcome::Body(body.to_string()), 3);
    assert_eq!(records.len(), 1);
    assert!(
        matches!(records[0].error, IpCheckError::ParseIP(ref m) if m == "Unable to parse location")
    );
}

#[test]
fn unreachable_stub_yields_request_failure() {
    let records = IpIpNet.conclude(FetchOutcome::ConnectFailed, 9);
    assert_eq!(records.len(), 1);
    let r = &records[0];
    assert!(!r.success);
    assert!(matches!(r.error, IpCheckError::Request(ref m) if m == "Unable to connect"));
    assert!(r.used_time.is_none());
}

#[test]
fn unparseable_body_yields_request_failure() {
    let records = IpIpNet.conclude(FetchOutcome::Body("not json".to_string()), 2);
    assert_eq!(records.len(), 1);
    assert!(matches!(records[0].error, IpCheckError::Request(ref m) if m == "Unable to parse json"));
}

#[test]
fn failed_client_yields_client_failure() {
    let records = IpIpNet.conclude(FetchOutcome::ClientFailed, 2);
    assert_eq!(records.len(), 1);
    assert!(matches!(records[0].error, IpCheckError::CreateReqwestClient));
}

fn named_record(provider: &str, ip: Option<IpAddress>, used_time: Option<u64>) -> IpResult {
    IpResult {
        success: true,
        error: IpCheckError::No,
        provider: provider.to_string(),
        ip,
        autonomous_system: None,
        region: None,
        risk: None,
        used_time,
    }
}

#[test]
fn sort_orders_by_ip_length_then_provider_then_time() {
    let mut batch = vec![
        named_record("Zeta", Some(v4(100, 100, 100, 100)), None),
        named_record("Alpha", Some(v4(1, 2, 3, 4)), Some(9)),
        named_record("Beta", Some(v4(9, 9, 9, 9)), Some(1)),
        named_record("Gamma", None, None),
        named_record("Alpha", Some(v4(1, 2, 3, 4)), Some(2)),
    ];
    sort_records(&mut batch);
    // Absent address first, then shorter textual forms; equal lengths by
    // provider name; equal providers by elapsed time.
    assert_eq!(batch[0].provider, "Gamma");
    assert_eq!(batch[1].provider, "Alpha");
    assert_eq!(batch[1].used_time, Some(2));
    assert_eq!(batch[2].provider, "Alpha");
    assert_eq!(batch[2].used_time, Some(9));
    assert_eq!(batch[3].provider, "Beta");
    assert_eq!(batch[4].provider, "Zeta");
}

#[test]
fn sort_is_stable_for_equal_keys() {
    let first = json_parse_error_ip_result("Same", "first arrival");
    let second = json_parse_error_ip_result("Same", "second arrival");
    let mut batch = vec![first.clone(), second.clone()];
    batch.sort_by_name();
    assert!(matches!(batch[0].error, IpCheckError::JsonParse(ref m) if m == "first arrival"));
    assert!(matches!(batch[1].error, IpCheckError::JsonParse(ref m) if m == "second arrival"));
}

#[test]
fn sort_puts_absent_time_before_present() {
    let mut batch = vec![
        named_record("Same", Some(v4(1, 1, 1, 1)), Some(4)),
        named_record("Same", Some(v4(1, 1, 1, 1)), None),
    ];
    sort_records(&mut batch);
    assert_eq!(batch[0].used_time, None);
    assert_eq!(batch[1].used_time, Some(4));
}

#[test]
fn plan_all_covers_every_selected_provider() {
    let plans = plan_all(&None, &vec![ProviderId::IpIpNet]);
    assert_eq!(plans.len(), 1);
    assert!(matches!(plans[0], CheckPlan::Probe(_)));
    assert_eq!(provider_name(ProviderId::IpIpNet), "Ipip.Net");
}

#[test]
fn crashed_unit_becomes_synthetic_record() {
    let selection = vec![ProviderId::IpIpNet];
    let batch = join_results(&selection, vec![UnitOutcome::Crashed]);
    assert_eq!(batch.len(), 1);
    assert_bare_failure(&batch[0], "Ipip.Net");
    assert!(matches!(batch[0].error, IpCheckError::JsonParse(ref m) if m == "Unable to parse json"));
}

#[test]
fn join_accounts_for_every_provider_and_sorts() {
    let selection = vec![ProviderId::IpIpNet, ProviderId::IpIpNet];
    let delivered = vec![
        named_record("Ipip.Net", Some(v4(1, 2, 3, 4)), Some(1)),
        named_record("Ipip.Net", None, Some(1)),
    ];
    let batch = join_results(&selection, vec![UnitOutcome::Delivered(delivered), UnitOutcome::Crashed]);
    assert_eq!(batch.len(), 3);
    // Records without an address surface first.
    assert!(batch[0].ip.is_none());
    assert!(batch[1].ip.is_none());
    assert_eq!(batch[2].ip, Some(v4(1, 2, 3, 4)));
}

#[test]
fn codec_round_trips_a_full_record() {
    let record = IpResult {
        success: true,
        error: IpCheckError::No,
        provider: "Ipip.Net".to_string(),
        ip: Some(IpAddress::V6(0x2001, 0xdb8, 0, 0, 0, 0, 0, 1)),
        autonomous_system: Some(AS {
            number: 64496,
            name: "Example Carrier".to_string(),
        }),
        region: Some(Region {
            country: Some("USA".to_string()),
            region: None,
            city: Some("Mountain View".to_string()),
            coordinates: Some(Coordinates {
                lat: "37.386".to_string(),
                lon: "-122.084".to_string(),
            }),
            time_zone: Some("America/Los_Angeles".to_string()),
        }),
        risk: Some(Risk {
            risk: Some(25),
            tags: Some(vec![
                RiskTag::Tor,
                RiskTag::Hosting,
                RiskTag::Other("scanner".to_string()),
            ]),
        }),
        used_time: Some(u64::MAX - 17),
    };
    let encoded = encode_record(&record);
    let decoded = decode_record(&encoded).expect("an encoded record must decode");
    assert_eq!(decoded, record);
}

#[test]
fn codec_round_trips_each_error_kind() {
    let errors = vec![
        IpCheckError::No,
        IpCheckError::JsonParse("a".to_string()),
        IpCheckError::Request("b".to_string()),
        IpCheckError::ParseIP("c".to_string()),
        IpCheckError::CreateReqwestClient,
        IpCheckError::NotSupport,
    ];
    for error in errors {
        let success = matches!(error, IpCheckError::No);
        let record = IpResult {
            success,
            error,
            provider: "P".to_string(),
            ip: None,
            autonomous_system: None,
            region: None,
            risk: None,
            used_time: None,
        };
        let decoded = decode_record(&encode_record(&record)).unwrap();
        assert_eq!(decoded, record);
    }
}

#[test]
fn decode_rejects_foreign_documents() {
    assert_eq!(decode_record(&JsonValue::Null), None);
    assert_eq!(decode_record(&JsonValue::Arr(vec![])), None);
    assert_eq!(decode_record(&JsonValue::Str("x".to_string())), None);
}

#[test]
fn explicit_address_through_orchestrator_yields_one_unsupported_record() {
    let target = Some(v4(8, 8, 8, 8));
    let selection = vec![ProviderId::IpIpNet];
    let plans = plan_all(&target, &selection);
    let outcomes: Vec<UnitOutcome> = plans
        .into_iter()
        .map(|plan| match plan {
            CheckPlan::Finished(records) => UnitOutcome::Delivered(records),
            CheckPlan::Probe(_) => panic!("a self-only provider must not probe an explicit address"),
        })
        .collect();
    let batch = join_results(&selection, outcomes);
    assert_eq!(batch.len(), 1);
    assert!(!batch[0].success);
    assert!(matches!(batch[0].error, IpCheckError::NotSupport));
    assert_bare_failure(&batch[0], "Ipip.Net");
}

#[test]
fn restamp_replaces_present_elapsed_and_keeps_absent() {
    let mut records = vec![
        named_record("A", Some(v4(1, 2, 3, 4)), Some(1)),
        named_record("B", None, None),
    ];
    restamp_elapsed(&mut records, 42);
    assert_eq!(records.len(), 2);
    assert_eq!(records[0].used_time, Some(42));
    assert_eq!(records[1].used_time, None);
    assert_eq!(records[0].provider, "A");
    assert_eq!(records[1].provider, "B");
}
