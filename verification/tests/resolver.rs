use gai::mdns::{QTYPE_A, QTYPE_AAAA};
use gai::notation::parse_ip;
use gai::resolver::{dns_result, mdns_result, DnsReply, SourceAction, SystemSourceResolver};
use gai::types::{HostsEntry, NssSource, StepResult};
use gai::IpAddr;

fn hosts() -> Vec<HostsEntry> {
    vec![
        HostsEntry { ip: parse_ip("127.0.0.1").unwrap(), names: vec!["localhost".to_string()] },
        HostsEntry {
            ip: parse_ip("10.0.0.1").unwrap(),
            names: vec!["testhost.local".to_string(), "testhost".to_string()],
        },
        HostsEntry { ip: parse_ip("::1").unwrap(), names: vec!["localhost".to_string()] },
    ]
}

fn skipped_reason(action: SourceAction) -> String {
    match action {
        SourceAction::Answer(StepResult::Skipped { reason }) => reason,
        other => panic!("expected a skip, got {:?}", other),
    }
}

#[test]
fn skip_non_local_gates_ordinary_internet_domains() {
    assert!(SystemSourceResolver::skip_non_local("google.com").is_some());
    assert!(SystemSourceResolver::skip_non_local("example.com.").is_some());
}

#[test]
fn skip_non_local_allows_dot_local_names() {
    assert!(SystemSourceResolver::skip_non_local("printer.local").is_none());
    assert!(SystemSourceResolver::skip_non_local("printer.local.").is_none());
    assert!(SystemSourceResolver::skip_non_local("PRINTER.LOCAL").is_none());
}

#[test]
fn skip_non_local_reason_text_and_bare_local() {
    assert!(SystemSourceResolver::skip_non_local("local").is_none());
    assert!(SystemSourceResolver::skip_non_local("local..").is_none());
    assert!(SystemSourceResolver::skip_non_local("notlocal").is_some());
    assert_eq!(
        SystemSourceResolver::skip_non_local("google.com").unwrap(),
        "'google.com' doesn't end in .local — nss-mdns wouldn't query mDNS for this name at all (real UNAVAIL, not a probed NOT FOUND)"
    );
}

#[test]
fn files_answers_from_every_matching_hosts_line() {
    let r = SystemSourceResolver::new(hosts(), vec![]);
    match r.plan(&NssSource::Files, "localhost") {
        SourceAction::Answer(StepResult::Found(a)) => assert_eq!(a, vec![IpAddr::V4(0x7F00_0001), IpAddr::V6(1)]),
        other => panic!("unexpected {:?}", other),
    }
    assert!(matches!(r.plan(&NssSource::Files, "testhost"), SourceAction::Answer(StepResult::Found(_))));
    assert!(matches!(r.plan(&NssSource::Files, "TESTHOST"), SourceAction::Answer(StepResult::NotFound)));
}

#[test]
fn dns_uses_resolved_servers_first_then_resolv_conf() {
    let plain = vec![parse_ip("8.8.8.8").unwrap()];
    let real = vec![parse_ip("10.1.1.1").unwrap()];
    let r = SystemSourceResolver::new(vec![], plain.clone());
    match r.plan(&NssSource::Dns, "example.com") {
        SourceAction::QueryDns(s) => assert_eq!(s, plain),
        other => panic!("unexpected {:?}", other),
    }
    let r = r.with_resolved_nameservers(real.clone());
    match r.plan(&NssSource::Dns, "example.com") {
        SourceAction::QueryDns(s) => assert_eq!(s, real),
        other => panic!("unexpected {:?}", other),
    }
    match r.plan(&NssSource::Resolve, "example.com") {
        SourceAction::QueryDns(s) => assert_eq!(s, real),
        other => panic!("unexpected {:?}", other),
    }
}

#[test]
fn sources_that_cannot_be_asked_are_skipped_with_a_reason() {
    let r = SystemSourceResolver::new(vec![], vec![]);
    assert_eq!(skipped_reason(r.plan(&NssSource::Dns, "x")), "no nameservers configured");
    assert_eq!(skipped_reason(r.plan(&NssSource::Resolve, "x")), "systemd-resolved not detected on D-Bus");
    assert_eq!(skipped_reason(r.plan(&NssSource::Myhostname, "x")), "myhostname probing not implemented in MVP");
    assert_eq!(skipped_reason(r.plan(&NssSource::Other("wins".to_string()), "x")), "unknown NSS source 'wins'");
}

#[test]
fn mdns_sources_probe_only_local_names() {
    let r = SystemSourceResolver::new(vec![], vec![]);
    assert!(matches!(r.plan(&NssSource::Mdns4Minimal, "api.local"), SourceAction::QueryMdns(q) if q == QTYPE_A));
    assert!(matches!(r.plan(&NssSource::Mdns4, "api.local"), SourceAction::QueryMdns(q) if q == QTYPE_A));
    assert!(matches!(r.plan(&NssSource::Mdns6, "api.local"), SourceAction::QueryMdns(q) if q == QTYPE_AAAA));
    assert!(matches!(r.plan(&NssSource::Mdns6Minimal, "api.local"), SourceAction::QueryMdns(q) if q == QTYPE_AAAA));
    assert!(skipped_reason(r.plan(&NssSource::Mdns4Minimal, "google.com")).starts_with("'google.com'"));
}

#[test]
fn dns_outcomes_map_to_step_results() {
    let a = vec![parse_ip("1.2.3.4").unwrap()];
    assert!(matches!(dns_result(DnsReply::Answered(a.clone())), StepResult::Found(v) if v == a));
    assert!(matches!(dns_result(DnsReply::Answered(vec![])), StepResult::NotFound));
    assert!(matches!(dns_result(DnsReply::NoRecords), StepResult::NotFound));
    match dns_result(DnsReply::QueryFailed("timed out".to_string())) {
        StepResult::Skipped { reason } => assert_eq!(reason, "DNS query failed: timed out"),
        other => panic!("unexpected {:?}", other),
    }
    match dns_result(DnsReply::InitFailed("bad".to_string())) {
        StepResult::Skipped { reason } => assert_eq!(reason, "resolver init failed: bad"),
        other => panic!("unexpected {:?}", other),
    }
    match dns_result(DnsReply::RuntimeFailed("io".to_string())) {
        StepResult::Skipped { reason } => assert_eq!(reason, "failed to start async runtime: io"),
        other => panic!("unexpected {:?}", other),
    }
}

#[test]
fn mdns_outcomes_map_to_step_results() {
    let a = vec![parse_ip("192.168.1.9").unwrap()];
    assert!(matches!(mdns_result(Ok(a.clone()), QTYPE_A), StepResult::Found(v) if v == a));
    assert!(matches!(mdns_result(Ok(vec![]), QTYPE_A), StepResult::NotFound));
    match mdns_result(Err("denied".to_string()), QTYPE_A) {
        StepResult::Skipped { reason } => assert_eq!(reason, "mDNS query failed: denied"),
        other => panic!("unexpected {:?}", other),
    }
    match mdns_result(Err("denied".to_string()), QTYPE_AAAA) {
        StepResult::Skipped { reason } => assert_eq!(reason, "mDNS AAAA query failed: denied"),
        other => panic!("unexpected {:?}", other),
    }
}
