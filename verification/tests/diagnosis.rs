use gai::diagnosis::{diagnose, halted_early, Diagnosis, Severity};
use gai::notation::parse_ip;
use gai::reality::{reality_outcome, reality_servers, RealityCheck};
use gai::resolver::DnsReply;
use gai::sim::SimulationOutcome;
use gai::types::{NssAction, NssCriterion, NssSource, ResolutionStep, ResolvConfig, StepResult};
use gai::IpAddr;

fn ip(t: &str) -> IpAddr {
    parse_ip(t).unwrap()
}

fn step(source: NssSource, result: StepResult, halted: bool) -> ResolutionStep {
    let halted_chain = if halted {
        Some(NssCriterion { status: gai::types::NssStatus::NotFound, action: NssAction::Return })
    } else {
        None
    };
    ResolutionStep { source, result, halted_chain }
}

fn reality(addrs: Vec<IpAddr>) -> Option<RealityCheck> {
    Some(RealityCheck { queried_servers: vec![ip("9.9.9.9")], addresses: addrs })
}

fn halted_outcome() -> SimulationOutcome {
    SimulationOutcome {
        steps: vec![
            step(NssSource::Files, StepResult::NotFound, false),
            step(NssSource::Mdns4Minimal, StepResult::NotFound, true),
        ],
        final_addresses: vec![],
    }
}

#[test]
fn halted_chain_hiding_a_dns_answer_is_an_issue() {
    let d = diagnose(&halted_outcome(), &reality(vec![ip("192.168.1.50")]));
    assert!(matches!(&d, Diagnosis::HaltedButDnsAnswers(a) if *a == vec![ip("192.168.1.50")]));
    assert_eq!(d.severity(), Severity::Issue);
    assert!(halted_early(&halted_outcome()));
}

#[test]
fn halted_chain_without_dns_answer_or_check() {
    assert!(matches!(diagnose(&halted_outcome(), &reality(vec![])), Diagnosis::HaltedNoDiscrepancy));
    let d = diagnose(&halted_outcome(), &None);
    assert!(matches!(d, Diagnosis::HaltedUnchecked));
    assert_eq!(d.severity(), Severity::Note);
}

#[test]
fn failed_chain_verdicts() {
    let failed = SimulationOutcome {
        steps: vec![step(NssSource::Files, StepResult::NotFound, false), step(NssSource::Dns, StepResult::NotFound, false)],
        final_addresses: vec![],
    };
    assert!(!halted_early(&failed));
    assert!(matches!(diagnose(&failed, &None), Diagnosis::FailedUnchecked));
    let d = diagnose(&failed, &reality(vec![]));
    assert!(matches!(d, Diagnosis::FailedAgreed));
    assert_eq!(d.severity(), Severity::Clear);
    assert!(matches!(diagnose(&failed, &reality(vec![ip("1.2.3.4")])), Diagnosis::FailedButDnsAnswers(_)));
}

#[test]
fn same_addresses_in_another_order_agree() {
    let resolved = SimulationOutcome {
        steps: vec![step(NssSource::Files, StepResult::Found(vec![ip("127.0.0.1"), ip("::1")]), false)],
        final_addresses: vec![ip("127.0.0.1"), ip("::1")],
    };
    let d = diagnose(&resolved, &reality(vec![ip("::1"), ip("127.0.0.1")]));
    assert!(matches!(d, Diagnosis::Agreed));
    assert_eq!(d.severity().title(), "OK");
    assert_eq!(d.severity().label(), "ok");
    assert_eq!(d.severity().accent_code(), "32");
}

#[test]
fn disagreement_blames_earlier_sources_unless_dns_answered() {
    let via_files = SimulationOutcome {
        steps: vec![step(NssSource::Files, StepResult::Found(vec![ip("10.0.0.1")]), false)],
        final_addresses: vec![ip("10.0.0.1")],
    };
    let d = diagnose(&via_files, &reality(vec![]));
    assert!(matches!(d, Diagnosis::EarlierSourceAnswers(_, _)));
    assert_eq!(d.severity().title(), "ISSUE");

    let via_dns = SimulationOutcome {
        steps: vec![
            step(NssSource::Files, StepResult::NotFound, false),
            step(NssSource::Dns, StepResult::Found(vec![ip("1.1.1.1")]), false),
        ],
        final_addresses: vec![ip("1.1.1.1")],
    };
    let d = diagnose(&via_dns, &reality(vec![ip("1.0.0.1")]));
    assert!(matches!(&d, Diagnosis::DnsVariance(c, r) if *c == vec![ip("1.1.1.1")] && *r == vec![ip("1.0.0.1")]));
    assert_eq!(d.severity().accent_code(), "33");
}

#[test]
fn resolved_without_a_check_is_taken_on_trust() {
    let resolved = SimulationOutcome {
        steps: vec![step(NssSource::Files, StepResult::Found(vec![ip("10.0.0.1")]), false)],
        final_addresses: vec![ip("10.0.0.1")],
    };
    let d = diagnose(&resolved, &None);
    assert!(matches!(d, Diagnosis::ResolvedUnchecked(_)));
    assert_eq!(d.severity().label(), "note");
}

#[test]
fn reality_check_asks_resolved_behind_the_stub() {
    let stub = ResolvConfig { nameservers: vec![ip("127.0.0.53")], search: vec![], ndots: 1, is_systemd_stub: true };
    assert_eq!(reality_servers(&stub, &vec![ip("10.1.1.1")]), vec![ip("10.1.1.1")]);
    assert_eq!(reality_servers(&stub, &vec![]), vec![ip("127.0.0.53")]);
    let plain = ResolvConfig { nameservers: vec![ip("8.8.8.8")], search: vec![], ndots: 1, is_systemd_stub: false };
    assert_eq!(reality_servers(&plain, &vec![ip("10.1.1.1")]), vec![ip("8.8.8.8")]);
}

#[test]
fn failed_direct_query_means_no_reality_check() {
    let servers = vec![ip("9.9.9.9")];
    let c = reality_outcome(servers.clone(), DnsReply::Answered(vec![ip("1.2.3.4")])).unwrap();
    assert_eq!(c.addresses, vec![ip("1.2.3.4")]);
    assert_eq!(c.queried_servers, servers);
    assert!(reality_outcome(servers.clone(), DnsReply::NoRecords).unwrap().addresses.is_empty());
    assert!(reality_outcome(servers.clone(), DnsReply::QueryFailed("timeout".to_string())).is_none());
    assert!(reality_outcome(servers.clone(), DnsReply::InitFailed("x".to_string())).is_none());
    assert!(reality_outcome(servers, DnsReply::RuntimeFailed("x".to_string())).is_none());
}
