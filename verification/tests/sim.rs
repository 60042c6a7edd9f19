use gai::config::parse_nsswitch;
use gai::notation::parse_ip;
use gai::sim::{simulate, SourceResolver};
use gai::types::{NssAction, NssCriterion, NssEntry, NssSource, NssStatus, NsswitchConfig, StepResult};

/// Scripted answers per source; a source without a script is not found.
struct ScriptedResolver {
    answers: Vec<(NssSource, StepResult)>,
    asked: Vec<(NssSource, String)>,
}

impl SourceResolver for ScriptedResolver {
    fn resolve(&mut self, source: &NssSource, name: &str) -> StepResult {
        self.asked.push((source.clone(), name.to_string()));
        self.answers
            .iter()
            .find(|(s, _)| s == source)
            .map(|(_, r)| r.clone())
            .unwrap_or(StepResult::NotFound)
    }
}

fn entry(source: NssSource, criteria: Vec<NssCriterion>) -> NssEntry {
    NssEntry { source, criteria }
}

#[test]
fn notfound_return_halts_before_dns_is_ever_reached() {
    let config = NsswitchConfig {
        hosts: vec![
            entry(NssSource::Files, vec![]),
            entry(
                NssSource::Mdns4Minimal,
                vec![NssCriterion { status: NssStatus::NotFound, action: NssAction::Return }],
            ),
            entry(NssSource::Dns, vec![]),
        ],
    };
    let mut resolver = ScriptedResolver {
        answers: vec![
            (NssSource::Files, StepResult::NotFound),
            (NssSource::Mdns4Minimal, StepResult::NotFound),
            (NssSource::Dns, StepResult::Found(vec![parse_ip("192.168.1.50").unwrap()])),
        ],
        asked: vec![],
    };

    let outcome = simulate(&config, "api.local", &mut resolver);

    assert_eq!(outcome.steps.len(), 2, "dns step must never be reached");
    assert!(!outcome.resolved());
    assert!(outcome.steps[1].halted_chain.is_some());
}

#[test]
fn success_without_criterion_still_halts_by_default() {
    let config = NsswitchConfig {
        hosts: vec![entry(NssSource::Files, vec![]), entry(NssSource::Dns, vec![])],
    };
    let mut resolver = ScriptedResolver {
        answers: vec![(NssSource::Files, StepResult::Found(vec![parse_ip("127.0.0.1").unwrap()]))],
        asked: vec![],
    };

    let outcome = simulate(&config, "localhost", &mut resolver);

    assert_eq!(outcome.steps.len(), 1);
    assert!(outcome.resolved());
}

#[test]
fn explicit_success_continue_keeps_walking() {
    let config = NsswitchConfig {
        hosts: vec![
            entry(
                NssSource::Files,
                vec![NssCriterion { status: NssStatus::Success, action: NssAction::Continue }],
            ),
            entry(NssSource::Dns, vec![]),
        ],
    };
    let mut resolver = ScriptedResolver {
        answers: vec![(NssSource::Files, StepResult::Found(vec![parse_ip("10.0.0.1").unwrap()]))],
        asked: vec![],
    };
    let outcome = simulate(&config, "x", &mut resolver);
    assert_eq!(outcome.steps.len(), 2);
    assert!(outcome.steps[0].halted_chain.is_none());
    // dns answered NotFound, so the addresses are those files found last.
    assert_eq!(outcome.final_addresses, vec![parse_ip("10.0.0.1").unwrap()]);
}

#[test]
fn full_chain_exhausted_without_answer() {
    let config = NsswitchConfig {
        hosts: vec![entry(NssSource::Files, vec![]), entry(NssSource::Dns, vec![])],
    };
    let mut resolver = ScriptedResolver { answers: vec![], asked: vec![] };
    let outcome = simulate(&config, "nowhere.example", &mut resolver);
    assert_eq!(outcome.steps.len(), 2);
    assert!(!outcome.resolved());
    assert!(outcome.steps.iter().all(|s| s.halted_chain.is_none()));
}

#[test]
fn skipped_source_falls_through_unless_unavail_returns() {
    let skipped = StepResult::Skipped { reason: "no".to_string() };
    let config = NsswitchConfig {
        hosts: vec![
            entry(
                NssSource::Resolve,
                vec![NssCriterion { status: NssStatus::Unavail, action: NssAction::Return }],
            ),
            entry(NssSource::Dns, vec![]),
        ],
    };
    let mut resolver = ScriptedResolver { answers: vec![(NssSource::Resolve, skipped)], asked: vec![] };
    let outcome = simulate(&config, "x", &mut resolver);
    assert_eq!(outcome.steps.len(), 1);
    assert_eq!(
        outcome.steps[0].halted_chain,
        Some(NssCriterion { status: NssStatus::Unavail, action: NssAction::Return })
    );
}

#[test]
fn empty_chain_resolves_nothing() {
    let config = NsswitchConfig { hosts: vec![] };
    let mut resolver = ScriptedResolver { answers: vec![], asked: vec![] };
    let outcome = simulate(&config, "x", &mut resolver);
    assert!(outcome.steps.is_empty());
    assert!(!outcome.resolved());
}

#[test]
fn scenario_mdns_notfound_return_hides_a_real_dns_answer() {
    let config = parse_nsswitch("/etc/nsswitch.conf", "hosts: files mdns4_minimal [NOTFOUND=return] dns\n")
        .expect("valid nsswitch.conf");

    let mut resolver = ScriptedResolver {
        answers: vec![
            (NssSource::Files, StepResult::NotFound),
            (NssSource::Mdns4Minimal, StepResult::NotFound),
            (NssSource::Dns, StepResult::Found(vec![parse_ip("192.168.1.50").unwrap()])),
        ],
        asked: vec![],
    };

    let outcome = simulate(&config, "api.local", &mut resolver);

    assert_eq!(outcome.steps.len(), 2, "dns must never be reached — this is the whole point of the tool");
    assert!(!outcome.resolved(), "getaddrinfo() reports failure here");
    assert!(outcome.steps[1].halted_chain.is_some());

    let reached_dns = outcome.steps.iter().any(|s| s.source == NssSource::Dns);
    assert!(!reached_dns);
    assert_eq!(
        resolver.asked,
        vec![(NssSource::Files, "api.local".to_string()), (NssSource::Mdns4Minimal, "api.local".to_string())]
    );
}

#[test]
fn scenario_plain_files_then_dns_no_traps() {
    let config = parse_nsswitch("/etc/nsswitch.conf", "hosts: files dns\n").expect("valid nsswitch.conf");

    let mut resolver = ScriptedResolver {
        answers: vec![
            (NssSource::Files, StepResult::NotFound),
            (NssSource::Dns, StepResult::Found(vec![parse_ip("93.184.216.34").unwrap()])),
        ],
        asked: vec![],
    };

    let outcome = simulate(&config, "example.com", &mut resolver);

    assert_eq!(outcome.steps.len(), 2);
    assert!(outcome.resolved());
    assert_eq!(outcome.final_addresses, vec![parse_ip("93.184.216.34").unwrap()]);
}

#[test]
fn scenario_realistic_multiline_nsswitch_conf() {
    let config = parse_nsswitch(
        "/etc/nsswitch.conf",
        "# /etc/nsswitch.conf\n\
         #\n\
         passwd:         files systemd\n\
         group:          files systemd\n\
         shadow:         files\n\
         gshadow:        files\n\
         \n\
         hosts:          files mdns4_minimal [NOTFOUND=return] dns myhostname # trailing note\n\
         networks:       files\n\
         \n\
         protocols:      db files\n\
         services:       db files\n\
         ethers:         db files\n\
         rpc:            db files\n",
    )
    .expect("valid nsswitch.conf");

    assert_eq!(config.hosts.len(), 4, "files, mdns4_minimal, dns, myhostname");
    assert_eq!(config.hosts[0].source, NssSource::Files);
    assert_eq!(config.hosts[1].source, NssSource::Mdns4Minimal);
    assert_eq!(config.hosts[2].source, NssSource::Dns);
    assert_eq!(config.hosts[3].source, NssSource::Myhostname);
}
