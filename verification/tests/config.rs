use gai::config::{parse_gai_conf, parse_hosts, parse_nsswitch, parse_resolv_conf, ConfigError};
use gai::notation::parse_ip;
use gai::types::{NssAction, NssCriterion, NssSource, NssStatus};
use gai::IpAddr;

#[test]
fn parses_notfound_return_trap() {
    let cfg = parse_nsswitch("/etc/nsswitch.conf", "hosts: files mdns4_minimal [NOTFOUND=return] dns\n").unwrap();
    assert_eq!(cfg.hosts.len(), 3);
    assert_eq!(cfg.hosts[0].source, NssSource::Files);
    assert_eq!(cfg.hosts[1].source, NssSource::Mdns4Minimal);
    assert_eq!(
        cfg.hosts[1].criteria,
        vec![NssCriterion { status: NssStatus::NotFound, action: NssAction::Return }]
    );
    assert_eq!(cfg.hosts[2].source, NssSource::Dns);
    assert!(cfg.hosts[2].criteria.is_empty());
}

#[test]
fn ignores_comments_and_other_database_lines() {
    let cfg = parse_nsswitch(
        "/etc/nsswitch.conf",
        "# comment\npasswd: files\nhosts: files dns # trailing comment\ngroup: files\n",
    )
    .unwrap();
    assert_eq!(cfg.hosts.len(), 2);
}

#[test]
fn negated_criterion_expands_to_every_other_status() {
    let cfg = parse_nsswitch("f", "hosts: files [!UNAVAIL=return] dns\n").unwrap();
    assert_eq!(
        cfg.hosts[0].criteria,
        vec![
            NssCriterion { status: NssStatus::Success, action: NssAction::Return },
            NssCriterion { status: NssStatus::NotFound, action: NssAction::Return },
            NssCriterion { status: NssStatus::TryAgain, action: NssAction::Return },
        ]
    );
}

#[test]
fn authselect_default_hosts_line_parses() {
    let cfg = parse_nsswitch(
        "/etc/nsswitch.conf",
        "hosts:      files myhostname resolve [!UNAVAIL=return] dns\n",
    )
    .unwrap();
    assert_eq!(cfg.hosts.len(), 4);
    assert_eq!(cfg.hosts[2].source, NssSource::Resolve);
    assert_eq!(cfg.hosts[2].criteria.len(), 3);
    assert_eq!(cfg.hosts[3].source, NssSource::Dns);
}

#[test]
fn consecutive_criteria_attach_and_names_ignore_case() {
    let cfg = parse_nsswitch("f", "hosts: mdns4 [notfound=return] [success=Continue] dns").unwrap();
    assert_eq!(
        cfg.hosts[0].criteria,
        vec![
            NssCriterion { status: NssStatus::NotFound, action: NssAction::Return },
            NssCriterion { status: NssStatus::Success, action: NssAction::Continue },
        ]
    );
}

#[test]
fn unknown_status_is_a_parse_error_with_its_line() {
    match parse_nsswitch("/etc/nsswitch.conf", "# x\nhosts: files [BOGUS=return] dns\n") {
        Err(ConfigError::Parse { path, line_no, .. }) => {
            assert_eq!(path, "/etc/nsswitch.conf");
            assert_eq!(line_no, 2);
        }
        other => panic!("expected a parse error, got {:?}", other),
    }
}

#[test]
fn unknown_action_is_a_parse_error() {
    assert!(matches!(
        parse_nsswitch("f", "hosts: files [NOTFOUND=stop]\n"),
        Err(ConfigError::Parse { line_no: 1, .. })
    ));
}

#[test]
fn unknown_source_is_kept_by_name() {
    let cfg = parse_nsswitch("f", "hosts: files wins\n").unwrap();
    assert_eq!(cfg.hosts[1].source, NssSource::Other("wins".to_string()));
}

#[test]
fn later_hosts_line_replaces_earlier() {
    let cfg = parse_nsswitch("f", "hosts: files\nhosts: dns mdns4\n").unwrap();
    assert_eq!(cfg.hosts.len(), 2);
    assert_eq!(cfg.hosts[0].source, NssSource::Dns);
}

#[test]
fn no_hosts_line_gives_an_empty_chain() {
    let cfg = parse_nsswitch("f", "passwd: files\n").unwrap();
    assert!(cfg.hosts.is_empty());
}

#[test]
fn detects_systemd_resolved_stub() {
    let cfg = parse_resolv_conf("nameserver 127.0.0.53\noptions edns0 trust-ad\n");
    assert!(cfg.is_systemd_stub);
}

#[test]
fn parses_real_nameservers_and_ndots() {
    let cfg = parse_resolv_conf("nameserver 8.8.8.8\nnameserver 1.1.1.1\nsearch corp.internal\noptions ndots:2\n");
    assert_eq!(cfg.nameservers.len(), 2);
    assert_eq!(cfg.search, vec!["corp.internal"]);
    assert_eq!(cfg.ndots, 2);
    assert!(!cfg.is_systemd_stub);
}

#[test]
fn resolv_conf_defaults_and_bad_values() {
    let cfg = parse_resolv_conf("; comment\nnameserver not-an-ip\noptions ndots:x\ndomain a.example b.example\n");
    assert!(cfg.nameservers.is_empty());
    assert_eq!(cfg.ndots, 1);
    assert_eq!(cfg.search, vec!["a.example", "b.example"]);
    assert_eq!(parse_resolv_conf("").ndots, 1);
}

#[test]
fn parses_multiple_names_per_ip() {
    let entries = parse_hosts("127.0.0.1 localhost localhost.localdomain\n10.0.0.1 testhost.local testhost\n");
    assert_eq!(entries.len(), 2);
    assert_eq!(entries[1].ip, parse_ip("10.0.0.1").unwrap());
    assert_eq!(entries[1].names, vec!["testhost.local", "testhost"]);
}

#[test]
fn ignores_comments_and_blank_lines() {
    let entries = parse_hosts("# comment line\n\n10.0.0.2 realhost # trailing comment\n");
    assert_eq!(entries.len(), 1);
    assert_eq!(entries[0].names, vec!["realhost"]);
}

#[test]
fn skips_malformed_lines_without_erroring() {
    let entries = parse_hosts("not-an-ip somehost\n10.0.0.3 validhost\n");
    assert_eq!(entries.len(), 1);
    assert_eq!(entries[0].names, vec!["validhost"]);
}

#[test]
fn parses_ipv6_entries() {
    let entries = parse_hosts("::1 ip6-localhost ip6-loopback\n");
    assert_eq!(entries[0].ip, parse_ip("::1").unwrap());
    assert_eq!(entries[0].ip, IpAddr::V6(1));
}

#[test]
fn hosts_line_without_names_is_skipped() {
    assert!(parse_hosts("10.0.0.4\n").is_empty());
}

#[test]
fn gai_conf_absent_prefers_ipv6() {
    let cfg = parse_gai_conf(None);
    assert!(cfg.prefer_ipv6);
    assert!(cfg.label_rules.is_empty());
    assert!(cfg.precedence_rules.is_empty());
}

#[test]
fn gai_conf_reads_label_and_precedence_rules() {
    let cfg = parse_gai_conf(Some(
        "# policy\nlabel ::1/128 0\nprecedence ::ffff:0:0/96 100\nlabel bad x\nscopev4 ::ffff:169.254.0.0/112 2\n",
    ));
    assert!(!cfg.prefer_ipv6);
    assert_eq!(cfg.label_rules, vec![("::1/128".to_string(), 0)]);
    assert_eq!(cfg.precedence_rules, vec![("::ffff:0:0/96".to_string(), 100)]);
}

#[test]
fn gai_conf_precedence_decides_ipv6_preference() {
    assert!(!parse_gai_conf(Some("precedence ::ffff:0:0/96 100\n")).prefer_ipv6);
    assert!(parse_gai_conf(Some("precedence ::/0 40\nprecedence ::ffff:0:0/96 35\n")).prefer_ipv6);
    assert!(!parse_gai_conf(Some("precedence ::/0 40\nprecedence ::ffff:0:0/96 35\nprecedence ::/0 10\n")).prefer_ipv6);
    assert!(parse_gai_conf(Some("label ::1/128 0\n")).prefer_ipv6);
}

#[test]
fn bracket_group_with_spaces_stays_one_token() {
    match parse_nsswitch("f", "hosts: files [NOTFOUND = return] dns\n") {
        Err(ConfigError::Parse { line_no, detail, .. }) => {
            assert_eq!(line_no, 1);
            assert_eq!(detail, "unknown status 'NOTFOUND '");
        }
        other => panic!("expected a parse error, got {:?}", other),
    }
    assert!(matches!(parse_nsswitch("f", "hosts: files [ NOTFOUND=return]\n"), Err(ConfigError::Parse { .. })));
}

#[test]
fn text_after_a_closing_bracket_keeps_the_word_whole() {
    let cfg = parse_nsswitch("f", "hosts: files [FOO=return]x\n").unwrap();
    assert_eq!(cfg.hosts.len(), 2);
    assert_eq!(cfg.hosts[1].source, NssSource::Other("[FOO=return]x".to_string()));
    match parse_nsswitch("f", "hosts: files [FOO=return]x\nhosts: files [b]\n") {
        Err(ConfigError::Parse { line_no, .. }) => assert_eq!(line_no, 2),
        other => panic!("expected a parse error, got {:?}", other),
    }
}

#[test]
fn unclosed_bracket_is_an_ordinary_token() {
    let cfg = parse_nsswitch("f", "hosts: files [NOTFOUND=return dns\n").unwrap();
    assert_eq!(cfg.hosts.len(), 3);
    assert_eq!(cfg.hosts[1].source, NssSource::Other("[NOTFOUND=return".to_string()));
}
