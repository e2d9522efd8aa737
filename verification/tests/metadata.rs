use tlock::metadata::{Decentralization, Openness, PluginMetadata, Privacy, Security, TrustChannel};

fn named(name: &str, version: &str) -> PluginMetadata {
    let mut m = PluginMetadata::default();
    m.name = name.to_string();
    m.version = version.to_string();
    m
}

#[test]
fn default_is_pessimistic() {
    let m = PluginMetadata::default();
    assert!(!m.openness.open_source);
    assert!(!m.security.audited_contract);
    assert!(m.privacy.reports_data);
    assert!(m.decentralization.relies_on_centralized_infrastructure);
    assert!(m.has_restrictions());
    assert_eq!(m.trust_channel(), TrustChannel::Untrusted);
}

#[test]
fn trusted_channel_requires_all_criteria() {
    // A manifest that declares these fields; every other field keeps its default.
    let mut m = named("vault", "1.0.0");
    m.openness = Openness { open_source: true, license: Some("MIT".to_string()), repository_url: None };
    m.security.audited_contract = true;
    m.security.bug_bounty = true;
    m.privacy.reports_data = false;
    m.decentralization.relies_on_centralized_infrastructure = false;
    m.decentralization.single_operator_risk = false;
    assert!(!m.has_restrictions());
    assert_eq!(m.trust_channel(), TrustChannel::Trusted);
}

#[test]
fn open_but_unaudited_is_restricted() {
    let mut m = named("swap", "2.0.0");
    m.openness.open_source = true;
    m.privacy.reports_data = false;
    m.decentralization.relies_on_centralized_infrastructure = false;
    m.decentralization.single_operator_risk = false;
    assert_eq!(m.trust_channel(), TrustChannel::Restricted);
}

#[test]
fn single_operator_keeps_plugin_out_of_trusted() {
    let m = PluginMetadata {
        name: "x".to_string(),
        version: "1".to_string(),
        description: String::new(),
        openness: Openness { open_source: true, license: None, repository_url: None },
        security: Security {
            audited_contract: true,
            audit_reports: vec![],
            safe_harbor: false,
            bug_bounty: false,
            bug_bounty_url: None,
        },
        privacy: Privacy { reports_data: false, data_collected: vec![], privacy_policy_url: None },
        decentralization: Decentralization {
            relies_on_centralized_infrastructure: false,
            centralized_providers: vec![],
            single_operator_risk: true,
        },
    };
    // No restriction, yet one operator can halt it: restricted, not trusted.
    assert!(!m.has_restrictions());
    assert_eq!(m.trust_channel(), TrustChannel::Restricted);
}

#[test]
fn closed_source_is_untrusted_even_when_audited() {
    let mut m = named("closed", "1.0.0");
    m.security.audited_contract = true;
    m.privacy.reports_data = false;
    m.decentralization.relies_on_centralized_infrastructure = false;
    m.decentralization.single_operator_risk = false;
    assert!(m.has_restrictions());
    assert_eq!(m.trust_channel(), TrustChannel::Untrusted);
}

#[test]
fn each_restriction_is_reported() {
    let mut base = named("p", "1");
    base.openness.open_source = true;
    base.security.audited_contract = true;
    base.privacy.reports_data = false;
    base.decentralization.relies_on_centralized_infrastructure = false;
    assert!(!base.has_restrictions());

    let mut m = base.clone();
    m.openness.open_source = false;
    assert!(m.has_restrictions());
    let mut m = base.clone();
    m.security.audited_contract = false;
    assert!(m.has_restrictions());
    let mut m = base.clone();
    m.privacy.reports_data = true;
    assert!(m.has_restrictions());
    let mut m = base.clone();
    m.decentralization.relies_on_centralized_infrastructure = true;
    assert!(m.has_restrictions());
}

#[test]
fn default_sections_are_empty() {
    let m = PluginMetadata::default();
    assert_eq!(m.name, "");
    assert!(m.openness.license.is_none());
    assert!(m.security.audit_reports.is_empty());
    assert!(m.privacy.data_collected.is_empty());
    assert!(m.decentralization.single_operator_risk);
}
