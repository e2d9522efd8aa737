use tlock::hdk_metadata::{yes_no, MetadataProvider, PluginMetadata};

fn lines(v: &[&str]) -> String {
    let mut out = String::new();
    for l in v {
        out.push_str(l);
        out.push('\n');
    }
    out
}

struct TemplatePluginMetadata;

impl MetadataProvider for TemplatePluginMetadata {
    fn metadata(&self) -> PluginMetadata {
        PluginMetadata::new()
            .open_source(true)
            .audited_contract(false)
            .safe_harbor(false)
            .bug_bounty(false)
            .centralized_infrastructure(false)
            .reports_data(false)
            .source_url("https://github.com/Robert-MacWha/lodgelock".to_string())
            .license("MIT".to_string())
            .version("0.1.0".to_string())
            .description("Plugin template for the LodgeLock ecosystem.".to_string())
    }
}

#[test]
fn new_declares_nothing() {
    let m = PluginMetadata::new();
    assert_eq!(m, PluginMetadata::default());
    assert!(!m.open_source);
    assert!(m.centralized_services.is_empty());
    assert!(m.license.is_none());
    assert!(!m.is_fully_decentralized());
}

#[test]
fn template_metadata_renders() {
    let m = TemplatePluginMetadata.metadata();
    assert!(!m.is_fully_decentralized());
    let expected = lines(&[
        "Plugin Metadata:",
        "  Description: Plugin template for the LodgeLock ecosystem.",
        "  Version: 0.1.0",
        "  License: MIT",
        "  Open Source: yes",
        "  Audited Contract: no",
        "  Safe Harbor: no",
        "  Bug Bounty: no",
        "  Centralized Infrastructure: no",
        "  Reports Data: no",
        "  Source URL: https://github.com/Robert-MacWha/lodgelock",
    ]);
    assert_eq!(m.display_text(), expected);
}

#[test]
fn fully_decentralized_needs_all_four() {
    let m = PluginMetadata::new().open_source(true).audited_contract(true);
    assert!(m.is_fully_decentralized());
    assert!(!m.clone().reports_data(true).is_fully_decentralized());
    assert!(!m.clone().centralized_infrastructure(true).is_fully_decentralized());
    assert!(!m.clone().open_source(false).is_fully_decentralized());
    assert!(!m.audited_contract(false).is_fully_decentralized());
}

#[test]
fn centralized_service_marks_infrastructure() {
    let m = PluginMetadata::new()
        .open_source(true)
        .audited_contract(true)
        .centralized_service("aws".to_string())
        .centralized_service("cloudflare".to_string());
    assert!(m.centralized_infrastructure);
    assert_eq!(m.centralized_services, vec!["aws".to_string(), "cloudflare".to_string()]);
    assert!(!m.is_fully_decentralized());
    let text = m.display_text();
    assert!(text.contains("  Centralized Infrastructure: yes\n"));
    assert!(text.contains("  Centralized Services: aws, cloudflare\n"));
}

#[test]
fn named_service_keeps_plugin_centralized() {
    let m = PluginMetadata::new()
        .open_source(true)
        .audited_contract(true)
        .centralized_service("aws".to_string())
        .centralized_infrastructure(false);
    assert!(!m.centralized_infrastructure);
    assert!(!m.is_fully_decentralized());
}

#[test]
fn optional_texts_render_only_when_present() {
    let m = PluginMetadata::new()
        .reports_data(true)
        .data_reporting_description("usage counts".to_string())
        .audit_url("https://audit".to_string())
        .bug_bounty_url("https://bounty".to_string())
        .safe_harbor(true)
        .bug_bounty(true);
    let expected = lines(&[
        "Plugin Metadata:",
        "  Open Source: no",
        "  Audited Contract: no",
        "  Safe Harbor: yes",
        "  Bug Bounty: yes",
        "  Centralized Infrastructure: no",
        "  Reports Data: yes",
        "  Data Reporting: usage counts",
        "  Audit URL: https://audit",
        "  Bug Bounty URL: https://bounty",
    ]);
    assert_eq!(m.display_text(), expected);
}

#[test]
fn yes_no_words() {
    assert_eq!(yes_no(true), "yes");
    assert_eq!(yes_no(false), "no");
}
