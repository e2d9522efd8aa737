use tlock::host_view::{
    auto_resolutions, candidate_entities, entity_owner, page_ids_in_root, resolve_request, root_items,
    selectable_root_indices, EntityId, HostEntity, HostView, Resolution, UserRequest,
};
use tlock::text::{decimal_text, text_at_most};

fn host() -> HostView {
    HostView {
        event_count: 12,
        requests: vec![
            UserRequest::VaultSelection { id: 1, plugin_id: 10 },
            UserRequest::EthProviderSelection { id: 2, plugin_id: 10, chain_id: 8453 },
            UserRequest::CoordinatorSelection { id: 3, plugin_id: 11 },
        ],
        entities: vec![
            HostEntity { id: EntityId::Vault(5), owner: Some("vaulty".to_string()) },
            HostEntity { id: EntityId::Page(7), owner: Some("wallet".to_string()) },
            HostEntity { id: EntityId::EthProvider(8), owner: None },
            HostEntity { id: EntityId::EthProvider(9), owner: Some("infura".to_string()) },
            HostEntity { id: EntityId::Page(4), owner: None },
        ],
    }
}

#[test]
fn root_menu_lists_pages_after_a_heading() {
    let items = root_items(&host());
    assert_eq!(items.len(), 6);
    assert_eq!(items[0], "Load Plugin");
    assert_eq!(items[1], "Events (12)");
    assert_eq!(items[2], "Requests (3)");
    assert!(items[3].starts_with("\u{2500}\u{2500}\u{2500} Pages "));
    assert_eq!(items[4], "wallet");
    assert_eq!(items[5], "unknown");
    assert_eq!(selectable_root_indices(&host()), vec![0, 1, 2, 4, 5]);
    assert_eq!(page_ids_in_root(&host()), vec![7, 4]);
}

#[test]
fn root_menu_without_pages() {
    let h = HostView { event_count: 0, requests: vec![], entities: vec![] };
    assert_eq!(root_items(&h), vec!["Load Plugin", "Events (0)", "Requests (0)"]);
    assert_eq!(selectable_root_indices(&h), vec![0, 1, 2]);
    assert!(page_ids_in_root(&h).is_empty());
}

#[test]
fn candidates_match_the_request_kind() {
    let h = host();
    assert_eq!(candidate_entities(&h, &h.requests[0]), vec![EntityId::Vault(5)]);
    assert_eq!(candidate_entities(&h, &h.requests[1]), vec![EntityId::EthProvider(8), EntityId::EthProvider(9)]);
    assert!(candidate_entities(&h, &h.requests[2]).is_empty());
}

#[test]
fn resolutions() {
    let r = UserRequest::EthProviderSelection { id: 2, plugin_id: 1, chain_id: 1 };
    assert_eq!(
        resolve_request(&r, &EntityId::EthProvider(9)),
        Some(Resolution::EthProvider { request: 2, provider: 9 })
    );
    assert_eq!(resolve_request(&r, &EntityId::Vault(9)), None);
    assert_eq!(r.id(), 2);
    assert_eq!(r.plugin_id(), 1);
    // Only the vault request has exactly one candidate.
    assert_eq!(auto_resolutions(&host()), vec![Resolution::Vault { request: 1, vault: 5 }]);
}

#[test]
fn decimal_numbers() {
    assert_eq!(decimal_text(0), "0");
    assert_eq!(decimal_text(7), "7");
    assert_eq!(decimal_text(1234567890), "1234567890");
    assert_eq!(decimal_text(u64::MAX), u64::MAX.to_string());
}

#[test]
fn entity_owner_is_first_match() {
    let mut h = host();
    assert_eq!(entity_owner(&h, &EntityId::Vault(5)), Some("vaulty".to_string()));
    assert_eq!(entity_owner(&h, &EntityId::EthProvider(8)), None);
    assert_eq!(entity_owner(&h, &EntityId::Coordinator(1)), None);
    h.entities.push(HostEntity { id: EntityId::Vault(5), owner: Some("other".to_string()) });
    assert_eq!(entity_owner(&h, &EntityId::Vault(5)), Some("vaulty".to_string()));
}

#[test]
fn single_candidate_requests_answer_themselves() {
    let mut h = host();
    h.entities.push(HostEntity { id: EntityId::Coordinator(6), owner: None });
    assert_eq!(
        auto_resolutions(&h),
        vec![
            Resolution::Vault { request: 1, vault: 5 },
            Resolution::Coordinator { request: 3, coordinator: 6 },
        ]
    );
    h.entities.push(HostEntity { id: EntityId::Vault(15), owner: None });
    assert_eq!(auto_resolutions(&h), vec![Resolution::Coordinator { request: 3, coordinator: 6 }]);
}

#[test]
fn text_order() {
    assert!(text_at_most("", ""));
    assert!(text_at_most("", "a"));
    assert!(!text_at_most("a", ""));
    assert!(text_at_most("ab", "ab"));
    assert!(text_at_most("ab", "abc"));
    assert!(!text_at_most("abc", "ab"));
    assert!(text_at_most("B", "a"));
    assert!(!text_at_most("b", "a"));
    assert!(text_at_most("a.wasm", "a2.wasm"));
    assert!(text_at_most("z", "\u{e9}"));
}
