use tlock::host_view::{EntityId, HostEntity, HostView, Resolution, UserRequest};
use tlock::page::{Component, PageItem};
use tlock::tui::{
    browse_title, fulfill_rows, plugin_file_rows, plugin_files, request_label, request_need, request_title, Action, App,
    FoundFile, Key, PageEvent, PluginFile, RowStyle, Screen,
};

fn s(x: &str) -> String {
    x.to_string()
}

fn host() -> HostView {
    HostView {
        event_count: 2,
        requests: vec![
            UserRequest::EthProviderSelection { id: 20, plugin_id: 1, chain_id: 10 },
            UserRequest::VaultSelection { id: 21, plugin_id: 1 },
        ],
        entities: vec![
            HostEntity { id: EntityId::Page(3), owner: Some(s("wallet")) },
            HostEntity { id: EntityId::EthProvider(8), owner: None },
            HostEntity { id: EntityId::EthProvider(9), owner: None },
        ],
    }
}

fn form_page() -> Component {
    Component::Container {
        children: vec![
            Component::Heading { text: s("Send") },
            Component::Form {
                id: s("f"),
                fields: vec![
                    Component::TextInput { label: s("To"), id: s("to") },
                    Component::DropdownInput { label: s("Chain"), options: vec![s("eth"), s("op"), s("base")], id: s("chain") },
                    Component::SubmitInput { text: s("Go") },
                ],
            },
            Component::ButtonInput { text: s("Refresh"), id: s("r") },
        ],
    }
}

fn on_page() -> App {
    let mut app = App::new();
    app.screen = Screen::Page(3);
    app.refresh_page_items(Some(&form_page()));
    app
}

#[test]
fn root_navigation_skips_the_heading() {
    let h = host();
    let mut app = App::new();
    // rows: Load Plugin, Events (2), Requests (2), heading, wallet
    let mut seen = vec![];
    for _ in 0..5 {
        app.handle_key(Key::Down, false, &h);
        seen.push(app.cursor);
    }
    assert_eq!(seen, vec![1, 2, 4, 0, 1]);
    app.handle_key(Key::Up, false, &h);
    app.handle_key(Key::Char('k'), false, &h);
    assert_eq!(app.cursor, 4);
}

#[test]
fn root_enter_opens_screens() {
    let h = host();
    let mut app = App::new();
    assert!(matches!(app.handle_key(Key::Enter, false, &h), Action::ScanPlugins));
    app.show_plugin_files(vec![PluginFile { path: s("./tui-plugins/a.wasm"), stem: Some(s("a")) }]);
    assert!(matches!(app.screen, Screen::BrowsePlugins { .. }));
    app.handle_key(Key::Esc, false, &h);
    app.cursor = 1;
    app.handle_key(Key::Enter, false, &h);
    assert!(matches!(app.screen, Screen::Events));
    app.handle_key(Key::Char('q'), false, &h);
    assert!(matches!(app.screen, Screen::Root));
    assert!(!app.should_quit);
    app.cursor = 4;
    assert!(matches!(app.handle_key(Key::Enter, false, &h), Action::LoadPage(3)));
    assert!(matches!(app.screen, Screen::Page(3)));
    assert_eq!(app.cursor, 0);
}

#[test]
fn quitting() {
    let h = host();
    let mut app = App::new();
    app.handle_key(Key::Char('q'), false, &h);
    assert!(app.should_quit);
    let mut app = on_page();
    app.handle_key(Key::Char('c'), true, &h);
    assert!(app.should_quit);
}

#[test]
fn answering_a_request() {
    let h = host();
    let mut app = App::new();
    app.cursor = 2;
    app.handle_key(Key::Enter, false, &h);
    assert!(matches!(app.screen, Screen::Requests));
    assert_eq!(app.cursor, 0);
    app.handle_key(Key::Enter, false, &h);
    assert!(matches!(app.screen, Screen::FulfillRequest { request: UserRequest::EthProviderSelection { id: 20, .. } }));
    // Two providers and the deny row; the cursor wraps.
    app.handle_key(Key::Down, false, &h);
    assert_eq!(app.cursor, 1);
    app.handle_key(Key::Down, false, &h);
    app.handle_key(Key::Down, false, &h);
    assert_eq!(app.cursor, 0);
    app.handle_key(Key::Up, false, &h);
    assert_eq!(app.cursor, 2);
    app.handle_key(Key::Up, false, &h);
    match app.handle_key(Key::Enter, false, &h) {
        Action::Resolve(r) => assert_eq!(r, Resolution::EthProvider { request: 20, provider: 9 }),
        other => panic!("{other:?}"),
    }
    assert!(matches!(app.screen, Screen::Root));
}

#[test]
fn denying_a_request() {
    let h = host();
    let mut app = App::new();
    app.screen = Screen::FulfillRequest { request: h.requests[1] };
    // No vault: the only row is the deny row.
    assert!(matches!(app.handle_key(Key::Enter, false, &h), Action::Deny(21)));
    assert!(matches!(app.screen, Screen::Root));
    app.screen = Screen::FulfillRequest { request: h.requests[1] };
    app.handle_key(Key::Esc, false, &h);
    assert!(matches!(app.screen, Screen::Requests));
}

#[test]
fn loading_a_plugin_file() {
    let h = host();
    let mut app = App::new();
    app.show_plugin_files(vec![
        PluginFile { path: s("./p/a.wasm"), stem: Some(s("a")) },
        PluginFile { path: s("./p/.wasm"), stem: None },
    ]);
    app.handle_key(Key::Char('j'), false, &h);
    assert_eq!(app.cursor, 1);
    app.handle_key(Key::Enter, false, &h);
    match &app.screen {
        Screen::LoadingPlugin { path, name } => {
            assert_eq!(path, "./p/.wasm");
            assert_eq!(name, "plugin");
        }
        other => panic!("{other:?}"),
    }
    assert!(matches!(app.handle_key(Key::Enter, false, &h), Action::Nothing));
    assert_eq!(app.begin_plugin_load(), Some((s("./p/.wasm"), s("plugin"))));
    assert!(matches!(app.screen, Screen::Root));
    assert_eq!(app.begin_plugin_load(), None);
}

#[test]
fn page_cursor_visits_controls_only() {
    let h = host();
    let mut app = on_page();
    // rows: heading, To, Chain, Go, Refresh; the cursor starts on the first control.
    assert_eq!(app.page_items.len(), 5);
    assert_eq!(app.cursor, 1);
    let mut seen = vec![];
    for _ in 0..4 {
        app.handle_key(Key::Down, false, &h);
        seen.push(app.cursor);
    }
    assert_eq!(seen, vec![2, 3, 4, 1]);
    app.handle_key(Key::Up, false, &h);
    assert_eq!(app.cursor, 4);
}

#[test]
fn dropdown_cycles_and_fills_its_field() {
    let h = host();
    let mut app = on_page();
    app.cursor = 2;
    assert_eq!(app.page_row_text(2), "Chain: < eth >");
    app.handle_key(Key::Right, false, &h);
    assert_eq!(app.page_row_text(2), "Chain: < op >");
    app.handle_key(Key::Left, false, &h);
    app.handle_key(Key::Left, false, &h);
    assert_eq!(app.page_row_text(2), "Chain: < base >");
    app.handle_key(Key::Enter, false, &h);
    assert_eq!(app.page_row_text(2), "Chain: < eth >");
    // A refresh keeps the choice that the form value names.
    app.handle_key(Key::Right, false, &h);
    app.page_refreshed(3, Some(&form_page()));
    assert_eq!(app.page_row_text(2), "Chain: < op >");
    // The refresh put the cursor back on the first control.
    assert_eq!(app.cursor, 1);
    app.cursor = 2;
    app.handle_key(Key::Right, false, &h);
    assert_eq!(app.page_row_text(2), "Chain: < base >");
}

#[test]
fn typing_into_a_field_and_submitting() {
    let h = host();
    let mut app = on_page();
    assert_eq!(app.page_row_text(1), "To: []");
    app.handle_key(Key::Enter, false, &h);
    assert!(app.input_mode);
    for c in "0xab".chars() {
        app.handle_key(Key::Char(c), false, &h);
    }
    assert_eq!(app.page_row_text(1), "To: 0xab\u{258c}");
    app.handle_key(Key::Backspace, false, &h);
    app.handle_key(Key::Char('c'), false, &h);
    app.handle_key(Key::Enter, false, &h);
    assert!(!app.input_mode);
    assert_eq!(app.page_row_text(1), "To: [0xac]");
    app.cursor = 2;
    app.handle_key(Key::Right, false, &h);
    assert_eq!(app.page_row_text(1), "To: 0xac");
    app.cursor = 3;
    match app.handle_key(Key::Enter, false, &h) {
        Action::Update(3, PageEvent::FormSubmitted(form, values)) => {
            assert_eq!(form, "f");
            assert_eq!(values.get(&s("to")), Some(&s("0xac")));
            assert_eq!(values.get(&s("chain")), Some(&s("op")));
            assert_eq!(values.get(&s("other")), None);
        }
        other => panic!("{other:?}"),
    }
    app.cursor = 4;
    assert!(matches!(
        app.handle_key(Key::Enter, false, &h),
        Action::Update(3, PageEvent::ButtonClicked(ref id)) if id == "r"
    ));
}

#[test]
fn leaving_a_page_forgets_it() {
    let h = host();
    let mut app = on_page();
    app.handle_key(Key::Enter, false, &h);
    app.handle_key(Key::Char('x'), false, &h);
    app.handle_key(Key::Esc, false, &h);
    assert!(!app.input_mode);
    app.handle_key(Key::Esc, false, &h);
    assert!(matches!(app.screen, Screen::Root));
    assert!(app.page_items.is_empty());
    assert_eq!(app.cursor, 0);
    assert_eq!(app.form_values.get(&(s("f"), s("to"))), None);
}

#[test]
fn refresh_of_another_page_is_ignored() {
    let mut app = on_page();
    app.page_refreshed(99, None);
    assert_eq!(app.page_items.len(), 5);
    app.page_refreshed(3, None);
    assert!(app.page_items.is_empty());
    assert_eq!(app.cursor, 1);
}

#[test]
fn labels_and_buttons_text() {
    let app = on_page();
    assert_eq!(app.page_row_text(0), "## Send");
    assert_eq!(app.page_row_text(3), "[ Go ]");
    assert_eq!(app.page_row_text(4), "[ Refresh ]");
    assert!(matches!(app.page_items[0], PageItem::Label(_)));
}

#[test]
fn status_bar() {
    let mut app = App::new();
    assert_eq!(app.status_line(), "  j/k: navigate  Enter: select  q: quit");
    app.status = Some(s("loaded"));
    assert_eq!(app.status_line(), "loaded    j/k: navigate  Enter: select  q: quit");
    let mut app = on_page();
    app.input_mode = true;
    assert_eq!(app.status_line(), "  Enter: confirm  Esc: cancel");
}

#[test]
fn request_texts() {
    let e = UserRequest::EthProviderSelection { id: 1, plugin_id: 2, chain_id: 8453 };
    let v = UserRequest::VaultSelection { id: 1, plugin_id: 2 };
    assert_eq!(request_label(&e), "EthProvider request for chain 8453");
    assert_eq!(request_label(&v), "Vault selection request");
    assert_eq!(request_title(&e), " Fulfill: EthProvider Request ");
    assert_eq!(request_need(&e, Some("dex")), "Plugin 'dex' needs an EthProvider for chain 8453");
    assert_eq!(request_need(&v, None), "Plugin 'unknown' needs a Vault");
}

#[test]
fn page_steps_undo_each_other() {
    let h = host();
    let mut app = on_page();
    for start in [1usize, 2, 3, 4] {
        app.cursor = start;
        app.cursor_down(&h);
        app.cursor_up(&h);
        assert_eq!(app.cursor, start);
        app.cursor_up(&h);
        app.cursor_down(&h);
        assert_eq!(app.cursor, start);
    }
    app.cursor = 4;
    app.cursor_down(&h);
    assert_eq!(app.cursor, 1);
}

#[test]
fn root_steps_undo_each_other() {
    let h = host();
    let mut app = App::new();
    for start in [0usize, 1, 2, 4] {
        app.cursor = start;
        app.cursor_down(&h);
        app.cursor_up(&h);
        assert_eq!(app.cursor, start);
        app.cursor_up(&h);
        app.cursor_down(&h);
        assert_eq!(app.cursor, start);
    }
}

#[test]
fn page_row_styles() {
    let mut app = on_page();
    app.cursor = 1;
    assert_eq!(app.page_row_style(0), RowStyle::Dim);
    assert_eq!(app.page_row_style(1), RowStyle::FieldHighlight);
    assert_eq!(app.page_row_style(2), RowStyle::Plain);
    assert_eq!(app.page_row_style(3), RowStyle::Submit);
    assert_eq!(app.page_row_style(4), RowStyle::Plain);
    app.cursor = 3;
    assert_eq!(app.page_row_style(3), RowStyle::SubmitHighlight);
    assert_eq!(app.page_row_style(1), RowStyle::Plain);
    app.cursor = 2;
    assert_eq!(app.page_row_style(2), RowStyle::Highlight);
    app.cursor = 4;
    assert_eq!(app.page_row_style(4), RowStyle::Highlight);
    app.cursor = 0;
    assert_eq!(app.page_row_style(0), RowStyle::Dim);
}

#[test]
fn fulfill_screen_rows() {
    let mut h = host();
    h.entities[1].owner = Some(s("infura"));
    let req = h.requests[0];
    let labels = vec![s("EthProvider(8)"), s("EthProvider(9)")];
    let rows = fulfill_rows(&req, Some("wallet"), &h, &labels);
    assert_eq!(
        rows,
        vec![
            s("Plugin 'wallet' needs an EthProvider for chain 10"),
            s("EthProvider(8)  (plugin: infura)"),
            s("EthProvider(9)  (plugin: unknown)"),
            s("[ Deny ]"),
        ]
    );
    let vault = h.requests[1];
    let rows = fulfill_rows(&vault, None, &h, &vec![]);
    assert_eq!(rows, vec![s("Plugin 'unknown' needs a Vault"), s("[ Deny ]")]);
}

#[test]
fn fulfill_screen_styles() {
    let h = host();
    let mut app = App::new();
    let labels = vec![s("EthProvider(8)"), s("EthProvider(9)")];
    assert!(app.fulfill_view(&h, None, &labels).is_none());
    app.screen = Screen::FulfillRequest { request: h.requests[0] };
    app.cursor = 1;
    let rows = app.fulfill_view(&h, Some("wallet"), &labels).unwrap();
    let styles: Vec<RowStyle> = rows.iter().map(|r| r.1).collect();
    assert_eq!(styles, vec![RowStyle::Dim, RowStyle::Plain, RowStyle::Highlight, RowStyle::Deny]);
    assert_eq!(rows[3].0, "[ Deny ]");
    app.cursor = 2;
    let rows = app.fulfill_view(&h, Some("wallet"), &labels).unwrap();
    let styles: Vec<RowStyle> = rows.iter().map(|r| r.1).collect();
    assert_eq!(styles, vec![RowStyle::Dim, RowStyle::Plain, RowStyle::Plain, RowStyle::DenyHighlight]);
}

#[test]
fn root_menu_styles() {
    let h = host();
    let mut app = App::new();
    let rows = app.root_view(&h);
    let styles: Vec<RowStyle> = rows.iter().map(|r| r.1).collect();
    assert_eq!(
        styles,
        vec![RowStyle::Highlight, RowStyle::Plain, RowStyle::Plain, RowStyle::Dim, RowStyle::Plain]
    );
    assert_eq!(rows[0].0, "Load Plugin");
    assert_eq!(rows[4].0, "wallet");
    app.cursor = 4;
    let styles: Vec<RowStyle> = app.root_view(&h).iter().map(|r| r.1).collect();
    assert_eq!(
        styles,
        vec![RowStyle::Plain, RowStyle::Plain, RowStyle::Plain, RowStyle::Dim, RowStyle::Highlight]
    );
}

#[test]
fn request_list_styles() {
    let h = host();
    let mut app = App::new();
    app.screen = Screen::Requests;
    app.cursor = 1;
    let rows = app.requests_view(&h);
    assert_eq!(
        rows,
        vec![
            (s("EthProvider request for chain 10"), RowStyle::Plain),
            (s("Vault selection request"), RowStyle::Highlight),
        ]
    );
}

#[test]
fn plugin_list_view() {
    let mut app = App::new();
    assert!(app.browse_view("./p").is_none());
    app.show_plugin_files(vec![]);
    assert_eq!(app.browse_view("./p").unwrap(), vec![(s("No .wasm files found in ./p"), RowStyle::Dim)]);
    app.show_plugin_files(vec![
        PluginFile { path: s("./p/a.wasm"), stem: Some(s("a")) },
        PluginFile { path: s("./p/b.wasm"), stem: Some(s("b")) },
    ]);
    app.cursor = 1;
    assert_eq!(
        app.browse_view("./p").unwrap(),
        vec![(s("a"), RowStyle::Plain), (s("b"), RowStyle::Highlight)]
    );
    assert_eq!(browse_title("./p"), " Load Plugin  (./p)");
}

#[test]
fn plugin_list_rows() {
    let files = vec![
        PluginFile { path: s("./p/a.wasm"), stem: Some(s("a")) },
        PluginFile { path: s("./p/.wasm"), stem: None },
    ];
    assert_eq!(plugin_file_rows(&files, "./p"), vec![s("a"), s("?")]);
    assert_eq!(plugin_file_rows(&vec![], "./p"), vec![s("No .wasm files found in ./p")]);
}

#[test]
fn plugin_files_keep_wasm_sorted() {
    let entry = |path: &str, ext: Option<&str>, stem: &str| FoundFile {
        path: s(path),
        extension: ext.map(s),
        stem: Some(s(stem)),
    };
    let found = vec![
        entry("d/zeta.wasm", Some("wasm"), "zeta"),
        entry("d/notes.txt", Some("txt"), "notes"),
        entry("d/alpha.wasm", Some("wasm"), "alpha"),
        entry("d/README", None, "README"),
        entry("d/Beta.wasm", Some("wasm"), "Beta"),
        entry("d/alpha2.wasm", Some("wasm"), "alpha2"),
        entry("d/x.WASM", Some("WASM"), "x"),
    ];
    let files = plugin_files(found);
    let paths: Vec<&str> = files.iter().map(|f| f.path.as_str()).collect();
    assert_eq!(paths, vec!["d/Beta.wasm", "d/alpha.wasm", "d/alpha2.wasm", "d/zeta.wasm"]);
    assert_eq!(files[1].stem, Some(s("alpha")));
    assert!(plugin_files(vec![]).is_empty());
}
