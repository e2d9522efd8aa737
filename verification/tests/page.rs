use tlock::page::{flatten, Component, PageItem};

fn s(x: &str) -> String {
    x.to_string()
}

fn label(item: &PageItem) -> &str {
    match item {
        PageItem::Label(t) => t.as_str(),
        _ => panic!("not a label: {item:?}"),
    }
}

#[test]
fn flattens_texts_and_identifiers() {
    let c = Component::Container {
        children: vec![
            Component::Heading { text: s("Title") },
            Component::Heading2 { text: s("Sub") },
            Component::Text { text: s("plain") },
            Component::Chain { id: s("1") },
            Component::Account { id: s("0xabc") },
            Component::Asset { id: s("ETH"), balance: Some(s("42")) },
            Component::Asset { id: s("DAI"), balance: None },
            Component::EntityId { id: s("vault-7") },
            Component::Hex { data: vec![0xde, 0xad, 0x00, 0x0f] },
        ],
    };
    let items = flatten(&c);
    let texts: Vec<&str> = items.iter().map(label).collect();
    assert_eq!(
        texts,
        vec![
            "## Title",
            "# Sub",
            "plain",
            "Chain: 1",
            "Account: 0xabc",
            "Asset: ETH  balance: 42",
            "Asset: DAI  balance: \u{2014}",
            "Entity: vault-7",
            "0xdead000f",
        ]
    );
}

#[test]
fn inputs_belong_to_their_form() {
    let c = Component::Container {
        children: vec![
            Component::TextInput { label: s("Loose"), id: s("l") },
            Component::DropdownInput { label: s("Pick"), options: vec![s("a")], id: s("p") },
            Component::SubmitInput { text: s("Go") },
            Component::Form {
                id: s("f1"),
                fields: vec![
                    Component::TextInput { label: s("Name"), id: s("name") },
                    Component::DropdownInput {
                        label: s("Chain"),
                        options: vec![s("eth"), s("op")],
                        id: s("chain"),
                    },
                    Component::Form { id: s("inner"), fields: vec![Component::SubmitInput { text: s("In") }] },
                    Component::SubmitInput { text: s("Send") },
                    Component::ButtonInput { text: s("Help"), id: s("help") },
                ],
            },
        ],
    };
    let items = flatten(&c);
    assert_eq!(items.len(), 7);
    assert_eq!(label(&items[0]), "[input: Loose]");
    assert_eq!(label(&items[1]), "[dropdown: Pick]");
    match &items[2] {
        PageItem::Input { label, id, form_id } => {
            assert_eq!((label.as_str(), id.as_str(), form_id.as_str()), ("Name", "name", "f1"))
        }
        other => panic!("{other:?}"),
    }
    match &items[3] {
        PageItem::Dropdown { label, options, id, form_id } => {
            assert_eq!(label, "Chain");
            assert_eq!(options, &vec![s("eth"), s("op")]);
            assert_eq!(id, "chain");
            assert_eq!(form_id, "f1");
        }
        other => panic!("{other:?}"),
    }
    match &items[4] {
        PageItem::Submit { text, form_id } => assert_eq!((text.as_str(), form_id.as_str()), ("In", "inner")),
        other => panic!("{other:?}"),
    }
    match &items[5] {
        PageItem::Submit { text, form_id } => assert_eq!((text.as_str(), form_id.as_str()), ("Send", "f1")),
        other => panic!("{other:?}"),
    }
    match &items[6] {
        PageItem::Button { text, id } => assert_eq!((text.as_str(), id.as_str()), ("Help", "help")),
        other => panic!("{other:?}"),
    }
    assert!(!items[0].is_interactive());
    assert!(items[2].is_interactive());
    assert!(items[6].is_interactive());
}

#[test]
fn bulleted_list_puts_key_before_item() {
    let c = Component::UnorderedList {
        items: vec![
            (s("first"), Component::Text { text: s("one") }),
            (s("second"), Component::Container { children: vec![] }),
        ],
    };
    let items = flatten(&c);
    let texts: Vec<&str> = items.iter().map(label).collect();
    assert_eq!(texts, vec!["\u{2022} first", "one", "\u{2022} second"]);
}

#[test]
fn empty_container_has_no_rows() {
    assert!(flatten(&Component::Container { children: vec![] }).is_empty());
    assert_eq!(label(&flatten(&Component::Hex { data: vec![] })[0]), "0x");
}
