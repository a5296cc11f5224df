use cool_ns::config::{get_config, set_config, Coin, Config};
use cool_ns::contract::{execute, instantiate, new_deployment, query};
use cool_ns::digest::canonical_form;
use cool_ns::error::{ErrorKind, RegistryError};
use cool_ns::execute::{fee_is_covered, try_register_name, try_set_owner, try_set_value};
use cool_ns::message::{
    CoolNSExecuteMessage, CoolNSInstantiateMessage, CoolNSQueryMessage, MessageInfo, Response,
};
use cool_ns::registry::{NameRecord, NameRegistry};
use cosmwasm_std::testing::{mock_dependencies, mock_info, MockStorage};
use cosmwasm_std::Storage;

const H0: &str = "ZFGOXUGDGTSG3ERIL47L273QK6XJP2PADEM7TGE2MUDZNG6UAUMA";

fn text(s: &str) -> String {
    String::from(s)
}

fn coin(amount: u128, denom: &str) -> Coin {
    Coin {
        denom: text(denom),
        amount,
    }
}

fn sent_by(sender: &str, funds: Vec<Coin>) -> MessageInfo {
    MessageInfo {
        sender: text(sender),
        funds,
    }
}

fn entries(storage: &MockStorage) -> Vec<(Vec<u8>, Vec<u8>)> {
    storage
        .range(None, None, cosmwasm_std::Order::Ascending)
        .collect()
}

fn free_store() -> MockStorage {
    let mut storage = MockStorage::default();
    set_config(
        &mut storage,
        Config {
            registration_fee: None,
            allowed_tlds: vec![text("rad")],
        },
    )
    .unwrap();
    storage
}

#[test]
fn it_can_set_a_value_for_a_registered_name() {
    let mut deps = mock_dependencies();
    let info = mock_info("foo", &[]);
    let info = MessageInfo {
        sender: info.sender.into_string(),
        funds: Vec::new(),
    };

    let name = String::from("cdata");
    let tld = String::from("rad");

    set_config(
        &mut deps.storage,
        Config {
            registration_fee: None,
            allowed_tlds: [String::from("rad")].into(),
        },
    )
    .unwrap();

    try_register_name(&mut deps.storage, &info, &name, &tld).unwrap();
    try_set_value(
        &mut deps.storage,
        &info,
        &name,
        &tld,
        Some(String::from("bar")),
    )
    .unwrap();
}

#[test]
fn register_then_set_value_then_resolve_the_lineage() {
    let mut storage = free_store();
    let a = sent_by("foo", vec![]);
    let name = text("cdata");
    let tld = text("rad");

    let registered = try_register_name(&mut storage, &a, &name, &tld).unwrap();
    assert_eq!(registered, Response { data: None });
    let registry = NameRegistry::new(&tld);
    assert_eq!(
        registry.try_resolve_name(&storage, &name).unwrap(),
        NameRecord {
            owner: text("foo"),
            value: None,
            lineage: None
        }
    );

    let changed = try_set_value(&mut storage, &a, &name, &tld, Some(text("bar"))).unwrap();
    assert_eq!(
        changed.data,
        Some(NameRecord {
            owner: text("foo"),
            value: Some(text("bar")),
            lineage: Some(text(H0))
        })
    );
    assert_eq!(
        registry.try_resolve_lineage(&storage, &text(H0)).unwrap(),
        NameRecord {
            owner: text("foo"),
            value: None,
            lineage: None
        }
    );
}

#[test]
fn a_registration_fee_must_be_covered() {
    let mut storage = MockStorage::default();
    set_config(
        &mut storage,
        Config {
            registration_fee: Some(coin(100, "urad")),
            allowed_tlds: vec![text("rad")],
        },
    )
    .unwrap();
    let name = text("cdata");
    let tld = text("rad");
    let before = entries(&storage);

    let unpaid = try_register_name(&mut storage, &sent_by("foo", vec![]), &name, &tld);
    assert_eq!(unpaid, Err(RegistryError::InsufficientPayment));
    assert_eq!(unpaid.unwrap_err().kind(), ErrorKind::Validation);

    let short = try_register_name(
        &mut storage,
        &sent_by("foo", vec![coin(90, "urad")]),
        &name,
        &tld,
    );
    assert_eq!(short, Err(RegistryError::InsufficientPayment));
    assert_eq!(entries(&storage), before);

    let paid = try_register_name(
        &mut storage,
        &sent_by("foo", vec![coin(100, "urad")]),
        &name,
        &tld,
    );
    assert_eq!(paid, Ok(Response { data: None }));
    let registry = NameRegistry::new(&tld);
    assert_eq!(
        registry.try_resolve_name(&storage, &name).unwrap().owner,
        "foo"
    );
}

#[test]
fn any_one_sufficient_coin_covers_the_fee() {
    let fee = coin(100, "urad");
    assert!(!fee_is_covered(&fee, &vec![]));
    assert!(!fee_is_covered(&fee, &vec![coin(99, "urad")]));
    assert!(fee_is_covered(&fee, &vec![coin(100, "urad")]));
    assert!(fee_is_covered(&fee, &vec![coin(101, "urad")]));
    assert!(!fee_is_covered(&fee, &vec![coin(1000, "ubtc")]));
    assert!(!fee_is_covered(
        &fee,
        &vec![coin(60, "urad"), coin(60, "urad")]
    ));
    assert!(fee_is_covered(
        &fee,
        &vec![coin(1, "urad"), coin(1000, "ubtc"), coin(100, "urad")]
    ));
    assert!(fee_is_covered(&coin(0, "urad"), &vec![coin(0, "urad")]));
    assert!(!fee_is_covered(&coin(0, "urad"), &vec![]));
    assert!(fee_is_covered(
        &coin(u128::MAX, "urad"),
        &vec![coin(u128::MAX, "urad")]
    ));
}

#[test]
fn the_namespace_is_checked_before_the_fee() {
    let mut storage = MockStorage::default();
    set_config(
        &mut storage,
        Config {
            registration_fee: Some(coin(100, "urad")),
            allowed_tlds: vec![text("rad")],
        },
    )
    .unwrap();
    assert_eq!(
        try_register_name(
            &mut storage,
            &sent_by("foo", vec![]),
            &text("cdata"),
            &text("com")
        ),
        Err(RegistryError::UnknownTld)
    );
}

#[test]
fn nothing_works_without_settings() {
    let mut storage = MockStorage::default();
    let a = sent_by("foo", vec![]);
    assert_eq!(
        try_register_name(&mut storage, &a, &text("cdata"), &text("rad")),
        Err(RegistryError::ConfigNotFound)
    );
    assert_eq!(
        try_set_value(&mut storage, &a, &text("cdata"), &text("rad"), None),
        Err(RegistryError::ConfigNotFound)
    );
    assert_eq!(
        try_set_owner(&mut storage, &a, &text("cdata"), &text("rad"), text("baz")),
        Err(RegistryError::ConfigNotFound)
    );
    assert_eq!(
        RegistryError::ConfigNotFound.kind(),
        ErrorKind::NotFound
    );
    assert!(entries(&storage).is_empty());
}

#[test]
fn an_unknown_namespace_is_refused() {
    let mut storage = free_store();
    let a = sent_by("foo", vec![]);
    let before = entries(&storage);
    assert_eq!(
        try_register_name(&mut storage, &a, &text("cdata"), &text("com")),
        Err(RegistryError::UnknownTld)
    );
    assert_eq!(
        try_set_value(&mut storage, &a, &text("cdata"), &text("com"), None),
        Err(RegistryError::UnknownTld)
    );
    assert_eq!(
        try_set_owner(&mut storage, &a, &text("cdata"), &text("com"), text("baz")),
        Err(RegistryError::UnknownTld)
    );
    assert_eq!(
        try_register_name(&mut storage, &a, &text("cdata"), &text("ra")),
        Err(RegistryError::UnknownTld)
    );
    assert_eq!(entries(&storage), before);
}

#[test]
fn a_name_cannot_be_registered_twice() {
    let mut storage = free_store();
    let name = text("cdata");
    let tld = text("rad");
    try_register_name(&mut storage, &sent_by("foo", vec![]), &name, &tld).unwrap();
    let before = entries(&storage);
    assert_eq!(
        try_register_name(&mut storage, &sent_by("foo", vec![]), &name, &tld),
        Err(RegistryError::AlreadyRegistered)
    );
    assert_eq!(
        try_register_name(&mut storage, &sent_by("baz", vec![]), &name, &tld),
        Err(RegistryError::AlreadyRegistered)
    );
    assert_eq!(entries(&storage), before);
}

#[test]
fn only_the_owner_may_change_a_name() {
    let mut storage = free_store();
    let name = text("cdata");
    let tld = text("rad");
    try_register_name(&mut storage, &sent_by("foo", vec![]), &name, &tld).unwrap();
    let before = entries(&storage);
    let stranger = sent_by("baz", vec![]);

    let refused = try_set_value(&mut storage, &stranger, &name, &tld, Some(text("bar")));
    assert_eq!(refused, Err(RegistryError::NotOwner));
    assert_eq!(refused.unwrap_err().kind(), ErrorKind::Authorization);
    assert_eq!(
        try_set_owner(&mut storage, &stranger, &name, &tld, text("baz")),
        Err(RegistryError::NotOwner)
    );
    assert_eq!(
        try_set_value(&mut storage, &stranger, &name, &tld, Some("x".repeat(300))),
        Err(RegistryError::NotOwner)
    );
    assert_eq!(entries(&storage), before);
}

#[test]
fn a_new_owner_takes_over() {
    let mut storage = free_store();
    let name = text("cdata");
    let tld = text("rad");
    let a = sent_by("foo", vec![]);
    let b = sent_by("baz", vec![]);
    try_register_name(&mut storage, &a, &name, &tld).unwrap();
    try_set_value(&mut storage, &a, &name, &tld, Some(text("bar"))).unwrap();
    let handed = try_set_owner(&mut storage, &a, &name, &tld, text("baz")).unwrap();
    let record = handed.data.unwrap();
    assert_eq!(record.owner, "baz");
    assert_eq!(record.value, Some(text("bar")));

    assert_eq!(
        try_set_value(&mut storage, &a, &name, &tld, None),
        Err(RegistryError::NotOwner)
    );
    let cleared = try_set_value(&mut storage, &b, &name, &tld, None).unwrap();
    assert_eq!(cleared.data.unwrap().value, None);
}

#[test]
fn changing_an_unregistered_name_fails() {
    let mut storage = free_store();
    let a = sent_by("foo", vec![]);
    let before = entries(&storage);
    assert_eq!(
        try_set_value(&mut storage, &a, &text("cdata"), &text("rad"), None),
        Err(RegistryError::NameNotFound)
    );
    assert_eq!(
        try_set_owner(&mut storage, &a, &text("cdata"), &text("rad"), text("baz")),
        Err(RegistryError::NameNotFound)
    );
    assert_eq!(entries(&storage), before);
}

#[test]
fn the_owner_cannot_set_a_value_that_is_too_long() {
    let mut storage = free_store();
    let name = text("cdata");
    let tld = text("rad");
    let a = sent_by("foo", vec![]);
    try_register_name(&mut storage, &a, &name, &tld).unwrap();
    let before = entries(&storage);
    let refused = try_set_value(&mut storage, &a, &name, &tld, Some("x".repeat(257)));
    assert_eq!(refused, Err(RegistryError::ValueTooLong));
    assert_eq!(refused.unwrap_err().kind(), ErrorKind::Validation);
    assert_eq!(entries(&storage), before);
    assert!(try_set_value(&mut storage, &a, &name, &tld, Some("x".repeat(256))).is_ok());
}

#[test]
fn a_change_writes_two_entries() {
    let mut storage = free_store();
    let name = text("cdata");
    let tld = text("rad");
    let a = sent_by("foo", vec![]);
    try_register_name(&mut storage, &a, &name, &tld).unwrap();
    assert_eq!(entries(&storage).len(), 2);
    try_set_value(&mut storage, &a, &name, &tld, Some(text("bar"))).unwrap();
    assert_eq!(entries(&storage).len(), 3);
    try_set_owner(&mut storage, &a, &name, &tld, text("baz")).unwrap();
    assert_eq!(entries(&storage).len(), 4);
}

#[test]
fn the_canonical_text_joins_three_parts() {
    assert_eq!(canonical_form("foo", "None", "None"), "foo.None.None");
    assert_eq!(
        canonical_form("a.b", "Some(\"x\")", ""),
        "a.b.Some(\"x\")."
    );
    assert_eq!(canonical_form("", "", ""), "..");
}

#[test]
fn requests_are_dispatched() {
    let mut storage = MockStorage::default();
    let set_up = instantiate(
        &mut storage,
        CoolNSInstantiateMessage {
            registration_fee: Some(coin(5, "urad")),
            allowed_tlds: vec![text("rad"), text("dev")],
        },
    );
    assert_eq!(set_up, Ok(Response { data: None }));
    assert_eq!(
        get_config(&storage),
        Ok(Config {
            registration_fee: Some(coin(5, "urad")),
            allowed_tlds: vec![text("rad"), text("dev")],
        })
    );

    let a = sent_by("foo", vec![coin(5, "urad")]);
    assert_eq!(
        execute(
            &mut storage,
            a.clone(),
            CoolNSExecuteMessage::Register {
                name: text("cdata"),
                tld: text("dev")
            }
        ),
        Ok(Response { data: None })
    );
    assert_eq!(
        execute(
            &mut storage,
            sent_by("foo", vec![]),
            CoolNSExecuteMessage::Register {
                name: text("other"),
                tld: text("dev")
            }
        ),
        Err(RegistryError::InsufficientPayment)
    );
    let changed = execute(
        &mut storage,
        sent_by("foo", vec![]),
        CoolNSExecuteMessage::SetValue {
            name: text("cdata"),
            tld: text("dev"),
            value: Some(text("bar")),
        },
    )
    .unwrap();
    assert_eq!(
        changed.data,
        Some(NameRecord {
            owner: text("foo"),
            value: Some(text("bar")),
            lineage: Some(text(H0))
        })
    );
    let handed = execute(
        &mut storage,
        sent_by("foo", vec![]),
        CoolNSExecuteMessage::SetOwner {
            name: text("cdata"),
            tld: text("dev"),
            owner: text("baz"),
        },
    )
    .unwrap();
    assert_eq!(handed.data.as_ref().unwrap().owner, "baz");
    assert_eq!(
        execute(
            &mut storage,
            sent_by("foo", vec![]),
            CoolNSExecuteMessage::SetOwner {
                name: text("cdata"),
                tld: text("dev"),
                owner: text("foo"),
            },
        ),
        Err(RegistryError::NotOwner)
    );

    assert_eq!(
        query(
            &storage,
            CoolNSQueryMessage::ResolveName {
                name: text("cdata"),
                tld: text("dev")
            }
        ),
        Ok(handed.data.unwrap())
    );
    assert_eq!(
        query(
            &storage,
            CoolNSQueryMessage::ResolveLineage {
                tld: text("dev"),
                lineage: text(H0)
            }
        ),
        Ok(NameRecord::initial(&text("foo")))
    );
    assert_eq!(
        query(
            &storage,
            CoolNSQueryMessage::ResolveLineage {
                tld: text("rad"),
                lineage: text(H0)
            }
        ),
        Err(RegistryError::LineageNotFound)
    );
    assert_eq!(
        query(
            &storage,
            CoolNSQueryMessage::ResolveName {
                name: text("cdata"),
                tld: text("rad")
            }
        ),
        Err(RegistryError::NameNotFound)
    );
    assert_eq!(
        query(
            &storage,
            CoolNSQueryMessage::ResolveLineage {
                tld: text("dev"),
                lineage: text("?")
            }
        ),
        Err(RegistryError::MalformedLineage)
    );
}

#[test]
fn a_query_needs_no_settings() {
    let mut storage = MockStorage::default();
    let tld = text("rad");
    let mut registry = NameRegistry::new(&tld);
    registry
        .try_register(&mut storage, &text("cdata"), &text("foo"))
        .unwrap();
    assert_eq!(
        query(
            &storage,
            CoolNSQueryMessage::ResolveName {
                name: text("cdata"),
                tld: text("rad")
            }
        ),
        Ok(NameRecord::initial(&text("foo")))
    );
}

#[test]
fn a_new_deployment_holds_its_settings_and_nothing_else() {
    let mut storage = new_deployment(CoolNSInstantiateMessage {
        registration_fee: Some(coin(5, "urad")),
        allowed_tlds: vec![text("rad")],
    });
    assert_eq!(entries(&storage).len(), 1);
    assert!(storage.get(b"\x00\x06config").is_some());
    assert_eq!(
        get_config(&storage),
        Ok(Config {
            registration_fee: Some(coin(5, "urad")),
            allowed_tlds: vec![text("rad")],
        })
    );
    let tld = text("rad");
    let registry = NameRegistry::new(&tld);
    assert!(!registry.name_is_registered(&storage, &text("cdata")));
    assert_eq!(
        try_register_name(
            &mut storage,
            &sent_by("foo", vec![coin(5, "urad")]),
            &text("cdata"),
            &tld
        ),
        Ok(Response { data: None })
    );
    assert!(registry.name_is_registered(&storage, &text("cdata")));
}

#[test]
fn instantiating_twice_keeps_the_later_settings() {
    let mut storage = MockStorage::default();
    instantiate(
        &mut storage,
        CoolNSInstantiateMessage {
            registration_fee: None,
            allowed_tlds: vec![text("rad")],
        },
    )
    .unwrap();
    let later = CoolNSInstantiateMessage {
        registration_fee: Some(coin(1, "urad")),
        allowed_tlds: vec![text("dev"), "x".repeat(70000)],
    };
    assert_eq!(instantiate(&mut storage, later), Ok(Response { data: None }));
    assert_eq!(
        get_config(&storage),
        Ok(Config {
            registration_fee: Some(coin(1, "urad")),
            allowed_tlds: vec![text("dev"), "x".repeat(70000)],
        })
    );
    assert_eq!(entries(&storage).len(), 1);
}
