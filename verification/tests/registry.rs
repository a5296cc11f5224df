use cool_ns::error::{ErrorKind, RegistryError};
use cool_ns::registry::{exceeds_max_len, tld_is_usable, NameRecord, NameRegistry};
use cosmwasm_std::testing::{mock_info, MockStorage};
use cosmwasm_std::Storage;

const H0: &str = "ZFGOXUGDGTSG3ERIL47L273QK6XJP2PADEM7TGE2MUDZNG6UAUMA";
const H1: &str = "6YCJSEKDA5UPY5SX3VH7WMNU74GSHNHAAJXGKECIUYG4O4H2A27Q";
const H2: &str = "5UGZPGEUVWLVIU4XODQ2HAZKWBL63ECMCNUX34WVAS3G4WNMFGMA";

fn text(s: &str) -> String {
    String::from(s)
}

fn name_key(tld: &str, name: &str) -> Vec<u8> {
    let namespace = format!("{}_name_registry", tld);
    let mut key = vec![0u8, namespace.len() as u8];
    key.extend_from_slice(namespace.as_bytes());
    key.extend_from_slice(name.as_bytes());
    key
}

fn lineage_key(tld: &str, digest: &[u8]) -> Vec<u8> {
    let namespace = format!("{}_name_lineage", tld);
    let mut key = vec![0u8, namespace.len() as u8];
    key.extend_from_slice(namespace.as_bytes());
    key.extend_from_slice(digest);
    key
}

#[test]
fn it_can_register_a_name() {
    let mut storage = MockStorage::default();
    let info = mock_info("foo", &[]);
    let sender = info.sender.into_string();

    let name = String::from("cdata");
    let tld = String::from("rad");
    let mut name_registry = NameRegistry::new(&tld);

    name_registry
        .try_register(&mut storage, &name, &sender)
        .unwrap();

    let name_record = name_registry.try_resolve_name(&storage, &name).unwrap();

    assert_eq!(name_record.owner, sender);
}

#[test]
fn it_can_set_a_value_for_a_name() {
    let mut storage = MockStorage::default();
    let info = mock_info("foo", &[]);
    let sender = info.sender.into_string();

    let name = String::from("cdata");
    let tld = String::from("rad");
    let value = String::from("bar");

    let mut name_registry = NameRegistry::new(&tld);

    name_registry
        .try_register(&mut storage, &name, &sender)
        .unwrap();

    let name_record = name_registry
        .try_set_value(&mut storage, &name, Some(value.clone()))
        .unwrap();

    println!("Name record: {:#?}", name_record);

    assert_eq!(name_record.value, Some(value));
}

#[test]
fn a_fresh_registration_has_no_value_and_no_lineage() {
    let mut storage = MockStorage::default();
    let tld = text("rad");
    let mut registry = NameRegistry::new(&tld);
    assert!(!registry.name_is_registered(&storage, &text("cdata")));
    registry
        .try_register(&mut storage, &text("cdata"), &text("foo"))
        .unwrap();
    assert!(registry.name_is_registered(&storage, &text("cdata")));
    assert!(!registry.name_is_registered(&storage, &text("cdat")));
    let record = registry.try_resolve_name(&storage, &text("cdata")).unwrap();
    assert_eq!(
        record,
        NameRecord {
            owner: text("foo"),
            value: None,
            lineage: None
        }
    );
}

#[test]
fn a_registration_writes_the_name_table_only() {
    let mut storage = MockStorage::default();
    let tld = text("rad");
    let mut registry = NameRegistry::new(&tld);
    registry
        .try_register(&mut storage, &text("cdata"), &text("foo"))
        .unwrap();
    let stored = storage.get(&name_key("rad", "cdata")).unwrap();
    assert_eq!(stored, vec![3u8, 0, 0, 0, 0, 0, 0, 0, b'f', b'o', b'o', 0, 0]);
    let digest = NameRecord::initial(&text("foo")).hash();
    assert_eq!(storage.get(&lineage_key("rad", &digest)), None);
    assert_eq!(
        registry.try_resolve_lineage(&storage, &text(H0)),
        Err(RegistryError::LineageNotFound)
    );
}

#[test]
fn registering_twice_fails_whoever_asks() {
    let mut storage = MockStorage::default();
    let tld = text("rad");
    let mut registry = NameRegistry::new(&tld);
    registry
        .try_register(&mut storage, &text("cdata"), &text("foo"))
        .unwrap();
    assert_eq!(
        registry.try_register(&mut storage, &text("cdata"), &text("foo")),
        Err(RegistryError::AlreadyRegistered)
    );
    assert_eq!(
        registry.try_register(&mut storage, &text("cdata"), &text("mallory")),
        Err(RegistryError::AlreadyRegistered)
    );
    let record = registry.try_resolve_name(&storage, &text("cdata")).unwrap();
    assert_eq!(record.owner, "foo");
}

#[test]
fn namespaces_are_independent() {
    let mut storage = MockStorage::default();
    let rad = text("rad");
    let dev = text("dev");
    let mut in_rad = NameRegistry::new(&rad);
    let mut in_dev = NameRegistry::new(&dev);
    in_rad
        .try_register(&mut storage, &text("cdata"), &text("foo"))
        .unwrap();
    assert!(!in_dev.name_is_registered(&storage, &text("cdata")));
    assert_eq!(
        in_dev.try_resolve_name(&storage, &text("cdata")),
        Err(RegistryError::NameNotFound)
    );
    in_dev
        .try_register(&mut storage, &text("cdata"), &text("baz"))
        .unwrap();
    assert_eq!(
        in_rad
            .try_resolve_name(&storage, &text("cdata"))
            .unwrap()
            .owner,
        "foo"
    );
    assert_eq!(
        in_dev
            .try_resolve_name(&storage, &text("cdata"))
            .unwrap()
            .owner,
        "baz"
    );
}

#[test]
fn the_hash_is_the_sha256_of_the_canonical_text() {
    let record = NameRecord::initial(&text("foo"));
    assert_eq!(
        record.hash(),
        vec![
            201u8, 76, 235, 208, 195, 52, 228, 109, 146, 40, 95, 62, 189, 127, 112, 87, 174, 151,
            233, 224, 25, 25, 249, 152, 154, 101, 7, 150, 155, 212, 5, 24
        ]
    );
    let with_value = NameRecord {
        owner: text("foo"),
        value: Some(text("bar")),
        lineage: None,
    };
    assert_eq!(
        base32::encode(
            base32::Alphabet::RFC4648 { padding: false },
            &with_value.hash()
        ),
        "GLZXORDGO4WWM6D7VXQQ4G6FPEN66NDVLSJO47UMNFVMYLMJZS5Q"
    );
    let escaped = NameRecord {
        owner: text("foo"),
        value: Some(text("a\"b\n")),
        lineage: None,
    };
    assert_eq!(
        base32::encode(base32::Alphabet::RFC4648 { padding: false }, &escaped.hash()),
        "2URR3TGPO35UFFLX7U52MKKG7MYBAINFTSP5A4ATYT6HTBPUEULA"
    );
}

#[test]
fn equal_records_have_equal_hashes() {
    let a = NameRecord {
        owner: text("foo"),
        value: Some(text("bar")),
        lineage: Some(text(H0)),
    };
    let b = a.clone();
    assert_eq!(a, b);
    assert_eq!(a.hash(), b.hash());
    assert_eq!(a.hash().len(), 32);
    let c = NameRecord {
        owner: text("foo"),
        value: None,
        lineage: Some(text(H0)),
    };
    assert_ne!(a.hash(), c.hash());
}

#[test]
fn setting_a_value_links_back_to_the_first_version() {
    let mut storage = MockStorage::default();
    let tld = text("rad");
    let mut registry = NameRegistry::new(&tld);
    registry
        .try_register(&mut storage, &text("cdata"), &text("foo"))
        .unwrap();
    let next = registry
        .try_set_value(&mut storage, &text("cdata"), Some(text("bar")))
        .unwrap();
    assert_eq!(
        next,
        NameRecord {
            owner: text("foo"),
            value: Some(text("bar")),
            lineage: Some(text(H0))
        }
    );
    assert_eq!(
        registry.try_resolve_name(&storage, &text("cdata")).unwrap(),
        next
    );
    assert_eq!(
        registry.try_resolve_lineage(&storage, &text(H0)).unwrap(),
        NameRecord::initial(&text("foo"))
    );
    let digest = NameRecord::initial(&text("foo")).hash();
    assert_eq!(
        storage.get(&lineage_key("rad", &digest)).unwrap(),
        vec![3u8, 0, 0, 0, 0, 0, 0, 0, b'f', b'o', b'o', 0, 0]
    );
}

#[test]
fn every_earlier_version_stays_within_reach() {
    let mut storage = MockStorage::default();
    let tld = text("rad");
    let name = text("cdata");
    let mut registry = NameRegistry::new(&tld);
    registry
        .try_register(&mut storage, &name, &text("foo"))
        .unwrap();
    let v0 = registry.try_resolve_name(&storage, &name).unwrap();
    let v1 = registry
        .try_set_value(&mut storage, &name, Some(text("bar")))
        .unwrap();
    let v2 = registry
        .try_set_owner(&mut storage, &name, text("baz"))
        .unwrap();
    let v3 = registry.try_set_value(&mut storage, &name, None).unwrap();

    assert_eq!(v1.lineage, Some(text(H0)));
    assert_eq!(v2.lineage, Some(text(H1)));
    assert_eq!(v3.lineage, Some(text(H2)));
    assert_eq!(
        v2,
        NameRecord {
            owner: text("baz"),
            value: Some(text("bar")),
            lineage: Some(text(H1))
        }
    );
    assert_eq!(
        v3,
        NameRecord {
            owner: text("baz"),
            value: None,
            lineage: Some(text(H2))
        }
    );

    let versions = [v0, v1, v2];
    let mut i = 0;
    while i < versions.len() {
        let reference = base32::encode(
            base32::Alphabet::RFC4648 { padding: false },
            &versions[i].hash(),
        );
        assert_eq!(
            registry.try_resolve_lineage(&storage, &reference).unwrap(),
            versions[i]
        );
        i += 1;
    }
    assert_eq!(registry.try_resolve_name(&storage, &name).unwrap(), v3);
    let current = base32::encode(base32::Alphabet::RFC4648 { padding: false }, &v3.hash());
    assert_eq!(
        registry.try_resolve_lineage(&storage, &current),
        Err(RegistryError::LineageNotFound)
    );
}

#[test]
fn a_lineage_reference_decodes_to_the_hash_of_the_replaced_record() {
    let mut storage = MockStorage::default();
    let tld = text("rad");
    let name = text("cdata");
    let mut registry = NameRegistry::new(&tld);
    registry
        .try_register(&mut storage, &name, &text("foo"))
        .unwrap();
    let v0 = registry.try_resolve_name(&storage, &name).unwrap();
    let v1 = registry
        .try_set_owner(&mut storage, &name, text("baz"))
        .unwrap();
    let decoded = base32::decode(
        base32::Alphabet::RFC4648 { padding: false },
        v1.lineage.as_ref().unwrap(),
    )
    .unwrap();
    assert_eq!(decoded, v0.hash());
    assert_eq!(v1.owner, "baz");
    assert_eq!(v1.value, None);
}

#[test]
fn a_change_to_one_name_leaves_the_others_alone() {
    let mut storage = MockStorage::default();
    let tld = text("rad");
    let mut registry = NameRegistry::new(&tld);
    registry
        .try_register(&mut storage, &text("one"), &text("foo"))
        .unwrap();
    registry
        .try_register(&mut storage, &text("two"), &text("baz"))
        .unwrap();
    let before = registry.try_resolve_name(&storage, &text("two")).unwrap();
    registry
        .try_set_value(&mut storage, &text("one"), Some(text("bar")))
        .unwrap();
    assert_eq!(
        registry.try_resolve_name(&storage, &text("two")).unwrap(),
        before
    );
}

#[test]
fn a_value_of_256_bytes_is_the_longest() {
    let mut storage = MockStorage::default();
    let tld = text("rad");
    let name = text("cdata");
    let mut registry = NameRegistry::new(&tld);
    registry
        .try_register(&mut storage, &name, &text("foo"))
        .unwrap();

    let too_long = "x".repeat(257);
    assert_eq!(
        registry.try_set_value(&mut storage, &name, Some(too_long)),
        Err(RegistryError::ValueTooLong)
    );
    assert_eq!(
        registry.try_resolve_name(&storage, &name).unwrap(),
        NameRecord::initial(&text("foo"))
    );
    assert_eq!(
        registry.try_resolve_lineage(&storage, &text(H0)),
        Err(RegistryError::LineageNotFound)
    );

    let longest = "x".repeat(256);
    let next = registry
        .try_set_value(&mut storage, &name, Some(longest.clone()))
        .unwrap();
    assert_eq!(next.value, Some(longest));
}

#[test]
fn the_length_of_a_value_is_counted_in_bytes() {
    assert!(!exceeds_max_len(&None));
    assert!(!exceeds_max_len(&Some(String::new())));
    assert!(!exceeds_max_len(&Some("é".repeat(128))));
    assert!(exceeds_max_len(&Some("é".repeat(129))));
    assert!(exceeds_max_len(&Some(format!("{}x", "é".repeat(128)))));
}

#[test]
fn a_value_that_is_too_long_fails_before_the_name_is_looked_up() {
    let mut storage = MockStorage::default();
    let tld = text("rad");
    let mut registry = NameRegistry::new(&tld);
    assert_eq!(
        registry.try_set_value(&mut storage, &text("nobody"), Some("x".repeat(300))),
        Err(RegistryError::ValueTooLong)
    );
    assert_eq!(
        registry.try_set_value(&mut storage, &text("nobody"), Some(text("bar"))),
        Err(RegistryError::NameNotFound)
    );
    assert_eq!(
        registry.try_set_owner(&mut storage, &text("nobody"), text("baz")),
        Err(RegistryError::NameNotFound)
    );
}

#[test]
fn clearing_a_value_still_makes_a_new_version() {
    let mut storage = MockStorage::default();
    let tld = text("rad");
    let name = text("cdata");
    let mut registry = NameRegistry::new(&tld);
    registry
        .try_register(&mut storage, &name, &text("foo"))
        .unwrap();
    let next = registry.try_set_value(&mut storage, &name, None).unwrap();
    assert_eq!(
        next,
        NameRecord {
            owner: text("foo"),
            value: None,
            lineage: Some(text(H0))
        }
    );
    assert_eq!(
        registry.try_resolve_lineage(&storage, &text(H0)).unwrap(),
        NameRecord::initial(&text("foo"))
    );
}

#[test]
fn resolving_fails_by_kind() {
    let mut storage = MockStorage::default();
    let tld = text("rad");
    let registry = NameRegistry::new(&tld);
    assert_eq!(
        registry.try_resolve_name(&storage, &text("cdata")),
        Err(RegistryError::NameNotFound)
    );
    assert_eq!(
        registry.try_resolve_lineage(&storage, &text("not base32!")),
        Err(RegistryError::MalformedLineage)
    );
    assert_eq!(
        registry.try_resolve_lineage(&storage, &text("ü")),
        Err(RegistryError::MalformedLineage)
    );
    assert_eq!(
        registry.try_resolve_lineage(&storage, &text(H0)),
        Err(RegistryError::LineageNotFound)
    );
    storage.set(&name_key("rad", "broken"), b"\x01\x02");
    assert!(registry.name_is_registered(&storage, &text("broken")));
    assert_eq!(
        registry.try_resolve_name(&storage, &text("broken")),
        Err(RegistryError::CorruptEntry)
    );
    assert_eq!(RegistryError::CorruptEntry.kind(), ErrorKind::Storage);
}

#[test]
fn an_unreadable_entry_is_registered_and_cannot_be_changed() {
    let mut storage = MockStorage::default();
    let tld = text("rad");
    let mut registry = NameRegistry::new(&tld);
    storage.set(&name_key("rad", "broken"), b"\xff");
    assert_eq!(
        registry.try_register(&mut storage, &text("broken"), &text("foo")),
        Err(RegistryError::AlreadyRegistered)
    );
    assert_eq!(
        registry.try_set_value(&mut storage, &text("broken"), None),
        Err(RegistryError::CorruptEntry)
    );
    assert_eq!(storage.get(&name_key("rad", "broken")).unwrap(), b"\xff");
}

#[test]
fn a_lineage_reference_may_be_written_in_lower_case() {
    let mut storage = MockStorage::default();
    let tld = text("rad");
    let name = text("cdata");
    let mut registry = NameRegistry::new(&tld);
    registry
        .try_register(&mut storage, &name, &text("foo"))
        .unwrap();
    registry
        .try_set_value(&mut storage, &name, Some(text("bar")))
        .unwrap();
    assert_eq!(
        registry
            .try_resolve_lineage(&storage, &H0.to_lowercase())
            .unwrap(),
        NameRecord::initial(&text("foo"))
    );
}

#[test]
fn records_survive_framing() {
    let records = [
        NameRecord::initial(&text("foo")),
        NameRecord {
            owner: text(""),
            value: Some(text("")),
            lineage: None,
        },
        NameRecord {
            owner: text("ünïcödé"),
            value: Some(text("a\"b\n\u{1F600}")),
            lineage: Some(text(H0)),
        },
    ];
    for record in records.iter() {
        let bytes = record.to_bytes();
        assert_eq!(NameRecord::from_bytes(&bytes), Some(record.clone()));
    }
    assert_eq!(
        NameRecord {
            owner: text("ab"),
            value: Some(text("c")),
            lineage: None
        }
        .to_bytes(),
        vec![2u8, 0, 0, 0, 0, 0, 0, 0, b'a', b'b', 1, 1, 0, 0, 0, 0, 0, 0, 0, b'c', 0]
    );
}

#[test]
fn bytes_that_are_no_record_are_refused() {
    assert_eq!(NameRecord::from_bytes(&[]), None);
    assert_eq!(NameRecord::from_bytes(&[0, 0, 0, 0, 0, 0, 0]), None);
    // no tags behind the owner
    assert_eq!(NameRecord::from_bytes(&[0, 0, 0, 0, 0, 0, 0, 0]), None);
    // a length that runs past the end
    assert_eq!(
        NameRecord::from_bytes(&[9, 0, 0, 0, 0, 0, 0, 0, b'a', 0, 0]),
        None
    );
    // an unknown tag
    assert_eq!(
        NameRecord::from_bytes(&[1, 0, 0, 0, 0, 0, 0, 0, b'a', 2, 0]),
        None
    );
    // an owner that is no UTF-8
    assert_eq!(
        NameRecord::from_bytes(&[1, 0, 0, 0, 0, 0, 0, 0, 0xff, 0, 0]),
        None
    );
    // something behind the record
    assert_eq!(
        NameRecord::from_bytes(&[1, 0, 0, 0, 0, 0, 0, 0, b'a', 0, 0, 0]),
        None
    );
    assert_eq!(
        NameRecord::from_bytes(&[1, 0, 0, 0, 0, 0, 0, 0, b'a', 0, 0]),
        Some(NameRecord::initial(&text("a")))
    );
}

#[test]
fn successors_keep_what_did_not_change() {
    let current = NameRecord {
        owner: text("foo"),
        value: Some(text("bar")),
        lineage: Some(text("OLD")),
    };
    assert_eq!(
        current.succeed_with_value(None, text("NEW")),
        NameRecord {
            owner: text("foo"),
            value: None,
            lineage: Some(text("NEW"))
        }
    );
    assert_eq!(
        current.succeed_with_owner(text("baz"), text("NEW")),
        NameRecord {
            owner: text("baz"),
            value: Some(text("bar")),
            lineage: Some(text("NEW"))
        }
    );
}

#[test]
fn a_namespace_may_be_65521_bytes_long() {
    assert!(tld_is_usable(&text("rad")));
    assert!(tld_is_usable(&String::new()));
    assert!(tld_is_usable(&"x".repeat(65521)));
    assert!(!tld_is_usable(&"x".repeat(65522)));

    let mut storage = MockStorage::default();
    let tld = "x".repeat(65521);
    let mut registry = NameRegistry::new(&tld);
    registry
        .try_register(&mut storage, &text("cdata"), &text("foo"))
        .unwrap();
    let namespace = format!("{}_name_registry", tld);
    let mut key = vec![0xffu8, 0xff];
    key.extend_from_slice(namespace.as_bytes());
    key.extend_from_slice(b"cdata");
    assert!(storage.get(&key).is_some());
}

#[test]
fn errors_fall_into_kinds() {
    assert_eq!(RegistryError::UnknownTld.kind(), ErrorKind::Validation);
    assert_eq!(
        RegistryError::InsufficientPayment.kind(),
        ErrorKind::Validation
    );
    assert_eq!(RegistryError::ValueTooLong.kind(), ErrorKind::Validation);
    assert_eq!(
        RegistryError::MalformedLineage.kind(),
        ErrorKind::Validation
    );
    assert_eq!(RegistryError::ConfigNotFound.kind(), ErrorKind::NotFound);
    assert_eq!(RegistryError::NameNotFound.kind(), ErrorKind::NotFound);
    assert_eq!(RegistryError::LineageNotFound.kind(), ErrorKind::NotFound);
    assert_eq!(RegistryError::NotOwner.kind(), ErrorKind::Authorization);
    assert_eq!(
        RegistryError::AlreadyRegistered.kind(),
        ErrorKind::AlreadyRegistered
    );
    assert_eq!(RegistryError::UnknownTld.message(), "Unknown TLD");
    assert_eq!(
        RegistryError::InsufficientPayment.message(),
        "Insufficient payment"
    );
    assert_eq!(
        RegistryError::MalformedLineage.message(),
        "Unable to decode specified lineage as base32"
    );
}

#[test]
fn keys_follow_the_layout_of_length_and_namespace() {
    let tld = text("rad");
    let registry = NameRegistry::new(&tld);
    let mut expected = vec![0u8, 17];
    expected.extend_from_slice(b"rad_name_registry");
    expected.extend_from_slice(b"cdata");
    assert_eq!(registry.get_registry_key(&text("cdata")), expected);
    assert_eq!(registry.get_registry_key(&text("cdata")), name_key("rad", "cdata"));

    let mut expected = vec![0u8, 16];
    expected.extend_from_slice(b"rad_name_lineage");
    expected.extend_from_slice(&[1, 2, 3]);
    assert_eq!(registry.get_lineage_key(&[1, 2, 3]), expected);

    let long = "t".repeat(300);
    let registry = NameRegistry::new(&long);
    let key = registry.get_registry_key(&text(""));
    assert_eq!(key.len(), 2 + 314);
    assert_eq!(&key[..2], &[1u8, 58]);
    let key = registry.get_lineage_key(&[]);
    assert_eq!(&key[..2], &[1u8, 57]);
}

#[test]
fn an_archived_record_is_found_by_its_hash() {
    let mut storage = MockStorage::default();
    let tld = text("rad");
    let name = text("cdata");
    let mut registry = NameRegistry::new(&tld);
    registry
        .try_register(&mut storage, &name, &text("foo"))
        .unwrap();
    let first = registry.try_resolve_name(&storage, &name).unwrap();
    let digest = first.hash();
    assert_eq!(
        registry.try_resolve_hash(&storage, &digest),
        Err(RegistryError::LineageNotFound)
    );
    registry
        .try_set_owner(&mut storage, &name, text("baz"))
        .unwrap();
    assert_eq!(registry.try_resolve_hash(&storage, &digest), Ok(first));
    assert_eq!(
        registry.try_resolve_hash(&storage, &digest[..31]),
        Err(RegistryError::LineageNotFound)
    );
    storage.set(&lineage_key("rad", &[7, 7]), b"junk");
    assert_eq!(
        registry.try_resolve_hash(&storage, &[7, 7]),
        Err(RegistryError::CorruptEntry)
    );
}

#[test]
fn a_lineage_reference_is_52_characters_of_the_alphabet() {
    let mut storage = MockStorage::default();
    let tld = text("rad");
    let name = text("cdata");
    let mut registry = NameRegistry::new(&tld);
    registry
        .try_register(&mut storage, &name, &text("foo"))
        .unwrap();
    let by_value = registry
        .try_set_value(&mut storage, &name, Some(text("bar")))
        .unwrap();
    let by_owner = registry
        .try_set_owner(&mut storage, &name, text("baz"))
        .unwrap();
    for record in [by_value, by_owner].iter() {
        let reference = record.lineage.as_ref().unwrap();
        assert_eq!(reference.len(), 52);
        assert!(reference
            .chars()
            .all(|c| ('A'..='Z').contains(&c) || ('2'..='7').contains(&c)));
    }
}
