use ldactl::credential::{
    validate_credential_uuid, validate_uuid_format, ClientSideId, Credential, CredentialError,
    CredentialKind, ExpectedCredential, LaunchDarklyCredential, LaunchDarklyCredentialExt,
    StackString,
};

#[test]
fn can_parse_valid_uuid() {
    let uuid = "01345678-9ABC-DEF0-0000-000000000000";
    let uuid = uuid.as_bytes();
    assert!(validate_uuid_format(CredentialKind::ServerSide, uuid).is_ok());
}

#[test]
fn fails_if_too_small() {
    let uuid = "12345".as_bytes();
    let ret = validate_uuid_format(CredentialKind::ServerSide, uuid);
    assert!(ret.is_err());
    match ret {
        Err(CredentialError::InvalidLength { expected, found }) => {
            assert_eq!(expected, ExpectedCredential::Kind(CredentialKind::ServerSide));
            assert_eq!(found, uuid.len());
        }
        Err(e) => panic!("expected CredentialError::InvalidLength, got {:?}", e),
        Ok(_) => panic!("expected an error, got Ok(_)"),
    }
}

#[test]
fn fails_if_too_big() {
    let uuid = "01345678-9ABC-DEF0-0000-000000000000000".as_bytes();
    let ret = validate_uuid_format(CredentialKind::ServerSide, uuid);
    assert!(ret.is_err());
    match ret {
        Err(CredentialError::InvalidLength { expected, found }) => {
            assert_eq!(expected, ExpectedCredential::Kind(CredentialKind::ServerSide));
            assert_eq!(found, uuid.len());
        }
        Err(e) => panic!("expected CredentialError::InvalidLength, got {:?}", e),
        Ok(_) => panic!("expected an error, got Ok(_)"),
    }
}

#[test]
fn fails_if_dashes_wrong() {
    let uuids = [
        "0000000-00000-0000-0000-000000000000",
        "00000000-000-00000-0000-000000000000",
        "00000000-0000-000-00000-000000000000",
        "00000000-0000-0000-000000-0000000000",
        "00000000-0000-0000-000000000-0000000",
    ]
    .iter();
    for uuid in uuids {
        assert!(validate_uuid_format(CredentialKind::ServerSide, uuid.as_bytes()).is_err());
    }
}

#[test]
fn fails_if_not_hex() {
    let uuid = "00U00000-0000-0000-0000-000000000000";
    let ret = validate_uuid_format(CredentialKind::ServerSide, uuid.as_bytes());
    assert!(ret.is_err());
}

#[test]
fn parse_valid() {
    let src = "62ea8c4afac9b011945f6792";
    let ret = ClientSideId::try_from_bytes(src.as_bytes());
    match ret {
        Ok(id) => assert_eq!(src, id.as_str()),
        Err(e) => panic!("unexpected error: {:?}", e),
    }
}

#[test]
fn too_small() {
    let s = b"62ea8c4afac9b011945f679";
    let ret = ClientSideId::try_from_bytes(s);
    match ret {
        Err(CredentialError::InvalidLength {
            expected: ExpectedCredential::Kind(kind),
            found,
        }) => {
            assert_eq!(
                kind,
                CredentialKind::ClientSide,
                "error expected kind should match input kind"
            );
            assert_eq!(found, s.len(), "expected found={}, got={}", s.len(), found);
        }
        _ => panic!("unexpected result: {:?}", ret),
    }
}

#[test]
fn too_big() {
    let s = b"62ea8c4afac9b011945f6792a";
    let ret = ClientSideId::try_from_bytes(s);
    match ret {
        Err(CredentialError::InvalidLength {
            expected: ExpectedCredential::Kind(kind),
            found,
        }) => {
            assert_eq!(
                kind,
                CredentialKind::ClientSide,
                "error expected kind should match input kind"
            );
            assert_eq!(found, s.len(), "expected found={}, got={}", s.len(), found);
        }
        _ => panic!("unexpected result: {:?}", ret),
    }
}

#[test]
fn invalid_chars() {
    let s = b"62ea8c4afac9b011945f679g";
    let ret = ClientSideId::try_from_bytes(s);
    match ret {
        Err(CredentialError::InvalidFormat {
            expected: ExpectedCredential::Kind(kind),
            reason,
        }) => {
            assert_eq!(
                kind,
                CredentialKind::ClientSide,
                "error expected kind should match input kind"
            );
            assert_eq!(
                reason, "unexpected non-hex character",
                "expected reason='{}', got='{}'",
                "unexpected non-hex character", reason
            );
        }
        _ => panic!("unexpected result: {:?}", ret),
    }
}

#[test]
fn full_prefixed_key_round_trips() {
    let key = "sdk-3d560391-904c-4afd-8075-faad7652ed1d";
    assert!(validate_credential_uuid(CredentialKind::ServerSide, key.as_bytes()).is_ok());
    let parsed = Credential::try_from_string(String::from(key)).unwrap();
    assert_eq!(parsed.kind(), CredentialKind::ServerSide);
    assert_eq!(parsed.as_str(), key);
}

#[test]
fn wrong_prefix_is_rejected() {
    let key = "sdk-3d560391-904c-4afd-8075-faad7652ed1d";
    let ret = validate_credential_uuid(CredentialKind::MobileKey, key.as_bytes());
    assert!(matches!(ret, Err(CredentialError::InvalidPrefix { .. })));
}

#[test]
fn credential_kind_surface() {
    assert_eq!(CredentialKind::ServerSide.len(), 40);
    assert_eq!(CredentialKind::ClientSide.len(), 24);
    assert_eq!(CredentialKind::MobileKey.prefix(), Some("mob-"));
    assert_eq!(CredentialKind::ClientSide.prefix(), None);
    assert_eq!(CredentialKind::RelayAutoConfig.as_slug(), "relay-auto-config-key");
}

#[test]
fn stack_string_copies_ascii() {
    let s = StackString::<5>::try_from_utf8_unchecked(b"hello world").unwrap();
    assert_eq!(s.as_str(), "hello");
    assert_eq!(s.into_string(), "hello");
    let short = StackString::<5>::try_from_utf8_unchecked(b"hi");
    assert!(matches!(
        short,
        Err(CredentialError::InvalidBufLength { expected: 5, found: 2 })
    ));
}

#[test]
fn stack_string_rejects_non_ascii() {
    let ret = StackString::<4>::try_from_utf8_unchecked("caf\u{e9}!".as_bytes());
    assert!(matches!(ret, Err(CredentialError::InvalidUtf8)));
}
