use ldactl::autoconfig::{AutoConfigClient, ConfigChangeEvent};
use ldactl::credential::{
    ClientSideId, LaunchDarklyCredentialExt, MobileKey, ServerSideKey,
};
use ldactl::eventsource::{EventSourceState, PollAction};
use ldactl::messages::{
    classify_event_name, DeleteEvent, EnvironmentConfig, EnvironmentKey, EnvironmentMap, Expirable,
    Message, MessageKind, PatchEvent, ProjectKey, PutData, PutEvent,
};

fn env(id: &str, env_key: &str, proj_key: &str, version: u64) -> EnvironmentConfig {
    EnvironmentConfig {
        env_id: ClientSideId::try_from_str(id).unwrap(),
        env_key: EnvironmentKey(String::from(env_key)),
        env_name: String::from("Test"),
        mob_key: MobileKey::try_from_str("mob-b5734766-5a3d-4b41-b63f-2669a4fb6497").unwrap(),
        proj_key: ProjectKey(String::from(proj_key)),
        proj_name: String::from("Default"),
        sdk_key: Expirable::new(
            ServerSideKey::try_from_str("sdk-3d560391-904c-4afd-8075-faad7652ed1d").unwrap(),
            None,
        ),
        default_ttl: 0,
        secure_mode: false,
        version,
    }
}

fn put_of(envs: Vec<EnvironmentConfig>) -> Message {
    let mut map = EnvironmentMap::new();
    for e in envs {
        map.insert(e.env_id.clone(), e);
    }
    Message::Put(PutEvent {
        path: String::from("/"),
        data: PutData { environments: map },
    })
}

const ID1: &str = "62ea8c4afac9b011945f6791";
const ID2: &str = "62ea8c4afac9b011945f6792";

#[test]
fn put_initializes_once_and_ignores_same_version() {
    let mut client = AutoConfigClient::new();
    let e1 = env(ID1, "test", "default", 6);

    client.process_message(put_of(vec![e1.clone()]));
    assert_eq!(client.next_change(), Some(ConfigChangeEvent::Initialized));
    assert_eq!(client.next_change(), Some(ConfigChangeEvent::Insert(e1.clone())));
    assert_eq!(client.next_change(), None);

    // the same payload again: same version, so nothing is emitted
    client.process_message(put_of(vec![e1.clone()]));
    assert_eq!(client.next_change(), None);
    assert_eq!(client.environments().len(), 1);
}

#[test]
fn patch_inserts_then_updates_monotonically() {
    let mut client = AutoConfigClient::new();
    let v1 = env(ID1, "test", "default", 1);
    let v3 = env(ID1, "test", "default", 3);
    let v2 = env(ID1, "test", "default", 2);

    client.process_message(Message::Patch(PatchEvent {
        env_id: v1.env_id.clone(),
        environment: v1.clone(),
    }));
    assert_eq!(client.next_change(), Some(ConfigChangeEvent::Insert(v1.clone())));

    client.process_message(Message::Patch(PatchEvent {
        env_id: v3.env_id.clone(),
        environment: v3.clone(),
    }));
    assert_eq!(
        client.next_change(),
        Some(ConfigChangeEvent::Update { previous: v1, current: v3.clone() })
    );

    // an older patch is ignored
    client.process_message(Message::Patch(PatchEvent {
        env_id: v2.env_id.clone(),
        environment: v2,
    }));
    assert_eq!(client.next_change(), None);
    let held = client
        .environments()
        .get(&ClientSideId::try_from_str(ID1).unwrap())
        .unwrap()
        .clone();
    assert_eq!(held.version, 3);
}

#[test]
fn delete_with_old_version_is_ignored() {
    let mut client = AutoConfigClient::new();
    let e1 = env(ID1, "test", "default", 5);
    client.process_message(put_of(vec![e1.clone()]));
    while client.next_change().is_some() {}

    // version less than or equal to the stored one: no emission, map unchanged
    client.process_message(Message::Delete(DeleteEvent {
        env_id: e1.env_id.clone(),
        version: 5,
    }));
    assert_eq!(client.next_change(), None);
    assert_eq!(client.environments().len(), 1);

    client.process_message(Message::Delete(DeleteEvent {
        env_id: e1.env_id.clone(),
        version: 4,
    }));
    assert_eq!(client.next_change(), None);
    assert_eq!(client.environments().len(), 1);

    // a newer version removes and announces the dropped record
    client.process_message(Message::Delete(DeleteEvent {
        env_id: e1.env_id.clone(),
        version: 6,
    }));
    assert_eq!(client.next_change(), Some(ConfigChangeEvent::Delete(e1)));
    assert_eq!(client.environments().len(), 0);
}

#[test]
fn second_put_merges_without_reinitializing() {
    let mut client = AutoConfigClient::new();
    let e1 = env(ID1, "test", "default", 6);
    let e2 = env(ID2, "production", "default", 14);
    client.process_message(put_of(vec![e1.clone()]));
    while client.next_change().is_some() {}

    client.process_message(put_of(vec![e1.clone(), e2.clone()]));
    // only the new environment is announced, and no second Initialized
    assert_eq!(client.next_change(), Some(ConfigChangeEvent::Insert(e2)));
    assert_eq!(client.next_change(), None);
    assert_eq!(client.environments().len(), 2);
}

#[test]
fn put_with_other_path_is_ignored() {
    let mut client = AutoConfigClient::new();
    let e1 = env(ID1, "test", "default", 6);
    let mut map = EnvironmentMap::new();
    map.insert(e1.env_id.clone(), e1);
    client.process_message(Message::Put(PutEvent {
        path: String::from("/environments"),
        data: PutData { environments: map },
    }));
    assert_eq!(client.next_change(), None);
    assert_eq!(client.environments().len(), 0);
}

#[test]
fn reconnect_drives_a_fresh_request() {
    let mut client = AutoConfigClient::new();
    client.process_message(Message::Reconnect);
    assert_eq!(client.next_change(), None);
    assert_eq!(client.event_source.state, EventSourceState::ForceReconnect);
    // the next poll of the transport issues a fresh request
    let action = client.event_source.next_action();
    assert!(matches!(action, PollAction::Connect(_)));
    assert_eq!(client.event_source.state, EventSourceState::Connecting);
}

#[test]
fn lookups_by_project_and_environment_key() {
    let mut client = AutoConfigClient::new();
    let e1 = env(ID1, "test", "default", 1);
    let e2 = env(ID2, "production", "other", 2);
    client.process_message(put_of(vec![e1.clone(), e2.clone()]));
    while client.next_change().is_some() {}

    let defaults = client.by_project_key(&ProjectKey(String::from("default")));
    assert_eq!(defaults, vec![e1.clone()]);

    let found = client.get_environment(
        &ProjectKey(String::from("other")),
        &EnvironmentKey(String::from("production")),
    );
    assert_eq!(found, Some(e2));
    let missing = client.get_environment(
        &ProjectKey(String::from("other")),
        &EnvironmentKey(String::from("test")),
    );
    assert_eq!(missing, None);
}

#[test]
fn load_environments_merges_by_version() {
    let mut client = AutoConfigClient::new();
    let e1 = env(ID1, "test", "default", 5);
    let mut first = EnvironmentMap::new();
    first.insert(e1.env_id.clone(), e1.clone());
    client.load_environments(first);
    assert_eq!(client.environments().len(), 1);
    assert_eq!(client.next_change(), None);

    let newer = env(ID1, "test", "default", 9);
    let older = env(ID2, "production", "default", 1);
    let mut second = EnvironmentMap::new();
    second.insert(newer.env_id.clone(), newer.clone());
    second.insert(older.env_id.clone(), older.clone());
    client.load_environments(second);
    assert_eq!(client.next_change(), None);
    let held = client
        .environments()
        .get(&ClientSideId::try_from_str(ID1).unwrap())
        .unwrap()
        .clone();
    assert_eq!(held.version, 9);
    assert_eq!(client.environments().len(), 2);

    client.generate_init_changes();
    assert!(matches!(client.next_change(), Some(ConfigChangeEvent::Insert(_))));
    assert!(matches!(client.next_change(), Some(ConfigChangeEvent::Insert(_))));
    assert_eq!(client.next_change(), None);
}

#[test]
fn test_deserialize_env_id_from_path() {
    assert_eq!(
        ldactl::messages::parse_env_id_path(b"/environments/62ea8c4afac9b011945f6792"),
        Some(ClientSideId::try_from_str("62ea8c4afac9b011945f6792").unwrap())
    );
    let error_cases: &[&[u8]] = &[
        b"/environments/",
        b"/environments",
        b"/environments/FOOO",
        b"/environments/62ea8c4afac9b011945f6792333",
    ];
    for case in error_cases {
        assert!(ldactl::messages::parse_env_id_path(case).is_none());
    }
}

#[test]
fn test_serialize_env_id_path() {
    let env = "62ea8c4afac9b011945f6792";
    let path = format!("/environments/{}", env);
    let id = ClientSideId::try_from_str(env).unwrap();
    assert_eq!(ldactl::messages::env_id_path(&id), path);
}

#[test]
fn event_names_select_messages() {
    assert_eq!(classify_event_name(b"put"), MessageKind::Put);
    assert_eq!(classify_event_name(b"patch"), MessageKind::Patch);
    assert_eq!(classify_event_name(b"delete"), MessageKind::Delete);
    assert_eq!(classify_event_name(b"reconnect"), MessageKind::Reconnect);
    assert_eq!(classify_event_name(b"ping"), MessageKind::Unknown);
}
