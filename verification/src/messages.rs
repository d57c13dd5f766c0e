//! The autoconfiguration domain: environment records, the messages the
//! stream delivers (`put` / `patch` / `delete` / `reconnect`), and the
//! in-memory map of environment id to record.

use crate::credential::{ascii_chars, ClientSideId, MobileKey, ServerSideKey};
use crate::frame::Event;
use vstd::prelude::*;
use vstd::string::StringExecFns;
use vstd::string::StringSliceAdditionalSpecFns;

verus! {

/// The key of a project.
#[derive(Debug, PartialEq, Eq, Hash)]
pub struct ProjectKey(pub String);

impl Clone for ProjectKey {
    fn clone(&self) -> (res: Self)
        ensures
            res == *self,
    {
        ProjectKey(self.0.clone())
    }
}

impl ProjectKey {
    pub fn as_str(&self) -> (r: &str)
        ensures
            r@ == self.0@,
    {
        self.0.as_str()
    }
}

/// The key of an environment within a project.
#[derive(Debug, PartialEq, Eq, Hash)]
pub struct EnvironmentKey(pub String);

impl Clone for EnvironmentKey {
    fn clone(&self) -> (res: Self)
        ensures
            res == *self,
    {
        EnvironmentKey(self.0.clone())
    }
}

impl EnvironmentKey {
    pub fn as_str(&self) -> (r: &str)
        ensures
            r@ == self.0@,
    {
        self.0.as_str()
    }
}

/// A value together with a replacement that takes over at a deadline.
#[derive(Debug, PartialEq, Eq, Hash)]
pub struct Expirable<T> {
    pub current: T,
    pub expiring: Option<Expiring<T>>,
}

/// A value that stops being valid at a Unix timestamp.
#[derive(Debug, PartialEq, Eq, Hash)]
pub struct Expiring<T> {
    pub value: T,
    pub expires_at: u64,
}

impl<T> Expirable<T> {
    pub fn new(current: T, expiring: Option<Expiring<T>>) -> (r: Self)
        ensures
            r.current == current,
            r.expiring == expiring,
    {
        Self { current, expiring }
    }

    /// The value in force now.
    pub fn current(&self) -> (r: &T)
        ensures
            r == &self.current,
    {
        &self.current
    }
}

/// A versioned bundle of identifiers and credentials for one environment.
#[derive(Debug, PartialEq, Eq, Hash)]
pub struct EnvironmentConfig {
    pub env_id: ClientSideId,
    pub env_key: EnvironmentKey,
    pub env_name: String,
    pub mob_key: MobileKey,
    pub proj_key: ProjectKey,
    pub proj_name: String,
    pub sdk_key: Expirable<ServerSideKey>,
    pub default_ttl: u64,
    pub secure_mode: bool,
    pub version: u64,
}

impl Clone for Expiring<ServerSideKey> {
    fn clone(&self) -> (res: Self)
        ensures
            res == *self,
    {
        Expiring { value: self.value.clone(), expires_at: self.expires_at }
    }
}

impl Clone for Expirable<ServerSideKey> {
    fn clone(&self) -> (res: Self)
        ensures
            res == *self,
    {
        Expirable {
            current: self.current.clone(),
            expiring: match &self.expiring {
                Some(e) => Some(e.clone()),
                None => None,
            },
        }
    }
}

impl Clone for EnvironmentConfig {
    fn clone(&self) -> (res: Self)
        ensures
            res == *self,
    {
        EnvironmentConfig {
            env_id: self.env_id.clone(),
            env_key: self.env_key.clone(),
            env_name: self.env_name.clone(),
            mob_key: self.mob_key.clone(),
            proj_key: self.proj_key.clone(),
            proj_name: self.proj_name.clone(),
            sdk_key: self.sdk_key.clone(),
            default_ttl: self.default_ttl,
            secure_mode: self.secure_mode,
            version: self.version,
        }
    }
}

/// The environment map delivered by a `put`, keyed by environment id.
#[derive(Debug, Clone, PartialEq, Eq)]
pub struct PutData {
    pub environments: EnvironmentMap,
}

/// A `put` message: a path (only `/` applies globally) and the whole map.
#[derive(Debug, Clone, PartialEq, Eq)]
pub struct PutEvent {
    pub path: String,
    pub data: PutData,
}

/// A `patch` message: one environment record to merge.
#[derive(Debug, Clone, PartialEq, Eq)]
pub struct PatchEvent {
    pub env_id: ClientSideId,
    pub environment: EnvironmentConfig,
}

/// A `delete` message: the environment to drop, at a version.
#[derive(Debug, Clone, PartialEq, Eq)]
pub struct DeleteEvent {
    pub env_id: ClientSideId,
    pub version: u64,
}

/// One parsed message from the autoconfiguration stream.
#[derive(Debug, Clone, PartialEq, Eq)]
pub enum Message {
    Put(PutEvent),
    Patch(PatchEvent),
    Delete(DeleteEvent),
    Reconnect,
}

/// Why an event could not be turned into a [`Message`].
#[derive(Debug)]
pub enum MessageParseError {
    /// The event name is not one of `put`, `patch`, `delete`, `reconnect`.
    UnknownEventType(Event),
    /// The payload did not deserialize; the event name and the
    /// deserializer's description are carried.
    JsonError { event_kind: MessageKind, message: String },
}

/// Which message an event name selects.
#[derive(Debug, Clone, Copy, PartialEq, Eq, Structural)]
pub enum MessageKind {
    Put,
    Patch,
    Delete,
    Reconnect,
    Unknown,
}

/// The bytes of the event names `put`, `patch`, `delete`, `reconnect`.
pub open spec fn spec_message_kind(name: Seq<u8>) -> MessageKind {
    if name == seq![112u8, 117, 116] {
        MessageKind::Put
    } else if name == seq![112u8, 97, 116, 99, 104] {
        MessageKind::Patch
    } else if name == seq![100u8, 101, 108, 101, 116, 101] {
        MessageKind::Delete
    } else if name == seq![114u8, 101, 99, 111, 110, 110, 101, 99, 116] {
        MessageKind::Reconnect
    } else {
        MessageKind::Unknown
    }
}

/// Which message an SSE event name selects.
pub fn classify_event_name(name: &[u8]) -> (r: MessageKind)
    ensures
        r == spec_message_kind(name@),
{
    let put: [u8; 3] = [112, 117, 116];  // "put"
    let patch: [u8; 5] = [112, 97, 116, 99, 104];  // "patch"
    let delete: [u8; 6] = [100, 101, 108, 101, 116, 101];  // "delete"
    let reconnect: [u8; 9] = [114, 101, 99, 111, 110, 110, 101, 99, 116];  // "reconnect"
    proof {
        assert(put@ =~= seq![112u8, 117, 116]);
        assert(patch@ =~= seq![112u8, 97, 116, 99, 104]);
        assert(delete@ =~= seq![100u8, 101, 108, 101, 116, 101]);
        assert(reconnect@ =~= seq![114u8, 101, 99, 111, 110, 110, 101, 99, 116]);
    }
    if crate::bufext::bytes_eq(name, put.as_slice()) {
        MessageKind::Put
    } else if crate::bufext::bytes_eq(name, patch.as_slice()) {
        MessageKind::Patch
    } else if crate::bufext::bytes_eq(name, delete.as_slice()) {
        MessageKind::Delete
    } else if crate::bufext::bytes_eq(name, reconnect.as_slice()) {
        MessageKind::Reconnect
    } else {
        MessageKind::Unknown
    }
}

/// The bytes of the path prefix `/environments/`.
pub open spec fn env_path_prefix() -> Seq<u8> {
    seq![47u8, 101, 110, 118, 105, 114, 111, 110, 109, 101, 110, 116, 115, 47]
}

/// Parses an environment id out of a `/environments/{id}` path.
pub fn parse_env_id_path(path: &[u8]) -> (r: Option<ClientSideId>)
    ensures
        ({
            let valid = path@.len() >= 14 && path@.subrange(0, 14) == env_path_prefix()
                && crate::credential::valid_credential_bytes(
                crate::credential::CredentialKind::ClientSide,
                path@.subrange(14, path@.len() as int),
            );
            &&& (r is Some <==> valid)
            &&& (r matches Some(c) ==> c.0@ == ascii_chars(
                path@.subrange(14, path@.len() as int),
            ))
        }),
{
    let prefix: [u8; 14] = [
        47,
        101,
        110,
        118,
        105,
        114,
        111,
        110,
        109,
        101,
        110,
        116,
        115,
        47,
    ];  // "/environments/"
    proof {
        assert(prefix@ =~= env_path_prefix());
    }
    if path.len() < 14 {
        return None;
    }
    if !crate::bufext::bytes_eq(&path[0..14], prefix.as_slice()) {
        return None;
    }
    let rest = &path[14..path.len()];
    match <ClientSideId as crate::credential::LaunchDarklyCredentialExt>::try_from_bytes(rest) {
        Ok(c) => Some(c),
        Err(_) => None,
    }
}

/// Writes the `/environments/{id}` path for an environment id.
pub fn env_id_path(env_id: &ClientSideId) -> (r: String)
    ensures
        r@ == "/environments/"@ + env_id.0@,
{
    let mut path = String::new();
    path.append("/environments/");
    path.append(env_id.0.as_str());
    path
}

/// An association of environment ids to environment records, with each id
/// held at most once.
#[derive(Debug, Clone, PartialEq, Eq)]
pub struct EnvironmentMap {
    pub entries: Vec<(ClientSideId, EnvironmentConfig)>,
}

/// The map named by an entry list: later entries win, though under
/// [`EnvironmentMap::wf`] each key appears once.
pub open spec fn map_of(entries: Seq<(ClientSideId, EnvironmentConfig)>) -> Map<
    Seq<char>,
    EnvironmentConfig,
>
    decreases entries.len(),
{
    if entries.len() == 0 {
        Map::empty()
    } else {
        map_of(entries.drop_last()).insert(entries.last().0.0@, entries.last().1)
    }
}

impl View for EnvironmentMap {
    type V = Map<Seq<char>, EnvironmentConfig>;

    open spec fn view(&self) -> Map<Seq<char>, EnvironmentConfig> {
        map_of(self.entries@)
    }
}

/// A key is in the map named by an entry list exactly when some entry
/// holds it, and then the map carries that entry's record.
pub proof fn lemma_map_of_index(entries: Seq<(ClientSideId, EnvironmentConfig)>, i: int)
    requires
        0 <= i < entries.len(),
        forall|j: int, k: int|
            0 <= j < k < entries.len() ==> (#[trigger] entries[j]).0.0@ != (
            #[trigger] entries[k]).0.0@,
    ensures
        map_of(entries).contains_key(entries[i].0.0@),
        map_of(entries)[entries[i].0.0@] == entries[i].1,
    decreases entries.len(),
{
    if i == entries.len() - 1 {
    } else {
        lemma_map_of_index(entries.drop_last(), i);
        assert(entries.drop_last()[i] == entries[i]);
        assert(entries[i].0.0@ != entries.last().0.0@);
    }
}

/// A key that no entry holds is not in the map named by the entry list.
pub proof fn lemma_map_of_absent(entries: Seq<(ClientSideId, EnvironmentConfig)>, key: Seq<char>)
    requires
        forall|j: int| 0 <= j < entries.len() ==> (#[trigger] entries[j]).0.0@ != key,
    ensures
        !map_of(entries).contains_key(key),
    decreases entries.len(),
{
    if entries.len() > 0 {
        lemma_map_of_absent(entries.drop_last(), key);
    }
}

impl EnvironmentMap {
    /// Each environment id appears at most once.
    pub open spec fn wf(&self) -> bool {
        forall|j: int, k: int|
            0 <= j < k < self.entries@.len() ==> (#[trigger] self.entries@[j]).0.0@ != (
            #[trigger] self.entries@[k]).0.0@
    }

    /// An empty map.
    pub fn new() -> (r: Self)
        ensures
            r.wf(),
            r@ == Map::<Seq<char>, EnvironmentConfig>::empty(),
            r.entries@.len() == 0,
    {
        Self { entries: Vec::new() }
    }

    /// How many environments are held.
    pub fn len(&self) -> (r: usize)
        ensures
            r == self.entries@.len(),
    {
        self.entries.len()
    }

    /// True when no environment is held.
    pub fn is_empty(&self) -> (r: bool)
        ensures
            r == (self.entries@.len() == 0),
            r == (self@ =~= Map::<Seq<char>, EnvironmentConfig>::empty()),
    {
        proof {
            if self.entries@.len() > 0 {
                assert(map_of(self.entries@).contains_key(self.entries@.last().0.0@));
            }
        }
        self.entries.len() == 0
    }

    /// The held entries, in insertion order.
    pub fn entries(&self) -> (r: &Vec<(ClientSideId, EnvironmentConfig)>)
        ensures
            r == &self.entries,
    {
        &self.entries
    }

    /// Where the entry with this id sits, if anywhere.
    fn find(&self, env_id: &ClientSideId) -> (r: Option<usize>)
        requires
            self.wf(),
        ensures
            match r {
                Some(i) => i < self.entries@.len() && self.entries@[i as int].0.0@ == env_id.0@
                    && self@.contains_key(env_id.0@) && self@[env_id.0@] == self.entries@[
                    i as int].1,
                None => !self@.contains_key(env_id.0@),
            },
    {
        let n = self.entries.len();
        let mut i: usize = 0;
        while i < n
            invariant
                0 <= i <= n,
                n == self.entries@.len(),
                self.wf(),
                forall|j: int| 0 <= j < i ==> (#[trigger] self.entries@[j]).0.0@ != env_id.0@,
            decreases n - i,
        {
            if self.entries[i].0.0 == env_id.0 {
                proof {
                    lemma_map_of_index(self.entries@, i as int);
                }
                return Some(i);
            }
            i = i + 1;
        }
        proof {
            lemma_map_of_absent(self.entries@, env_id.0@);
        }
        None
    }

    /// The record held for this id, if any.
    pub fn get(&self, env_id: &ClientSideId) -> (r: Option<&EnvironmentConfig>)
        requires
            self.wf(),
        ensures
            match r {
                Some(env) => self@.contains_key(env_id.0@) && self@[env_id.0@] == *env,
                None => !self@.contains_key(env_id.0@),
            },
    {
        match self.find(env_id) {
            Some(i) => Some(&self.entries[i].1),
            None => None,
        }
    }

    /// Puts a record under its id, replacing any record held there.
    pub fn insert(&mut self, env_id: ClientSideId, env: EnvironmentConfig)
        requires
            old(self).wf(),
        ensures
            final(self).wf(),
            final(self)@ == old(self)@.insert(env_id.0@, env),
            !old(self)@.contains_key(env_id.0@) ==> final(self).entries@ == old(
                self,
            ).entries@.push((env_id, env)),
            old(self)@.contains_key(env_id.0@) ==> final(self).entries@.len() == old(
                self,
            ).entries@.len(),
    {
        match self.find(&env_id) {
            Some(i) => {
                let ghost pre = self.entries@;
                self.entries[i] = (env_id, env);
                proof {
                    lemma_insert_at(pre, self.entries@, i as int);
                }
            },
            None => {
                let ghost pre = self.entries@;
                proof {
                    assert forall|j: int| 0 <= j < pre.len() implies (#[trigger] pre[j]).0.0@
                        != env_id.0@ by {
                        if pre[j].0.0@ == env_id.0@ {
                            lemma_map_of_index(pre, j);
                        }
                    }
                }
                self.entries.push((env_id, env));
                proof {
                    assert(self.entries@.drop_last() =~= pre);
                    let post = self.entries@;
                    assert forall|j: int, k: int| 0 <= j < k < post.len() implies (
                    #[trigger] post[j]).0.0@ != (#[trigger] post[k]).0.0@ by {
                        if k == post.len() - 1 {
                            assert(post[j] == pre[j]);
                        } else {
                            assert(pre[j].0.0@ != pre[k].0.0@);
                        }
                    }
                }
            },
        }
    }

    /// Drops the record held for this id, handing it back.
    pub fn remove(&mut self, env_id: &ClientSideId) -> (r: Option<EnvironmentConfig>)
        requires
            old(self).wf(),
        ensures
            final(self).wf(),
            match r {
                Some(env) => old(self)@.contains_key(env_id.0@) && env == old(self)@[env_id.0@]
                    && final(self)@ == old(self)@.remove(env_id.0@),
                None => !old(self)@.contains_key(env_id.0@) && *final(self) == *old(self),
            },
    {
        match self.find(env_id) {
            Some(i) => {
                let ghost pre = self.entries@;
                let (_, env) = self.entries.remove(i);
                proof {
                    lemma_remove_at(pre, self.entries@, i as int);
                }
                Some(env)
            },
            None => None,
        }
    }
}

/// Replacing the entry at `i` with one that keeps its key keeps the keys
/// unique and updates the named map at that key alone.
proof fn lemma_insert_at(
    pre: Seq<(ClientSideId, EnvironmentConfig)>,
    post: Seq<(ClientSideId, EnvironmentConfig)>,
    i: int,
)
    requires
        0 <= i < pre.len(),
        post.len() == pre.len(),
        post[i].0.0@ == pre[i].0.0@,
        forall|j: int| 0 <= j < pre.len() && j != i ==> post[j] == pre[j],
        forall|j: int, k: int|
            0 <= j < k < pre.len() ==> (#[trigger] pre[j]).0.0@ != (#[trigger] pre[k]).0.0@,
    ensures
        forall|j: int, k: int|
            0 <= j < k < post.len() ==> (#[trigger] post[j]).0.0@ != (#[trigger] post[k]).0.0@,
        map_of(post) == map_of(pre).insert(post[i].0.0@, post[i].1),
    decreases pre.len(),
{
    assert forall|j: int, k: int|
        0 <= j < k < post.len() implies (#[trigger] post[j]).0.0@ != (
    #[trigger] post[k]).0.0@ by {
        assert(pre[j].0.0@ != pre[k].0.0@);
    }
    if i == pre.len() - 1 {
        assert(post.drop_last() =~= pre.drop_last());
        assert(map_of(post) =~= map_of(pre).insert(post[i].0.0@, post[i].1));
    } else {
        lemma_insert_at(pre.drop_last(), post.drop_last(), i);
        assert(post.drop_last()[i] == post[i]);
        assert(post.last() == pre.last());
        assert(pre[i].0.0@ != pre.last().0.0@);
        assert(map_of(post) == map_of(post.drop_last()).insert(post.last().0.0@, post.last().1));
        assert(map_of(post) =~= map_of(pre).insert(post[i].0.0@, post[i].1));
    }
}

/// Dropping the entry at `i` keeps the keys unique and removes that key,
/// and only it, from the named map.
proof fn lemma_remove_at(
    pre: Seq<(ClientSideId, EnvironmentConfig)>,
    post: Seq<(ClientSideId, EnvironmentConfig)>,
    i: int,
)
    requires
        0 <= i < pre.len(),
        post.len() == pre.len() - 1,
        forall|j: int| 0 <= j < i ==> post[j] == pre[j],
        forall|j: int| i <= j < post.len() ==> post[j] == pre[j + 1],
        forall|j: int, k: int|
            0 <= j < k < pre.len() ==> (#[trigger] pre[j]).0.0@ != (#[trigger] pre[k]).0.0@,
    ensures
        forall|j: int, k: int|
            0 <= j < k < post.len() ==> (#[trigger] post[j]).0.0@ != (#[trigger] post[k]).0.0@,
        map_of(post) == map_of(pre).remove(pre[i].0.0@),
    decreases pre.len(),
{
    assert forall|j: int, k: int|
        0 <= j < k < post.len() implies (#[trigger] post[j]).0.0@ != (
    #[trigger] post[k]).0.0@ by {
        if k < i {
            assert(pre[j].0.0@ != pre[k].0.0@);
        } else if j < i {
            assert(pre[j].0.0@ != pre[k + 1].0.0@);
        } else {
            assert(pre[j + 1].0.0@ != pre[k + 1].0.0@);
        }
    }
    if i == pre.len() - 1 {
        assert(post =~= pre.drop_last());
        lemma_map_of_absent(pre.drop_last(), pre[i].0.0@);
        assert(map_of(post) =~= map_of(pre).remove(pre[i].0.0@));
    } else {
        lemma_remove_at(pre.drop_last(), post.drop_last(), i);
        assert(post.last() == pre.last());
        assert(pre[i].0.0@ != pre.last().0.0@);
        assert(map_of(post) == map_of(post.drop_last()).insert(post.last().0.0@, post.last().1));
        assert(map_of(post) =~= map_of(pre).remove(pre[i].0.0@));
    }
}

} // verus!
