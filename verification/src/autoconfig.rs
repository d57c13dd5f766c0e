//! The merge engine: holds the map of environment records, merges incoming
//! messages with version-monotonic semantics, and queues the resulting
//! change events. A `reconnect` message is passed on to the owned transport
//! state machine.

use crate::backoff::ExponentialBackoff;
use crate::credential::ClientSideId;
use crate::eventsource::{EventSource, EventSourceError, EventSourceState};
use crate::messages::{
    map_of, DeleteEvent, EnvironmentConfig, EnvironmentKey, EnvironmentMap, Message,
    MessageParseError, PatchEvent, ProjectKey, PutData, PutEvent,
};
use std::collections::VecDeque;
use vstd::prelude::*;

verus! {

/// One observable change to the environment map.
#[derive(Debug, Clone, PartialEq, Eq)]
pub enum ConfigChangeEvent {
    /// The map has been populated for the first time.
    Initialized,
    /// A record appeared under a fresh id.
    Insert(EnvironmentConfig),
    /// A record was replaced by a newer version.
    Update { previous: EnvironmentConfig, current: EnvironmentConfig },
    /// A record was removed.
    Delete(EnvironmentConfig),
}

/// Why the merge engine stopped.
#[derive(Debug)]
pub enum AutoConfigClientError {
    /// The underlying event stream failed.
    EventSourceError(EventSourceError),
    /// An event could not be parsed into a message.
    EventParseError(MessageParseError),
}

/// What merging one record does: the new map and the changes it caused.
pub ghost struct MergeResult {
    pub map: Map<Seq<char>, EnvironmentConfig>,
    pub changes: Seq<ConfigChangeEvent>,
}

/// Merges one record under `key`: a fresh id inserts, a newer version
/// replaces, and anything else is ignored.
pub open spec fn patch_step(
    m: Map<Seq<char>, EnvironmentConfig>,
    key: Seq<char>,
    env: EnvironmentConfig,
) -> MergeResult {
    if !m.contains_key(key) {
        MergeResult { map: m.insert(key, env), changes: seq![ConfigChangeEvent::Insert(env)] }
    } else if m[key].version < env.version {
        MergeResult {
            map: m.insert(key, env),
            changes: seq![
                ConfigChangeEvent::Update { previous: m[key], current: env },
            ],
        }
    } else {
        MergeResult { map: m, changes: Seq::empty() }
    }
}

/// Deletes the record under `key` when the held version is older than `v`;
/// an unknown id or an old delete is ignored.
pub open spec fn delete_step(
    m: Map<Seq<char>, EnvironmentConfig>,
    key: Seq<char>,
    v: u64,
) -> MergeResult {
    if m.contains_key(key) && m[key].version < v {
        MergeResult { map: m.remove(key), changes: seq![ConfigChangeEvent::Delete(m[key])] }
    } else {
        MergeResult { map: m, changes: Seq::empty() }
    }
}

/// Merges a list of records in order, gathering the changes.
pub open spec fn merge_entries(
    m: Map<Seq<char>, EnvironmentConfig>,
    entries: Seq<(ClientSideId, EnvironmentConfig)>,
) -> MergeResult
    decreases entries.len(),
{
    if entries.len() == 0 {
        MergeResult { map: m, changes: Seq::empty() }
    } else {
        let first = patch_step(m, entries[0].0.0@, entries[0].1);
        let rest = merge_entries(first.map, entries.skip(1));
        MergeResult { map: rest.map, changes: first.changes + rest.changes }
    }
}

/// The change events announcing every record of a freshly installed map.
pub open spec fn inserts_of(entries: Seq<(ClientSideId, EnvironmentConfig)>) -> Seq<
    ConfigChangeEvent,
> {
    entries.map_values(|e: (ClientSideId, EnvironmentConfig)| ConfigChangeEvent::Insert(e.1))
}

/// What processing one message does to the engine.
pub ghost struct ProcessResult {
    pub map: Map<Seq<char>, EnvironmentConfig>,
    pub initialized: bool,
    pub changes: Seq<ConfigChangeEvent>,
    pub reconnect: bool,
}

/// Processes one message against the map `m` and the initialization flag:
/// a global `put` installs or merges, a `patch` merges one record, a
/// `delete` removes one, and `reconnect` asks the transport to start over.
/// `Initialized` is announced at most once, the first time a global `put`
/// populates the map.
pub open spec fn process_spec(
    m: Map<Seq<char>, EnvironmentConfig>,
    initialized: bool,
    msg: Message,
) -> ProcessResult {
    match msg {
        Message::Put(pe) => {
            if pe.path@ != "/"@ {
                ProcessResult { map: m, initialized, changes: Seq::empty(), reconnect: false }
            } else if m =~= Map::<Seq<char>, EnvironmentConfig>::empty() {
                ProcessResult {
                    map: map_of(pe.data.environments.entries@),
                    initialized: true,
                    changes: (if initialized {
                        Seq::empty()
                    } else {
                        seq![ConfigChangeEvent::Initialized]
                    }) + inserts_of(pe.data.environments.entries@),
                    reconnect: false,
                }
            } else {
                let merged = merge_entries(m, pe.data.environments.entries@);
                ProcessResult {
                    map: merged.map,
                    initialized,
                    changes: merged.changes,
                    reconnect: false,
                }
            }
        },
        Message::Patch(pe) => {
            let merged = patch_step(m, pe.env_id.0@, pe.environment);
            ProcessResult { map: merged.map, initialized, changes: merged.changes, reconnect: false }
        },
        Message::Delete(de) => {
            let merged = delete_step(m, de.env_id.0@, de.version);
            ProcessResult { map: merged.map, initialized, changes: merged.changes, reconnect: false }
        },
        Message::Reconnect => ProcessResult {
            map: m,
            initialized,
            changes: Seq::empty(),
            reconnect: true,
        },
    }
}

/// The autoconfiguration client: the environment map, the queue of change
/// events not yet handed out, and the owned transport state machine.
#[derive(Debug)]
pub struct AutoConfigClient {
    pub environments: EnvironmentMap,
    pub changes: VecDeque<ConfigChangeEvent>,
    pub is_initialized: bool,
    pub event_source: EventSource<ExponentialBackoff>,
}

impl AutoConfigClient {
    /// The environment map's keys are unique.
    pub open spec fn wf(&self) -> bool {
        self.environments.wf()
    }

    /// An empty engine over a fresh transport.
    pub fn new() -> (r: Self)
        ensures
            r.wf(),
            r.environments@ == Map::<Seq<char>, EnvironmentConfig>::empty(),
            r.changes@.len() == 0,
            !r.is_initialized,
            r.event_source.state == EventSourceState::Initial,
    {
        Self {
            environments: EnvironmentMap::new(),
            changes: VecDeque::new(),
            is_initialized: false,
            event_source: EventSource::try_with_backoff(None, ExponentialBackoff::new()),
        }
    }

    /// The held environments.
    pub fn environments(&self) -> (r: &EnvironmentMap)
        ensures
            r == &self.environments,
    {
        &self.environments
    }

    /// Replaces the map wholesale, without emitting changes.
    pub fn replace_environments(&mut self, environments: EnvironmentMap)
        ensures
            final(self).environments == environments,
            final(self).changes == old(self).changes,
            final(self).is_initialized == old(self).is_initialized,
            final(self).event_source == old(self).event_source,
    {
        self.environments = environments;
    }

    /// Asks the transport to drop the current connection and reconnect.
    pub fn reconnect(&mut self)
        ensures
            final(self).event_source.state == EventSourceState::ForceReconnect,
            final(self).environments == old(self).environments,
            final(self).changes == old(self).changes,
            final(self).is_initialized == old(self).is_initialized,
    {
        self.event_source.reconnect();
    }

    /// The next queued change event, if one is waiting.
    pub fn next_change(&mut self) -> (r: Option<ConfigChangeEvent>)
        ensures
            final(self).environments == old(self).environments,
            final(self).is_initialized == old(self).is_initialized,
            final(self).event_source == old(self).event_source,
            match r {
                Some(c) => old(self).changes@.len() > 0 && c == old(self).changes@[0]
                    && final(self).changes@ == old(self).changes@.subrange(
                    1,
                    old(self).changes@.len() as int,
                ),
                None => old(self).changes@.len() == 0 && final(self).changes@ == old(self).changes@,
            },
    {
        self.changes.pop_front()
    }

    /// Loads a map of environments without announcing changes: an empty
    /// engine takes the map wholesale; otherwise each record merges under
    /// the version rule.
    pub fn load_environments(&mut self, environments: EnvironmentMap)
        requires
            old(self).wf(),
            environments.wf(),
        ensures
            final(self).wf(),
            final(self).environments@ == (if old(self).environments@ =~= Map::<
                Seq<char>,
                EnvironmentConfig,
            >::empty() {
                environments@
            } else {
                merge_entries(old(self).environments@, environments.entries@).map
            }),
            final(self).changes == old(self).changes,
            final(self).is_initialized == old(self).is_initialized,
            final(self).event_source == old(self).event_source,
    {
        if self.environments.is_empty() {
            self.environments = environments;
            return ;
        }
        let mut payload = environments;
        let ghost m0 = self.environments@;
        let ghost entries0 = payload.entries@;
        while payload.entries.len() > 0
            invariant
                self.wf(),
                self.changes == old(self).changes,
                self.is_initialized == old(self).is_initialized,
                self.event_source == old(self).event_source,
                merge_entries(m0, entries0).map == merge_entries(
                    self.environments@,
                    payload.entries@,
                ).map,
                m0 == old(self).environments@,
            decreases payload.entries@.len(),
        {
            let ghost pre_entries = payload.entries@;
            let (env_id, env) = payload.entries.remove(0);
            proof {
                assert(payload.entries@ =~= pre_entries.skip(1));
            }
            let newer = match self.environments.get(&env_id) {
                Some(existing) => existing.version < env.version,
                None => true,
            };
            if newer {
                self.environments.insert(env_id, env);
            }
        }
    }

    /// Queues an `Insert` announcement for every held environment.
    pub fn generate_init_changes(&mut self)
        ensures
            final(self).changes@ == old(self).changes@ + inserts_of(
                old(self).environments.entries@,
            ),
            final(self).environments == old(self).environments,
            final(self).is_initialized == old(self).is_initialized,
            final(self).event_source == old(self).event_source,
    {
        let n = self.environments.entries.len();
        let mut i: usize = 0;
        while i < n
            invariant
                0 <= i <= n,
                n == self.environments.entries@.len(),
                self.environments == old(self).environments,
                self.is_initialized == old(self).is_initialized,
                self.event_source == old(self).event_source,
                self.changes@ == old(self).changes@ + inserts_of(
                    old(self).environments.entries@,
                ).subrange(0, i as int),
            decreases n - i,
        {
            let announced = self.environments.entries[i].1.clone();
            self.changes.push_back(ConfigChangeEvent::Insert(announced));
            proof {
                let all = inserts_of(old(self).environments.entries@);
                assert(all.subrange(0, i + 1) =~= all.subrange(0, i as int).push(
                    ConfigChangeEvent::Insert(old(self).environments.entries@[i as int].1),
                ));
            }
            i = i + 1;
        }
        proof {
            let all = inserts_of(old(self).environments.entries@);
            assert(all.subrange(0, all.len() as int) =~= all);
        }
    }

    /// Merges one record under its id, queueing the change it causes.
    fn apply_patch(&mut self, env_id: ClientSideId, env: EnvironmentConfig)
        requires
            old(self).wf(),
        ensures
            final(self).wf(),
            ({
                let merged = patch_step(old(self).environments@, env_id.0@, env);
                &&& final(self).environments@ == merged.map
                &&& final(self).changes@ == old(self).changes@ + merged.changes
            }),
            final(self).is_initialized == old(self).is_initialized,
            final(self).event_source == old(self).event_source,
    {
        let existing_version: Option<u64> = match self.environments.get(&env_id) {
            Some(existing) => Some(existing.version),
            None => None,
        };
        match existing_version {
            None => {
                let announced = env.clone();
                self.environments.insert(env_id, env);
                self.changes.push_back(ConfigChangeEvent::Insert(announced));
            },
            Some(ev) => {
                if ev < env.version {
                    let previous = match self.environments.remove(&env_id) {
                        Some(p) => p,
                        None => {
                            proof {
                                assert(false);
                            }
                            env.clone()
                        },
                    };
                    let announced = env.clone();
                    self.environments.insert(env_id, env);
                    self.changes.push_back(
                        ConfigChangeEvent::Update { previous, current: announced },
                    );
                    proof {
                        assert(self.environments@ =~= old(self).environments@.insert(
                            env_id.0@,
                            env,
                        ));
                    }
                }
            },
        }
    }

    /// Processes one parsed message: merges it into the map, queues the
    /// changes it causes, and passes a reconnect request to the transport.
    pub fn process_message(&mut self, msg: Message)
        requires
            old(self).wf(),
            msg matches Message::Put(pe) ==> pe.data.environments.wf(),
        ensures
            final(self).wf(),
            ({
                let res = process_spec(old(self).environments@, old(self).is_initialized, msg);
                &&& final(self).environments@ == res.map
                &&& final(self).is_initialized == res.initialized
                &&& final(self).changes@ == old(self).changes@ + res.changes
                &&& (if res.reconnect {
                    final(self).event_source.state == EventSourceState::ForceReconnect
                        && final(self).event_source.backoff.minimum_duration
                        == old(self).event_source.backoff.minimum_duration
                } else {
                    final(self).event_source == old(self).event_source
                })
            }),
    {
        let ghost gmsg = msg;
        match msg {
            Message::Put(pe) => {
                let PutEvent { path, data } = pe;
                let root = String::from_str("/");
                if !(path == root) {
                    proof {
                        assert(self.changes@ =~= old(self).changes@
                            + Seq::<ConfigChangeEvent>::empty());
                    }
                    return ;
                }
                let PutData { environments: mut payload } = data;
                if self.environments.is_empty() {
                    if !self.is_initialized {
                        self.changes.push_back(ConfigChangeEvent::Initialized);
                    }
                    self.is_initialized = true;
                    let ghost payload_entries = payload.entries@;
                    let n = payload.entries.len();
                    let mut i: usize = 0;
                    while i < n
                        invariant
                            0 <= i <= n,
                            n == payload.entries@.len(),
                            payload.entries@ == payload_entries,
                            self.is_initialized,
                            self.environments == old(self).environments,
                            self.event_source == old(self).event_source,
                            self.changes@ == old(self).changes@ + (if old(self).is_initialized {
                                Seq::<ConfigChangeEvent>::empty()
                            } else {
                                seq![ConfigChangeEvent::Initialized]
                            }) + inserts_of(payload_entries).subrange(0, i as int),
                        decreases n - i,
                    {
                        let announced = payload.entries[i].1.clone();
                        self.changes.push_back(ConfigChangeEvent::Insert(announced));
                        proof {
                            assert(inserts_of(payload_entries).subrange(0, i + 1)
                                =~= inserts_of(payload_entries).subrange(0, i as int).push(
                                ConfigChangeEvent::Insert(payload_entries[i as int].1),
                            ));
                        }
                        i = i + 1;
                    }
                    self.environments = payload;
                    proof {
                        assert(inserts_of(payload_entries).subrange(
                            0,
                            payload_entries.len() as int,
                        ) =~= inserts_of(payload_entries));
                        assert(self.changes@ =~= old(self).changes@ + ((if old(self).is_initialized {
                            Seq::<ConfigChangeEvent>::empty()
                        } else {
                            seq![ConfigChangeEvent::Initialized]
                        }) + inserts_of(payload_entries)));
                        let res = process_spec(
                            old(self).environments@,
                            old(self).is_initialized,
                            gmsg,
                        );
                        assert(self.environments@ == res.map);
                        assert(self.is_initialized == res.initialized);
                        assert(self.changes@ == old(self).changes@ + res.changes);
                    }
                } else {
                    let ghost m0 = self.environments@;
                    let ghost entries0 = payload.entries@;
                    let ghost changes0 = self.changes@;
                    while payload.entries.len() > 0
                        invariant
                            self.wf(),
                            self.is_initialized == old(self).is_initialized,
                            self.event_source == old(self).event_source,
                            merge_entries(m0, entries0).map == merge_entries(
                                self.environments@,
                                payload.entries@,
                            ).map,
                            changes0 + merge_entries(m0, entries0).changes == self.changes@
                                + merge_entries(self.environments@, payload.entries@).changes,
                            changes0 == old(self).changes@,
                            m0 == old(self).environments@,
                        decreases payload.entries@.len(),
                    {
                        let ghost pre_entries = payload.entries@;
                        let (env_id, env) = payload.entries.remove(0);
                        proof {
                            assert(payload.entries@ =~= pre_entries.skip(1));
                        }
                        self.apply_patch(env_id, env);
                    }
                    proof {
                        assert(merge_entries(self.environments@, payload.entries@).changes
                            =~= Seq::<ConfigChangeEvent>::empty());
                        assert(merge_entries(self.environments@, payload.entries@).map
                            == self.environments@);
                        assert(self.changes@ =~= changes0 + merge_entries(m0, entries0).changes);
                        assert(self.environments@ == merge_entries(m0, entries0).map);
                        let res = process_spec(
                            old(self).environments@,
                            old(self).is_initialized,
                            gmsg,
                        );
                        assert(self.environments@ == res.map);
                        assert(self.is_initialized == res.initialized);
                        assert(self.changes@ == old(self).changes@ + res.changes);
                    }
                }
            },
            Message::Patch(pe) => {
                let PatchEvent { env_id, environment } = pe;
                self.apply_patch(env_id, environment);
            },
            Message::Delete(de) => {
                let DeleteEvent { env_id, version } = de;
                let should_remove = match self.environments.get(&env_id) {
                    Some(existing) => existing.version < version,
                    None => false,
                };
                if should_remove {
                    match self.environments.remove(&env_id) {
                        Some(existing) => {
                            self.changes.push_back(ConfigChangeEvent::Delete(existing));
                            proof {
                                assert(self.changes@ =~= old(self).changes@ + seq![
                                    ConfigChangeEvent::Delete(existing),
                                ]);
                            }
                        },
                        None => {
                            proof {
                                assert(false);
                            }
                        },
                    }
                } else {
                    proof {
                        assert(self.changes@ =~= old(self).changes@
                            + Seq::<ConfigChangeEvent>::empty());
                    }
                }
            },
            Message::Reconnect => {
                self.event_source.reconnect();
                proof {
                    assert(self.changes@ =~= old(self).changes@
                        + Seq::<ConfigChangeEvent>::empty());
                }
            },
        }
    }
}

/// The engine's behavior over a whole message sequence: each message is
/// processed against the map and flag the one before it left.
pub open spec fn apply_messages(
    m: Map<Seq<char>, EnvironmentConfig>,
    initialized: bool,
    msgs: Seq<Message>,
) -> ProcessResult
    decreases msgs.len(),
{
    if msgs.len() == 0 {
        ProcessResult { map: m, initialized, changes: Seq::empty(), reconnect: false }
    } else {
        let first = process_spec(m, initialized, msgs[0]);
        let rest = apply_messages(first.map, first.initialized, msgs.skip(1));
        ProcessResult {
            map: rest.map,
            initialized: rest.initialized,
            changes: first.changes + rest.changes,
            reconnect: first.reconnect || rest.reconnect,
        }
    }
}

/// How many `Initialized` events a change sequence holds.
pub open spec fn count_initialized(changes: Seq<ConfigChangeEvent>) -> int
    decreases changes.len(),
{
    if changes.len() == 0 {
        0
    } else {
        count_initialized(changes.drop_last()) + (if (changes.last() matches
        ConfigChangeEvent::Initialized) {
            1int
        } else {
            0int
        })
    }
}

/// Counting `Initialized` distributes over concatenation.
proof fn lemma_count_initialized_concat(a: Seq<ConfigChangeEvent>, b: Seq<ConfigChangeEvent>)
    ensures
        count_initialized(a + b) == count_initialized(a) + count_initialized(b),
    decreases b.len(),
{
    if b.len() == 0 {
        assert(a + b =~= a);
    } else {
        lemma_count_initialized_concat(a, b.drop_last());
        assert((a + b).drop_last() =~= a + b.drop_last());
        assert((a + b).last() == b.last());
    }
}

/// A change sequence without `Initialized` elements counts zero.
proof fn lemma_count_initialized_zero(changes: Seq<ConfigChangeEvent>)
    requires
        forall|i: int|
            0 <= i < changes.len() ==> !((#[trigger] changes[i]) matches
            ConfigChangeEvent::Initialized),
    ensures
        count_initialized(changes) == 0,
    decreases changes.len(),
{
    if changes.len() > 0 {
        lemma_count_initialized_zero(changes.drop_last());
    }
}

/// Merging records announces inserts, updates and deletes, never
/// `Initialized`.
proof fn lemma_merge_entries_no_initialized(
    m: Map<Seq<char>, EnvironmentConfig>,
    entries: Seq<(ClientSideId, EnvironmentConfig)>,
)
    ensures
        count_initialized(merge_entries(m, entries).changes) == 0,
    decreases entries.len(),
{
    if entries.len() == 0 {
        lemma_count_initialized_zero(merge_entries(m, entries).changes);
    } else {
        let first = patch_step(m, entries[0].0.0@, entries[0].1);
        lemma_count_initialized_zero(first.changes);
        lemma_merge_entries_no_initialized(first.map, entries.skip(1));
        lemma_count_initialized_concat(
            first.changes,
            merge_entries(first.map, entries.skip(1)).changes,
        );
    }
}

/// Processing one message spends the engine's one-`Initialized` budget:
/// once the flag is set it stays set, and `Initialized` appears in the
/// changes only when the flag goes from unset to set.
proof fn lemma_process_initialized_budget(
    m: Map<Seq<char>, EnvironmentConfig>,
    initialized: bool,
    msg: Message,
)
    ensures
        ({
            let r = process_spec(m, initialized, msg);
            &&& initialized ==> r.initialized
            &&& count_initialized(r.changes) <= (if initialized {
                0int
            } else {
                1int
            }) - (if r.initialized {
                0int
            } else {
                1int
            })
        }),
{
    let r = process_spec(m, initialized, msg);
    match msg {
        Message::Put(pe) => {
            if pe.path@ != "/"@ {
                lemma_count_initialized_zero(r.changes);
            } else if m =~= Map::<Seq<char>, EnvironmentConfig>::empty() {
                let inserts = inserts_of(pe.data.environments.entries@);
                assert forall|i: int| 0 <= i < inserts.len() implies !((#[trigger] inserts[i])
                    matches ConfigChangeEvent::Initialized) by {
                    assert(inserts[i] == ConfigChangeEvent::Insert(
                        pe.data.environments.entries@[i].1,
                    ));
                }
                lemma_count_initialized_zero(inserts);
                if initialized {
                    assert(r.changes =~= Seq::<ConfigChangeEvent>::empty() + inserts);
                    lemma_count_initialized_concat(Seq::empty(), inserts);
                } else {
                    lemma_count_initialized_concat(seq![ConfigChangeEvent::Initialized], inserts);
                    assert(count_initialized(seq![ConfigChangeEvent::Initialized]) == 1) by {
                        let one = seq![ConfigChangeEvent::Initialized];
                        assert(one.len() == 1);
                        assert(one.last() == ConfigChangeEvent::Initialized);
                        assert(one.drop_last() =~= Seq::<ConfigChangeEvent>::empty());
                        assert(count_initialized(Seq::<ConfigChangeEvent>::empty()) == 0);
                        assert(count_initialized(one) == count_initialized(one.drop_last()) + 1);
                    }
                }
            } else {
                lemma_merge_entries_no_initialized(m, pe.data.environments.entries@);
            }
        },
        Message::Patch(pe) => {
            lemma_count_initialized_zero(r.changes);
        },
        Message::Delete(de) => {
            lemma_count_initialized_zero(r.changes);
        },
        Message::Reconnect => {
            lemma_count_initialized_zero(r.changes);
        },
    }
}

/// Across any message sequence, the changes hold at most one `Initialized`
/// more than the initialization flag allows, and the flag never goes back.
proof fn lemma_apply_initialized_budget(
    m: Map<Seq<char>, EnvironmentConfig>,
    initialized: bool,
    msgs: Seq<Message>,
)
    ensures
        ({
            let r = apply_messages(m, initialized, msgs);
            &&& initialized ==> r.initialized
            &&& count_initialized(r.changes) <= (if initialized {
                0int
            } else {
                1int
            }) - (if r.initialized {
                0int
            } else {
                1int
            })
        }),
    decreases msgs.len(),
{
    if msgs.len() == 0 {
        lemma_count_initialized_zero(apply_messages(m, initialized, msgs).changes);
    } else {
        let first = process_spec(m, initialized, msgs[0]);
        lemma_process_initialized_budget(m, initialized, msgs[0]);
        lemma_apply_initialized_budget(first.map, first.initialized, msgs.skip(1));
        lemma_count_initialized_concat(
            first.changes,
            apply_messages(first.map, first.initialized, msgs.skip(1)).changes,
        );
    }
}

/// Across the lifetime of a merge engine, at most one `Initialized` is
/// emitted: any finite message sequence processed from a fresh engine
/// yields changes holding at most one.
pub proof fn lemma_at_most_one_initialized(msgs: Seq<Message>)
    ensures
        count_initialized(
            apply_messages(Map::<Seq<char>, EnvironmentConfig>::empty(), false, msgs).changes,
        ) <= 1,
{
    lemma_apply_initialized_budget(Map::<Seq<char>, EnvironmentConfig>::empty(), false, msgs);
}

/// The records of `entries` whose project key is `pk`, in order.
pub open spec fn project_envs(
    entries: Seq<(ClientSideId, EnvironmentConfig)>,
    pk: Seq<char>,
) -> Seq<EnvironmentConfig>
    decreases entries.len(),
{
    if entries.len() == 0 {
        Seq::empty()
    } else {
        project_envs(entries.drop_last(), pk) + (if entries.last().1.proj_key.0@ == pk {
            seq![entries.last().1]
        } else {
            Seq::empty()
        })
    }
}

/// The first record of `entries[i..]` with this project and environment
/// key, if any.
pub open spec fn find_env_from(
    entries: Seq<(ClientSideId, EnvironmentConfig)>,
    i: int,
    pk: Seq<char>,
    ek: Seq<char>,
) -> Option<EnvironmentConfig>
    decreases entries.len() - i when 0 <= i <= entries.len()
{
    if i >= entries.len() {
        None
    } else if entries[i].1.proj_key.0@ == pk && entries[i].1.env_key.0@ == ek {
        Some(entries[i].1)
    } else {
        find_env_from(entries, i + 1, pk, ek)
    }
}

impl AutoConfigClient {
    /// The held environments of one project, in insertion order.
    pub fn by_project_key(&self, project_key: &ProjectKey) -> (r: Vec<EnvironmentConfig>)
        ensures
            r@ == project_envs(self.environments.entries@, project_key.0@),
    {
        let mut out: Vec<EnvironmentConfig> = Vec::new();
        let n = self.environments.entries.len();
        let mut i: usize = 0;
        while i < n
            invariant
                0 <= i <= n,
                n == self.environments.entries@.len(),
                out@ == project_envs(
                    self.environments.entries@.subrange(0, i as int),
                    project_key.0@,
                ),
            decreases n - i,
        {
            let ghost prefix = self.environments.entries@.subrange(0, i as int);
            if self.environments.entries[i].1.proj_key.0 == project_key.0 {
                out.push(self.environments.entries[i].1.clone());
            }
            proof {
                let ext = self.environments.entries@.subrange(0, i + 1);
                assert(ext.drop_last() =~= prefix);
                assert(ext.last() == self.environments.entries@[i as int]);
                if self.environments.entries@[i as int].1.proj_key.0@ == project_key.0@ {
                    assert(out@ =~= project_envs(prefix, project_key.0@) + seq![
                        self.environments.entries@[i as int].1,
                    ]);
                } else {
                    assert(project_envs(ext, project_key.0@) =~= project_envs(
                        prefix,
                        project_key.0@,
                    ));
                }
            }
            i = i + 1;
        }
        proof {
            assert(self.environments.entries@.subrange(
                0,
                self.environments.entries@.len() as int,
            ) =~= self.environments.entries@);
        }
        out
    }

    /// The first held environment with this project and environment key.
    pub fn get_environment(&self, project_key: &ProjectKey, env_key: &EnvironmentKey) -> (r:
        Option<EnvironmentConfig>)
        ensures
            r == find_env_from(self.environments.entries@, 0, project_key.0@, env_key.0@),
    {
        let n = self.environments.entries.len();
        let mut i: usize = 0;
        while i < n
            invariant
                0 <= i <= n,
                n == self.environments.entries@.len(),
                find_env_from(self.environments.entries@, 0, project_key.0@, env_key.0@)
                    == find_env_from(self.environments.entries@, i as int, project_key.0@, env_key.0@),
            decreases n - i,
        {
            let entry = &self.environments.entries[i];
            if entry.1.proj_key.0 == project_key.0 && entry.1.env_key.0 == env_key.0 {
                let found = entry.1.clone();
                return Some(found);
            }
            i = i + 1;
        }
        None
    }
}

/// The versions that a record list offers for `key`, in order.
pub open spec fn entries_versions(
    entries: Seq<(ClientSideId, EnvironmentConfig)>,
    key: Seq<char>,
) -> Seq<u64>
    decreases entries.len(),
{
    if entries.len() == 0 {
        Seq::empty()
    } else {
        entries_versions(entries.drop_last(), key) + (if entries.last().0.0@ == key {
            seq![entries.last().1.version]
        } else {
            Seq::empty()
        })
    }
}

/// Offered versions distribute over concatenation of record lists.
proof fn lemma_entries_versions_concat(
    a: Seq<(ClientSideId, EnvironmentConfig)>,
    b: Seq<(ClientSideId, EnvironmentConfig)>,
    key: Seq<char>,
)
    ensures
        entries_versions(a + b, key) == entries_versions(a, key) + entries_versions(b, key),
    decreases b.len(),
{
    if b.len() == 0 {
        assert(a + b =~= a);
        assert(entries_versions(a, key) + entries_versions(b, key) =~= entries_versions(a, key));
    } else {
        lemma_entries_versions_concat(a, b.drop_last(), key);
        assert((a + b).drop_last() =~= a + b.drop_last());
        assert((a + b).last() == b.last());
        assert(entries_versions(a + b, key) =~= entries_versions(a, key) + entries_versions(
            b,
            key,
        ));
    }
}

/// The versions that one message offers for `key`.
pub open spec fn message_versions(msg: Message, key: Seq<char>) -> Seq<u64> {
    match msg {
        Message::Put(pe) => {
            if pe.path@ == "/"@ {
                entries_versions(pe.data.environments.entries@, key)
            } else {
                Seq::empty()
            }
        },
        Message::Patch(pe) => {
            if pe.env_id.0@ == key {
                seq![pe.environment.version]
            } else {
                Seq::empty()
            }
        },
        _ => Seq::empty(),
    }
}

/// The versions that a message sequence offers for `key`, in order.
pub open spec fn offered_versions(msgs: Seq<Message>, key: Seq<char>) -> Seq<u64>
    decreases msgs.len(),
{
    if msgs.len() == 0 {
        Seq::empty()
    } else {
        message_versions(msgs[0], key) + offered_versions(msgs.skip(1), key)
    }
}

/// A message sequence of global puts (with unique payload keys) and
/// patches: no deletes, no off-root puts.
pub open spec fn puts_and_patches(msgs: Seq<Message>) -> bool {
    forall|i: int|
        0 <= i < msgs.len() ==> match #[trigger] msgs[i] {
            Message::Put(pe) => pe.path@ == "/"@ && pe.data.environments.wf(),
            Message::Patch(_) => true,
            Message::Delete(_) => false,
            Message::Reconnect => true,
        }
}

/// The version relation that the merge rules maintain at one key: the key
/// is present exactly when it was present before or some version was
/// offered, and the stored version is the greatest of the prior one and
/// the offers, taken from one of them.
pub open spec fn version_outcome(
    before: Map<Seq<char>, EnvironmentConfig>,
    after: Map<Seq<char>, EnvironmentConfig>,
    key: Seq<char>,
    offered: Seq<u64>,
) -> bool {
    &&& (after.contains_key(key) <==> before.contains_key(key) || offered.len() > 0)
    &&& (after.contains_key(key) ==> {
        let v = after[key].version;
        &&& (forall|i: int| 0 <= i < offered.len() ==> #[trigger] offered[i] <= v)
        &&& (before.contains_key(key) ==> before[key].version <= v)
        &&& ((exists|i: int| 0 <= i < offered.len() && #[trigger] offered[i] == v) || (
        before.contains_key(key) && before[key].version == v))
    })
}

/// Merging a record list relates the stored version at each key to the
/// offered versions.
proof fn lemma_merge_entries_versions(
    m: Map<Seq<char>, EnvironmentConfig>,
    entries: Seq<(ClientSideId, EnvironmentConfig)>,
    key: Seq<char>,
)
    ensures
        version_outcome(m, merge_entries(m, entries).map, key, entries_versions(entries, key)),
    decreases entries.len(),
{
    let offered = entries_versions(entries, key);
    if entries.len() == 0 {
    } else {
        let e0 = entries[0];
        let k0 = e0.0.0@;
        let first = patch_step(m, k0, e0.1);
        let rest = entries.skip(1);
        let rest_off = entries_versions(rest, key);
        let fin = merge_entries(m, entries).map;
        lemma_merge_entries_versions(first.map, rest, key);
        assert(entries =~= seq![e0] + rest);
        lemma_entries_versions_concat(seq![e0], rest, key);
        let head = if k0 == key {
            seq![e0.1.version]
        } else {
            Seq::<u64>::empty()
        };
        assert(entries_versions(seq![e0], key) =~= head) by {
            let one = seq![e0];
            assert(one.len() == 1);
            assert(one.last() == e0);
            assert(one.drop_last() =~= Seq::<(ClientSideId, EnvironmentConfig)>::empty());
            assert(entries_versions(one.drop_last(), key) =~= Seq::<u64>::empty());
        }
        assert(offered =~= head + rest_off);
        // How the first record moves the map at `key`.
        if k0 == key {
            assert(first.map.contains_key(key));
            if m.contains_key(key) {
                if m[key].version < e0.1.version {
                    assert(first.map[key] == e0.1);
                } else {
                    assert(first.map[key] == m[key]);
                }
            } else {
                assert(first.map[key] == e0.1);
            }
        } else {
            assert(first.map.contains_key(key) == m.contains_key(key));
            if m.contains_key(key) {
                assert(first.map[key] == m[key]);
            }
        }
        // Assemble the outcome for the whole list.
        assert(fin.contains_key(key) <==> m.contains_key(key) || offered.len() > 0);
        if fin.contains_key(key) {
            let v = fin[key].version;
            assert forall|i: int| 0 <= i < offered.len() implies #[trigger] offered[i] <= v by {
                if i < head.len() {
                    assert(offered[i] == e0.1.version);
                    assert(first.map.contains_key(key) && first.map[key].version <= v);
                } else {
                    assert(offered[i] == rest_off[i - head.len()]);
                }
            }
            if m.contains_key(key) {
                assert(m[key].version <= v);
            }
            if exists|j: int| 0 <= j < rest_off.len() && #[trigger] rest_off[j] == v {
                let j = choose|j: int| 0 <= j < rest_off.len() && #[trigger] rest_off[j] == v;
                assert(offered[head.len() + j] == v);
            } else {
                assert(first.map.contains_key(key) && first.map[key].version == v);
                if k0 == key && !(m.contains_key(key) && m[key].version >= e0.1.version) {
                    assert(offered[0] == v);
                } else {
                    assert(m.contains_key(key) && m[key].version == v);
                }
            }
        }
    }
}

/// Installing a record list with unique keys stores, for each key, exactly
/// the one version that the list offers for it.
proof fn lemma_install_versions(entries: Seq<(ClientSideId, EnvironmentConfig)>, key: Seq<char>)
    requires
        forall|j: int, k: int|
            0 <= j < k < entries.len() ==> (#[trigger] entries[j]).0.0@ != (
            #[trigger] entries[k]).0.0@,
    ensures
        version_outcome(
            Map::<Seq<char>, EnvironmentConfig>::empty(),
            map_of(entries),
            key,
            entries_versions(entries, key),
        ),
    decreases entries.len(),
{
    let offered = entries_versions(entries, key);
    if entries.len() == 0 {
    } else {
        let pre = entries.drop_last();
        lemma_install_versions(pre, key);
        let last = entries.last();
        assert(map_of(entries) == map_of(pre).insert(last.0.0@, last.1));
        if last.0.0@ == key {
            assert forall|j: int| 0 <= j < pre.len() implies (#[trigger] pre[j]).0.0@ != key by {
                assert(entries[j] == pre[j]);
                assert(entries[j].0.0@ != entries[entries.len() - 1].0.0@);
            }
            crate::messages::lemma_map_of_absent(pre, key);
            lemma_offered_empty_when_absent(pre, key);
            assert(offered =~= seq![last.1.version]);
            assert(map_of(entries)[key] == last.1);
            assert(offered[0] == map_of(entries)[key].version);
        } else {
            assert(offered =~= entries_versions(pre, key));
            assert(map_of(entries).contains_key(key) == map_of(pre).contains_key(key));
            if map_of(pre).contains_key(key) {
                assert(map_of(entries)[key] == map_of(pre)[key]);
            }
        }
    }
}

/// A record list with no entry at `key` offers no version for it.
proof fn lemma_offered_empty_when_absent(
    entries: Seq<(ClientSideId, EnvironmentConfig)>,
    key: Seq<char>,
)
    requires
        forall|j: int| 0 <= j < entries.len() ==> (#[trigger] entries[j]).0.0@ != key,
    ensures
        entries_versions(entries, key) == Seq::<u64>::empty(),
    decreases entries.len(),
{
    if entries.len() > 0 {
        lemma_offered_empty_when_absent(entries.drop_last(), key);
        assert(entries_versions(entries, key) =~= Seq::<u64>::empty());
    }
}

/// Version outcomes compose: offers merged in two stages relate the final
/// map to the first as the concatenated offers.
proof fn lemma_version_outcome_compose(
    m0: Map<Seq<char>, EnvironmentConfig>,
    m1: Map<Seq<char>, EnvironmentConfig>,
    m2: Map<Seq<char>, EnvironmentConfig>,
    key: Seq<char>,
    o1: Seq<u64>,
    o2: Seq<u64>,
)
    requires
        version_outcome(m0, m1, key, o1),
        version_outcome(m1, m2, key, o2),
    ensures
        version_outcome(m0, m2, key, o1 + o2),
{
    let offered = o1 + o2;
    assert(m2.contains_key(key) <==> m0.contains_key(key) || offered.len() > 0);
    if m2.contains_key(key) {
        let v = m2[key].version;
        assert forall|i: int| 0 <= i < offered.len() implies #[trigger] offered[i] <= v by {
            if i < o1.len() {
                assert(offered[i] == o1[i]);
                assert(m1.contains_key(key) && m1[key].version <= v);
            } else {
                assert(offered[i] == o2[i - o1.len()]);
            }
        }
        if exists|j: int| 0 <= j < o2.len() && #[trigger] o2[j] == v {
            let j = choose|j: int| 0 <= j < o2.len() && #[trigger] o2[j] == v;
            assert(offered[o1.len() + j] == v);
        } else {
            assert(m1.contains_key(key) && m1[key].version == v);
            if exists|j: int| 0 <= j < o1.len() && #[trigger] o1[j] == v {
                let j = choose|j: int| 0 <= j < o1.len() && #[trigger] o1[j] == v;
                assert(offered[j] == v);
            } else {
                assert(m0.contains_key(key) && m0[key].version == v);
            }
        }
    }
}

/// Processing one global put or patch relates the stored version at each
/// key to the versions the message offers.
proof fn lemma_process_versions(
    m: Map<Seq<char>, EnvironmentConfig>,
    initialized: bool,
    msg: Message,
    key: Seq<char>,
)
    requires
        match msg {
            Message::Put(pe) => pe.path@ == "/"@ && pe.data.environments.wf(),
            Message::Delete(_) => false,
            _ => true,
        },
    ensures
        version_outcome(m, process_spec(m, initialized, msg).map, key, message_versions(msg, key)),
{
    match msg {
        Message::Put(pe) => {
            if m =~= Map::<Seq<char>, EnvironmentConfig>::empty() {
                assert(m == Map::<Seq<char>, EnvironmentConfig>::empty());
                lemma_install_versions(pe.data.environments.entries@, key);
            } else {
                lemma_merge_entries_versions(m, pe.data.environments.entries@, key);
            }
        },
        Message::Patch(pe) => {
            let merged = patch_step(m, pe.env_id.0@, pe.environment);
            let offered = message_versions(msg, key);
            if pe.env_id.0@ == key {
                assert(offered == seq![pe.environment.version]);
                assert(merged.map.contains_key(key));
                if m.contains_key(key) && m[key].version >= pe.environment.version {
                    assert(merged.map[key] == m[key]);
                } else {
                    assert(merged.map[key] == pe.environment);
                    assert(offered[0] == merged.map[key].version);
                }
            } else {
                assert(offered =~= Seq::<u64>::empty());
                assert(merged.map.contains_key(key) == m.contains_key(key));
                if m.contains_key(key) {
                    assert(merged.map[key] == m[key]);
                }
            }
        },
        Message::Delete(de) => {
        },
        Message::Reconnect => {
            assert(message_versions(msg, key) =~= Seq::<u64>::empty());
        },
    }
}

/// Monotone versions: after processing any finite sequence of global puts
/// and patches, every id present in the map holds the greatest version any
/// message offered for it (taken from one of them), an id is present
/// exactly when it was present before or some message offered one, and a
/// held version never goes backwards.
pub proof fn lemma_monotone_versions(
    m: Map<Seq<char>, EnvironmentConfig>,
    initialized: bool,
    msgs: Seq<Message>,
    key: Seq<char>,
)
    requires
        puts_and_patches(msgs),
    ensures
        version_outcome(
            m,
            apply_messages(m, initialized, msgs).map,
            key,
            offered_versions(msgs, key),
        ),
    decreases msgs.len(),
{
    if msgs.len() > 0 {
        let first = process_spec(m, initialized, msgs[0]);
        assert(match msgs[0] {
            Message::Put(pe) => pe.path@ == "/"@ && pe.data.environments.wf(),
            Message::Delete(_) => false,
            _ => true,
        }) by {
            assert(puts_and_patches(msgs));
        }
        lemma_process_versions(m, initialized, msgs[0], key);
        assert forall|i: int| 0 <= i < msgs.skip(1).len() implies match #[trigger] msgs.skip(
            1,
        )[i] {
            Message::Put(pe) => pe.path@ == "/"@ && pe.data.environments.wf(),
            Message::Patch(_) => true,
            Message::Delete(_) => false,
            Message::Reconnect => true,
        } by {
            assert(msgs.skip(1)[i] == msgs[i + 1]);
        }
        lemma_monotone_versions(first.map, first.initialized, msgs.skip(1), key);
        lemma_version_outcome_compose(
            m,
            first.map,
            apply_messages(first.map, first.initialized, msgs.skip(1)).map,
            key,
            message_versions(msgs[0], key),
            offered_versions(msgs.skip(1), key),
        );
    }
}

} // verus!
