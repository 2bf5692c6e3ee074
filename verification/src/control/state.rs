//! The server's registry of clients, groups and streams.
//!
//! [`ServerState`] holds what the web UI and the REST API read and change.
//! Each operation here only decides and records; publishing events,
//! persisting to disk and locking are done by the caller around it.
//! Times are Unix milliseconds supplied by the caller.

use vstd::prelude::*;
use vstd::string::StringSliceAdditionalSpecFns;
use crate::config::{client_id_ok, validate_client_id, TransportMode};
use crate::error::SoniumError;
use crate::ids::{new_uuid_v4, uuid_v4_text};
use crate::protocol::messages::health_report::HealthReport;
use crate::sorting::{
    block, i64_key, lemma_block_insert, lemma_block_member, lemma_block_push, sort_ascending,
    stable_ascending, stable_descending,
};
use vstd::utf8::encode_utf8;
use crate::text::str_equal;
use crate::control::scheduler::{members_spec, AnnouncementClient};

verus! {

// ---------------------------------------------------------------------------
// Records
// ---------------------------------------------------------------------------

/// Connection status of a known client.
#[derive(Debug, Clone, Copy, PartialEq, Eq, Structural)]
pub enum ClientStatus {
    /// The TCP connection is active.
    Connected,
    /// The connection dropped; the client's settings are remembered.
    Disconnected,
}

/// A client known to the server, connected or recently seen.
#[derive(Debug)]
pub struct ClientInfo {
    /// Stable unique ID sent in the `Hello` message.
    pub id: String,
    pub hostname: String,
    pub client_name: String,
    pub os: String,
    pub arch: String,
    /// Remote socket address of the TCP connection, as text.
    pub remote_addr: String,
    /// Volume (0–100).
    pub volume: u8,
    pub muted: bool,
    /// Extra latency offset in milliseconds.
    pub latency_ms: i32,
    /// Group this client belongs to.
    pub group_id: String,
    pub status: ClientStatus,
    /// When the client last connected or disconnected (Unix milliseconds).
    pub connected_at_ms: i64,
    pub protocol_version: u32,
    /// Identity of the admitted session, used to ignore stale cleanup.
    pub session_generation: u64,
    /// Operator-assigned display name, shown instead of the hostname.
    pub display_name: Option<String>,
    /// Whether the client should send diagnostic health reports.
    pub observability_enabled: bool,
    pub health: Option<HealthReport>,
    /// Last clock offset (ms) from a health report.
    pub last_clock_offset_ms: Option<i32>,
}

pub ghost struct ClientView {
    pub id: Seq<char>,
    pub hostname: Seq<char>,
    pub client_name: Seq<char>,
    pub os: Seq<char>,
    pub arch: Seq<char>,
    pub remote_addr: Seq<char>,
    pub volume: u8,
    pub muted: bool,
    pub latency_ms: i32,
    pub group_id: Seq<char>,
    pub status: ClientStatus,
    pub connected_at_ms: i64,
    pub protocol_version: u32,
    pub session_generation: u64,
    pub display_name: Option<Seq<char>>,
    pub observability_enabled: bool,
    pub health: Option<HealthReport>,
    pub last_clock_offset_ms: Option<i32>,
}

pub open spec fn opt_view(o: Option<String>) -> Option<Seq<char>> {
    match o {
        Some(s) => Some(s@),
        None => None,
    }
}

impl View for ClientInfo {
    type V = ClientView;

    open spec fn view(&self) -> ClientView {
        ClientView {
            id: self.id@,
            hostname: self.hostname@,
            client_name: self.client_name@,
            os: self.os@,
            arch: self.arch@,
            remote_addr: self.remote_addr@,
            volume: self.volume,
            muted: self.muted,
            latency_ms: self.latency_ms,
            group_id: self.group_id@,
            status: self.status,
            connected_at_ms: self.connected_at_ms,
            protocol_version: self.protocol_version,
            session_generation: self.session_generation,
            display_name: opt_view(self.display_name),
            observability_enabled: self.observability_enabled,
            health: self.health,
            last_clock_offset_ms: self.last_clock_offset_ms,
        }
    }
}

impl ClientInfo {
    pub fn is_connected(&self) -> (b: bool)
        ensures
            b == (self.status == ClientStatus::Connected),
    {
        self.status == ClientStatus::Connected
    }

    /// The name shown in the UI: the display name where one is set, else the
    /// hostname.
    pub fn label(&self) -> (s: &str)
        ensures
            s@ == match self.display_name {
                Some(d) => d@,
                None => self.hostname@,
            },
    {
        match &self.display_name {
            Some(d) => d.as_str(),
            None => self.hostname.as_str(),
        }
    }
}

/// A group of clients that all play the same stream.
#[derive(Debug)]
pub struct Group {
    pub id: String,
    /// Display name shown in the web UI.
    pub name: String,
    /// The stream this group plays.
    pub stream_id: String,
    /// Client IDs in this group, in the order they joined.
    pub client_ids: Vec<String>,
}

pub ghost struct GroupView {
    pub id: Seq<char>,
    pub name: Seq<char>,
    pub stream_id: Seq<char>,
    pub client_ids: Seq<Seq<char>>,
}

impl View for Group {
    type V = GroupView;

    open spec fn view(&self) -> GroupView {
        GroupView {
            id: self.id@,
            name: self.name@,
            stream_id: self.stream_id@,
            client_ids: self.client_ids@.map_values(|c: String| c@),
        }
    }
}

/// Playback status of a stream.
#[derive(Debug, Clone, Copy, PartialEq, Eq, Structural)]
pub enum StreamStatus {
    Playing,
    Idle,
    Recovering,
    Error,
}

/// Progress of a file or FIFO source that waits to be reopened.
#[derive(Debug, Clone, Copy, PartialEq, Eq, Structural)]
pub struct StreamRecovery {
    /// Consecutive reopen attempts since the reader last produced input.
    pub attempt: u32,
    /// Delay before the next reopen attempt.
    pub retry_in_ms: u64,
}

/// An audio stream known to the server.
#[derive(Debug)]
pub struct StreamInfo {
    pub id: String,
    pub display_name: Option<String>,
    pub codec: String,
    pub format: String,
    pub source: String,
    pub buffer_ms: u32,
    pub buffer_ms_overridden: bool,
    pub chunk_ms: u32,
    pub chunk_ms_overridden: bool,
    pub idle_timeout_ms: Option<u32>,
    pub silence_on_idle: bool,
    pub status: StreamStatus,
    /// Reopen progress while the source waits for its producer.
    pub recovery: Option<StreamRecovery>,
}

pub ghost struct StreamView {
    pub id: Seq<char>,
    pub display_name: Option<Seq<char>>,
    pub codec: Seq<char>,
    pub format: Seq<char>,
    pub source: Seq<char>,
    pub buffer_ms: u32,
    pub buffer_ms_overridden: bool,
    pub chunk_ms: u32,
    pub chunk_ms_overridden: bool,
    pub idle_timeout_ms: Option<u32>,
    pub silence_on_idle: bool,
    pub status: StreamStatus,
    pub recovery: Option<StreamRecovery>,
}

impl View for StreamInfo {
    type V = StreamView;

    open spec fn view(&self) -> StreamView {
        StreamView {
            id: self.id@,
            display_name: opt_view(self.display_name),
            codec: self.codec@,
            format: self.format@,
            source: self.source@,
            buffer_ms: self.buffer_ms,
            buffer_ms_overridden: self.buffer_ms_overridden,
            chunk_ms: self.chunk_ms,
            chunk_ms_overridden: self.chunk_ms_overridden,
            idle_timeout_ms: self.idle_timeout_ms,
            silence_on_idle: self.silence_on_idle,
            status: self.status,
            recovery: self.recovery,
        }
    }
}

/// Chunk duration of a stream whose settings do not name one.
pub fn default_chunk_ms() -> (ms: u32)
    ensures
        ms == 20,
{
    20
}

// ---------------------------------------------------------------------------
// Copies with exact views
// ---------------------------------------------------------------------------

pub fn copy_opt_string(o: &Option<String>) -> (c: Option<String>)
    ensures
        opt_view(c) == opt_view(*o),
{
    match o {
        Some(s) => Some(s.clone()),
        None => None,
    }
}

pub fn copy_string_list(v: &Vec<String>) -> (c: Vec<String>)
    ensures
        c@.map_values(|s: String| s@) == v@.map_values(|s: String| s@),
{
    let mut c: Vec<String> = Vec::new();
    let mut k: usize = 0;
    while k < v.len()
        invariant
            0 <= k <= v@.len(),
            c@.len() == k,
            forall|j: int| 0 <= j < k ==> (#[trigger] c@[j])@ == v@[j]@,
        decreases v@.len() - k,
    {
        c.push(v[k].clone());
        k = k + 1;
    }
    assert(c@.map_values(|s: String| s@) =~= v@.map_values(|s: String| s@));
    c
}

impl ClientInfo {
    /// A copy of the record.
    pub fn copy(&self) -> (c: ClientInfo)
        ensures
            c@ == self@,
    {
        ClientInfo {
            id: self.id.clone(),
            hostname: self.hostname.clone(),
            client_name: self.client_name.clone(),
            os: self.os.clone(),
            arch: self.arch.clone(),
            remote_addr: self.remote_addr.clone(),
            volume: self.volume,
            muted: self.muted,
            latency_ms: self.latency_ms,
            group_id: self.group_id.clone(),
            status: self.status,
            connected_at_ms: self.connected_at_ms,
            protocol_version: self.protocol_version,
            session_generation: self.session_generation,
            display_name: copy_opt_string(&self.display_name),
            observability_enabled: self.observability_enabled,
            health: self.health,
            last_clock_offset_ms: self.last_clock_offset_ms,
        }
    }
}

impl Group {
    /// A copy of the record.
    pub fn copy(&self) -> (c: Group)
        ensures
            c@ == self@,
    {
        Group {
            id: self.id.clone(),
            name: self.name.clone(),
            stream_id: self.stream_id.clone(),
            client_ids: copy_string_list(&self.client_ids),
        }
    }
}

impl StreamInfo {
    /// A copy of the record.
    pub fn copy(&self) -> (c: StreamInfo)
        ensures
            c@ == self@,
    {
        StreamInfo {
            id: self.id.clone(),
            display_name: copy_opt_string(&self.display_name),
            codec: self.codec.clone(),
            format: self.format.clone(),
            source: self.source.clone(),
            buffer_ms: self.buffer_ms,
            buffer_ms_overridden: self.buffer_ms_overridden,
            chunk_ms: self.chunk_ms,
            chunk_ms_overridden: self.chunk_ms_overridden,
            idle_timeout_ms: self.idle_timeout_ms,
            silence_on_idle: self.silence_on_idle,
            status: self.status,
            recovery: self.recovery,
        }
    }
}

// ---------------------------------------------------------------------------
// The registry
// ---------------------------------------------------------------------------

pub ghost struct StateView {
    /// Known clients, in the order they were first registered.
    pub clients: Seq<ClientView>,
    /// Groups, in the order they were created.
    pub groups: Seq<GroupView>,
    /// Streams, in the order they were registered.
    pub streams: Seq<StreamView>,
    /// Bound on the number of remembered clients.
    pub max_known_clients: nat,
    /// Generation given to the next admitted session.
    pub next_generation: u64,
    pub timezone: Option<Seq<char>>,
    /// Active media transport.
    pub transport_mode: TransportMode,
    /// Server UDP port for RTP media; zero when not configured.
    pub server_udp_port: u16,
}

/// Thread-unaware registry of clients, groups and streams.
pub struct ServerState {
    clients: Vec<ClientInfo>,
    groups: Vec<Group>,
    streams: Vec<StreamInfo>,
    max_known_clients: usize,
    next_client_generation: u64,
    timezone: Option<String>,
    transport_mode: TransportMode,
    server_udp_port: u16,
}

impl View for ServerState {
    type V = StateView;

    closed spec fn view(&self) -> StateView {
        StateView {
            clients: self.clients@.map_values(|c: ClientInfo| c@),
            groups: self.groups@.map_values(|g: Group| g@),
            streams: self.streams@.map_values(|s: StreamInfo| s@),
            max_known_clients: self.max_known_clients as nat,
            next_generation: self.next_client_generation,
            timezone: opt_view(self.timezone),
            transport_mode: self.transport_mode,
            server_udp_port: self.server_udp_port,
        }
    }
}

/// The id of the group every client falls back to.
pub open spec fn default_id() -> Seq<char> {
    seq!['d', 'e', 'f', 'a', 'u', 'l', 't']
}

pub open spec fn client_ids_distinct(s: Seq<ClientView>) -> bool {
    forall|i: int, j: int| 0 <= i < s.len() && 0 <= j < s.len() && i != j ==> s[i].id != s[j].id
}

pub open spec fn group_ids_distinct(s: Seq<GroupView>) -> bool {
    forall|i: int, j: int| 0 <= i < s.len() && 0 <= j < s.len() && i != j ==> s[i].id != s[j].id
}

pub open spec fn stream_ids_distinct(s: Seq<StreamView>) -> bool {
    forall|i: int, j: int| 0 <= i < s.len() && 0 <= j < s.len() && i != j ==> s[i].id != s[j].id
}

pub open spec fn find_client(s: Seq<ClientView>, id: Seq<char>) -> Option<int> {
    if exists|i: int| 0 <= i < s.len() && #[trigger] s[i].id == id {
        Some(choose|i: int| 0 <= i < s.len() && #[trigger] s[i].id == id)
    } else {
        None
    }
}

pub open spec fn find_group(s: Seq<GroupView>, id: Seq<char>) -> Option<int> {
    if exists|i: int| 0 <= i < s.len() && #[trigger] s[i].id == id {
        Some(choose|i: int| 0 <= i < s.len() && #[trigger] s[i].id == id)
    } else {
        None
    }
}

pub open spec fn find_stream(s: Seq<StreamView>, id: Seq<char>) -> Option<int> {
    if exists|i: int| 0 <= i < s.len() && #[trigger] s[i].id == id {
        Some(choose|i: int| 0 <= i < s.len() && #[trigger] s[i].id == id)
    } else {
        None
    }
}

/// The registry's invariant: identifiers are unique within each table, the
/// default group exists, and no more clients are remembered than the bound.
pub open spec fn state_wf(v: StateView) -> bool {
    &&& client_ids_distinct(v.clients)
    &&& group_ids_distinct(v.groups)
    &&& stream_ids_distinct(v.streams)
    &&& find_group(v.groups, default_id()) is Some
    &&& v.clients.len() <= v.max_known_clients
}

impl ServerState {
    pub closed spec fn wf(&self) -> bool {
        &&& state_wf(self@)
        &&& self.max_known_clients as nat == self@.max_known_clients
    }

    fn client_pos(&self, id: &str) -> (r: Option<usize>)
        requires
            client_ids_distinct(self@.clients),
        ensures
            r matches Some(i) ==> find_client(self@.clients, id@) == Some(i as int),
            r is None ==> find_client(self@.clients, id@) is None,
    {
        let mut i: usize = 0;
        while i < self.clients.len()
            invariant
                0 <= i <= self.clients@.len(),
                client_ids_distinct(self@.clients),
                self@.clients.len() == self.clients@.len(),
                forall|j: int| 0 <= j < i ==> (#[trigger] self@.clients[j]).id != id@,
            decreases self.clients@.len() - i,
        {
            if str_equal(self.clients[i].id.as_str(), id) {
                assert(self@.clients[i as int].id == id@);
                return Some(i);
            }
            i = i + 1;
        }
        None
    }

    fn group_pos(&self, id: &str) -> (r: Option<usize>)
        requires
            group_ids_distinct(self@.groups),
        ensures
            r matches Some(i) ==> find_group(self@.groups, id@) == Some(i as int),
            r is None ==> find_group(self@.groups, id@) is None,
    {
        let mut i: usize = 0;
        while i < self.groups.len()
            invariant
                0 <= i <= self.groups@.len(),
                group_ids_distinct(self@.groups),
                self@.groups.len() == self.groups@.len(),
                forall|j: int| 0 <= j < i ==> (#[trigger] self@.groups[j]).id != id@,
            decreases self.groups@.len() - i,
        {
            if str_equal(self.groups[i].id.as_str(), id) {
                assert(self@.groups[i as int].id == id@);
                return Some(i);
            }
            i = i + 1;
        }
        None
    }

    fn stream_pos(&self, id: &str) -> (r: Option<usize>)
        requires
            stream_ids_distinct(self@.streams),
        ensures
            r matches Some(i) ==> find_stream(self@.streams, id@) == Some(i as int),
            r is None ==> find_stream(self@.streams, id@) is None,
    {
        let mut i: usize = 0;
        while i < self.streams.len()
            invariant
                0 <= i <= self.streams@.len(),
                stream_ids_distinct(self@.streams),
                self@.streams.len() == self.streams@.len(),
                forall|j: int| 0 <= j < i ==> (#[trigger] self@.streams[j]).id != id@,
            decreases self.streams@.len() - i,
        {
            if str_equal(self.streams[i].id.as_str(), id) {
                assert(self@.streams[i as int].id == id@);
                return Some(i);
            }
            i = i + 1;
        }
        None
    }
}


pub open spec fn with_client(v: StateView, i: int, c: ClientView) -> StateView {
    StateView { clients: v.clients.update(i, c), ..v }
}

pub open spec fn with_group(v: StateView, i: int, g: GroupView) -> StateView {
    StateView { groups: v.groups.update(i, g), ..v }
}

pub open spec fn with_stream(v: StateView, i: int, s: StreamView) -> StateView {
    StateView { streams: v.streams.update(i, s), ..v }
}

impl ServerState {
    fn replace_client(&mut self, i: usize, c: ClientInfo)
        requires
            old(self).wf(),
            i < old(self)@.clients.len(),
            c@.id == old(self)@.clients[i as int].id,
        ensures
            final(self).wf(),
            final(self)@ == with_client(old(self)@, i as int, c@),
    {
        self.clients.set(i, c);
        proof {
            assert(self@.clients =~= old(self)@.clients.update(i as int, c@));
            assert(self@ == with_client(old(self)@, i as int, c@));
        }
    }

    fn replace_group(&mut self, i: usize, g: Group)
        requires
            old(self).wf(),
            i < old(self)@.groups.len(),
            g@.id == old(self)@.groups[i as int].id,
        ensures
            final(self).wf(),
            final(self)@ == with_group(old(self)@, i as int, g@),
    {
        self.groups.set(i, g);
        proof {
            assert(self@.groups =~= old(self)@.groups.update(i as int, g@));
            let d = find_group(old(self)@.groups, default_id())->0;
            assert(self@.groups[d].id == default_id());
        }
    }

    fn replace_stream(&mut self, i: usize, s: StreamInfo)
        requires
            old(self).wf(),
            i < old(self)@.streams.len(),
            s@.id == old(self)@.streams[i as int].id,
        ensures
            final(self).wf(),
            final(self)@ == with_stream(old(self)@, i as int, s@),
    {
        self.streams.set(i, s);
        proof {
            assert(self@.streams =~= old(self)@.streams.update(i as int, s@));
        }
    }

    /// Update volume and mute of a client; the new pair, or `None` for an
    /// unknown client.
    pub fn set_volume(&mut self, client_id: &str, volume: u8, muted: bool) -> (r: Option<(u8, bool)>)
        requires
            old(self).wf(),
        ensures
            final(self).wf(),
            match find_client(old(self)@.clients, client_id@) {
                Some(i) => r == Some((volume, muted)) && final(self)@ == with_client(
                    old(self)@,
                    i,
                    (ClientView { volume: volume, muted: muted, ..old(self)@.clients[i] }),
                ),
                None => r is None && final(self)@ == old(self)@,
            },
    {
        match self.client_pos(client_id) {
            Some(i) => {
                let mut c = self.clients[i].copy();
                c.volume = volume;
                c.muted = muted;
                self.replace_client(i, c);
                Some((volume, muted))
            },
            None => None,
        }
    }

    /// Update a client's latency offset; `false` for an unknown client.
    pub fn set_latency(&mut self, client_id: &str, latency_ms: i32) -> (r: bool)
        requires
            old(self).wf(),
        ensures
            final(self).wf(),
            match find_client(old(self)@.clients, client_id@) {
                Some(i) => r && final(self)@ == with_client(
                    old(self)@,
                    i,
                    (ClientView { latency_ms: latency_ms, ..old(self)@.clients[i] }),
                ),
                None => !r && final(self)@ == old(self)@,
            },
    {
        match self.client_pos(client_id) {
            Some(i) => {
                let mut c = self.clients[i].copy();
                c.latency_ms = latency_ms;
                self.replace_client(i, c);
                true
            },
            None => false,
        }
    }

    /// Enable or disable diagnostic health reporting for a client; disabling
    /// drops the last report.  `false` for an unknown client.
    pub fn set_client_observability(&mut self, client_id: &str, enabled: bool) -> (r: bool)
        requires
            old(self).wf(),
        ensures
            final(self).wf(),
            match find_client(old(self)@.clients, client_id@) {
                Some(i) => r && final(self)@ == with_client(
                    old(self)@,
                    i,
                    (ClientView {
                        observability_enabled: enabled,
                        health: if enabled { old(self)@.clients[i].health } else { None },
                        ..old(self)@.clients[i]
                    }),
                ),
                None => !r && final(self)@ == old(self)@,
            },
    {
        match self.client_pos(client_id) {
            Some(i) => {
                let mut c = self.clients[i].copy();
                c.observability_enabled = enabled;
                if !enabled {
                    c.health = None;
                }
                self.replace_client(i, c);
                true
            },
            None => false,
        }
    }

    /// Set or clear the operator-assigned display name of a client; `false`
    /// for an unknown client.
    pub fn set_client_name(&mut self, client_id: &str, display_name: Option<String>) -> (r: bool)
        requires
            old(self).wf(),
        ensures
            final(self).wf(),
            match find_client(old(self)@.clients, client_id@) {
                Some(i) => r && final(self)@ == with_client(
                    old(self)@,
                    i,
                    (ClientView { display_name: opt_view(display_name), ..old(self)@.clients[i] }),
                ),
                None => !r && final(self)@ == old(self)@,
            },
    {
        match self.client_pos(client_id) {
            Some(i) => {
                let mut c = self.clients[i].copy();
                c.display_name = display_name;
                self.replace_client(i, c);
                true
            },
            None => false,
        }
    }

    /// Record the latest health report of a client; `false` for an unknown
    /// client.
    pub fn set_client_health(&mut self, client_id: &str, health: HealthReport) -> (r: bool)
        requires
            old(self).wf(),
        ensures
            final(self).wf(),
            match find_client(old(self)@.clients, client_id@) {
                Some(i) => r && final(self)@ == with_client(
                    old(self)@,
                    i,
                    (ClientView { health: Some(health), ..old(self)@.clients[i] }),
                ),
                None => !r && final(self)@ == old(self)@,
            },
    {
        match self.client_pos(client_id) {
            Some(i) => {
                let mut c = self.clients[i].copy();
                c.health = Some(health);
                self.replace_client(i, c);
                true
            },
            None => false,
        }
    }

    /// Record the last clock offset (ms) reported by a client; `false` for an
    /// unknown client.
    pub fn set_client_clock_offset(&mut self, client_id: &str, offset_ms: i32) -> (r: bool)
        requires
            old(self).wf(),
        ensures
            final(self).wf(),
            match find_client(old(self)@.clients, client_id@) {
                Some(i) => r && final(self)@ == with_client(
                    old(self)@,
                    i,
                    (ClientView { last_clock_offset_ms: Some(offset_ms), ..old(self)@.clients[i] }),
                ),
                None => !r && final(self)@ == old(self)@,
            },
    {
        match self.client_pos(client_id) {
            Some(i) => {
                let mut c = self.clients[i].copy();
                c.last_clock_offset_ms = Some(offset_ms);
                self.replace_client(i, c);
                true
            },
            None => false,
        }
    }

    /// Volume and mute of a client, without copying the whole record.
    pub fn get_volume(&self, client_id: &str) -> (r: Option<(u8, bool)>)
        requires
            self.wf(),
        ensures
            r == match find_client(self@.clients, client_id@) {
                Some(i) => Some((self@.clients[i].volume, self@.clients[i].muted)),
                None => None,
            },
    {
        match self.client_pos(client_id) {
            Some(i) => Some((self.clients[i].volume, self.clients[i].muted)),
            None => None,
        }
    }

    pub fn get_client(&self, id: &str) -> (r: Option<ClientInfo>)
        requires
            self.wf(),
        ensures
            match find_client(self@.clients, id@) {
                Some(i) => r matches Some(c) && c@ == self@.clients[i],
                None => r is None,
            },
    {
        match self.client_pos(id) {
            Some(i) => Some(self.clients[i].copy()),
            None => None,
        }
    }

    /// Every known client, in registration order.
    pub fn all_clients(&self) -> (r: Vec<ClientInfo>)
        ensures
            r@.map_values(|c: ClientInfo| c@) == self@.clients,
    {
        let mut r: Vec<ClientInfo> = Vec::new();
        let mut k: usize = 0;
        while k < self.clients.len()
            invariant
                0 <= k <= self.clients@.len(),
                r@.len() == k,
                forall|j: int| 0 <= j < k ==> (#[trigger] r@[j])@ == self.clients@[j]@,
            decreases self.clients@.len() - k,
        {
            r.push(self.clients[k].copy());
            k = k + 1;
        }
        assert(r@.map_values(|c: ClientInfo| c@) =~= self@.clients);
        r
    }

    /// The connected clients, in registration order.
    pub fn connected_clients(&self) -> (r: Vec<ClientInfo>)
        ensures
            r@.map_values(|c: ClientInfo| c@) == self@.clients.filter(
                |c: ClientView| c.status == ClientStatus::Connected,
            ),
    {
        let ghost pred = |c: ClientView| c.status == ClientStatus::Connected;
        let mut r: Vec<ClientInfo> = Vec::new();
        let mut k: usize = 0;
        while k < self.clients.len()
            invariant
                0 <= k <= self.clients@.len(),
                self@.clients.len() == self.clients@.len(),
                pred == (|c: ClientView| c.status == ClientStatus::Connected),
                r@.map_values(|c: ClientInfo| c@) == self@.clients.subrange(0, k as int).filter(pred),
            decreases self.clients@.len() - k,
        {
            proof {
                let s = self@.clients.subrange(0, k as int + 1);
                assert(s.drop_last() =~= self@.clients.subrange(0, k as int));
                assert(s.last() == self@.clients[k as int]);
                reveal_with_fuel(Seq::<ClientView>::filter, 1);
                assert(s.filter(pred) == if pred(s.last()) {
                    s.drop_last().filter(pred).push(s.last())
                } else {
                    s.drop_last().filter(pred)
                });
            }
            if self.clients[k].is_connected() {
                let c = self.clients[k].copy();
                r.push(c);
                proof {
                    assert(r@.map_values(|c: ClientInfo| c@) =~= self@.clients.subrange(0, k as int).filter(pred).push(c@));
                }
            }
            k = k + 1;
        }
        assert(self@.clients.subrange(0, self.clients@.len() as int) =~= self@.clients);
        r
    }

    /// The sessions of the clients of group `group_id`, connected or not, in
    /// registration order: the acknowledgements an announcement for the group
    /// waits for.
    pub fn announcement_clients_in_group(&self, group_id: &str) -> (r: Vec<AnnouncementClient>)
        ensures
            members_spec(r@) == self@.clients.filter(|c: ClientView| c.group_id == group_id@).map_values(
                |c: ClientView| (c.id, c.session_generation),
            ),
    {
        let ghost pred = |c: ClientView| c.group_id == group_id@;
        let ghost f = |c: ClientView| (c.id, c.session_generation);
        let mut r: Vec<AnnouncementClient> = Vec::new();
        let mut k: usize = 0;
        while k < self.clients.len()
            invariant
                0 <= k <= self.clients@.len(),
                self@.clients.len() == self.clients@.len(),
                pred == (|c: ClientView| c.group_id == group_id@),
                f == (|c: ClientView| (c.id, c.session_generation)),
                members_spec(r@) == self@.clients.subrange(0, k as int).filter(pred).map_values(f),
            decreases self.clients@.len() - k,
        {
            proof {
                let s = self@.clients.subrange(0, k as int + 1);
                assert(s.drop_last() =~= self@.clients.subrange(0, k as int));
                assert(s.last() == self@.clients[k as int]);
                reveal_with_fuel(Seq::<ClientView>::filter, 1);
                assert(s.filter(pred) == if pred(s.last()) {
                    s.drop_last().filter(pred).push(s.last())
                } else {
                    s.drop_last().filter(pred)
                });
            }
            if str_equal(self.clients[k].group_id.as_str(), group_id) {
                let ghost before = r@;
                r.push(AnnouncementClient {
                    client_id: self.clients[k].id.clone(),
                    generation: self.clients[k].session_generation,
                });
                proof {
                    assert(members_spec(r@) =~= members_spec(before).push(f(self@.clients[k as int])));
                    assert(self@.clients.subrange(0, k as int).filter(pred).push(self@.clients[k as int]).map_values(f)
                        =~= self@.clients.subrange(0, k as int).filter(pred).map_values(f).push(f(self@.clients[k as int])));
                }
            }
            k = k + 1;
        }
        assert(self@.clients.subrange(0, self.clients@.len() as int) =~= self@.clients);
        r
    }
}

impl ServerState {
    /// Rename a group; `false` if it is not found.
    pub fn rename_group(&mut self, group_id: &str, new_name: String) -> (r: bool)
        requires
            old(self).wf(),
        ensures
            final(self).wf(),
            match find_group(old(self)@.groups, group_id@) {
                Some(i) => r && final(self)@ == with_group(
                    old(self)@,
                    i,
                    (GroupView { name: new_name@, ..old(self)@.groups[i] }),
                ),
                None => !r && final(self)@ == old(self)@,
            },
    {
        match self.group_pos(group_id) {
            Some(i) => {
                let mut g = self.groups[i].copy();
                g.name = new_name;
                self.replace_group(i, g);
                true
            },
            None => false,
        }
    }

    /// Change which stream a group plays.  `false`, with nothing changed,
    /// if the stream or the group is unknown.
    pub fn set_group_stream(&mut self, group_id: &str, stream_id: &str) -> (r: bool)
        requires
            old(self).wf(),
        ensures
            final(self).wf(),
            match (find_stream(old(self)@.streams, stream_id@), find_group(old(self)@.groups, group_id@)) {
                (Some(_), Some(i)) => r && final(self)@ == with_group(
                    old(self)@,
                    i,
                    (GroupView { stream_id: stream_id@, ..old(self)@.groups[i] }),
                ),
                _ => !r && final(self)@ == old(self)@,
            },
    {
        if self.stream_pos(stream_id).is_none() {
            return false;
        }
        match self.group_pos(group_id) {
            Some(i) => {
                let mut g = self.groups[i].copy();
                g.stream_id = stream_id.to_string();
                self.replace_group(i, g);
                true
            },
            None => false,
        }
    }

    pub fn get_group(&self, id: &str) -> (r: Option<Group>)
        requires
            self.wf(),
        ensures
            match find_group(self@.groups, id@) {
                Some(i) => r matches Some(g) && g@ == self@.groups[i],
                None => r is None,
            },
    {
        match self.group_pos(id) {
            Some(i) => Some(self.groups[i].copy()),
            None => None,
        }
    }

    /// Every group, in creation order.
    pub fn all_groups(&self) -> (r: Vec<Group>)
        ensures
            r@.map_values(|g: Group| g@) == self@.groups,
    {
        let mut r: Vec<Group> = Vec::new();
        let mut k: usize = 0;
        while k < self.groups.len()
            invariant
                0 <= k <= self.groups@.len(),
                r@.len() == k,
                forall|j: int| 0 <= j < k ==> (#[trigger] r@[j])@ == self.groups@[j]@,
            decreases self.groups@.len() - k,
        {
            r.push(self.groups[k].copy());
            k = k + 1;
        }
        assert(r@.map_values(|g: Group| g@) =~= self@.groups);
        r
    }

    /// The stream played by a client's group; `None` if the client or its
    /// group is unknown.
    pub fn client_stream_id(&self, client_id: &str) -> (r: Option<String>)
        requires
            self.wf(),
        ensures
            opt_view(r) == match find_client(self@.clients, client_id@) {
                Some(i) => match find_group(self@.groups, self@.clients[i].group_id) {
                    Some(g) => Some(self@.groups[g].stream_id),
                    None => None,
                },
                None => None,
            },
    {
        match self.client_pos(client_id) {
            Some(i) => match self.group_pos(self.clients[i].group_id.as_str()) {
                Some(g) => Some(self.groups[g].stream_id.clone()),
                None => None,
            },
            None => None,
        }
    }

    /// Set a stream's status; any status but `Recovering` drops the
    /// recovery progress.  `false` if the stream is unknown.
    pub fn set_stream_status(&mut self, stream_id: &str, status: StreamStatus) -> (r: bool)
        requires
            old(self).wf(),
        ensures
            final(self).wf(),
            match find_stream(old(self)@.streams, stream_id@) {
                Some(i) => r && final(self)@ == with_stream(
                    old(self)@,
                    i,
                    (StreamView {
                        status: status,
                        recovery: if status == StreamStatus::Recovering {
                            old(self)@.streams[i].recovery
                        } else {
                            None
                        },
                        ..old(self)@.streams[i]
                    }),
                ),
                None => !r && final(self)@ == old(self)@,
            },
    {
        match self.stream_pos(stream_id) {
            Some(i) => {
                let mut st = self.streams[i].copy();
                if status != StreamStatus::Recovering {
                    st.recovery = None;
                }
                st.status = status;
                self.replace_stream(i, st);
                true
            },
            None => false,
        }
    }

    /// Mark a source as waiting to be reopened, with its retry progress;
    /// `false` if the stream is unknown.
    pub fn set_stream_recovering(&mut self, stream_id: &str, attempt: u32, retry_in_ms: u64) -> (r: bool)
        requires
            old(self).wf(),
        ensures
            final(self).wf(),
            match find_stream(old(self)@.streams, stream_id@) {
                Some(i) => r && final(self)@ == with_stream(
                    old(self)@,
                    i,
                    (StreamView {
                        status: StreamStatus::Recovering,
                        recovery: Some(StreamRecovery { attempt, retry_in_ms }),
                        ..old(self)@.streams[i]
                    }),
                ),
                None => !r && final(self)@ == old(self)@,
            },
    {
        match self.stream_pos(stream_id) {
            Some(i) => {
                let mut st = self.streams[i].copy();
                st.status = StreamStatus::Recovering;
                st.recovery = Some(StreamRecovery { attempt, retry_in_ms });
                self.replace_stream(i, st);
                true
            },
            None => false,
        }
    }

    /// Every stream, in registration order.
    pub fn all_streams(&self) -> (r: Vec<StreamInfo>)
        ensures
            r@.map_values(|s: StreamInfo| s@) == self@.streams,
    {
        let mut r: Vec<StreamInfo> = Vec::new();
        let mut k: usize = 0;
        while k < self.streams.len()
            invariant
                0 <= k <= self.streams@.len(),
                r@.len() == k,
                forall|j: int| 0 <= j < k ==> (#[trigger] r@[j])@ == self.streams@[j]@,
            decreases self.streams@.len() - k,
        {
            r.push(self.streams[k].copy());
            k = k + 1;
        }
        assert(r@.map_values(|s: StreamInfo| s@) =~= self@.streams);
        r
    }

    /// Forget a stream; nothing happens for an unknown one.
    pub fn unregister_stream(&mut self, id: &str)
        requires
            old(self).wf(),
        ensures
            final(self).wf(),
            final(self)@ == match find_stream(old(self)@.streams, id@) {
                Some(i) => StateView { streams: old(self)@.streams.remove(i), ..old(self)@ },
                None => old(self)@,
            },
    {
        if let Some(i) = self.stream_pos(id) {
            self.streams.remove(i);
            proof {
                assert(self@.streams =~= old(self)@.streams.remove(i as int));
                let d = find_group(self@.groups, default_id())->0;
                assert(self@.groups[d].id == default_id());
            }
        }
    }

    pub fn set_timezone(&mut self, tz: Option<String>)
        requires
            old(self).wf(),
        ensures
            final(self).wf(),
            final(self)@ == (StateView { timezone: opt_view(tz), ..old(self)@ }),
    {
        self.timezone = tz;
        proof {
            let d = find_group(self@.groups, default_id())->0;
            assert(self@.groups[d].id == default_id());
        }
    }

    pub fn timezone(&self) -> (tz: Option<String>)
        ensures
            opt_view(tz) == self@.timezone,
    {
        copy_opt_string(&self.timezone)
    }
}

/// `ids` without any occurrence of `x`, order kept.
pub open spec fn without(ids: Seq<Seq<char>>, x: Seq<char>) -> Seq<Seq<char>> {
    ids.filter(|c: Seq<char>| c != x)
}

fn without_id(list: &Vec<String>, id: &str) -> (r: Vec<String>)
    ensures
        r@.map_values(|s: String| s@) == without(list@.map_values(|s: String| s@), id@),
{
    let ghost v = list@.map_values(|s: String| s@);
    let ghost pred = |c: Seq<char>| c != id@;
    let mut r: Vec<String> = Vec::new();
    let mut k: usize = 0;
    while k < list.len()
        invariant
            0 <= k <= list@.len(),
            v == list@.map_values(|s: String| s@),
            pred == (|c: Seq<char>| c != id@),
            r@.map_values(|s: String| s@) == v.subrange(0, k as int).filter(pred),
        decreases list@.len() - k,
    {
        proof {
            let s = v.subrange(0, k as int + 1);
            assert(s.drop_last() =~= v.subrange(0, k as int));
            reveal_with_fuel(Seq::<Seq<char>>::filter, 1);
            assert(s.filter(pred) == if pred(s.last()) {
                s.drop_last().filter(pred).push(s.last())
            } else {
                s.drop_last().filter(pred)
            });
        }
        if !str_equal(list[k].as_str(), id) {
            let c = list[k].clone();
            r.push(c);
            proof {
                assert(r@.map_values(|s: String| s@) =~= v.subrange(0, k as int).filter(pred).push(c@));
            }
        }
        k = k + 1;
    }
    assert(v.subrange(0, list@.len() as int) =~= v);
    r
}

/// The group table with `client` taken out of the member list of group
/// `group_id`, where that group exists.
pub open spec fn strip_member(groups: Seq<GroupView>, group_id: Seq<char>, client: Seq<char>) -> Seq<GroupView> {
    match find_group(groups, group_id) {
        Some(g) => groups.update(g, GroupView { client_ids: without(groups[g].client_ids, client), ..groups[g] }),
        None => groups,
    }
}

/// The group table with `client` taken out of every member list.
pub open spec fn strip_everywhere(groups: Seq<GroupView>, client: Seq<char>) -> Seq<GroupView> {
    groups.map_values(|g: GroupView| GroupView { client_ids: without(g.client_ids, client), ..g })
}

pub proof fn lemma_find_group_same_ids(a: Seq<GroupView>, b: Seq<GroupView>, id: Seq<char>)
    requires
        group_ids_distinct(a),
        a.len() == b.len(),
        forall|k: int| 0 <= k < a.len() ==> (#[trigger] a[k]).id == b[k].id,
    ensures
        find_group(a, id) == find_group(b, id),
        group_ids_distinct(b),
{
    assert forall|i: int, j: int| 0 <= i < b.len() && 0 <= j < b.len() && i != j implies b[i].id != b[j].id by {
        assert(a[i].id == b[i].id && a[j].id == b[j].id);
    }
    if exists|i: int| 0 <= i < a.len() && #[trigger] a[i].id == id {
        let i = choose|i: int| 0 <= i < a.len() && #[trigger] a[i].id == id;
        assert(b[i].id == id);
        let j = choose|j: int| 0 <= j < b.len() && #[trigger] b[j].id == id;
        assert(i == j);
    } else {
        assert forall|j: int| 0 <= j < b.len() implies #[trigger] b[j].id != id by {
            assert(a[j].id == b[j].id);
        }
    }
}

impl ServerState {
    /// Take `client_id` out of the member list of group `group_id`.
    fn strip_from_group(&mut self, group_id: &str, client_id: &str)
        requires
            old(self).wf(),
        ensures
            final(self).wf(),
            final(self)@ == (StateView {
                groups: strip_member(old(self)@.groups, group_id@, client_id@),
                ..old(self)@
            }),
    {
        if let Some(g) = self.group_pos(group_id) {
            let mut grp = self.groups[g].copy();
            grp.client_ids = without_id(&self.groups[g].client_ids, client_id);
            self.replace_group(g, grp);
        }
    }

    /// Take `client_id` out of every member list.
    fn strip_from_all_groups(&mut self, client_id: &str)
        requires
            old(self).wf(),
        ensures
            final(self).wf(),
            final(self)@ == (StateView {
                groups: strip_everywhere(old(self)@.groups, client_id@),
                ..old(self)@
            }),
    {
        let ghost target = strip_everywhere(old(self)@.groups, client_id@);
        let mut k: usize = 0;
        while k < self.groups.len()
            invariant
                old(self).wf(),
                self.wf(),
                0 <= k <= self.groups@.len(),
                self@.groups.len() == old(self)@.groups.len(),
                target == strip_everywhere(old(self)@.groups, client_id@),
                forall|j: int| 0 <= j < k ==> (#[trigger] self@.groups[j]) == target[j],
                forall|j: int| k <= j < self@.groups.len() ==> (#[trigger] self@.groups[j]) == old(self)@.groups[j],
                self@ == (StateView { groups: self@.groups, ..old(self)@ }),
            decreases self.groups@.len() - k,
        {
            let mut grp = self.groups[k].copy();
            grp.client_ids = without_id(&self.groups[k].client_ids, client_id);
            proof {
                assert(self@.groups[k as int] == old(self)@.groups[k as int]);
                assert(self.groups@[k as int]@ == self@.groups[k as int]);
                assert(target[k as int] == GroupView {
                    client_ids: without(old(self)@.groups[k as int].client_ids, client_id@),
                    ..old(self)@.groups[k as int]
                });
                assert(grp@ == target[k as int]);
            }
            self.replace_group(k, grp);
            k = k + 1;
        }
        assert(self@.groups =~= target);
    }

    /// Mark only the matching admitted session as disconnected, stamping the
    /// time.  `false`, with nothing changed, for an unknown client, another
    /// session generation, or a client that is not connected.
    pub fn client_disconnected_generation(&mut self, id: &str, generation: u64, now_ms: i64) -> (r: bool)
        requires
            old(self).wf(),
        ensures
            final(self).wf(),
            match find_client(old(self)@.clients, id@) {
                Some(i) if old(self)@.clients[i].session_generation == generation
                    && old(self)@.clients[i].status == ClientStatus::Connected => r && final(self)@ == with_client(
                    old(self)@,
                    i,
                    (ClientView {
                        status: ClientStatus::Disconnected,
                        connected_at_ms: now_ms,
                        ..old(self)@.clients[i]
                    }),
                ),
                _ => !r && final(self)@ == old(self)@,
            },
    {
        match self.client_pos(id) {
            Some(i) => {
                if self.clients[i].session_generation != generation || !self.clients[i].is_connected() {
                    return false;
                }
                let mut c = self.clients[i].copy();
                c.status = ClientStatus::Disconnected;
                c.connected_at_ms = now_ms;
                self.replace_client(i, c);
                true
            },
            None => false,
        }
    }

    /// Mark a connected client as disconnected, keeping its record.
    pub fn client_disconnected(&mut self, id: &str, now_ms: i64) -> (r: bool)
        requires
            old(self).wf(),
        ensures
            final(self).wf(),
            match find_client(old(self)@.clients, id@) {
                Some(i) if old(self)@.clients[i].status == ClientStatus::Connected => r && final(self)@
                    == with_client(
                    old(self)@,
                    i,
                    (ClientView {
                        status: ClientStatus::Disconnected,
                        connected_at_ms: now_ms,
                        ..old(self)@.clients[i]
                    }),
                ),
                _ => !r && final(self)@ == old(self)@,
            },
    {
        match self.client_pos(id) {
            Some(i) => {
                let generation = self.clients[i].session_generation;
                self.client_disconnected_generation(id, generation, now_ms)
            },
            None => false,
        }
    }

    /// Permanently remove a disconnected client and take it out of its
    /// group.  `false`, with nothing changed, if the client is unknown or
    /// still connected.
    pub fn delete_client(&mut self, client_id: &str) -> (r: bool)
        requires
            old(self).wf(),
        ensures
            final(self).wf(),
            match find_client(old(self)@.clients, client_id@) {
                Some(i) if old(self)@.clients[i].status == ClientStatus::Disconnected => r && final(self)@
                    == (StateView {
                    clients: old(self)@.clients.remove(i),
                    groups: strip_member(old(self)@.groups, old(self)@.clients[i].group_id, client_id@),
                    ..old(self)@
                }),
                _ => !r && final(self)@ == old(self)@,
            },
    {
        let i = match self.client_pos(client_id) {
            Some(i) => i,
            None => return false,
        };
        if self.clients[i].is_connected() {
            return false;
        }
        let info = self.clients.remove(i);
        proof {
            assert(self@.clients =~= old(self)@.clients.remove(i as int));
            let d = find_group(self@.groups, default_id())->0;
            assert(self@.groups[d].id == default_id());
        }
        self.strip_from_group(info.group_id.as_str(), client_id);
        true
    }
}

/// The group table after inserting `g` under its id: an existing group
/// with that id is replaced, else `g` is appended.
pub open spec fn insert_group_spec(groups: Seq<GroupView>, g: GroupView) -> Seq<GroupView> {
    match find_group(groups, g.id) {
        Some(i) => groups.update(i, g),
        None => groups.push(g),
    }
}

/// The stream table after registering a stream: a known stream takes the
/// new settings and keeps its status; a new one starts idle.
pub open spec fn register_stream_spec(
    streams: Seq<StreamView>,
    id: Seq<char>,
    display_name: Option<Seq<char>>,
    codec: Seq<char>,
    format: Seq<char>,
    source: Seq<char>,
    buffer_ms: u32,
    buffer_ms_overridden: bool,
    chunk_ms: u32,
    chunk_ms_overridden: bool,
    idle_timeout_ms: Option<u32>,
    silence_on_idle: bool,
) -> Seq<StreamView> {
    match find_stream(streams, id) {
        Some(i) => streams.update(
            i,
            StreamView {
                display_name,
                codec,
                format,
                source,
                buffer_ms,
                buffer_ms_overridden,
                chunk_ms,
                chunk_ms_overridden,
                idle_timeout_ms,
                silence_on_idle,
                ..streams[i]
            },
        ),
        None => streams.push(
            StreamView {
                id,
                display_name,
                codec,
                format,
                source,
                buffer_ms,
                buffer_ms_overridden,
                chunk_ms,
                chunk_ms_overridden,
                idle_timeout_ms,
                silence_on_idle,
                status: StreamStatus::Idle,
                recovery: None,
            },
        ),
    }
}

/// The registry after moving a known client to a known group: it leaves the
/// member list of its old group, joins the new one's unless already listed,
/// and records the new group id.
pub open spec fn move_client_spec(v: StateView, i: int, g: int) -> StateView {
    let cid = v.clients[i].id;
    let stripped = strip_member(v.groups, v.clients[i].group_id, cid);
    let joined = if stripped[g].client_ids.contains(cid) {
        stripped
    } else {
        stripped.update(g, GroupView { client_ids: stripped[g].client_ids.push(cid), ..stripped[g] })
    };
    StateView {
        clients: v.clients.update(i, ClientView { group_id: v.groups[g].id, ..v.clients[i] }),
        groups: joined,
        ..v
    }
}

/// The registry after deleting group `g`: its known members move to the
/// default group, appended to its member list in their old order.
pub open spec fn delete_group_spec(v: StateView, g: int) -> StateView {
    let members = v.groups[g].client_ids;
    let known = members.filter(|cid: Seq<char>| find_client(v.clients, cid) is Some);
    let rest = v.groups.remove(g);
    let d = find_group(rest, default_id())->0;
    StateView {
        clients: v.clients.map_values(
            |c: ClientView|
                if members.contains(c.id) {
                    ClientView { group_id: default_id(), ..c }
                } else {
                    c
                },
        ),
        groups: rest.update(d, GroupView { client_ids: rest[d].client_ids + known, ..rest[d] }),
        ..v
    }
}

fn list_contains(list: &Vec<String>, id: &str) -> (r: bool)
    ensures
        r == list@.map_values(|s: String| s@).contains(id@),
{
    let mut k: usize = 0;
    while k < list.len()
        invariant
            0 <= k <= list@.len(),
            forall|j: int| 0 <= j < k ==> (#[trigger] list@[j])@ != id@,
        decreases list@.len() - k,
    {
        if str_equal(list[k].as_str(), id) {
            assert(list@.map_values(|s: String| s@)[k as int] == id@);
            return true;
        }
        k = k + 1;
    }
    proof {
        let v = list@.map_values(|s: String| s@);
        if v.contains(id@) {
            let j = choose|j: int| 0 <= j < v.len() && v[j] == id@;
            assert(list@[j]@ == id@);
        }
    }
    false
}

impl ServerState {
    /// Register a stream, or update the settings of a known one.
    pub fn register_stream(
        &mut self,
        id: &str,
        display_name: Option<String>,
        codec: &str,
        format: &str,
        source: &str,
        buffer_ms: u32,
        buffer_ms_overridden: bool,
        chunk_ms: u32,
        chunk_ms_overridden: bool,
        idle_timeout_ms: Option<u32>,
        silence_on_idle: bool,
    )
        requires
            old(self).wf(),
        ensures
            final(self).wf(),
            final(self)@ == (StateView {
                streams: register_stream_spec(
                    old(self)@.streams,
                    id@,
                    opt_view(display_name),
                    codec@,
                    format@,
                    source@,
                    buffer_ms,
                    buffer_ms_overridden,
                    chunk_ms,
                    chunk_ms_overridden,
                    idle_timeout_ms,
                    silence_on_idle,
                ),
                ..old(self)@
            }),
    {
        match self.stream_pos(id) {
            Some(i) => {
                let mut st = self.streams[i].copy();
                st.display_name = display_name;
                st.codec = codec.to_string();
                st.format = format.to_string();
                st.source = source.to_string();
                st.buffer_ms = buffer_ms;
                st.buffer_ms_overridden = buffer_ms_overridden;
                st.chunk_ms = chunk_ms;
                st.chunk_ms_overridden = chunk_ms_overridden;
                st.idle_timeout_ms = idle_timeout_ms;
                st.silence_on_idle = silence_on_idle;
                self.replace_stream(i, st);
            },
            None => {
                let st = StreamInfo {
                    id: id.to_string(),
                    display_name,
                    codec: codec.to_string(),
                    format: format.to_string(),
                    source: source.to_string(),
                    buffer_ms,
                    buffer_ms_overridden,
                    chunk_ms,
                    chunk_ms_overridden,
                    idle_timeout_ms,
                    silence_on_idle,
                    status: StreamStatus::Idle,
                    recovery: None,
                };
                self.streams.push(st);
                proof {
                    assert(self@.streams =~= old(self)@.streams.push(st@));
                    let d = find_group(self@.groups, default_id())->0;
                    assert(self@.groups[d].id == default_id());
                }
            },
        }
    }

    /// Insert a group with no members under `id`, replacing a group that
    /// already has that id.
    pub fn insert_group(&mut self, id: String, name: String, stream_id: String)
        requires
            old(self).wf(),
        ensures
            final(self).wf(),
            final(self)@ == (StateView {
                groups: insert_group_spec(
                    old(self)@.groups,
                    GroupView { id: id@, name: name@, stream_id: stream_id@, client_ids: Seq::empty() },
                ),
                ..old(self)@
            }),
    {
        let g = Group { id, name, stream_id, client_ids: Vec::new() };
        assert(g@.client_ids =~= Seq::<Seq<char>>::empty());
        match self.group_pos(g.id.as_str()) {
            Some(i) => {
                self.replace_group(i, g);
            },
            None => {
                self.groups.push(g);
                proof {
                    assert(self@.groups =~= old(self)@.groups.push(g@));
                    let d = find_group(old(self)@.groups, default_id())->0;
                    assert(self@.groups[d].id == default_id());
                }
            },
        }
    }

    /// Create a group with a fresh random id and return the id.
    pub fn create_group(&mut self, name: String, stream_id: String) -> (id: String)
        requires
            old(self).wf(),
        ensures
            final(self).wf(),
            uuid_v4_text(id@),
            final(self)@ == (StateView {
                groups: insert_group_spec(
                    old(self)@.groups,
                    GroupView { id: id@, name: name@, stream_id: stream_id@, client_ids: Seq::empty() },
                ),
                ..old(self)@
            }),
    {
        let id = new_uuid_v4();
        self.insert_group(id.clone(), name, stream_id);
        id
    }

    /// Move a client to another group.  `false`, with nothing changed, if
    /// the client or the group is unknown; `true`, with nothing changed, if
    /// the client is already in that group.
    pub fn set_client_group(&mut self, client_id: &str, group_id: &str) -> (r: bool)
        requires
            old(self).wf(),
        ensures
            final(self).wf(),
            match (find_client(old(self)@.clients, client_id@), find_group(old(self)@.groups, group_id@)) {
                (Some(i), Some(g)) => r && final(self)@ == if old(self)@.clients[i].group_id == group_id@ {
                    old(self)@
                } else {
                    move_client_spec(old(self)@, i, g)
                },
                _ => !r && final(self)@ == old(self)@,
            },
    {
        let i = match self.client_pos(client_id) {
            Some(i) => i,
            None => return false,
        };
        let g = match self.group_pos(group_id) {
            Some(g) => g,
            None => return false,
        };
        if str_equal(self.clients[i].group_id.as_str(), group_id) {
            return true;
        }
        let ghost v0 = self@;
        let old_group = self.clients[i].group_id.clone();
        self.strip_from_group(old_group.as_str(), client_id);
        proof {
            lemma_find_group_same_ids(v0.groups, self@.groups, group_id@);
            assert(self@.groups[g as int].id == v0.groups[g as int].id);
        }
        if !list_contains(&self.groups[g].client_ids, client_id) {
            let mut grp = self.groups[g].copy();
            grp.client_ids.push(client_id.to_string());
            proof {
                assert(grp@.client_ids =~= self@.groups[g as int].client_ids.push(client_id@));
            }
            self.replace_group(g, grp);
        }
        let mut c = self.clients[i].copy();
        c.group_id = group_id.to_string();
        self.replace_client(i, c);
        proof {
            assert(self@ == move_client_spec(v0, i as int, g as int));
        }
        true
    }
}

pub proof fn lemma_find_client_same_ids(a: Seq<ClientView>, b: Seq<ClientView>, id: Seq<char>)
    requires
        client_ids_distinct(a),
        a.len() == b.len(),
        forall|k: int| 0 <= k < a.len() ==> (#[trigger] a[k]).id == b[k].id,
    ensures
        find_client(a, id) == find_client(b, id),
        client_ids_distinct(b),
{
    assert forall|i: int, j: int| 0 <= i < b.len() && 0 <= j < b.len() && i != j implies b[i].id != b[j].id by {
        assert(a[i].id == b[i].id && a[j].id == b[j].id);
    }
    if exists|i: int| 0 <= i < a.len() && #[trigger] a[i].id == id {
        let i = choose|i: int| 0 <= i < a.len() && #[trigger] a[i].id == id;
        assert(b[i].id == id);
        let j = choose|j: int| 0 <= j < b.len() && #[trigger] b[j].id == id;
        assert(i == j);
    } else {
        assert forall|j: int| 0 <= j < b.len() implies #[trigger] b[j].id != id by {
            assert(a[j].id == b[j].id);
        }
    }
}

proof fn lemma_default_literal()
    ensures
        "default"@ == default_id(),
{
    reveal_strlit("default");
    assert("default"@ =~= default_id());
}

impl ServerState {
    /// Delete a group; its known members move to the default group.  `false`,
    /// with nothing changed, for the default group or an unknown group.
    pub fn delete_group(&mut self, group_id: &str) -> (r: bool)
        requires
            old(self).wf(),
        ensures
            final(self).wf(),
            match find_group(old(self)@.groups, group_id@) {
                Some(g) if group_id@ != default_id() => r && final(self)@ == delete_group_spec(old(self)@, g),
                _ => !r && final(self)@ == old(self)@,
            },
    {
        proof {
            lemma_default_literal();
        }
        if str_equal(group_id, "default") {
            return false;
        }
        let g = match self.group_pos(group_id) {
            Some(g) => g,
            None => return false,
        };
        let ghost v0 = self@;
        let ghost members = v0.groups[g as int].client_ids;
        let ghost rest = v0.groups.remove(g as int);
        let ghost kpred = |cid: Seq<char>| find_client(v0.clients, cid) is Some;
        let grp = self.groups.remove(g);
        proof {
            assert(self@.groups =~= rest);
            let d0 = find_group(v0.groups, default_id())->0;
            assert(d0 != g);
            let d1 = if d0 < g { d0 } else { d0 - 1 };
            assert(rest[d1].id == default_id());
        }
        let d = match self.group_pos("default") {
            Some(d) => d,
            None => {
                proof {
                    let d0 = find_group(v0.groups, default_id())->0;
                    let d1 = if d0 < g { d0 } else { d0 - 1 };
                    assert(rest[d1].id == default_id());
                }
                return true;
            },
        };
        let mut dg = self.groups[d].copy();
        let mut k: usize = 0;
        while k < grp.client_ids.len()
            invariant
                self.wf(),
                0 <= k <= grp.client_ids@.len(),
                members == grp@.client_ids,
                rest == v0.groups.remove(g as int),
                state_wf(v0),
                self@.groups == rest,
                d < rest.len(),
                find_group(rest, default_id()) == Some(d as int),
                self@.clients.len() == v0.clients.len(),
                forall|j: int| 0 <= j < v0.clients.len() ==> (#[trigger] self@.clients[j]).id == v0.clients[j].id,
                forall|j: int| 0 <= j < v0.clients.len() ==> (#[trigger] self@.clients[j]) == if members.subrange(0, k as int).contains(v0.clients[j].id) {
                    ClientView { group_id: default_id(), ..v0.clients[j] }
                } else {
                    v0.clients[j]
                },
                dg@ == (GroupView {
                    client_ids: rest[d as int].client_ids + members.subrange(0, k as int).filter(kpred),
                    ..rest[d as int]
                }),
                kpred == (|cid: Seq<char>| find_client(v0.clients, cid) is Some),
                self@ == (StateView { clients: self@.clients, groups: rest, ..v0 }),
            decreases grp.client_ids@.len() - k,
        {
            let ghost before = self@;
            let ghost cid = members[k as int];
            proof {
                lemma_find_client_same_ids(v0.clients, before.clients, cid);
                let s = members.subrange(0, k as int + 1);
                assert(s.drop_last() =~= members.subrange(0, k as int));
                assert(s.last() == cid);
                reveal_with_fuel(Seq::<Seq<char>>::filter, 1);
                assert(s.filter(kpred) == if kpred(s.last()) {
                    s.drop_last().filter(kpred).push(s.last())
                } else {
                    s.drop_last().filter(kpred)
                });
                assert forall|x: Seq<char>| s.contains(x) == (members.subrange(0, k as int).contains(x) || x == cid) by {
                    if s.contains(x) {
                        let t = choose|t: int| 0 <= t < s.len() && s[t] == x;
                        if t < k {
                            assert(members.subrange(0, k as int)[t] == x);
                        }
                    }
                    if members.subrange(0, k as int).contains(x) {
                        let t = choose|t: int| 0 <= t < k && members.subrange(0, k as int)[t] == x;
                        assert(s[t] == x);
                    }
                    if x == cid {
                        assert(s[k as int] == x);
                    }
                }
            }
            assert(grp.client_ids@[k as int]@ == cid);
            match self.client_pos(grp.client_ids[k].as_str()) {
                Some(ci) => {
                    let mut c = self.clients[ci].copy();
                    c.group_id = String::from_str("default");
                    self.replace_client(ci, c);
                    let ghost dg_before = dg@.client_ids;
                    dg.client_ids.push(grp.client_ids[k].clone());
                    proof {
                        lemma_default_literal();
                        assert(kpred(cid));
                        assert(dg@.client_ids =~= dg_before.push(cid));
                        assert(members.subrange(0, k as int + 1).filter(kpred) == members.subrange(0, k as int).filter(kpred).push(cid));
                        assert(dg@.client_ids =~= rest[d as int].client_ids + members.subrange(0, k as int + 1).filter(kpred));
                        let s = members.subrange(0, k as int + 1);
                        assert forall|j: int| 0 <= j < v0.clients.len() implies (#[trigger] self@.clients[j]) == if s.contains(v0.clients[j].id) {
                            ClientView { group_id: default_id(), ..v0.clients[j] }
                        } else {
                            v0.clients[j]
                        } by {
                            assert(before.clients[j] == if members.subrange(0, k as int).contains(v0.clients[j].id) {
                                ClientView { group_id: default_id(), ..v0.clients[j] }
                            } else {
                                v0.clients[j]
                            });
                            assert(v0.clients[ci as int].id == cid);
                            if j != ci {
                                assert(v0.clients[j].id != cid);
                                assert(self@.clients[j] == before.clients[j]);
                            } else {
                                assert(s.contains(cid));
                                assert(self@.clients[j] == ClientView { group_id: default_id(), ..before.clients[j] });
                            }
                        }
                    }
                },
                None => {
                    proof {
                        assert(!kpred(cid));
                        assert(dg@.client_ids =~= rest[d as int].client_ids + members.subrange(0, k as int + 1).filter(kpred));
                        let s = members.subrange(0, k as int + 1);
                        assert forall|j: int| 0 <= j < v0.clients.len() implies (#[trigger] self@.clients[j]) == if s.contains(v0.clients[j].id) {
                            ClientView { group_id: default_id(), ..v0.clients[j] }
                        } else {
                            v0.clients[j]
                        } by {
                            assert(before.clients[j].id == v0.clients[j].id);
                            assert(v0.clients[j].id != cid);
                        }
                    }
                },
            }
            k = k + 1;
        }
        let ghost final_clients = self@.clients;
        self.replace_group(d, dg);
        proof {
            assert(members.subrange(0, members.len() as int) =~= members);
            let spec_v = delete_group_spec(v0, g as int);
            assert(self@.clients =~= spec_v.clients);
            assert(self@.groups =~= spec_v.groups);
        }
        true
    }
}

/// `e` is the least recently seen disconnected client: the first, in
/// registry order, among the disconnected clients with the smallest
/// timestamp.
pub open spec fn is_lru(s: Seq<ClientView>, e: int) -> bool {
    &&& 0 <= e < s.len()
    &&& s[e].status == ClientStatus::Disconnected
    &&& forall|j: int|
        0 <= j < s.len() && (#[trigger] s[j]).status == ClientStatus::Disconnected ==> s[e].connected_at_ms
            <= s[j].connected_at_ms
    &&& forall|j: int|
        0 <= j < e && (#[trigger] s[j]).status == ClientStatus::Disconnected ==> s[e].connected_at_ms
            < s[j].connected_at_ms
}

pub open spec fn lru_client(s: Seq<ClientView>) -> Option<int> {
    if exists|e: int| is_lru(s, e) {
        Some(choose|e: int| is_lru(s, e))
    } else {
        None
    }
}

pub proof fn lemma_lru_unique(s: Seq<ClientView>, a: int, b: int)
    requires
        is_lru(s, a),
        is_lru(s, b),
    ensures
        a == b,
{
    if a < b {
        assert(s[b].connected_at_ms < s[a].connected_at_ms);
    } else if b < a {
        assert(s[a].connected_at_ms < s[b].connected_at_ms);
    }
}

pub open spec fn wrapping_inc(n: u64) -> u64 {
    if n == u64::MAX {
        0
    } else {
        (n + 1) as u64
    }
}

/// The client evicted to make room for a new id, if the registry is full.
pub open spec fn connect_eviction(v: StateView, id: Seq<char>) -> Option<int> {
    if find_client(v.clients, id) is None && v.clients.len() >= v.max_known_clients {
        lru_client(v.clients)
    } else {
        None
    }
}

/// The record of a newly admitted session: settings carried over from a
/// remembered client, else volume 100, unmuted, no latency offset, default
/// group, no display name, no diagnostics.
pub open spec fn admitted_view(
    v: StateView,
    id: Seq<char>,
    hostname: Seq<char>,
    client_name: Seq<char>,
    os: Seq<char>,
    arch: Seq<char>,
    remote_addr: Seq<char>,
    protocol_version: u32,
    now_ms: i64,
) -> ClientView {
    let base = ClientView {
        id,
        hostname,
        client_name,
        os,
        arch,
        remote_addr,
        volume: 100,
        muted: false,
        latency_ms: 0,
        group_id: default_id(),
        status: ClientStatus::Connected,
        connected_at_ms: now_ms,
        protocol_version,
        session_generation: v.next_generation,
        display_name: None,
        observability_enabled: false,
        health: None,
        last_clock_offset_ms: None,
    };
    match find_client(v.clients, id) {
        Some(i) => ClientView {
            volume: v.clients[i].volume,
            muted: v.clients[i].muted,
            latency_ms: v.clients[i].latency_ms,
            group_id: v.clients[i].group_id,
            display_name: v.clients[i].display_name,
            observability_enabled: v.clients[i].observability_enabled,
            ..base
        },
        None => base,
    }
}

/// The group table once `id` joins its group: it leaves every member list
/// and is appended to that of its recorded group, or of the default group
/// where its recorded group does not exist.
pub open spec fn join_group(groups: Seq<GroupView>, id: Seq<char>, group_id: Seq<char>) -> Seq<GroupView> {
    let stripped = strip_everywhere(groups, id);
    let t = match find_group(stripped, group_id) {
        Some(t) => t,
        None => find_group(stripped, default_id())->0,
    };
    stripped.update(t, GroupView { client_ids: stripped[t].client_ids.push(id), ..stripped[t] })
}

/// The registry after admitting the session `nc`.
pub open spec fn connect_spec(v: StateView, nc: ClientView) -> StateView {
    let id = nc.id;
    let (clients, groups) = match find_client(v.clients, id) {
        Some(i) => (v.clients.update(i, nc), v.groups),
        None => match connect_eviction(v, id) {
            Some(e) => (
                v.clients.remove(e).push(nc),
                strip_member(v.groups, v.clients[e].group_id, v.clients[e].id),
            ),
            None => (v.clients.push(nc), v.groups),
        },
    };
    StateView {
        clients,
        groups: join_group(groups, id, nc.group_id),
        next_generation: wrapping_inc(v.next_generation),
        ..v
    }
}

/// What admitting a session returns: its generation, and the client that
/// was forgotten to make room for it.
#[derive(Debug)]
pub struct ClientAdmission {
    pub session_generation: u64,
    pub evicted: Option<ClientInfo>,
}

impl ServerState {
    fn lru_pos(&self) -> (r: Option<usize>)
        ensures
            r matches Some(e) ==> lru_client(self@.clients) == Some(e as int),
            r is None ==> lru_client(self@.clients) is None,
    {
        let ghost s = self@.clients;
        let mut best: Option<usize> = None;
        let mut k: usize = 0;
        while k < self.clients.len()
            invariant
                s == self@.clients,
                s.len() == self.clients@.len(),
                0 <= k <= s.len(),
                best matches Some(b) ==> is_lru(s.subrange(0, k as int), b as int),
                best is None ==> forall|j: int| 0 <= j < k ==> (#[trigger] s[j]).status != ClientStatus::Disconnected,
            decreases s.len() - k,
        {
            let ghost p = s.subrange(0, k as int);
            let ghost q = s.subrange(0, k as int + 1);
            if !self.clients[k].is_connected() {
                match best {
                    Some(b) => {
                        if self.clients[k].connected_at_ms < self.clients[b].connected_at_ms {
                            best = Some(k);
                            proof {
                                assert forall|j: int| 0 <= j < q.len() && (#[trigger] q[j]).status == ClientStatus::Disconnected implies q[k as int].connected_at_ms <= q[j].connected_at_ms by {
                                    if j < k {
                                        assert(p[j] == q[j]);
                                    }
                                }
                                assert forall|j: int| 0 <= j < k && (#[trigger] q[j]).status == ClientStatus::Disconnected implies q[k as int].connected_at_ms < q[j].connected_at_ms by {
                                    assert(p[j] == q[j]);
                                }
                            }
                        } else {
                            proof {
                                assert forall|j: int| 0 <= j < q.len() && (#[trigger] q[j]).status == ClientStatus::Disconnected implies q[b as int].connected_at_ms <= q[j].connected_at_ms by {
                                    if j < k {
                                        assert(p[j] == q[j]);
                                    }
                                }
                                assert forall|j: int| 0 <= j < b && (#[trigger] q[j]).status == ClientStatus::Disconnected implies q[b as int].connected_at_ms < q[j].connected_at_ms by {
                                    assert(p[j] == q[j]);
                                }
                            }
                        }
                    },
                    None => {
                        best = Some(k);
                        proof {
                            assert forall|j: int| 0 <= j < q.len() && (#[trigger] q[j]).status == ClientStatus::Disconnected implies q[k as int].connected_at_ms <= q[j].connected_at_ms by {
                                if j < k {
                                    assert(s[j].status != ClientStatus::Disconnected);
                                }
                            }
                        }
                    },
                }
            } else {
                proof {
                    if let Some(b) = best {
                        assert forall|j: int| 0 <= j < q.len() && (#[trigger] q[j]).status == ClientStatus::Disconnected implies q[b as int].connected_at_ms <= q[j].connected_at_ms by {
                            if j < k {
                                assert(p[j] == q[j]);
                            }
                        }
                        assert forall|j: int| 0 <= j < b && (#[trigger] q[j]).status == ClientStatus::Disconnected implies q[b as int].connected_at_ms < q[j].connected_at_ms by {
                            assert(p[j] == q[j]);
                        }
                    }
                }
            }
            k = k + 1;
        }
        proof {
            assert(s.subrange(0, s.len() as int) =~= s);
            match best {
                Some(b) => {
                    lemma_lru_unique(s, b as int, choose|e: int| is_lru(s, e));
                },
                None => {
                    if exists|e: int| is_lru(s, e) {
                        let e = choose|e: int| is_lru(s, e);
                        assert(s[e].status == ClientStatus::Disconnected);
                    }
                },
            }
        }
        best
    }
}

impl ServerState {
    /// Append `id` to the member list of its recorded group, or of the
    /// default group where that group does not exist, after taking it out of
    /// every list.
    fn join_group_of(&mut self, id: &str, group_id: &str)
        requires
            old(self).wf(),
        ensures
            final(self).wf(),
            final(self)@ == (StateView { groups: join_group(old(self)@.groups, id@, group_id@), ..old(self)@ }),
    {
        self.strip_from_all_groups(id);
        let ghost stripped = self@.groups;
        let t = match self.group_pos(group_id) {
            Some(t) => t,
            None => {
                proof {
                    lemma_default_literal();
                }
                match self.group_pos("default") {
                    Some(d) => d,
                    None => {
                        proof {
                            let d = find_group(self@.groups, default_id())->0;
                            assert(self@.groups[d].id == default_id());
                        }
                        return;
                    },
                }
            },
        };
        let mut grp = self.groups[t].copy();
        grp.client_ids.push(id.to_string());
        proof {
            assert(grp@.client_ids =~= stripped[t as int].client_ids.push(id@));
        }
        self.replace_group(t, grp);
    }

    /// Admit a client session without replacing an active one, returning
    /// the session's generation and any client forgotten to make room.
    /// A remembered client keeps its settings and group; a new client
    /// starts at full volume in the default group.  When the registry holds
    /// `max_known_clients` clients, the least recently seen disconnected
    /// client is forgotten.
    pub fn try_client_connected(
        &mut self,
        id: &str,
        hostname: &str,
        client_name: &str,
        os: &str,
        arch: &str,
        remote_addr: &str,
        protocol_version: u32,
        now_ms: i64,
    ) -> (r: Result<ClientAdmission, SoniumError>)
        requires
            old(self).wf(),
        ensures
            final(self).wf(),
            final(self)@ == client_connected_spec(
                old(self)@,
                id.spec_bytes(),
                id@,
                hostname@,
                client_name@,
                os@,
                arch@,
                remote_addr@,
                protocol_version,
                now_ms,
            ),
            keeps_connected(old(self)@, final(self)@),
            final(self)@.clients.len() <= final(self)@.max_known_clients,
            !client_id_ok(id.spec_bytes()) ==> r is Err && final(self)@ == old(self)@,
            client_id_ok(id.spec_bytes()) ==> match find_client(old(self)@.clients, id@) {
                Some(i) if old(self)@.clients[i].status == ClientStatus::Connected => {
                    &&& final(self)@ == old(self)@
                    &&& r matches Err(e) && e is Protocol && e->Protocol_0@
                        == "client ID already has an active session"@
                },
                None if old(self)@.clients.len() >= old(self)@.max_known_clients && lru_client(
                    old(self)@.clients,
                ) is None => {
                    &&& final(self)@ == old(self)@
                    &&& r matches Err(e) && e is Protocol && e->Protocol_0@
                        == "maximum known clients reached with no disconnected client to evict"@
                },
                _ => {
                    &&& r matches Ok(a)
                    &&& a.session_generation == old(self)@.next_generation
                    &&& match connect_eviction(old(self)@, id@) {
                        Some(e) => a.evicted matches Some(c) && c@ == old(self)@.clients[e],
                        None => a.evicted is None,
                    }
                    &&& final(self)@ == connect_spec(
                        old(self)@,
                        admitted_view(
                            old(self)@,
                            id@,
                            hostname@,
                            client_name@,
                            os@,
                            arch@,
                            remote_addr@,
                            protocol_version,
                            now_ms,
                        ),
                    )
                },
            },
    {
        proof {
            lemma_admission_keeps_connected(
                self@,
                id.spec_bytes(),
                id@,
                hostname@,
                client_name@,
                os@,
                arch@,
                remote_addr@,
                protocol_version,
                now_ms,
            );
        }
        if let Err(e) = validate_client_id(id) {
            return Err(e);
        }
        let ghost v0 = self@;
        let ghost nc = admitted_view(
            v0,
            id@,
            hostname@,
            client_name@,
            os@,
            arch@,
            remote_addr@,
            protocol_version,
            now_ms,
        );
        let existing = self.client_pos(id);
        if let Some(i) = existing {
            if self.clients[i].is_connected() {
                return Err(SoniumError::Protocol(String::from_str("client ID already has an active session")));
            }
        }
        let mut evicted: Option<ClientInfo> = None;
        if existing.is_none() && self.clients.len() >= self.max_known_clients {
            match self.lru_pos() {
                Some(e) => {
                    let ev = self.clients.remove(e);
                    proof {
                        assert(self@.clients =~= v0.clients.remove(e as int));
                        let d = find_group(self@.groups, default_id())->0;
                        assert(self@.groups[d].id == default_id());
                    }
                    evicted = Some(ev);
                },
                None => {
                    return Err(
                        SoniumError::Protocol(
                            String::from_str("maximum known clients reached with no disconnected client to evict"),
                        ),
                    );
                },
            }
        }
        proof {
            lemma_default_literal();
        }
        let (volume, muted, latency_ms, group_id, display_name, observability_enabled) = match existing {
            Some(i) => (
                self.clients[i].volume,
                self.clients[i].muted,
                self.clients[i].latency_ms,
                self.clients[i].group_id.clone(),
                copy_opt_string(&self.clients[i].display_name),
                self.clients[i].observability_enabled,
            ),
            None => (100u8, false, 0i32, String::from_str("default"), None, false),
        };
        let generation = self.next_client_generation;
        let info = ClientInfo {
            id: id.to_string(),
            hostname: hostname.to_string(),
            client_name: client_name.to_string(),
            os: os.to_string(),
            arch: arch.to_string(),
            remote_addr: remote_addr.to_string(),
            volume,
            muted,
            latency_ms,
            group_id,
            status: ClientStatus::Connected,
            connected_at_ms: now_ms,
            protocol_version,
            session_generation: generation,
            display_name,
            observability_enabled,
            health: None,
            last_clock_offset_ms: None,
        };
        assert(info@ == nc);
        let group_of_info = info.group_id.clone();
        match existing {
            Some(i) => {
                self.replace_client(i, info);
            },
            None => {
                let ghost before = self@;
                self.clients.push(info);
                proof {
                    assert(self@.clients =~= before.clients.push(nc));
                    assert forall|i: int, j: int|
                        0 <= i < self@.clients.len() && 0 <= j < self@.clients.len() && i != j implies self@.clients[i].id
                        != self@.clients[j].id by {
                        if i < before.clients.len() && j < before.clients.len() {
                        } else if i == before.clients.len() {
                            assert(before.clients[j].id != id@) by {
                                match evicted {
                                    Some(_) => {
                                        let e = lru_client(v0.clients)->0;
                                        if j < e {
                                            assert(before.clients[j] == v0.clients[j]);
                                        } else {
                                            assert(before.clients[j] == v0.clients[j + 1]);
                                        }
                                    },
                                    None => {
                                        assert(before.clients[j] == v0.clients[j]);
                                    },
                                }
                            }
                        } else {
                            assert(before.clients[i].id != id@) by {
                                match evicted {
                                    Some(_) => {
                                        let e = lru_client(v0.clients)->0;
                                        if i < e {
                                            assert(before.clients[i] == v0.clients[i]);
                                        } else {
                                            assert(before.clients[i] == v0.clients[i + 1]);
                                        }
                                    },
                                    None => {
                                        assert(before.clients[i] == v0.clients[i]);
                                    },
                                }
                            }
                        }
                    }
                    let d = find_group(self@.groups, default_id())->0;
                    assert(self@.groups[d].id == default_id());
                }
            },
        }
        self.next_client_generation = generation.wrapping_add(1);
        proof {
            let d = find_group(self@.groups, default_id())->0;
            assert(self@.groups[d].id == default_id());
        }
        match &evicted {
            Some(ev) => {
                self.strip_from_group(ev.group_id.as_str(), ev.id.as_str());
            },
            None => {},
        }
        self.join_group_of(id, group_of_info.as_str());
        Ok(ClientAdmission { session_generation: generation, evicted })
    }

    /// Admit a client session, ignoring a refusal: the registry becomes what
    /// [`ServerState::try_client_connected`] makes it, and stays as it was
    /// where that refuses.
    pub fn client_connected(
        &mut self,
        id: &str,
        hostname: &str,
        client_name: &str,
        os: &str,
        arch: &str,
        remote_addr: &str,
        protocol_version: u32,
        now_ms: i64,
    )
        requires
            old(self).wf(),
        ensures
            final(self).wf(),
            final(self)@ == client_connected_spec(
                old(self)@,
                id.spec_bytes(),
                id@,
                hostname@,
                client_name@,
                os@,
                arch@,
                remote_addr@,
                protocol_version,
                now_ms,
            ),
    {
        let _ = self.try_client_connected(id, hostname, client_name, os, arch, remote_addr, protocol_version, now_ms);
    }
}

/// The registry after a connection attempt of client `id`: unchanged when
/// the id is malformed, already has an active session, or no client can make
/// room for it; otherwise with the client admitted.
pub open spec fn client_connected_spec(
    v: StateView,
    id_bytes: Seq<u8>,
    id: Seq<char>,
    hostname: Seq<char>,
    client_name: Seq<char>,
    os: Seq<char>,
    arch: Seq<char>,
    remote_addr: Seq<char>,
    protocol_version: u32,
    now_ms: i64,
) -> StateView {
    if !client_id_ok(id_bytes) {
        v
    } else {
        match find_client(v.clients, id) {
            Some(i) if v.clients[i].status == ClientStatus::Connected => v,
            None if v.clients.len() >= v.max_known_clients && lru_client(v.clients) is None => v,
            _ => connect_spec(
                v,
                admitted_view(v, id, hostname, client_name, os, arch, remote_addr, protocol_version, now_ms),
            ),
        }
    }
}

/// Integer halving that rounds toward zero.
pub open spec fn half_toward_zero(x: int) -> int {
    if x >= 0 {
        x / 2
    } else {
        -((-x) / 2)
    }
}

/// The median of an ascending sequence of at least two values: the middle
/// value, or the mean of the two middle values rounded toward zero.
pub open spec fn median_of(t: Seq<i64>) -> int {
    let mid = (t.len() / 2) as int;
    if t.len() % 2 == 0 {
        half_toward_zero(t[mid - 1] + t[mid])
    } else {
        t[mid] as int
    }
}

/// The clock offset in microseconds of a connected client that reported
/// one.
pub open spec fn reported_offset_us(v: StateView) -> spec_fn(Seq<char>) -> Option<i64> {
    |cid: Seq<char>|
        match find_client(v.clients, cid) {
            Some(i) => if v.clients[i].status == ClientStatus::Connected {
                match v.clients[i].last_clock_offset_ms {
                    Some(ms) => Some((ms as int * 1000) as i64),
                    None => None,
                }
            } else {
                None
            },
            None => None,
        }
}

impl ServerState {
    /// Median clock offset (µs) of the connected members of a group that
    /// reported one; `None` for an unknown group or fewer than two such
    /// members.
    pub fn group_median_clock_offset_us(&self, group_id: &str) -> (r: Option<i64>)
        requires
            self.wf(),
        ensures
            match find_group(self@.groups, group_id@) {
                Some(g) => {
                    let offs = self@.groups[g].client_ids.filter_map(reported_offset_us(self@));
                    if offs.len() < 2 {
                        r is None
                    } else {
                        r matches Some(m) && exists|t: Seq<i64>|
                            stable_ascending(t, offs, i64_key()) && m == median_of(t)
                    }
                },
                None => r is None,
            },
    {
        let g = match self.group_pos(group_id) {
            Some(g) => g,
            None => return None,
        };
        let ghost f = reported_offset_us(self@);
        let ghost ids = self@.groups[g as int].client_ids;
        let members = &self.groups[g].client_ids;
        let mut offsets: Vec<i64> = Vec::new();
        let mut k: usize = 0;
        while k < members.len()
            invariant
                self.wf(),
                g < self@.groups.len(),
                ids == self@.groups[g as int].client_ids,
                members@.map_values(|s: String| s@) == ids,
                f == reported_offset_us(self@),
                0 <= k <= members@.len(),
                offsets@ == ids.take(k as int).filter_map(f),
                forall|q: int| 0 <= q < offsets@.len() ==> -2_147_483_648_000 <= #[trigger] offsets@[q] <= 2_147_483_647_000,
            decreases members@.len() - k,
        {
            proof {
                ids.lemma_filter_map_take_succ(f, k as int);
                assert(members@[k as int]@ == ids[k as int]);
            }
            match self.client_pos(members[k].as_str()) {
                Some(ci) => {
                    if self.clients[ci].is_connected() {
                        match self.clients[ci].last_clock_offset_ms {
                            Some(ms) => {
                                let us = ms as i64 * 1000;
                                offsets.push(us);
                                proof {
                                    assert(offsets@ =~= ids.take(k as int).filter_map(f) + seq![us]);
                                }
                            },
                            None => {
                                assert(ids.take(k as int + 1).filter_map(f) =~= ids.take(k as int).filter_map(f));
                            },
                        }
                    } else {
                        assert(ids.take(k as int + 1).filter_map(f) =~= ids.take(k as int).filter_map(f));
                    }
                },
                None => {
                    assert(ids.take(k as int + 1).filter_map(f) =~= ids.take(k as int).filter_map(f));
                },
            }
            k = k + 1;
        }
        assert(ids.take(members@.len() as int) =~= ids);
        if offsets.len() < 2 {
            return None;
        }
        let t = sort_ascending(&offsets);
        let n = t.len();
        let mid = n / 2;
        proof {
            lemma_block_member(t@, offsets@, i64_key(), mid as int);
            lemma_block_member(t@, offsets@, i64_key(), mid as int - 1);
        }
        let m: i64 = if n % 2 == 0 {
            let sum: i128 = t[mid - 1] as i128 + t[mid] as i128;
            let half: i128 = if sum >= 0 { sum / 2 } else { -((-sum) / 2) };
            proof {
                assert(t@[mid - 1] <= t@[mid as int]);
            }
            half as i64
        } else {
            t[mid]
        };
        proof {
            assert(stable_ascending(t@, offsets@, i64_key()) && m == median_of(t@));
        }
        Some(m)
    }
}

// ---------------------------------------------------------------------------
// Restoring persisted state
// ---------------------------------------------------------------------------

/// A group as saved to disk.
#[derive(Debug)]
pub struct PersistedGroup {
    pub id: String,
    pub name: String,
    pub stream_id: String,
}

pub ghost struct PersistedGroupView {
    pub id: Seq<char>,
    pub name: Seq<char>,
    pub stream_id: Seq<char>,
}

impl View for PersistedGroup {
    type V = PersistedGroupView;

    open spec fn view(&self) -> PersistedGroupView {
        PersistedGroupView { id: self.id@, name: self.name@, stream_id: self.stream_id@ }
    }
}

/// A client's settings as saved to disk.
#[derive(Debug)]
pub struct PersistedClient {
    pub id: String,
    pub hostname: String,
    /// Optional display name set by the operator.
    pub display_name: Option<String>,
    pub volume: u8,
    pub muted: bool,
    pub latency_ms: i32,
    pub observability_enabled: bool,
    pub group_id: String,
    /// When the client was last seen (Unix milliseconds).
    pub last_seen_ms: i64,
}

pub ghost struct PersistedClientView {
    pub id: Seq<char>,
    pub hostname: Seq<char>,
    pub display_name: Option<Seq<char>>,
    pub volume: u8,
    pub muted: bool,
    pub latency_ms: i32,
    pub observability_enabled: bool,
    pub group_id: Seq<char>,
    pub last_seen_ms: i64,
}

impl View for PersistedClient {
    type V = PersistedClientView;

    open spec fn view(&self) -> PersistedClientView {
        PersistedClientView {
            id: self.id@,
            hostname: self.hostname@,
            display_name: opt_view(self.display_name),
            volume: self.volume,
            muted: self.muted,
            latency_ms: self.latency_ms,
            observability_enabled: self.observability_enabled,
            group_id: self.group_id@,
            last_seen_ms: self.last_seen_ms,
        }
    }
}

impl PersistedClient {
    pub fn copy(&self) -> (c: PersistedClient)
        ensures
            c@ == self@,
    {
        PersistedClient {
            id: self.id.clone(),
            hostname: self.hostname.clone(),
            display_name: copy_opt_string(&self.display_name),
            volume: self.volume,
            muted: self.muted,
            latency_ms: self.latency_ms,
            observability_enabled: self.observability_enabled,
            group_id: self.group_id.clone(),
            last_seen_ms: self.last_seen_ms,
        }
    }
}

pub open spec fn saved_id_ok(p: PersistedClientView) -> bool {
    client_id_ok(encode_utf8(p.id))
}

pub open spec fn last_seen_key() -> spec_fn(PersistedClientView) -> int {
    |p: PersistedClientView| p.last_seen_ms as int
}

/// The registry record of a remembered client before it reconnects.
pub open spec fn restored_view(p: PersistedClientView) -> ClientView {
    ClientView {
        id: p.id,
        hostname: p.hostname,
        client_name: "Sonium"@,
        os: "unknown"@,
        arch: "unknown"@,
        remote_addr: ""@,
        volume: p.volume,
        muted: p.muted,
        latency_ms: p.latency_ms,
        group_id: p.group_id,
        status: ClientStatus::Disconnected,
        connected_at_ms: p.last_seen_ms,
        protocol_version: 0,
        session_generation: 0,
        display_name: p.display_name,
        observability_enabled: p.observability_enabled,
        health: None,
        last_clock_offset_ms: None,
    }
}

/// The client table built from saved clients in order, a later entry with
/// an id already present replacing the earlier one in place.
pub open spec fn restore_clients(ps: Seq<PersistedClientView>) -> Seq<ClientView>
    decreases ps.len(),
{
    if ps.len() == 0 {
        Seq::empty()
    } else {
        let c = restore_clients(ps.drop_last());
        let n = restored_view(ps.last());
        match find_client(c, n.id) {
            Some(i) => c.update(i, n),
            None => c.push(n),
        }
    }
}

pub open spec fn initial_groups() -> Seq<GroupView> {
    seq![GroupView { id: default_id(), name: "Default"@, stream_id: default_id(), client_ids: Seq::empty() }]
}

pub open spec fn initial_streams() -> Seq<StreamView> {
    seq![
        StreamView {
            id: default_id(),
            display_name: Some("Default Stream"@),
            codec: "Unknown"@,
            format: "Unknown"@,
            source: "Unknown"@,
            buffer_ms: 1000,
            buffer_ms_overridden: false,
            chunk_ms: 20,
            chunk_ms_overridden: false,
            idle_timeout_ms: None,
            silence_on_idle: false,
            status: StreamStatus::Idle,
            recovery: None,
        },
    ]
}

/// The first `n` items of `t`, or all of them.
pub open spec fn at_most<A>(t: Seq<A>, n: nat) -> Seq<A> {
    if n < t.len() {
        t.take(n as int)
    } else {
        t
    }
}

/// The registry at startup: the `max` most recently seen saved clients
/// with valid ids, the default group and the default stream.
pub open spec fn initial_state(ordered: Seq<PersistedClientView>, max: nat) -> StateView {
    StateView {
        clients: restore_clients(at_most(ordered, max)),
        groups: initial_groups(),
        streams: initial_streams(),
        max_known_clients: max,
        next_generation: 1,
        timezone: None,
        transport_mode: TransportMode::Tcp,
        server_udp_port: 0,
    }
}

fn saved_with_valid_ids(saved: &Vec<PersistedClient>) -> (r: Vec<PersistedClient>)
    ensures
        r@.map_values(|p: PersistedClient| p@) == saved@.map_values(|p: PersistedClient| p@).filter(
            |p: PersistedClientView| saved_id_ok(p),
        ),
{
    let ghost v = saved@.map_values(|p: PersistedClient| p@);
    let ghost pred = |p: PersistedClientView| saved_id_ok(p);
    let mut r: Vec<PersistedClient> = Vec::new();
    let mut k: usize = 0;
    while k < saved.len()
        invariant
            0 <= k <= saved@.len(),
            v == saved@.map_values(|p: PersistedClient| p@),
            pred == (|p: PersistedClientView| saved_id_ok(p)),
            r@.map_values(|p: PersistedClient| p@) == v.subrange(0, k as int).filter(pred),
        decreases saved@.len() - k,
    {
        proof {
            let s = v.subrange(0, k as int + 1);
            assert(s.drop_last() =~= v.subrange(0, k as int));
            s.drop_last().lemma_filter_push(s.last(), pred);
            assert(s =~= s.drop_last().push(s.last()));
        }
        if validate_client_id(saved[k].id.as_str()).is_ok() {
            let c = saved[k].copy();
            r.push(c);
            proof {
                assert(r@.map_values(|p: PersistedClient| p@) =~= v.subrange(0, k as int).filter(pred).push(c@));
            }
        }
        k = k + 1;
    }
    assert(v.subrange(0, saved@.len() as int) =~= v);
    r
}

/// The saved clients by descending last-seen time, ties in input order.
fn by_recency(v: &Vec<PersistedClient>) -> (t: Vec<PersistedClient>)
    ensures
        stable_descending(
            t@.map_values(|p: PersistedClient| p@),
            v@.map_values(|p: PersistedClient| p@),
            last_seen_key(),
        ),
{
    let ghost key = last_seen_key();
    let ghost vs = v@.map_values(|p: PersistedClient| p@);
    let mut t: Vec<PersistedClient> = Vec::new();
    let mut i: usize = 0;
    assert(vs.take(0) =~= t@.map_values(|p: PersistedClient| p@));
    while i < v.len()
        invariant
            key == last_seen_key(),
            vs == v@.map_values(|p: PersistedClient| p@),
            0 <= i <= v@.len(),
            stable_descending(t@.map_values(|p: PersistedClient| p@), vs.take(i as int), key),
        decreases v@.len() - i,
    {
        let x = v[i].copy();
        let ghost xv = x@;
        let ghost before = t@.map_values(|p: PersistedClient| p@);
        let mut j: usize = 0;
        while j < t.len() && t[j].last_seen_ms >= x.last_seen_ms
            invariant
                0 <= j <= t@.len(),
                before == t@.map_values(|p: PersistedClient| p@),
                forall|q: int| 0 <= q < j ==> before[q].last_seen_ms >= xv.last_seen_ms,
                xv == x@,
            decreases t@.len() - j,
        {
            j = j + 1;
        }
        proof {
            assert forall|q: int| j <= q < before.len() implies before[q].last_seen_ms < xv.last_seen_ms by {
                assert(before[j as int].last_seen_ms < xv.last_seen_ms);
                assert(key(before[j as int]) >= key(before[q]));
            }
            assert forall|q: int| j <= q < before.len() implies key(#[trigger] before[q]) != key(xv) by {
                assert(before[q].last_seen_ms < xv.last_seen_ms);
            }
        }
        t.insert(j, x);
        proof {
            let after = t@.map_values(|p: PersistedClient| p@);
            assert(after =~= before.insert(j as int, xv));
            let pre = vs.take(i as int);
            assert(vs.take(i as int + 1) =~= pre.push(xv));
            assert forall|k: int| #[trigger] block(after, key, k) == block(vs.take(i as int + 1), key, k) by {
                lemma_block_insert(before, j as int, xv, key, k);
                lemma_block_push(pre, xv, key, k);
                assert(block(before, key, k) == block(pre, key, k));
            }
            assert forall|a: int, b: int| 0 <= a < b < after.len() implies key(after[a]) >= key(after[b]) by {
                if a < j && b < j {
                    assert(after[a] == before[a] && after[b] == before[b]);
                } else if a < j && b == j {
                } else if a < j {
                    assert(after[a] == before[a] && after[b] == before[b - 1]);
                } else if a == j {
                    assert(after[b] == before[b - 1]);
                } else {
                    assert(after[a] == before[a - 1] && after[b] == before[b - 1]);
                }
            }
        }
        i = i + 1;
    }
    assert(vs.take(v@.len() as int) =~= vs);
    t
}

fn restored_info(p: &PersistedClient) -> (c: ClientInfo)
    ensures
        c@ == restored_view(p@),
{
    ClientInfo {
        id: p.id.clone(),
        hostname: p.hostname.clone(),
        client_name: String::from_str("Sonium"),
        os: String::from_str("unknown"),
        arch: String::from_str("unknown"),
        remote_addr: String::from_str(""),
        volume: p.volume,
        muted: p.muted,
        latency_ms: p.latency_ms,
        group_id: p.group_id.clone(),
        status: ClientStatus::Disconnected,
        connected_at_ms: p.last_seen_ms,
        protocol_version: 0,
        session_generation: 0,
        display_name: copy_opt_string(&p.display_name),
        observability_enabled: p.observability_enabled,
        health: None,
        last_clock_offset_ms: None,
    }
}

impl ServerState {
    /// The registry at startup, remembering at most `max_known_clients` of
    /// the saved clients: those with valid ids that were seen most recently.
    pub fn new_with_known_client_limit(saved_clients: Vec<PersistedClient>, max_known_clients: usize) -> (s: Self)
        ensures
            s.wf(),
            exists|t: Seq<PersistedClientView>|
                stable_descending(
                    t,
                    saved_clients@.map_values(|p: PersistedClient| p@).filter(
                        |p: PersistedClientView| saved_id_ok(p),
                    ),
                    last_seen_key(),
                ) && s@ == initial_state(t, max_known_clients as nat),
    {
        let valid = saved_with_valid_ids(&saved_clients);
        let mut ordered = by_recency(&valid);
        let ghost sorted = ordered@.map_values(|p: PersistedClient| p@);
        ordered.truncate(max_known_clients);
        proof {
            assert(ordered@.map_values(|p: PersistedClient| p@) =~= at_most(sorted, max_known_clients as nat));
        }
        let default_group = Group {
            id: String::from_str("default"),
            name: String::from_str("Default"),
            stream_id: String::from_str("default"),
            client_ids: Vec::new(),
        };
        let default_stream = StreamInfo {
            id: String::from_str("default"),
            display_name: Some(String::from_str("Default Stream")),
            codec: String::from_str("Unknown"),
            format: String::from_str("Unknown"),
            source: String::from_str("Unknown"),
            buffer_ms: 1000,
            buffer_ms_overridden: false,
            chunk_ms: 20,
            chunk_ms_overridden: false,
            idle_timeout_ms: None,
            silence_on_idle: false,
            status: StreamStatus::Idle,
            recovery: None,
        };
        let mut groups: Vec<Group> = Vec::new();
        groups.push(default_group);
        let mut streams: Vec<StreamInfo> = Vec::new();
        streams.push(default_stream);
        let mut state = ServerState {
            clients: Vec::new(),
            groups,
            streams,
            max_known_clients,
            next_client_generation: 1,
            timezone: None,
            transport_mode: TransportMode::Tcp,
            server_udp_port: 0,
        };
        proof {
            lemma_default_literal();
            assert(state.groups@[0].client_ids@.map_values(|c: String| c@) =~= Seq::<Seq<char>>::empty());
            assert(state@.groups[0] == initial_groups()[0]);
            assert(state@.groups =~= initial_groups());
            assert(state@.streams =~= initial_streams());
            assert(state@.groups[0].id == default_id());
            assert(state@.clients =~= restore_clients(Seq::empty()));
        }
        let ghost ps = ordered@.map_values(|p: PersistedClient| p@);
        let mut k: usize = 0;
        while k < ordered.len()
            invariant
                state.wf(),
                ps == ordered@.map_values(|p: PersistedClient| p@),
                ps.len() <= max_known_clients,
                0 <= k <= ps.len(),
                state@.clients == restore_clients(ps.take(k as int)),
                state@.clients.len() <= k,
                state@ == (StateView { clients: state@.clients, ..initial_state(Seq::empty(), max_known_clients as nat) }),
            decreases ps.len() - k,
        {
            let c = restored_info(&ordered[k]);
            proof {
                assert(ps.take(k as int + 1).drop_last() =~= ps.take(k as int));
                assert(ps.take(k as int + 1).last() == ps[k as int]);
            }
            match state.client_pos(ordered[k].id.as_str()) {
                Some(i) => {
                    state.replace_client(i, c);
                },
                None => {
                    let ghost before = state@;
                    state.clients.push(c);
                    proof {
                        assert(state@.clients =~= before.clients.push(c@));
                        assert forall|a: int, b: int|
                            0 <= a < state@.clients.len() && 0 <= b < state@.clients.len() && a != b implies state@.clients[a].id
                            != state@.clients[b].id by {
                            if a < before.clients.len() && b < before.clients.len() {
                            } else if a == before.clients.len() {
                                assert(before.clients[b].id != c@.id);
                            } else {
                                assert(before.clients[a].id != c@.id);
                            }
                        }
                        assert(state@.groups[0].id == default_id());
                    }
                },
            }
            k = k + 1;
        }
        proof {
            assert(ps.take(ps.len() as int) =~= ps);
            assert(state@ == initial_state(sorted, max_known_clients as nat));
        }
        state
    }
}

/// The group table after adding each saved group whose id is not taken
/// yet, with no members.
pub open spec fn add_saved_groups(groups: Seq<GroupView>, ps: Seq<PersistedGroupView>) -> Seq<GroupView>
    decreases ps.len(),
{
    if ps.len() == 0 {
        groups
    } else {
        let g = add_saved_groups(groups, ps.drop_last());
        let p = ps.last();
        match find_group(g, p.id) {
            Some(_) => g,
            None => g.push(GroupView { id: p.id, name: p.name, stream_id: p.stream_id, client_ids: Seq::empty() }),
        }
    }
}

/// The group table after listing each client, in registry order, in the
/// member list of its recorded group where that group exists and does not
/// list it yet.
pub open spec fn list_members(groups: Seq<GroupView>, clients: Seq<ClientView>) -> Seq<GroupView>
    decreases clients.len(),
{
    if clients.len() == 0 {
        groups
    } else {
        let g = list_members(groups, clients.drop_last());
        let c = clients.last();
        match find_group(g, c.group_id) {
            Some(i) => if g[i].client_ids.contains(c.id) {
                g
            } else {
                g.update(i, GroupView { client_ids: g[i].client_ids.push(c.id), ..g[i] })
            },
            None => g,
        }
    }
}

impl ServerState {
    /// The registry at startup, remembering at most 256 saved clients.
    pub fn new(saved_clients: Vec<PersistedClient>) -> (s: Self)
        ensures
            s.wf(),
            exists|t: Seq<PersistedClientView>|
                stable_descending(
                    t,
                    saved_clients@.map_values(|p: PersistedClient| p@).filter(
                        |p: PersistedClientView| saved_id_ok(p),
                    ),
                    last_seen_key(),
                ) && s@ == initial_state(t, 256),
    {
        Self::new_with_known_client_limit(saved_clients, 256)
    }

    /// Restore saved groups (before any client connects): each saved group
    /// whose id is free is added, then every remembered client is listed in
    /// its group.
    pub fn restore_groups(&mut self, persisted: Vec<PersistedGroup>)
        requires
            old(self).wf(),
        ensures
            final(self).wf(),
            final(self)@ == (StateView {
                groups: list_members(
                    add_saved_groups(old(self)@.groups, persisted@.map_values(|p: PersistedGroup| p@)),
                    old(self)@.clients,
                ),
                ..old(self)@
            }),
    {
        let ghost v0 = self@;
        let ghost ps = persisted@.map_values(|p: PersistedGroup| p@);
        let mut k: usize = 0;
        assert(ps.take(0) =~= Seq::<PersistedGroupView>::empty());
        while k < persisted.len()
            invariant
                self.wf(),
                ps == persisted@.map_values(|p: PersistedGroup| p@),
                0 <= k <= ps.len(),
                self@ == (StateView { groups: add_saved_groups(v0.groups, ps.take(k as int)), ..v0 }),
            decreases ps.len() - k,
        {
            proof {
                assert(ps.take(k as int + 1).drop_last() =~= ps.take(k as int));
                assert(ps.take(k as int + 1).last() == ps[k as int]);
            }
            if self.group_pos(persisted[k].id.as_str()).is_none() {
                let g = Group {
                    id: persisted[k].id.clone(),
                    name: persisted[k].name.clone(),
                    stream_id: persisted[k].stream_id.clone(),
                    client_ids: Vec::new(),
                };
                let ghost before = self@;
                self.groups.push(g);
                proof {
                    assert(g@.client_ids =~= Seq::<Seq<char>>::empty());
                    assert(self@.groups =~= before.groups.push(g@));
                    let d = find_group(before.groups, default_id())->0;
                    assert(self@.groups[d].id == default_id());
                    assert forall|a: int, b: int|
                        0 <= a < self@.groups.len() && 0 <= b < self@.groups.len() && a != b implies self@.groups[a].id
                        != self@.groups[b].id by {
                        if a < before.groups.len() && b < before.groups.len() {
                        } else if a == before.groups.len() {
                            assert(before.groups[b].id != g@.id);
                        } else {
                            assert(before.groups[a].id != g@.id);
                        }
                    }
                }
            }
            k = k + 1;
        }
        assert(ps.take(ps.len() as int) =~= ps);
        let ghost base = self@.groups;
        let mut c: usize = 0;
        assert(v0.clients.take(0) =~= Seq::<ClientView>::empty());
        while c < self.clients.len()
            invariant
                self.wf(),
                0 <= c <= v0.clients.len(),
                self@.clients == v0.clients,
                self@ == (StateView { groups: list_members(base, v0.clients.take(c as int)), ..v0 }),
            decreases v0.clients.len() - c,
        {
            proof {
                assert(v0.clients.take(c as int + 1).drop_last() =~= v0.clients.take(c as int));
                assert(v0.clients.take(c as int + 1).last() == v0.clients[c as int]);
            }
            match self.group_pos(self.clients[c].group_id.as_str()) {
                Some(g) => {
                    if !list_contains(&self.groups[g].client_ids, self.clients[c].id.as_str()) {
                        let mut grp = self.groups[g].copy();
                        grp.client_ids.push(self.clients[c].id.clone());
                        proof {
                            assert(grp@.client_ids =~= self@.groups[g as int].client_ids.push(v0.clients[c as int].id));
                        }
                        self.replace_group(g, grp);
                    }
                },
                None => {},
            }
            c = c + 1;
        }
        assert(v0.clients.take(v0.clients.len() as int) =~= v0.clients);
    }
}

impl ServerState {
    /// Set the transport configuration read from the configuration file.
    pub fn set_transport_config(&mut self, mode: TransportMode, server_udp_port: u16)
        requires
            old(self).wf(),
        ensures
            final(self).wf(),
            final(self)@ == (StateView { transport_mode: mode, server_udp_port, ..old(self)@ }),
    {
        self.transport_mode = mode;
        self.server_udp_port = server_udp_port;
        proof {
            let d = find_group(self@.groups, default_id())->0;
            assert(self@.groups[d].id == default_id());
        }
    }

    pub fn transport_mode(&self) -> (m: TransportMode)
        ensures
            m == self@.transport_mode,
    {
        self.transport_mode
    }

    /// Server UDP port for RTP media (zero when not configured).
    pub fn server_udp_port(&self) -> (p: u16)
        ensures
            p == self@.server_udp_port,
    {
        self.server_udp_port
    }

    /// Change the active transport; returns the UDP port announced with
    /// the change.
    pub fn set_transport_mode(&mut self, mode: TransportMode) -> (port: u16)
        requires
            old(self).wf(),
        ensures
            final(self).wf(),
            final(self)@ == (StateView { transport_mode: mode, ..old(self)@ }),
            port == old(self)@.server_udp_port,
    {
        self.transport_mode = mode;
        proof {
            let d = find_group(self@.groups, default_id())->0;
            assert(self@.groups[d].id == default_id());
        }
        self.server_udp_port
    }
}

// ---------------------------------------------------------------------------
// Laws
// ---------------------------------------------------------------------------

/// Every registry the operations produce keeps unique ids per table, a
/// default group, and at most `max_known_clients` remembered clients.
pub proof fn lemma_registry_bounded(s: &ServerState)
    requires
        s.wf(),
    ensures
        s@.clients.len() <= s@.max_known_clients,
        client_ids_distinct(s@.clients),
        group_ids_distinct(s@.groups),
        stream_ids_distinct(s@.streams),
        find_group(s@.groups, default_id()) is Some,
{
}

/// Every client connected in `v` is still present and connected in `w`.
#[verifier::opaque]
pub open spec fn keeps_connected(v: StateView, w: StateView) -> bool {
    forall|j: int|
        0 <= j < v.clients.len() && (#[trigger] v.clients[j]).status == ClientStatus::Connected ==> exists|k: int|
            0 <= k < w.clients.len() && #[trigger] w.clients[k].id == v.clients[j].id && w.clients[k].status
                == ClientStatus::Connected
}

/// [`lemma_connected_clients_survive_admission`] for every connected client.
pub proof fn lemma_admission_keeps_connected(
    v: StateView,
    id_bytes: Seq<u8>,
    id: Seq<char>,
    hostname: Seq<char>,
    client_name: Seq<char>,
    os: Seq<char>,
    arch: Seq<char>,
    remote_addr: Seq<char>,
    protocol_version: u32,
    now_ms: i64,
)
    requires
        state_wf(v),
    ensures
        keeps_connected(
            v,
            client_connected_spec(
                v,
                id_bytes,
                id,
                hostname,
                client_name,
                os,
                arch,
                remote_addr,
                protocol_version,
                now_ms,
            ),
        ),
{
    let w = client_connected_spec(
        v,
        id_bytes,
        id,
        hostname,
        client_name,
        os,
        arch,
        remote_addr,
        protocol_version,
        now_ms,
    );
    reveal(keeps_connected);
    assert forall|j: int|
        0 <= j < v.clients.len() && (#[trigger] v.clients[j]).status == ClientStatus::Connected implies exists|k: int|
            0 <= k < w.clients.len() && #[trigger] w.clients[k].id == v.clients[j].id && w.clients[k].status
                == ClientStatus::Connected by {
        lemma_connected_clients_survive_admission(
            v,
            id_bytes,
            id,
            hostname,
            client_name,
            os,
            arch,
            remote_addr,
            protocol_version,
            now_ms,
            j,
        );
    }
}

/// Admitting a session, or refusing it, never removes or disconnects a
/// connected client; the one client that may be evicted to make room was
/// disconnected and the least recently connected of those.
pub proof fn lemma_connected_clients_survive_admission(
    v: StateView,
    id_bytes: Seq<u8>,
    id: Seq<char>,
    hostname: Seq<char>,
    client_name: Seq<char>,
    os: Seq<char>,
    arch: Seq<char>,
    remote_addr: Seq<char>,
    protocol_version: u32,
    now_ms: i64,
    j: int,
)
    requires
        state_wf(v),
        0 <= j < v.clients.len(),
        v.clients[j].status == ClientStatus::Connected,
    ensures
        ({
            let w = client_connected_spec(
                v,
                id_bytes,
                id,
                hostname,
                client_name,
                os,
                arch,
                remote_addr,
                protocol_version,
                now_ms,
            );
            exists|k: int|
                0 <= k < w.clients.len() && #[trigger] w.clients[k].id == v.clients[j].id
                    && w.clients[k].status == ClientStatus::Connected
        }),
        connect_eviction(v, id) matches Some(e) ==> is_lru(v.clients, e)
            && v.clients[e].status == ClientStatus::Disconnected,
{
    let w = client_connected_spec(
        v,
        id_bytes,
        id,
        hostname,
        client_name,
        os,
        arch,
        remote_addr,
        protocol_version,
        now_ms,
    );
    let nc = admitted_view(v, id, hostname, client_name, os, arch, remote_addr, protocol_version, now_ms);
    if w == v {
        assert(w.clients[j].id == v.clients[j].id);
    } else {
        match find_client(v.clients, id) {
            Some(i) => {
                assert(v.clients[i].status != ClientStatus::Connected);
                assert(i != j);
                assert(w.clients == v.clients.update(i, nc));
                assert(w.clients[j] == v.clients[j]);
                assert(w.clients[j].id == v.clients[j].id);
            },
            None => {
                match connect_eviction(v, id) {
                    Some(e) => {
                        assert(is_lru(v.clients, e));
                        assert(e != j);
                        assert(w.clients == v.clients.remove(e).push(nc));
                        let k = if j < e { j } else { j - 1 };
                        assert(w.clients[k] == v.clients[j]);
                        assert(w.clients[k].id == v.clients[j].id);
                    },
                    None => {
                        assert(w.clients == v.clients.push(nc));
                        assert(w.clients[j] == v.clients[j]);
                        assert(w.clients[j].id == v.clients[j].id);
                    },
                }
            },
        }
    }
    if let Some(e) = connect_eviction(v, id) {
        assert(is_lru(v.clients, e));
    }
}

proof fn lemma_without_drops(l: Seq<Seq<char>>, x: Seq<char>)
    ensures
        !without(l, x).contains(x),
{
    let p = |c: Seq<char>| c != x;
    if without(l, x).contains(x) {
        let i = choose|i: int| 0 <= i < without(l, x).len() && without(l, x)[i] == x;
        l.lemma_filter_pred(p, i);
    }
}

proof fn lemma_strip_member_ids(groups: Seq<GroupView>, group_id: Seq<char>, client: Seq<char>)
    ensures
        strip_member(groups, group_id, client).len() == groups.len(),
        forall|k: int| 0 <= k < groups.len() ==> (#[trigger] strip_member(groups, group_id, client)[k]).id == groups[k].id,
{
}

/// Admitting a session records the client as connected under the new
/// generation and lists it in exactly one group: its recorded group where
/// that group exists, else the default group.
pub proof fn lemma_admitted_client_listed_once(v: StateView, nc: ClientView)
    requires
        state_wf(v),
    ensures
        ({
            let w = connect_spec(v, nc);
            &&& exists|i: int| 0 <= i < w.clients.len() && w.clients[i] == nc
            &&& exists|t: int|
                0 <= t < w.groups.len() && w.groups[t].client_ids.contains(nc.id) && (w.groups[t].id == nc.group_id
                    || (find_group(v.groups, nc.group_id) is None && w.groups[t].id == default_id())) && forall|g: int|
                    0 <= g < w.groups.len() && g != t ==> !(#[trigger] w.groups[g]).client_ids.contains(nc.id)
        }),
{
    let w = connect_spec(v, nc);
    let id = nc.id;
    let groups0 = match find_client(v.clients, id) {
        Some(i) => v.groups,
        None => match connect_eviction(v, id) {
            Some(e) => strip_member(v.groups, v.clients[e].group_id, v.clients[e].id),
            None => v.groups,
        },
    };
    match find_client(v.clients, id) {
        Some(i) => {
            assert(w.clients[i] == nc);
        },
        None => match connect_eviction(v, id) {
            Some(e) => {
                lemma_strip_member_ids(v.groups, v.clients[e].group_id, v.clients[e].id);
                assert(w.clients[w.clients.len() - 1] == nc);
            },
            None => {
                assert(w.clients[w.clients.len() - 1] == nc);
            },
        },
    }
    assert(groups0.len() == v.groups.len());
    assert forall|k: int| 0 <= k < v.groups.len() implies (#[trigger] v.groups[k]).id == groups0[k].id by {
        match find_client(v.clients, id) {
            Some(i) => {},
            None => match connect_eviction(v, id) {
                Some(e) => {
                    lemma_strip_member_ids(v.groups, v.clients[e].group_id, v.clients[e].id);
                },
                None => {},
            },
        }
    }
    let stripped = strip_everywhere(groups0, id);
    assert forall|k: int| 0 <= k < v.groups.len() implies (#[trigger] v.groups[k]).id == stripped[k].id by {
        assert(v.groups[k].id == groups0[k].id);
    }
    lemma_find_group_same_ids(v.groups, stripped, nc.group_id);
    lemma_find_group_same_ids(v.groups, stripped, default_id());
    let t = match find_group(stripped, nc.group_id) {
        Some(t) => t,
        None => find_group(stripped, default_id())->0,
    };
    assert(w.groups == stripped.update(t, GroupView { client_ids: stripped[t].client_ids.push(id), ..stripped[t] }));
    assert(w.groups[t].client_ids[stripped[t].client_ids.len() as int] == id);
    assert forall|g: int| 0 <= g < w.groups.len() && g != t implies !(#[trigger] w.groups[g]).client_ids.contains(id) by {
        lemma_without_drops(groups0[g].client_ids, id);
    }
}
} // verus!
