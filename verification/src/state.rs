//! The state of the server beside the rooms themselves.
use dashmap::DashMap;
use vstd::prelude::*;

use crate::maps::{rooms_get, rooms_insert, rooms_new, rooms_of, rooms_remove};
use crate::room::{JBRoom, RoomConfigView};
use crate::text::opt_text;

verus! {

/// Whether the server plays a protocol itself or passes it on.
#[derive(Debug, Clone, Copy, PartialEq, Eq, Structural)]
pub enum OpMode {
    Native,
    Proxy,
}

/// How one protocol is played.
#[derive(Debug)]
pub struct Ecast {
    pub op_mode: OpMode,
    pub server_url: Option<String>,
}

/// The ports that the server listens on.
#[derive(Debug, Clone, Copy, PartialEq, Eq, Structural)]
pub struct Ports {
    pub https: u16,
    pub blobcast: u16,
    pub http: Option<u16>,
}

/// The settings that the rules read.
#[derive(Debug)]
pub struct Config {
    pub ecast: Ecast,
    pub blobcast: Ecast,
    pub ports: Ports,
    pub accessible_host: String,
}

/// What the settings say.
#[verifier::ext_equal]
pub struct ConfigView {
    pub ecast_mode: OpMode,
    pub ecast_url: Option<Seq<char>>,
    pub blobcast_mode: OpMode,
    pub blobcast_url: Option<Seq<char>>,
    pub ports: Ports,
    pub accessible_host: Seq<char>,
}

impl View for Config {
    type V = ConfigView;

    open spec fn view(&self) -> ConfigView {
        ConfigView {
            ecast_mode: self.ecast.op_mode,
            ecast_url: opt_text(self.ecast.server_url),
            blobcast_mode: self.blobcast.op_mode,
            blobcast_url: opt_text(self.blobcast.server_url),
            ports: self.ports,
            accessible_host: self.accessible_host@,
        }
    }
}

/// The server that requests are passed on to: the one that the settings name, or the given one.
pub open spec fn server_of(url: Option<Seq<char>>, otherwise: Seq<char>) -> Seq<char> {
    match url {
        Some(u) => u,
        None => otherwise,
    }
}

impl Ecast {
    /// The server that requests are passed on to.
    pub fn server<'a>(&'a self, otherwise: &'a str) -> (r: &'a str)
        ensures
            r@ == server_of(opt_text(self.server_url), otherwise@),
    {
        match &self.server_url {
            Some(u) => u.as_str(),
            None => otherwise,
        }
    }
}

/// A room in the directory: the number by which it is found, and what it tells about itself.
#[derive(Debug)]
pub struct RoomEntry {
    pub handle: u64,
    pub room_config: JBRoom,
}

/// What an entry of the directory says.
#[verifier::ext_equal]
pub struct RoomEntryView {
    pub handle: u64,
    pub room_config: RoomConfigView,
}

impl View for RoomEntry {
    type V = RoomEntryView;

    open spec fn view(&self) -> RoomEntryView {
        RoomEntryView { handle: self.handle, room_config: self.room_config@ }
    }
}

impl RoomEntry {
    /// Another entry that says the same.
    pub fn duplicate(&self) -> (r: RoomEntry)
        ensures
            r@ == self@,
    {
        RoomEntry { handle: self.handle, room_config: self.room_config.duplicate() }
    }
}

/// The state that all requests share: the blob server in use, the directory of the rooms, the
/// settings, and whether the server may reach out. `next_handle` is the number of the next room.
pub struct State {
    pub blobcast_host: String,
    pub room_map: DashMap<String, RoomEntry>,
    pub config: Config,
    pub offline: bool,
    pub next_handle: u64,
}

/// What the state says.
#[verifier::ext_equal]
pub struct StateView {
    pub blobcast_host: Seq<char>,
    pub rooms: Map<Seq<char>, RoomEntryView>,
    pub config: ConfigView,
    pub offline: bool,
    pub next_handle: u64,
}

impl View for State {
    type V = StateView;

    open spec fn view(&self) -> StateView {
        StateView {
            blobcast_host: self.blobcast_host@,
            rooms: rooms_of(self.room_map),
            config: self.config@,
            offline: self.offline,
            next_handle: self.next_handle,
        }
    }
}

impl StateView {
    /// Every room of the directory has a number of its own, which was given out.
    pub open spec fn wf(self) -> bool {
        &&& forall|c: Seq<char>| #[trigger]
            self.rooms.contains_key(c) ==> self.rooms[c].handle < self.next_handle
        &&& forall|c: Seq<char>, d: Seq<char>|
            #![trigger self.rooms.contains_key(c), self.rooms.contains_key(d)]
            self.rooms.contains_key(c) && self.rooms.contains_key(d) && c != d
                ==> self.rooms[c].handle != self.rooms[d].handle
    }

    /// The state once a room is opened under its code.
    pub open spec fn opened(self, room_config: RoomConfigView) -> StateView {
        StateView {
            rooms: self.rooms.insert(
                room_config.code,
                RoomEntryView { handle: self.next_handle, room_config },
            ),
            next_handle: (self.next_handle + 1) as u64,
            ..self
        }
    }

    /// The state once the room with the given code is taken out.
    pub open spec fn closed(self, code: Seq<char>) -> StateView {
        StateView { rooms: self.rooms.remove(code), ..self }
    }
}

impl State {
    /// A server without rooms.
    pub fn new(config: Config, offline: bool) -> (r: State)
        ensures
            r@ == (StateView {
                blobcast_host: Seq::empty(),
                rooms: Map::empty(),
                config: config@,
                offline,
                next_handle: 0,
            }),
            r@.wf(),
    {
        State {
            blobcast_host: String::new(),
            room_map: rooms_new(),
            config,
            offline,
            next_handle: 0,
        }
    }

    /// The entry of the room with the given code.
    pub fn room(&self, code: &str) -> (r: Option<RoomEntry>)
        ensures
            match r {
                Some(e) => self@.rooms.contains_key(code@) && e@ == self@.rooms[code@],
                None => !self@.rooms.contains_key(code@),
            },
    {
        rooms_get(&self.room_map, code)
    }

    /// Opens a room under its code, in the place of any room that had that code, and hands its
    /// number out.
    pub fn open_room(&mut self, room_config: JBRoom) -> (r: u64)
        requires
            old(self)@.wf(),
            old(self)@.next_handle < u64::MAX,
        ensures
            final(self)@ == old(self)@.opened(room_config@),
            final(self)@.wf(),
            r == old(self)@.next_handle,
    {
        let handle: u64 = self.next_handle;
        self.next_handle = handle + 1;
        let code = room_config.code.clone();
        rooms_insert(&mut self.room_map, code, RoomEntry { handle, room_config });
        handle
    }

    /// Takes the room with the given code out and hands out its number.
    pub fn close_room(&mut self, code: &str) -> (r: Option<u64>)
        requires
            old(self)@.wf(),
        ensures
            final(self)@ == old(self)@.closed(code@),
            final(self)@.wf(),
            match r {
                Some(h) => old(self)@.rooms.contains_key(code@) && h == old(
                    self,
                )@.rooms[code@].handle,
                None => !old(self)@.rooms.contains_key(code@),
            },
    {
        match rooms_remove(&mut self.room_map, code) {
            Some(e) => Some(e.handle),
            None => None,
        }
    }
}

/// A room that was opened is found under its code with what it tells about itself, until it is
/// taken out; the other rooms are left as they are.
pub proof fn law_opened_room_is_found(state: StateView, c: RoomConfigView, other: Seq<char>)
    requires
        other != c.code,
    ensures
        state.opened(c).rooms.contains_key(c.code),
        state.opened(c).rooms[c.code].room_config == c,
        !state.opened(c).closed(c.code).rooms.contains_key(c.code),
        state.opened(c).rooms.contains_key(other) <==> state.rooms.contains_key(other),
        state.rooms.contains_key(other) ==> state.opened(c).rooms[other] == state.rooms[other],
        state.closed(c.code).rooms.contains_key(other) <==> state.rooms.contains_key(other),
        state.rooms.contains_key(other) ==> state.closed(c.code).rooms[other]
            == state.rooms[other],
{
}

/// A room that is opened gets the next number, and the one after it gets another; nothing else of
/// the state changes by opening and taking out.
pub proof fn law_rooms_are_numbered(state: StateView, c: RoomConfigView, code: Seq<char>)
    requires
        state.next_handle < u64::MAX,
    ensures
        state.opened(c).rooms[c.code].handle == state.next_handle,
        state.opened(c).next_handle == state.next_handle + 1,
        state.opened(c).config == state.config,
        state.opened(c).blobcast_host == state.blobcast_host,
        state.opened(c).offline == state.offline,
        !state.closed(code).rooms.contains_key(code),
        state.closed(code).next_handle == state.next_handle,
        state.closed(code).config == state.config,
        state.closed(code).blobcast_host == state.blobcast_host,
        state.closed(code).offline == state.offline,
{
}

/// Requests are passed on to the server that the settings name, and to the usual one where they name
/// none.
pub proof fn law_where_requests_go(url: Seq<char>, otherwise: Seq<char>)
    ensures
        server_of(Some(url), otherwise) == url,
        server_of(None, otherwise) == otherwise,
{
}

} // verus!
