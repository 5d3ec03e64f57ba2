//! Rooms, the clients in them, and what is kept of both.
use dashmap::DashMap;
use vstd::prelude::*;

use crate::acl::Role;
use crate::entity::{EntityView, JBEntity};
use crate::maps::{clients_get, clients_insert, clients_new, clients_of};
use crate::maps::{entities_insert, entities_new, entities_of, entities_remove};
use crate::message::{Effect, EffectView, Outgoing, OutgoingView};
use crate::text::opt_text;

verus! {

/// What a room tells about itself.
#[derive(Debug)]
pub struct JBRoom {
    pub app_id: String,
    pub app_tag: String,
    pub audience_enabled: bool,
    pub code: String,
    pub host: String,
    pub audience_host: String,
    pub locked: bool,
    pub full: bool,
    pub moderation_enabled: bool,
    pub password_required: bool,
    pub twitch_locked: bool,
    pub locale: String,
    pub keepalive: bool,
}

/// What a room says about itself.
#[verifier::ext_equal]
pub struct RoomConfigView {
    pub app_id: Seq<char>,
    pub app_tag: Seq<char>,
    pub audience_enabled: bool,
    pub code: Seq<char>,
    pub host: Seq<char>,
    pub audience_host: Seq<char>,
    pub locked: bool,
    pub full: bool,
    pub moderation_enabled: bool,
    pub password_required: bool,
    pub twitch_locked: bool,
    pub locale: Seq<char>,
    pub keepalive: bool,
}

impl View for JBRoom {
    type V = RoomConfigView;

    open spec fn view(&self) -> RoomConfigView {
        RoomConfigView {
            app_id: self.app_id@,
            app_tag: self.app_tag@,
            audience_enabled: self.audience_enabled,
            code: self.code@,
            host: self.host@,
            audience_host: self.audience_host@,
            locked: self.locked,
            full: self.full,
            moderation_enabled: self.moderation_enabled,
            password_required: self.password_required,
            twitch_locked: self.twitch_locked,
            locale: self.locale@,
            keepalive: self.keepalive,
        }
    }
}

/// What a freshly opened room says about itself.
pub open spec fn fresh_config(
    app_id: Seq<char>,
    app_tag: Seq<char>,
    audience_enabled: bool,
    code: Seq<char>,
    host: Seq<char>,
    audience_host: Seq<char>,
) -> RoomConfigView {
    RoomConfigView {
        app_id,
        app_tag,
        audience_enabled,
        code,
        host,
        audience_host,
        locked: false,
        full: false,
        moderation_enabled: false,
        password_required: false,
        twitch_locked: false,
        locale: "en"@,
        keepalive: false,
    }
}

impl JBRoom {
    /// What a freshly opened room tells about itself.
    pub fn fresh(
        app_id: String,
        app_tag: String,
        audience_enabled: bool,
        code: String,
        host: String,
        audience_host: String,
    ) -> (r: JBRoom)
        ensures
            r@ == fresh_config(app_id@, app_tag@, audience_enabled, code@, host@, audience_host@),
    {
        JBRoom {
            app_id,
            app_tag,
            audience_enabled,
            code,
            host,
            audience_host,
            locked: false,
            full: false,
            moderation_enabled: false,
            password_required: false,
            twitch_locked: false,
            locale: "en".to_owned(),
            keepalive: false,
        }
    }

    /// Another description that says the same.
    pub fn duplicate(&self) -> (r: JBRoom)
        ensures
            r@ == self@,
    {
        JBRoom {
            app_id: self.app_id.clone(),
            app_tag: self.app_tag.clone(),
            audience_enabled: self.audience_enabled,
            code: self.code.clone(),
            host: self.host.clone(),
            audience_host: self.audience_host.clone(),
            locked: self.locked,
            full: self.full,
            moderation_enabled: self.moderation_enabled,
            password_required: self.password_required,
            twitch_locked: self.twitch_locked,
            locale: self.locale.clone(),
            keepalive: self.keepalive,
        }
    }
}

/// The protocol that a client speaks.
#[derive(Debug, Clone, Copy, PartialEq, Eq, Structural)]
pub enum ClientType {
    Blobcast,
    Ecast,
}

/// The part of a client in a room, with what belongs to it.
#[derive(Debug)]
pub enum JBProfileRoles {
    Host,
    Player { name: String },
}

/// What such a part says.
#[verifier::ext_equal]
pub enum ProfileRolesView {
    Host,
    Player { name: Seq<char> },
}

impl View for JBProfileRoles {
    type V = ProfileRolesView;

    open spec fn view(&self) -> ProfileRolesView {
        match self {
            JBProfileRoles::Host => ProfileRolesView::Host,
            JBProfileRoles::Player { name } => ProfileRolesView::Player { name: name@ },
        }
    }
}

/// Who a client is. `room` is the code that entity protocol clients are told.
#[derive(Debug)]
pub struct JBProfile {
    pub id: i64,
    pub user_id: String,
    pub role: Role,
    pub name: String,
    pub roles: JBProfileRoles,
    pub room: Option<String>,
}

/// What a profile says.
#[verifier::ext_equal]
pub struct ProfileView {
    pub id: i64,
    pub user_id: Seq<char>,
    pub role: Role,
    pub name: Seq<char>,
    pub roles: ProfileRolesView,
    pub room: Option<Seq<char>>,
}

impl View for JBProfile {
    type V = ProfileView;

    open spec fn view(&self) -> ProfileView {
        ProfileView {
            id: self.id,
            user_id: self.user_id@,
            role: self.role,
            name: self.name@,
            roles: self.roles@,
            room: opt_text(self.room),
        }
    }
}

impl JBProfile {
    /// Another profile that says the same.
    pub fn duplicate(&self) -> (r: JBProfile)
        ensures
            r@ == self@,
    {
        JBProfile {
            id: self.id,
            user_id: self.user_id.clone(),
            role: self.role,
            name: self.name.clone(),
            roles: match &self.roles {
                JBProfileRoles::Host => JBProfileRoles::Host,
                JBProfileRoles::Player { name } => JBProfileRoles::Player { name: name.clone() },
            },
            room: match &self.room {
                Some(code) => Some(code.clone()),
                None => None,
            },
        }
    }
}

/// A client of a room: who it is, whether it has a socket, how many messages it was sent, and the
/// protocol that it speaks.
#[derive(Debug)]
pub struct Client {
    pub profile: JBProfile,
    pub connected: bool,
    pub pc: u64,
    pub client_type: ClientType,
}

/// What a client says.
#[verifier::ext_equal]
pub struct ClientView {
    pub profile: ProfileView,
    pub connected: bool,
    pub pc: u64,
    pub client_type: ClientType,
}

impl View for Client {
    type V = ClientView;

    open spec fn view(&self) -> ClientView {
        ClientView {
            profile: self.profile@,
            connected: self.connected,
            pc: self.pc,
            client_type: self.client_type,
        }
    }
}

/// How sending to a socket ended.
#[derive(Debug, Clone, Copy, PartialEq, Eq, Structural)]
pub enum SendOutcome {
    Delivered,
    Failed,
    TimedOut,
}

/// The seconds after which sending to a socket is given up.
pub const SEND_TIMEOUT_SECS: u64 = 3;

/// The number that follows `pc`; after the greatest comes zero.
pub open spec fn next_pc(pc: u64) -> u64 {
    if pc == u64::MAX {
        0
    } else {
        (pc + 1) as u64
    }
}

/// The number that follows `serial`; after the greatest comes the least.
pub open spec fn next_serial(serial: i64) -> i64 {
    if serial == i64::MAX {
        i64::MIN
    } else {
        (serial + 1) as i64
    }
}

impl Client {
    /// Another client that says the same.
    pub fn duplicate(&self) -> (r: Client)
        ensures
            r@ == self@,
    {
        Client {
            profile: self.profile.duplicate(),
            connected: self.connected,
            pc: self.pc,
            client_type: self.client_type,
        }
    }

    /// Numbers a message of the entity protocol and hands it over for sending, if there is a
    /// socket. The number is used up either way.
    pub fn send_ecast(&mut self, message: crate::ecast::ws::JBMessage) -> (r: Option<Outgoing>)
        ensures
            final(self)@ == (ClientView { pc: next_pc(old(self)@.pc), ..old(self)@ }),
            match r {
                Some(o) => old(self)@.connected && o@ == OutgoingView::Ecast(
                    (crate::ecast::ws::MessageView { pc: old(self)@.pc, ..message@ }),
                ),
                None => !old(self)@.connected,
            },
    {
        let mut message = message;
        message.pc = self.pc;
        self.pc = if self.pc == u64::MAX {
            0
        } else {
            self.pc + 1
        };
        self.send_ws_message(Outgoing::Ecast(message))
    }

    /// Hands a message of the blob protocol over for sending, if there is a socket.
    pub fn send_blobcast(&self, message: crate::blobcast::ws::JBMessage) -> (r: Option<Outgoing>)
        ensures
            match r {
                Some(o) => self@.connected && o@ == OutgoingView::Blobcast(message@),
                None => !self@.connected,
            },
    {
        self.send_ws_message(Outgoing::Blobcast(message))
    }

    /// Hands the answer to a ping over for sending, if there is a socket.
    pub fn pong(&self, d: Vec<u8>) -> (r: Option<Outgoing>)
        ensures
            match r {
                Some(o) => self@.connected && o@ == OutgoingView::Pong(d@),
                None => !self@.connected,
            },
    {
        self.send_ws_message(Outgoing::Pong(d))
    }

    /// Hands a normal close over for sending, if there is a socket.
    pub fn close(&self) -> (r: Option<Outgoing>)
        ensures
            match r {
                Some(o) => self@.connected && o@ == (OutgoingView::Close {
                    code: 1000,
                    reason: "normal close"@,
                }),
                None => !self@.connected,
            },
    {
        self.send_ws_message(Outgoing::Close { code: 1000, reason: "normal close".to_owned() })
    }

    /// Gives the socket up.
    pub fn disconnect(&mut self)
        ensures
            final(self)@ == (ClientView { connected: false, ..old(self)@ }),
    {
        self.connected = false;
    }

    /// Hands a frame over for sending, if there is a socket.
    pub fn send_ws_message(&self, message: Outgoing) -> (r: Option<Outgoing>)
        ensures
            r == (if self@.connected { Some(message) } else { None }),
    {
        if self.connected {
            Some(message)
        } else {
            None
        }
    }

    /// Takes note of how sending ended. A frame that was not sent in time costs the client its
    /// socket; one that failed does so too, unless it was a close, and stops what was under way.
    pub fn sent(&mut self, closing: bool, outcome: SendOutcome) -> (r: Result<(), ()>)
        ensures
            r is Err <==> outcome == SendOutcome::Failed,
            final(self)@ == after_sending(old(self)@, closing, outcome),
    {
        match outcome {
            SendOutcome::Delivered => Ok(()),
            SendOutcome::TimedOut => {
                self.disconnect();
                Ok(())
            },
            SendOutcome::Failed => {
                if !closing {
                    self.disconnect();
                }
                Err(())
            },
        }
    }
}

/// The client after a frame was sent to it.
pub open spec fn after_sending(c: ClientView, closing: bool, outcome: SendOutcome) -> ClientView {
    match outcome {
        SendOutcome::Delivered => c,
        SendOutcome::TimedOut => ClientView { connected: false, ..c },
        SendOutcome::Failed => if closing {
            c
        } else {
            ClientView { connected: false, ..c }
        },
    }
}

/// A room: the entities by their keys, the clients by their ids, the id of the next client, and
/// what the room tells about itself.
pub struct Room {
    pub entities: DashMap<String, JBEntity>,
    pub connections: DashMap<i64, Client>,
    pub room_serial: i64,
    pub room_config: JBRoom,
}

/// What a room holds.
#[verifier::ext_equal]
pub struct RoomView {
    pub entities: Map<Seq<char>, EntityView>,
    pub connections: Map<i64, ClientView>,
    pub room_serial: i64,
    pub room_config: RoomConfigView,
}

impl View for Room {
    type V = RoomView;

    open spec fn view(&self) -> RoomView {
        RoomView {
            entities: entities_of(self.entities),
            connections: clients_of(self.connections),
            room_serial: self.room_serial,
            room_config: self.room_config@,
        }
    }
}

impl RoomView {
    /// Every client stands under its own id.
    pub open spec fn wf(self) -> bool {
        forall|id: i64| #[trigger]
            self.connections.contains_key(id) ==> self.connections[id].profile.id == id
    }

    /// The room once a client has no socket any more.
    pub open spec fn without_socket(self, id: i64) -> RoomView {
        if self.connections.contains_key(id) {
            RoomView {
                connections: self.connections.insert(
                    id,
                    ClientView { connected: false, ..self.connections[id] },
                ),
                ..self
            }
        } else {
            self
        }
    }

    /// The room once sending a frame to a client has ended.
    pub open spec fn after_delivery(self, to: i64, closing: bool, outcome: SendOutcome) -> RoomView {
        if self.connections.contains_key(to) {
            RoomView {
                connections: self.connections.insert(
                    to,
                    after_sending(self.connections[to], closing, outcome),
                ),
                ..self
            }
        } else {
            self
        }
    }

    /// The ids that were given out: from one up to the next one.
    pub open spec fn ids_in_use_are_known(self) -> bool {
        &&& self.room_serial >= 1
        &&& forall|id: i64| #[trigger]
            self.connections.contains_key(id) ==> 1 <= id < self.room_serial
    }
}

/// What is left to do once a room has taken note of an effect.
pub enum Task {
    Nothing,
    Deliver { to: i64, closing: bool, frame: Outgoing },
    Wake,
}

/// The room after an effect.
pub open spec fn after_effect(room: RoomView, e: EffectView) -> RoomView {
    match e {
        EffectView::Put { key, entity } => RoomView {
            entities: room.entities.insert(key, entity),
            ..room
        },
        EffectView::Forget { key } => RoomView { entities: room.entities.remove(key), ..room },
        EffectView::Send { to, message } => if room.connections.contains_key(to) {
            RoomView {
                connections: room.connections.insert(
                    to,
                    ClientView { pc: next_pc(room.connections[to].pc), ..room.connections[to] },
                ),
                ..room
            }
        } else {
            room
        },
        _ => room,
    }
}

/// The frame that an effect sends, and to whom.
pub open spec fn frame_of(room: RoomView, e: EffectView) -> Option<(i64, bool, OutgoingView)> {
    match e {
        EffectView::Send { to, message } => if room.connections.contains_key(to)
            && room.connections[to].connected {
            Some(
                (
                    to,
                    false,
                    OutgoingView::Ecast(
                        crate::ecast::ws::MessageView { pc: room.connections[to].pc, ..message },
                    ),
                ),
            )
        } else {
            None
        },
        EffectView::SendBlobcast { to, notice } => if room.connections.contains_key(to)
            && room.connections[to].connected {
            Some((to, false, OutgoingView::Blobcast(notice)))
        } else {
            None
        },
        EffectView::Close { to } => if room.connections.contains_key(to)
            && room.connections[to].connected {
            Some((to, true, OutgoingView::Close { code: 1000, reason: "normal close"@ }))
        } else {
            None
        },
        _ => None,
    }
}

/// The room after a row of effects.
pub open spec fn after_effects(room: RoomView, e: Seq<EffectView>) -> RoomView
    decreases e.len(),
{
    if e.len() == 0 {
        room
    } else {
        after_effect(after_effects(room, e.drop_last()), e.last())
    }
}

impl Room {
    /// An empty room whose first client gets the id one.
    pub fn new(room_config: JBRoom) -> (r: Room)
        ensures
            r@ == (RoomView {
                entities: Map::empty(),
                connections: Map::empty(),
                room_serial: 1,
                room_config: room_config@,
            }),
            r@.wf(),
            r@.ids_in_use_are_known(),
    {
        Room { entities: entities_new(), connections: clients_new(), room_serial: 1, room_config }
    }

    /// Uses up the next id.
    pub fn take_serial(&mut self) -> (r: i64)
        ensures
            r == old(self)@.room_serial,
            final(self)@ == (RoomView { room_serial: next_serial(old(self)@.room_serial), ..old(
                self,
            )@ }),
    {
        let serial: i64 = self.room_serial;
        self.room_serial = if serial == i64::MAX {
            i64::MIN
        } else {
            serial + 1
        };
        serial
    }

    /// The client with the given id.
    pub fn client(&self, id: i64) -> (r: Option<Client>)
        ensures
            match r {
                Some(c) => self@.connections.contains_key(id) && c@ == self@.connections[id],
                None => !self@.connections.contains_key(id),
            },
    {
        clients_get(&self.connections, id)
    }

    /// Puts a client in the place of its id.
    pub fn put_client(&mut self, id: i64, client: Client)
        ensures
            final(self)@ == (RoomView {
                connections: old(self)@.connections.insert(id, client@),
                ..old(self)@
            }),
    {
        clients_insert(&mut self.connections, id, client);
    }

    /// Takes note of an effect and says what is left to do.
    pub fn perform(&mut self, effect: Effect) -> (r: Task)
        ensures
            final(self)@ == after_effect(old(self)@, effect@),
            match r {
                Task::Deliver { to, closing, frame } => frame_of(old(self)@, effect@) == Some(
                    (to, closing, frame@),
                ),
                Task::Wake => effect@ == EffectView::Exit,
                Task::Nothing => frame_of(old(self)@, effect@) is None && effect@
                    != EffectView::Exit,
            },
    {
        match effect {
            Effect::Put { key, entity } => {
                entities_insert(&mut self.entities, key, entity);
                Task::Nothing
            },
            Effect::Forget { key } => {
                entities_remove(&mut self.entities, key.as_str());
                Task::Nothing
            },
            Effect::Send { to, message } => match self.client(to) {
                Some(c) => {
                    let mut c = c;
                    let frame = c.send_ecast(message);
                    self.put_client(to, c);
                    match frame {
                        Some(frame) => Task::Deliver { to, closing: false, frame },
                        None => Task::Nothing,
                    }
                },
                None => Task::Nothing,
            },
            Effect::SendBlobcast { to, notice } => match self.client(to) {
                Some(c) => match c.send_blobcast(notice) {
                    Some(frame) => Task::Deliver { to, closing: false, frame },
                    None => Task::Nothing,
                },
                None => Task::Nothing,
            },
            Effect::Close { to } => match self.client(to) {
                Some(c) => match c.close() {
                    Some(frame) => Task::Deliver { to, closing: true, frame },
                    None => Task::Nothing,
                },
                None => Task::Nothing,
            },
            Effect::Exit => Task::Wake,
        }
    }

    /// Takes note of how sending a frame to a client ended.
    pub fn delivered(&mut self, to: i64, closing: bool, outcome: SendOutcome) -> (r: Result<(), ()>)
        ensures
            r is Err <==> outcome == SendOutcome::Failed,
            final(self)@ == old(self)@.after_delivery(to, closing, outcome),
    {
        match self.client(to) {
            Some(c) => {
                let mut c = c;
                let r = c.sent(closing, outcome);
                self.put_client(to, c);
                r
            },
            None => match outcome {
                SendOutcome::Failed => Err(()),
                _ => Ok(()),
            },
        }
    }

    /// Gives the socket of a client up.
    pub fn disconnect(&mut self, id: i64)
        ensures
            final(self)@ == old(self)@.without_socket(id),
    {
        match self.client(id) {
            Some(c) => {
                let mut c = c;
                c.disconnect();
                self.put_client(id, c);
            },
            None => {},
        }
    }
}

/// A message reaches a client that has a socket, as it is and with the number of its next message;
/// one in the blob protocol has no number. A client without a socket is sent nothing, and neither is
/// anybody by what changes the entities or ends the room.
pub proof fn law_frames_bring_the_message(
    room: RoomView,
    to: i64,
    message: crate::ecast::ws::MessageView,
    notice: crate::blobcast::ws::MessageView,
    key: Seq<char>,
    entity: EntityView,
)
    ensures
        ({
            let reached = room.connections.contains_key(to) && room.connections[to].connected;
            &&& match frame_of(room, EffectView::Send { to, message }) {
                Some((id, closing, frame)) => reached && id == to && !closing && (
                frame matches OutgoingView::Ecast(m) && m.pc == room.connections[to].pc && m.re
                    == message.re && m.opcode == message.opcode && m.result == message.result),
                None => !reached,
            }
            &&& match frame_of(room, EffectView::SendBlobcast { to, notice }) {
                Some((id, closing, frame)) => reached && id == to && !closing && frame
                    == OutgoingView::Blobcast(notice),
                None => !reached,
            }
            &&& match frame_of(room, EffectView::Close { to }) {
                Some((id, closing, frame)) => reached && id == to && closing && (
                frame matches OutgoingView::Close { code, reason } && code == 1000 && reason
                    == "normal close"@),
                None => !reached,
            }
        }),
        frame_of(room, EffectView::Put { key, entity }) is None,
        frame_of(room, EffectView::Forget { key }) is None,
        frame_of(room, EffectView::Exit) is None,
{
}

/// What is put under a key stands there and what is forgotten does not; everything else of the room
/// stays. Sending counts the numbers of one client up by one, and nothing else happens.
pub proof fn law_what_effects_do(
    room: RoomView,
    key: Seq<char>,
    entity: EntityView,
    to: i64,
    message: crate::ecast::ws::MessageView,
    notice: crate::blobcast::ws::MessageView,
    other: Seq<char>,
)
    ensures
        ({
            let put = after_effect(room, EffectView::Put { key, entity });
            let forgot = after_effect(room, EffectView::Forget { key });
            let sent = after_effect(room, EffectView::Send { to, message });
            &&& put.entities.contains_key(key) && put.entities[key] == entity
            &&& other != key ==> (put.entities.contains_key(other) <==> room.entities.contains_key(
                other,
            )) && (room.entities.contains_key(other) ==> put.entities[other]
                == room.entities[other])
            &&& !forgot.entities.contains_key(key)
            &&& other != key ==> (forgot.entities.contains_key(other)
                <==> room.entities.contains_key(other)) && (room.entities.contains_key(other)
                ==> forgot.entities[other] == room.entities[other])
            &&& put.connections == room.connections && forgot.connections == room.connections
            &&& put.room_serial == room.room_serial && forgot.room_serial == room.room_serial
            &&& put.room_config == room.room_config && forgot.room_config == room.room_config
            &&& sent.entities == room.entities
            &&& room.connections.contains_key(to) ==> {
                &&& sent.connections[to].pc == if room.connections[to].pc == u64::MAX {
                    0
                } else {
                    room.connections[to].pc + 1
                }
                &&& sent.connections[to].connected == room.connections[to].connected
                &&& sent.connections[to].profile == room.connections[to].profile
            }
            &&& after_effect(room, EffectView::SendBlobcast { to, notice }) == room
            &&& after_effect(room, EffectView::Close { to }) == room
            &&& after_effect(room, EffectView::Exit) == room
        }),
{
}

/// A client keeps its socket exactly where the frame was delivered or a close failed; nothing else
/// of it changes, and nobody else does.
pub proof fn law_who_loses_its_socket(
    room: RoomView,
    to: i64,
    closing: bool,
    outcome: SendOutcome,
    other: i64,
)
    requires
        room.connections.contains_key(to),
    ensures
        ({
            let after = room.after_delivery(to, closing, outcome);
            let c = after.connections[to];
            &&& c.connected <==> room.connections[to].connected && (outcome
                == SendOutcome::Delivered || (closing && outcome == SendOutcome::Failed))
            &&& c.profile == room.connections[to].profile
            &&& c.pc == room.connections[to].pc
            &&& c.client_type == room.connections[to].client_type
            &&& other != to ==> (after.connections.contains_key(other)
                <==> room.connections.contains_key(other)) && (room.connections.contains_key(other)
                ==> after.connections[other] == room.connections[other])
            &&& !room.without_socket(to).connections[to].connected
            &&& room.without_socket(to).connections[to].profile == room.connections[to].profile
            &&& room.without_socket(to).connections[to].pc == room.connections[to].pc
            &&& other != to && room.connections.contains_key(other) ==> room.without_socket(
                to,
            ).connections[other] == room.connections[other]
        }),
{
}

/// A room that is opened tells what it was opened with; it is open to all, in English, and not kept
/// alive.
pub proof fn law_fresh_rooms(
    app_id: Seq<char>,
    app_tag: Seq<char>,
    audience_enabled: bool,
    code: Seq<char>,
    host: Seq<char>,
    audience_host: Seq<char>,
)
    ensures
        ({
            let c = fresh_config(app_id, app_tag, audience_enabled, code, host, audience_host);
            &&& c.app_id == app_id
            &&& c.app_tag == app_tag
            &&& c.audience_enabled == audience_enabled
            &&& c.code == code
            &&& c.host == host
            &&& c.audience_host == audience_host
            &&& !c.locked && !c.full && !c.moderation_enabled && !c.password_required
            &&& !c.twitch_locked && !c.keepalive
            &&& c.locale == "en"@
        }),
{
}

} // verus!
