//! The sockets of the blob protocol.
use vstd::prelude::*;

use crate::acl::{Acl, Interest, Principle, Role};
use crate::decimal::{digits_value, parse_unsigned, unsigned_value};
use crate::ecast::ws::{is_order_of, Payload, PayloadView};
use crate::entity::{no_restrictions, AttributesView, EntityView, ObjectView, ValueView};
use crate::entity::{JBAttributes, JBEntity, JBObject, JBRestrictions, JBType, JBValue};
use crate::json::{Json, JsonView};
use crate::maps::{clients_keys, entities_get};
use crate::message::{effect_views, Effect, EffectView, SocketEvent, SocketStep};
use crate::room::{fresh_config, next_serial, Client, ClientType, ClientView, JBProfile};
use crate::room::{JBProfileRoles, JBRoom, ProfileRolesView, ProfileView, Room, RoomConfigView};
use crate::room::RoomView;
use crate::state::State;
use crate::text::{chars_of, cut_once, lemma_first_from_is, occurs_at, opt_text, same};
use crate::text::{split_once, text_between};
use crate::token::{is_room_code, room_id};

verus! {

/// The arguments of a message. What is empty is left out when a message is written.
#[derive(Debug)]
pub struct JBArgs {
    pub action: String,
    pub event: String,
    pub app_id: String,
    pub options: Json,
    pub arg_type: String,
    pub blob: Json,
    pub message: Json,
    pub user_id: String,
    pub customer_user_id: String,
    pub customer_name: String,
    pub room_id: String,
    pub success: Option<bool>,
}

/// What arguments say.
#[verifier::ext_equal]
pub struct ArgsView {
    pub action: Seq<char>,
    pub event: Seq<char>,
    pub app_id: Seq<char>,
    pub options: JsonView,
    pub arg_type: Seq<char>,
    pub blob: JsonView,
    pub message: JsonView,
    pub user_id: Seq<char>,
    pub customer_user_id: Seq<char>,
    pub customer_name: Seq<char>,
    pub room_id: Seq<char>,
    pub success: Option<bool>,
}

impl View for JBArgs {
    type V = ArgsView;

    open spec fn view(&self) -> ArgsView {
        ArgsView {
            action: self.action@,
            event: self.event@,
            app_id: self.app_id@,
            options: self.options@,
            arg_type: self.arg_type@,
            blob: self.blob@,
            message: self.message@,
            user_id: self.user_id@,
            customer_user_id: self.customer_user_id@,
            customer_name: self.customer_name@,
            room_id: self.room_id@,
            success: self.success,
        }
    }
}

/// Arguments that say nothing.
pub open spec fn no_args() -> ArgsView {
    ArgsView {
        action: Seq::empty(),
        event: Seq::empty(),
        app_id: Seq::empty(),
        options: JsonView::Null,
        arg_type: Seq::empty(),
        blob: JsonView::Null,
        message: JsonView::Null,
        user_id: Seq::empty(),
        customer_user_id: Seq::empty(),
        customer_name: Seq::empty(),
        room_id: Seq::empty(),
        success: None,
    }
}

impl Default for JBArgs {
    fn default() -> (r: JBArgs)
        ensures
            r@ == no_args(),
    {
        JBArgs {
            action: String::new(),
            event: String::new(),
            app_id: String::new(),
            options: Json::Null,
            arg_type: String::new(),
            blob: Json::Null,
            message: Json::Null,
            user_id: String::new(),
            customer_user_id: String::new(),
            customer_name: String::new(),
            room_id: String::new(),
            success: None,
        }
    }
}

/// The arguments of a message as they are written: alone or in a list of one.
#[derive(Debug)]
pub enum JBMessageArgs {
    Object(JBArgs),
    Array([JBArgs; 1]),
}

impl JBMessageArgs {
    /// The arguments, however they are written.
    pub open spec fn args(self) -> ArgsView {
        match self {
            JBMessageArgs::Object(a) => a@,
            JBMessageArgs::Array(a) => a@[0]@,
        }
    }

    /// The arguments, however they are written.
    pub fn get_args(&self) -> (r: &JBArgs)
        ensures
            r@ == self.args(),
    {
        match self {
            JBMessageArgs::Object(a) => a,
            JBMessageArgs::Array(a) => &a[0],
        }
    }
}

/// A message of the blob protocol.
#[derive(Debug)]
pub struct JBMessage {
    pub name: String,
    pub args: JBMessageArgs,
}

/// What a message says, and whether its arguments are written in a list.
#[verifier::ext_equal]
pub struct MessageView {
    pub name: Seq<char>,
    pub listed: bool,
    pub args: ArgsView,
}

impl View for JBMessage {
    type V = MessageView;

    open spec fn view(&self) -> MessageView {
        MessageView {
            name: self.name@,
            listed: self.args is Array,
            args: self.args.args(),
        }
    }
}

/// The rest of a text behind its first byte, where that byte is a character of its own.
pub open spec fn behind_first_byte(s: Seq<char>) -> Option<Seq<char>> {
    if s.len() > 0 && (s[0] as u32) < 128 {
        Some(s.skip(1))
    } else {
        None
    }
}

/// The opcode that goes with a message in JSON.
pub const OPCODE_EVENT: u8 = 5;

/// What a frame says: an opcode before the first double colon and, for an event, the text behind
/// one more character. A frame that says nothing is turned away with the opcode, if it has one.
pub open spec fn frame_value(s: Seq<char>) -> Result<(u8, Option<Seq<char>>), Option<u8>> {
    match cut_once(s, "::"@) {
        None => Err(None),
        Some((head, rest)) => match unsigned_value(head, 255) {
            None => Err(None),
            Some(n) => if n != OPCODE_EVENT {
                Ok((n as u8, None))
            } else {
                match behind_first_byte(rest) {
                    Some(payload) => Ok((OPCODE_EVENT, Some(payload))),
                    None => Err(Some(OPCODE_EVENT)),
                }
            },
        },
    }
}

/// A frame of the blob protocol: the opcode and, for an event, the text of its message in JSON.
#[derive(Debug)]
pub struct WSMessage {
    pub opcode: u8,
    pub payload: Option<String>,
}

impl WSMessage {
    /// Reads a frame.
    pub fn from_str(s: &str) -> (r: Result<WSMessage, Option<u8>>)
        ensures
            match r {
                Ok(m) => frame_value(s@) == Ok::<_, Option<u8>>((m.opcode, opt_text(m.payload))),
                Err(e) => frame_value(s@) == Err::<(u8, Option<Seq<char>>), _>(e),
            },
    {
        let (head, rest) = match split_once(s, "::") {
            Some(p) => p,
            None => {
                return Err(None);
            },
        };
        let n: u64 = match parse_unsigned(head.as_str(), 255) {
            Some(n) => n,
            None => {
                return Err(None);
            },
        };
        let opcode: u8 = n as u8;
        if opcode != OPCODE_EVENT {
            return Ok(WSMessage { opcode, payload: None });
        }
        let chars = chars_of(rest.as_str());
        if chars.len() > 0 && (chars[0] as u32) < 128 {
            let payload = text_between(&chars, 1, chars.len());
            assert(payload@ =~= rest@.skip(1));
            Ok(WSMessage { opcode, payload: Some(payload) })
        } else {
            Err(Some(opcode))
        }
    }
}

/// The frame of a message in JSON.
pub open spec fn frame_of(json: Seq<char>) -> Seq<char> {
    "5:::"@ + json
}

/// The frame of a message in JSON.
pub fn frame_text(json: &str) -> (r: String)
    ensures
        r@ == frame_of(json@),
{
    let mut text = "5:::".to_owned();
    text.append(json);
    text
}

/// A message that was put in a frame is read from it.
pub proof fn law_frame_reads_back(json: Seq<char>)
    ensures
        frame_value(frame_of(json)) == Ok::<_, Option<u8>>((OPCODE_EVENT, Some(json))),
{
    reveal_strlit("5:::");
    reveal_strlit("::");
    let s = frame_of(json);
    assert(s.subrange(1, 3) =~= "::"@);
    assert forall|j: int| 0 <= j < 1 implies !#[trigger] occurs_at(s, "::"@, j) by {
        assert(s.subrange(0, 2)[0] == '5');
    }
    lemma_first_from_is(s, "::"@, 0, 1);
    let head = s.take(1);
    let rest = s.skip(3);
    assert(head =~= seq!['5']);
    assert(head.drop_last() =~= Seq::<char>::empty());
    assert(digits_value(Seq::<char>::empty()) == 0);
    assert(digits_value(head) == 5);
    assert(unsigned_value(head, 255) == Some(5nat));
    assert(rest[0] == ':');
    assert(rest.skip(1) =~= json);
}

/// What a socket is told first.
pub fn hello() -> (r: String)
    ensures
        r@ == "1::"@,
{
    "1::".to_owned()
}

/// The seconds after which a socket is told that the server is still there.
pub const HEARTBEAT_SECS: u64 = 5;

/// The answer that says that a room was opened under the given code.
pub open spec fn created_text(code: Seq<char>) -> Seq<char> {
    "5:::{\"name\": \"msg\",\"args\": [{\"type\": \"Result\",\"action\": \"CreateRoom\",\"success\": true,\"roomId\": \""@
        + code + "\"}]}"@
}

/// What a room that is opened over a socket tells about itself; the tag is empty where none is
/// known for the game.
pub open spec fn blob_room(
    args: ArgsView,
    known_tag: Option<Seq<char>>,
    host: Seq<char>,
    code: Seq<char>,
) -> RoomConfigView {
    fresh_config(
        args.app_id,
        match known_tag {
            Some(t) => t,
            None => Seq::empty(),
        },
        false,
        code,
        host,
        host,
    )
}

/// Opens a room under the given code, and says so.
pub fn create_room(
    state: &mut State,
    args: &JBArgs,
    known_tag: Option<String>,
    host: &str,
    code: &str,
) -> (r: (u64, Room, String))
    requires
        old(state)@.wf(),
        old(state)@.next_handle < u64::MAX,
    ensures
        final(state)@ == old(state)@.opened(blob_room(args@, opt_text(known_tag), host@, code@)),
        final(state)@.wf(),
        r.0 == old(state)@.next_handle,
        r.1@ == (RoomView {
            entities: Map::empty(),
            connections: Map::empty(),
            room_serial: 1,
            room_config: blob_room(args@, opt_text(known_tag), host@, code@),
        }),
        r.2@ == created_text(code@),
{
    let tag = match known_tag {
        Some(t) => t,
        None => String::new(),
    };
    let config = JBRoom::fresh(
        args.app_id.clone(),
        tag,
        false,
        code.to_owned(),
        host.to_owned(),
        host.to_owned(),
    );
    let room = Room::new(config.duplicate());
    let handle = state.open_room(config);
    let mut reply =
        "5:::{\"name\": \"msg\",\"args\": [{\"type\": \"Result\",\"action\": \"CreateRoom\",\"success\": true,\"roomId\": \"".to_owned();
    reply.append(code);
    reply.append("\"}]}");
    (handle, room, reply)
}

/// Opens a room under a drawn code, and says so.
pub fn handle_socket(state: &mut State, args: &JBArgs, known_tag: Option<String>, host: &str) -> (r:
    (String, u64, Room, String))
    requires
        old(state)@.wf(),
        old(state)@.next_handle < u64::MAX,
    ensures
        is_room_code(r.0@),
        final(state)@ == old(state)@.opened(blob_room(args@, opt_text(known_tag), host@, r.0@)),
        final(state)@.wf(),
        r.1 == old(state)@.next_handle,
        r.2@ == (RoomView {
            entities: Map::empty(),
            connections: Map::empty(),
            room_serial: 1,
            room_config: blob_room(args@, opt_text(known_tag), host@, r.0@),
        }),
        r.3@ == created_text(r.0@),
{
    let code = room_id();
    let (handle, room, reply) = create_room(state, args, known_tag, host, code.as_str());
    (code, handle, room, reply)
}

/// The room once its host has entered over the socket that opened it.
pub open spec fn with_host(room: RoomView, user_id: Seq<char>) -> RoomView {
    RoomView {
        connections: room.connections.insert(
            room.room_serial,
            ClientView {
                profile: ProfileView {
                    id: room.room_serial,
                    user_id,
                    role: Role::Host,
                    name: Seq::empty(),
                    roles: ProfileRolesView::Host,
                    room: None,
                },
                connected: true,
                pc: 0,
                client_type: ClientType::Blobcast,
            },
        ),
        room_serial: next_serial(room.room_serial),
        ..room
    }
}

/// Lets the host into the room that it opened, and hands out its id.
pub fn admit_host(room: &mut Room, args: &JBArgs) -> (r: i64)
    requires
        old(room)@.wf(),
    ensures
        r == old(room)@.room_serial,
        final(room)@ == with_host(old(room)@, args@.user_id),
        final(room)@.wf(),
{
    let serial: i64 = room.take_serial();
    let profile = JBProfile {
        id: serial,
        user_id: args.user_id.clone(),
        role: Role::Host,
        name: String::new(),
        roles: JBProfileRoles::Host,
        room: None,
    };
    let client = Client { profile, connected: true, pc: 0, client_type: ClientType::Blobcast };
    room.put_client(serial, client);
    assert(room@ =~= with_host(old(room)@, args@.user_id));
    serial
}

/// The action that arguments ask for.
#[derive(Debug, Clone, Copy, PartialEq, Eq, Structural)]
pub enum Action {
    SetRoomBlob,
    SetCustomerBlob,
    LockRoom,
    Other,
}

/// The action with the given name.
pub open spec fn action_value(name: Seq<char>) -> Action {
    if name == "SetRoomBlob"@ {
        Action::SetRoomBlob
    } else if name == "SetCustomerBlob"@ {
        Action::SetCustomerBlob
    } else if name == "LockRoom"@ {
        Action::LockRoom
    } else {
        Action::Other
    }
}

/// The action with the given name.
pub fn action(name: &str) -> (r: Action)
    ensures
        r == action_value(name@),
{
    if same(name, "SetRoomBlob") {
        Action::SetRoomBlob
    } else if same(name, "SetCustomerBlob") {
        Action::SetCustomerBlob
    } else if same(name, "LockRoom") {
        Action::LockRoom
    } else {
        Action::Other
    }
}

/// The key of the blob of a room.
pub open spec fn room_key() -> Seq<char> {
    "bc:room"@
}

/// The key of the blob of a customer.
pub open spec fn customer_key(user_id: Seq<char>) -> Seq<char> {
    "bc:customer:"@ + user_id
}

/// The key of the blob that an action sets.
pub open spec fn blob_key(args: ArgsView) -> Seq<char> {
    if action_value(args.action) == Action::SetRoomBlob {
        room_key()
    } else {
        customer_key(args.customer_user_id)
    }
}

/// The client is known under the given user id.
pub open spec fn has_user(room: RoomView, id: i64, user_id: Seq<char>) -> bool {
    room.connections.contains_key(id) && room.connections[id].profile.user_id == user_id
}

/// The action can be carried out: it is known, a blob is an object, its customer is there, and
/// versions have not run out.
pub open spec fn is_processable(room: RoomView, args: ArgsView) -> bool {
    let key = blob_key(args);
    let settable = args.blob is Object && (room.entities.contains_key(key)
        ==> room.entities[key].object.version < u32::MAX);
    match action_value(args.action) {
        Action::SetRoomBlob => settable,
        Action::SetCustomerBlob => settable && exists|id: i64| #[trigger]
            has_user(room, id, args.customer_user_id),
        Action::LockRoom => true,
        Action::Other => false,
    }
}

/// The entity that holds a blob.
pub open spec fn blob_entity(room: RoomView, args: ArgsView, from: i64, acl: Seq<Acl>) -> EntityView {
    let key = blob_key(args);
    EntityView {
        kind: JBType::Object,
        object: ObjectView {
            key,
            val: Some(ValueView::Object(args.blob->Object_0)),
            restrictions: no_restrictions(),
            version: if room.entities.contains_key(key) {
                (room.entities[key].object.version + 1) as u32
            } else {
                0
            },
            from,
        },
        attributes: AttributesView { locked: false, acl },
    }
}

/// A message whose arguments are written in a list.
pub open spec fn listed(args: ArgsView) -> MessageView {
    MessageView { name: "msg"@, listed: true, args }
}

/// The message that says that the blob of the room changed.
pub open spec fn blob_changed(room: RoomView, args: ArgsView) -> MessageView {
    listed(
        ArgsView {
            arg_type: "Event"@,
            action: "RoomBlobChanged"@,
            room_id: room.room_config.code,
            blob: args.blob,
            ..no_args()
        },
    )
}

/// What one client is told of a new blob of the room, in the protocol that it speaks.
pub open spec fn told_of_blob(
    room: RoomView,
    args: ArgsView,
    entity: EntityView,
    to: i64,
) -> EffectView {
    if room.connections[to].client_type == ClientType::Ecast {
        EffectView::Send {
            to,
            message: crate::ecast::ws::notice("object"@, PayloadView::Object(entity.object)),
        }
    } else {
        EffectView::SendBlobcast { to, notice: blob_changed(room, args) }
    }
}

/// What all clients are told of a new blob of the room.
pub open spec fn all_told_of_blob(
    room: RoomView,
    args: ArgsView,
    entity: EntityView,
    order: Seq<i64>,
) -> Seq<EffectView> {
    Seq::new(order.len(), |i: int| told_of_blob(room, args, entity, order[i]))
}

/// The entry that lets one client read.
pub open spec fn only_reader(id: i64) -> Acl {
    Acl { interest: Interest::read_only(), principle: Principle::Id(id) }
}

/// The effects of setting the blob of a room, where `order` is the order in which the clients are
/// told.
pub open spec fn room_blob_effects(
    room: RoomView,
    who: i64,
    args: ArgsView,
    order: Seq<i64>,
) -> Seq<EffectView> {
    let entity = blob_entity(room, args, who, seq![Acl::everyone_reads()]);
    all_told_of_blob(room, args, entity, order) + seq![
        EffectView::Put { key: room_key(), entity },
        EffectView::SendBlobcast {
            to: who,
            notice: listed(
                ArgsView {
                    arg_type: "Result"@,
                    action: "SetRoomBlob"@,
                    success: Some(true),
                    ..no_args()
                },
            ),
        },
    ]
}

/// The effects of setting the blob of a customer that is the client `id`.
pub open spec fn customer_blob_effects(
    room: RoomView,
    who: i64,
    args: ArgsView,
    id: i64,
) -> Seq<EffectView> {
    let entity = blob_entity(room, args, who, seq![only_reader(id)]);
    seq![
        EffectView::Send {
            to: id,
            message: crate::ecast::ws::notice("object"@, PayloadView::Object(entity.object)),
        },
        EffectView::Put { key: customer_key(args.customer_user_id), entity },
    ]
}

/// The effect of the wish to lock the room.
pub open spec fn lock_effects(room: RoomView, who: i64) -> Seq<EffectView> {
    seq![
        EffectView::SendBlobcast {
            to: who,
            notice: listed(
                ArgsView {
                    arg_type: "Result"@,
                    action: "LockRoom"@,
                    success: Some(true),
                    room_id: room.room_config.code,
                    ..no_args()
                },
            ),
        },
    ]
}

/// The effects are those of the action.
pub open spec fn answers(
    room: RoomView,
    who: i64,
    args: ArgsView,
    effects: Seq<EffectView>,
) -> bool {
    match action_value(args.action) {
        Action::SetRoomBlob => exists|order: Seq<i64>|
            is_order_of(order, room.connections.dom()) && effects == #[trigger] room_blob_effects(
                room,
                who,
                args,
                order,
            ),
        Action::SetCustomerBlob => exists|id: i64| #[trigger]
            has_user(room, id, args.customer_user_id) && effects == customer_blob_effects(
                room,
                who,
                args,
                id,
            ),
        Action::LockRoom => effects == lock_effects(room, who),
        Action::Other => false,
    }
}

/// A client with the given user id; which one, where there are several, is left open.
pub fn find_user(room: &Room, user_id: &str) -> (r: Option<i64>)
    ensures
        match r {
            Some(id) => has_user(room@, id, user_id@),
            None => !exists|id: i64| #[trigger] has_user(room@, id, user_id@),
        },
{
    let ids = clients_keys(&room.connections);
    for k in 0..ids.len()
        invariant
            ids@.to_set() == room@.connections.dom(),
            forall|j: int| 0 <= j < k ==> !has_user(room@, #[trigger] ids@[j], user_id@),
    {
        let id: i64 = ids[k];
        if let Some(c) = room.client(id) {
            if same(c.profile.user_id.as_str(), user_id) {
                return Some(id);
            }
        }
    }
    assert forall|id: i64| !#[trigger] has_user(room@, id, user_id@) by {
        if room@.connections.contains_key(id) {
            assert(ids@.to_set().contains(id));
            let j = choose|j: int| 0 <= j < ids@.len() && ids@[j] == id;
            assert(!has_user(room@, ids@[j], user_id@));
        }
    }
    None
}

/// The key of the blob that an action sets.
fn key_of(args: &JBArgs) -> (r: String)
    ensures
        r@ == blob_key(args@),
{
    if action(args.action.as_str()) == Action::SetRoomBlob {
        "bc:room".to_owned()
    } else {
        let mut key = "bc:customer:".to_owned();
        key.append(args.customer_user_id.as_str());
        key
    }
}

/// Whether a blob can be set.
fn can_set(room: &Room, args: &JBArgs) -> (r: bool)
    ensures
        r == (args@.blob is Object && (room@.entities.contains_key(blob_key(args@))
            ==> room@.entities[blob_key(args@)].object.version < u32::MAX)),
{
    let is_object = match &args.blob {
        Json::Object(_) => true,
        _ => false,
    };
    is_object && match entities_get(&room.entities, key_of(args).as_str()) {
        Some(e) => e.1.version < u32::MAX,
        None => true,
    }
}

/// Whether an action can be carried out.
pub fn can_process(room: &Room, args: &JBArgs) -> (r: bool)
    ensures
        r == is_processable(room@, args@),
{
    match action(args.action.as_str()) {
        Action::SetRoomBlob => can_set(room, args),
        Action::SetCustomerBlob => can_set(room, args) && find_user(
            room,
            args.customer_user_id.as_str(),
        ).is_some(),
        Action::LockRoom => true,
        Action::Other => false,
    }
}

/// The entity that holds a blob.
fn entity_for(room: &Room, args: &JBArgs, from: i64, acl: Vec<Acl>) -> (r: JBEntity)
    requires
        args@.blob is Object,
        room@.entities.contains_key(blob_key(args@))
            ==> room@.entities[blob_key(args@)].object.version < u32::MAX,
    ensures
        r@ == blob_entity(room@, args@, from, acl@),
{
    let key = key_of(args);
    let version: u32 = match entities_get(&room.entities, key.as_str()) {
        Some(e) => e.1.version + 1,
        None => 0,
    };
    let val = match &args.blob {
        Json::Object(o) => Some(JBValue::Object(o.duplicate())),
        _ => None,
    };
    let r = JBEntity(
        JBType::Object,
        JBObject { key, val, restrictions: JBRestrictions::default(), version, from },
        JBAttributes { locked: false, acl },
    );
    assert(r@ =~= blob_entity(room@, args@, from, acl@));
    r
}

/// A message whose arguments are written in a list.
fn listed_message(args: JBArgs) -> (r: JBMessage)
    ensures
        r@ == listed(args@),
{
    JBMessage { name: "msg".to_owned(), args: JBMessageArgs::Array([args]) }
}

/// The message that says that the blob of the room changed.
fn blob_changed_message(room: &Room, args: &JBArgs) -> (r: JBMessage)
    requires
        args@.blob is Object,
    ensures
        r@ == blob_changed(room@, args@),
{
    let blob = match &args.blob {
        Json::Object(o) => Json::Object(o.duplicate()),
        _ => Json::Null,
    };
    let mut out = JBArgs::default();
    out.arg_type = "Event".to_owned();
    out.action = "RoomBlobChanged".to_owned();
    out.room_id = room.room_config.code.clone();
    out.blob = blob;
    listed_message(out)
}

/// The effects of setting the blob of a room.
fn set_room_blob(room: &Room, client: &Client, args: &JBArgs) -> (r: Vec<Effect>)
    requires
        action_value(args@.action) == Action::SetRoomBlob,
        is_processable(room@, args@),
    ensures
        answers(room@, client.profile@.id, args@, effect_views(r@)),
{
    let ghost who = client.profile@.id;
    let acl = Acl::default_vec();
    let entity = entity_for(room, args, client.profile.id, acl);
    let ghost after = entity@;
    let order = clients_keys(&room.connections);
    let mut effects: Vec<Effect> = Vec::new();
    assert(effect_views(effects@) =~= all_told_of_blob(room@, args@, after, order@.take(0)));
    for k in 0..order.len()
        invariant
            args@.blob is Object,
            after == entity@,
            order@.to_set() == room@.connections.dom(),
            effect_views(effects@) == all_told_of_blob(room@, args@, after, order@.take(k as int)),
    {
        let to: i64 = order[k];
        let ghost before = effect_views(effects@);
        proof {
            assert(order@.contains(to));
            assert(order@.to_set().contains(to));
        }
        if let Some(c) = room.client(to) {
            match c.client_type {
                ClientType::Ecast => {
                    effects.push(
                        Effect::Send {
                            to,
                            message: crate::ecast::ws::JBMessage {
                                pc: 0,
                                re: None,
                                opcode: "object".to_owned(),
                                result: Payload::Object(entity.1.duplicate()),
                            },
                        },
                    );
                },
                ClientType::Blobcast => {
                    effects.push(
                        Effect::SendBlobcast { to, notice: blob_changed_message(room, args) },
                    );
                },
            }
        }
        proof {
            let e = told_of_blob(room@, args@, after, to);
            assert(effect_views(effects@) =~= before.push(e));
            assert(all_told_of_blob(room@, args@, after, order@.take(k + 1)) =~= all_told_of_blob(
                room@,
                args@,
                after,
                order@.take(k as int),
            ).push(e));
        }
    }
    assert(order@.take(order@.len() as int) =~= order@);
    effects.push(Effect::Put { key: "bc:room".to_owned(), entity });
    let mut result = JBArgs::default();
    result.arg_type = "Result".to_owned();
    result.action = "SetRoomBlob".to_owned();
    result.success = Some(true);
    effects.push(
        Effect::SendBlobcast { to: client.profile.id, notice: listed_message(result) },
    );
    assert(effect_views(effects@) =~= room_blob_effects(room@, who, args@, order@));
    effects
}

/// The effects of setting the blob of a customer.
fn set_customer_blob(room: &Room, client: &Client, args: &JBArgs) -> (r: Vec<Effect>)
    requires
        action_value(args@.action) == Action::SetCustomerBlob,
        is_processable(room@, args@),
    ensures
        answers(room@, client.profile@.id, args@, effect_views(r@)),
{
    let ghost who = client.profile@.id;
    let mut effects: Vec<Effect> = Vec::new();
    if let Some(id) = find_user(room, args.customer_user_id.as_str()) {
        let mut acl: Vec<Acl> = Vec::new();
        acl.push(Acl { interest: Interest::readable(), principle: Principle::Id(id) });
        assert(acl@ =~= seq![only_reader(id)]);
        let entity = entity_for(room, args, client.profile.id, acl);
        effects.push(
            Effect::Send {
                to: id,
                message: crate::ecast::ws::JBMessage {
                    pc: 0,
                    re: None,
                    opcode: "object".to_owned(),
                    result: Payload::Object(entity.1.duplicate()),
                },
            },
        );
        effects.push(Effect::Put { key: key_of(args), entity });
        assert(effect_views(effects@) =~= customer_blob_effects(room@, who, args@, id));
    }
    effects
}

/// The effects of a message of a client.
pub fn process_message(room: &Room, client: &Client, message: &JBMessage) -> (r: Vec<Effect>)
    requires
        is_processable(room@, message@.args),
    ensures
        answers(room@, client.profile@.id, message@.args, effect_views(r@)),
{
    let args = message.args.get_args();
    match action(args.action.as_str()) {
        Action::SetRoomBlob => set_room_blob(room, client, args),
        Action::SetCustomerBlob => set_customer_blob(room, client, args),
        _ => {
            let mut effects: Vec<Effect> = Vec::new();
            let mut result = JBArgs::default();
            result.arg_type = "Result".to_owned();
            result.action = "LockRoom".to_owned();
            result.success = Some(true);
            result.room_id = room.room_config.code.clone();
            effects.push(
                Effect::SendBlobcast { to: client.profile.id, notice: listed_message(result) },
            );
            assert(effect_views(effects@) =~= lock_effects(room@, client.profile@.id));
            effects
        },
    }
}

/// What is done about something that happens at a socket: a text is handled, a ping is answered,
/// now and then a heartbeat is sent, and a socket that ends ends the room.
pub fn next_step(event: SocketEvent) -> (r: SocketStep)
    ensures
        match event {
            SocketEvent::Text => r is Handle,
            SocketEvent::Ping(d) => r == SocketStep::Pong(d),
            SocketEvent::Tick => r matches SocketStep::Say(t) && t@ == "2:::"@,
            SocketEvent::Close | SocketEvent::Ended | SocketEvent::RoomEnded => r == (
            SocketStep::Leave { drop_room: true }),
            SocketEvent::Other | SocketEvent::ReadError => r is Wait,
        },
{
    match event {
        SocketEvent::Text => SocketStep::Handle,
        SocketEvent::Ping(d) => SocketStep::Pong(d),
        SocketEvent::Tick => SocketStep::Say("2:::".to_owned()),
        SocketEvent::Close | SocketEvent::Ended | SocketEvent::RoomEnded => SocketStep::Leave {
            drop_room: true,
        },
        SocketEvent::Other | SocketEvent::ReadError => SocketStep::Wait,
    }
}

/// Lets the host leave: its socket is given up and the room ends.
pub fn leave(room: &mut Room, id: i64) -> (r: Vec<Effect>)
    ensures
        effect_views(r@) == seq![EffectView::Exit],
        final(room)@ == old(room)@.without_socket(id),
{
    room.disconnect(id);
    let mut effects: Vec<Effect> = Vec::new();
    effects.push(Effect::Exit);
    assert(effect_views(effects@) =~= seq![EffectView::Exit]);
    effects
}

} // verus!
