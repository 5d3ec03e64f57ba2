//! What the messages of the blob protocol do, told from what is sent and received.
use vstd::prelude::*;

use crate::acl::Role;
use crate::blobcast::ws::{action_value, all_told_of_blob, answers, blob_room, created_text};
use crate::blobcast::ws::{frame_of, frame_value, is_processable, law_frame_reads_back};
use crate::blobcast::ws::{room_blob_effects, with_host, Action, ArgsView, MessageView};
use crate::decimal::{all_digits, digits_value, law_read_numbers};
use crate::ecast::ws::{is_order_of, PayloadView};
use crate::entity::{may_read, may_write, EntityView, JBType, ValueView};
use crate::json::JsonView;
use crate::laws::{law_customer_blob_is_private, law_customer_blob_is_set, lemma_one_change};
use crate::laws::sends_to;
use crate::message::EffectView;
use crate::room::{after_effects, ClientType, ProfileRolesView, RoomView};
use crate::text::{lemma_first_from_is, occurs_at};

verus! {

/// How many of the effects send to the given client in the blob protocol.
pub open spec fn blobs_to(e: Seq<EffectView>, id: i64) -> nat
    decreases e.len(),
{
    if e.len() == 0 {
        0
    } else {
        blobs_to(e.drop_last(), id) + match e.last() {
            EffectView::SendBlobcast { to, .. } => if to == id {
                1nat
            } else {
                0nat
            },
            _ => 0nat,
        }
    }
}

/// The actions and their names.
pub proof fn law_actions_by_name(name: Seq<char>)
    ensures
        action_value(name) == Action::SetRoomBlob <==> name == "SetRoomBlob"@,
        action_value(name) == Action::SetCustomerBlob <==> name == "SetCustomerBlob"@,
        action_value(name) == Action::LockRoom <==> name == "LockRoom"@,
{
    lemma_names_differ();
}

/// The names of the actions are different ones.
proof fn lemma_names_differ()
    ensures
        "SetRoomBlob"@ != "SetCustomerBlob"@,
        "SetRoomBlob"@ != "LockRoom"@,
        "SetCustomerBlob"@ != "LockRoom"@,
{
    reveal_strlit("SetRoomBlob");
    reveal_strlit("SetCustomerBlob");
    reveal_strlit("LockRoom");
    assert("SetRoomBlob"@.len() == 11);
    assert("SetCustomerBlob"@.len() == 15);
    assert("LockRoom"@.len() == 8);
}

/// A message in a list, of which the given things are said.
pub open spec fn is_said(
    m: MessageView,
    arg_type: Seq<char>,
    action: Seq<char>,
    room_id: Seq<char>,
    blob: JsonView,
    success: Option<bool>,
) -> bool {
    &&& m.name == "msg"@
    &&& m.listed
    &&& m.args.arg_type == arg_type
    &&& m.args.action == action
    &&& m.args.room_id == room_id
    &&& m.args.blob == blob
    &&& m.args.success == success
    &&& m.args.event.len() == 0
    &&& m.args.app_id.len() == 0
    &&& m.args.options == JsonView::Null
    &&& m.args.message == JsonView::Null
    &&& m.args.user_id.len() == 0
    &&& m.args.customer_user_id.len() == 0
    &&& m.args.customer_name.len() == 0
}

/// The entity holds the blob: an object without restrictions, unlocked, from the one who set it, of
/// version zero or of the version after the one before.
pub open spec fn holds_blob(
    room: RoomView,
    key: Seq<char>,
    args: ArgsView,
    who: i64,
    e: EntityView,
) -> bool {
    &&& e.kind == JBType::Object
    &&& e.object.key == key
    &&& args.blob matches JsonView::Object(o) && e.object.val == Some(ValueView::Object(o))
    &&& e.object.restrictions.data_type.len() == 0
    &&& e.object.restrictions.min is None
    &&& e.object.restrictions.max is None
    &&& e.object.restrictions.increment is None
    &&& e.object.version == if room.entities.contains_key(key) {
        room.entities[key].object.version + 1
    } else {
        0
    }
    &&& e.object.from == who
    &&& !e.attributes.locked
}

/// What reaches a client of what all are told.
proof fn lemma_reaches(
    room: RoomView,
    args: ArgsView,
    e: EntityView,
    order: Seq<i64>,
    id: i64,
)
    requires
        order.no_duplicates(),
    ensures
        ({
            let told = all_told_of_blob(room, args, e, order);
            let ecast = room.connections[id].client_type == ClientType::Ecast;
            &&& sends_to(told, id) == (if order.contains(id) && ecast {
                1nat
            } else {
                0nat
            })
            &&& blobs_to(told, id) == (if order.contains(id) && !ecast {
                1nat
            } else {
                0nat
            })
        }),
    decreases order.len(),
{
    let told = all_told_of_blob(room, args, e, order);
    if order.len() > 0 {
        let head = order.drop_last();
        let n = order.len() - 1;
        assert(told.drop_last() =~= all_told_of_blob(room, args, e, head));
        lemma_reaches(room, args, e, head, id);
        assert(order[n] == order.last());
        if order.last() == id {
            if head.contains(id) {
                let j = choose|j: int| 0 <= j < head.len() && head[j] == id;
                assert(order[j] == order[n]);
            }
        } else {
            if order.contains(id) {
                let j = choose|j: int| 0 <= j < order.len() && order[j] == id;
                assert(head[j] == id);
            }
            if head.contains(id) {
                let j = choose|j: int| 0 <= j < head.len() && head[j] == id;
                assert(order[j] == id);
            }
        }
    }
}

/// A blob of the room that is set stands under its key for everybody to read and for hosts alone to
/// write. Every client is told of it once, in the protocol that it speaks and with the blob itself,
/// and in the end the one who set it is told that it was set.
pub proof fn law_the_blob_of_the_room(
    room: RoomView,
    who: i64,
    args: ArgsView,
    effects: Seq<EffectView>,
)
    requires
        args.action == "SetRoomBlob"@,
        args.blob is Object,
        room.entities.contains_key("bc:room"@) ==> room.entities["bc:room"@].object.version
            < u32::MAX,
        answers(room, who, args, effects),
    ensures
        ({
            let after = after_effects(room, effects);
            let e = after.entities["bc:room"@];
            let last = effects.len() - 1;
            &&& after.entities == room.entities.insert("bc:room"@, e)
            &&& holds_blob(room, "bc:room"@, args, who, e)
            &&& forall|role: Role, id: i64| #[trigger] may_read(e.attributes.acl, role, id)
            &&& forall|role: Role, id: i64| #[trigger]
                may_write(e.attributes.acl, role, id) <==> role == Role::Host
            &&& effects.len() >= 2
            &&& effects[last] matches EffectView::SendBlobcast { to, notice } && to == who && is_said(
                notice,
                "Result"@,
                "SetRoomBlob"@,
                Seq::empty(),
                JsonView::Null,
                Some(true),
            )
            &&& effects[last - 1] == (EffectView::Put { key: "bc:room"@, entity: e })
            &&& forall|i: int|
                0 <= i < last - 1 ==> match #[trigger] effects[i] {
                    EffectView::Send { to, message } => message.re is None && message.opcode
                        == "object"@ && message.result == PayloadView::Object(e.object)
                        && room.connections[to].client_type == ClientType::Ecast,
                    EffectView::SendBlobcast { to, notice } => is_said(
                        notice,
                        "Event"@,
                        "RoomBlobChanged"@,
                        room.room_config.code,
                        args.blob,
                        None,
                    ) && room.connections[to].client_type == ClientType::Blobcast,
                    _ => false,
                }
            &&& forall|id: i64|
                #![trigger sends_to(effects.take(last - 1), id)]
                #![trigger blobs_to(effects.take(last - 1), id)]
                sends_to(effects.take(last - 1), id) + blobs_to(effects.take(last - 1), id) == (
                if room.connections.contains_key(id) {
                    1nat
                } else {
                    0nat
                })
        }),
{
    lemma_names_differ();
    let order = choose|order: Seq<i64>|
        is_order_of(order, room.connections.dom()) && effects == #[trigger] room_blob_effects(
            room,
            who,
            args,
            order,
        );
    let n = order.len() as int;
    let put = effects[n];
    let e = put->entity;
    let told = all_told_of_blob(room, args, e, order);
    let rest = seq![effects[n + 1]];
    assert(effects =~= told + seq![put] + rest);
    lemma_one_change(room, told, put, rest);
    assert(effects.take(n) =~= told);
    let acl = e.attributes.acl;
    assert(acl =~= seq![crate::acl::Acl::everyone_reads()]);
    assert forall|role: Role, id: i64| #[trigger] may_read(acl, role, id) by {
        crate::entity::law_default_acl(role, id);
    }
    assert forall|role: Role, id: i64| #[trigger] may_write(acl, role, id) <==> role
        == Role::Host by {
        crate::entity::law_default_acl(role, id);
    }
    assert forall|id: i64|
        sends_to(told, id) + blobs_to(told, id) == (if room.connections.contains_key(id) {
            1nat
        } else {
            0nat
        }) by {
        lemma_reaches(room, args, e, order, id);
        assert(order.to_set().contains(id) <==> order.contains(id));
    }
}

/// A blob of a customer that is set stands under the key of that customer, for it and for hosts to
/// read, and the customer is told of it, with the blob itself, and nobody else.
pub proof fn law_the_blob_of_a_customer(
    room: RoomView,
    who: i64,
    args: ArgsView,
    effects: Seq<EffectView>,
)
    requires
        args.action == "SetCustomerBlob"@,
        args.blob is Object,
        room.entities.contains_key("bc:customer:"@ + args.customer_user_id) ==> room.entities[
            "bc:customer:"@ + args.customer_user_id
        ].object.version < u32::MAX,
        answers(room, who, args, effects),
    ensures
        ({
            let key = "bc:customer:"@ + args.customer_user_id;
            let after = after_effects(room, effects);
            let e = after.entities[key];
            &&& after.entities == room.entities.insert(key, e)
            &&& holds_blob(room, key, args, who, e)
            &&& effects.len() == 2
            &&& effects[1] == (EffectView::Put { key, entity: e })
            &&& effects[0] matches EffectView::Send { to, message }
            &&& room.connections.contains_key(to)
            &&& room.connections[to].profile.user_id == args.customer_user_id
            &&& message.re is None && message.opcode == "object"@
            &&& message.result == PayloadView::Object(e.object)
            &&& forall|role: Role, id: i64| #[trigger]
                may_read(e.attributes.acl, role, id) <==> role == Role::Host || id == to
            &&& forall|role: Role, id: i64| #[trigger]
                may_write(e.attributes.acl, role, id) <==> role == Role::Host
        }),
{
    lemma_names_differ();
    let id = choose|id: i64| #[trigger]
        crate::blobcast::ws::has_user(room, id, args.customer_user_id) && effects
            == crate::blobcast::ws::customer_blob_effects(room, who, args, id);
    law_customer_blob_is_set(room, who, args, id);
    let acl = seq![crate::blobcast::ws::only_reader(id)];
    assert forall|role: Role, other: i64| #[trigger] may_read(acl, role, other) <==> role
        == Role::Host || other == id by {
        law_customer_blob_is_private(id, role, other);
    }
}

/// The wish to lock the room is answered with success and the code of the room, and changes
/// nothing.
pub proof fn law_the_wish_to_lock_the_room(
    room: RoomView,
    who: i64,
    args: ArgsView,
    effects: Seq<EffectView>,
)
    requires
        args.action == "LockRoom"@,
        answers(room, who, args, effects),
    ensures
        effects.len() == 1,
        effects[0] matches EffectView::SendBlobcast { to, notice } && to == who && is_said(
            notice,
            "Result"@,
            "LockRoom"@,
            room.room_config.code,
            JsonView::Null,
            Some(true),
        ),
        is_processable(room, args),
{
    lemma_names_differ();
}

/// A blob can be set where it is an object and the versions have not run out, that of a customer
/// only where the customer is there; an action that is not known cannot be carried out.
pub proof fn law_what_can_be_processed(room: RoomView, args: ArgsView)
    ensures
        args.action == "SetRoomBlob"@ ==> (is_processable(room, args) <==> args.blob is Object && (
        room.entities.contains_key("bc:room"@) ==> room.entities["bc:room"@].object.version
            < u32::MAX)),
        args.action == "SetCustomerBlob"@ ==> (is_processable(room, args) <==> args.blob is Object
            && (room.entities.contains_key("bc:customer:"@ + args.customer_user_id)
            ==> room.entities["bc:customer:"@ + args.customer_user_id].object.version < u32::MAX)
            && exists|id: i64| #[trigger]
            room.connections.contains_key(id) && room.connections[id].profile.user_id
                == args.customer_user_id),
        args.action == "LockRoom"@ ==> is_processable(room, args),
        args.action != "SetRoomBlob"@ && args.action != "SetCustomerBlob"@ && args.action
            != "LockRoom"@ ==> !is_processable(room, args),
{
    lemma_names_differ();
    let user = args.customer_user_id;
    if exists|id: i64| #[trigger] crate::blobcast::ws::has_user(room, id, user) {
        let id = choose|id: i64| #[trigger] crate::blobcast::ws::has_user(room, id, user);
        assert(room.connections.contains_key(id));
    }
    if exists|id: i64| #[trigger]
        room.connections.contains_key(id) && room.connections[id].profile.user_id == user {
        let id = choose|id: i64| #[trigger]
            room.connections.contains_key(id) && room.connections[id].profile.user_id == user;
        assert(crate::blobcast::ws::has_user(room, id, user));
    }
}

/// A frame is an opcode in digits before a double colon. An event has the opcode five, and its
/// message follows behind one more character; of any other frame the rest is not read.
pub proof fn law_what_frames_say(head: Seq<char>, rest: Seq<char>)
    requires
        head.len() > 0,
        all_digits(head),
    ensures
        frame_value(head + "::"@ + rest) == if digits_value(head) > 255 {
            Err(None)
        } else if digits_value(head) != 5 {
            Ok((digits_value(head) as u8, None))
        } else if rest.len() > 0 && (rest[0] as u32) < 128 {
            Ok((5u8, Some(rest.skip(1))))
        } else {
            Err(Some(5u8))
        },
{
    reveal_strlit("::");
    let s = head + "::"@ + rest;
    let n = head.len() as int;
    assert(s.subrange(n, n + 2) =~= "::"@);
    assert forall|j: int| 0 <= j < n implies !#[trigger] occurs_at(s, "::"@, j) by {
        if occurs_at(s, "::"@, j) {
            assert(s.subrange(j, j + 2)[0] == ':');
            assert(crate::decimal::is_digit(head[j]));
            assert(s[j] == head[j]);
        }
    }
    lemma_first_from_is(s, "::"@, 0, n);
    assert(s.take(n) =~= head);
    assert(s.skip(n + 2) =~= rest);
    law_read_numbers(head, 255);
}

/// A message is sent in a frame of an event, and the answer to a host that opened a room is such a
/// frame too: a message of success with the code of the room.
pub proof fn law_what_is_framed(json: Seq<char>, code: Seq<char>)
    ensures
        frame_of(json) == "5:::"@ + json,
        frame_value(frame_of(json)) == Ok::<_, Option<u8>>((5u8, Some(json))),
        created_text(code) == frame_of(
            "{\"name\": \"msg\",\"args\": [{\"type\": \"Result\",\"action\": \"CreateRoom\",\"success\": true,\"roomId\": \""@
                + code + "\"}]}"@,
        ),
{
    law_frame_reads_back(json);
    reveal_strlit("5:::");
    reveal_strlit(
        "{\"name\": \"msg\",\"args\": [{\"type\": \"Result\",\"action\": \"CreateRoom\",\"success\": true,\"roomId\": \"",
    );
    reveal_strlit(
        "5:::{\"name\": \"msg\",\"args\": [{\"type\": \"Result\",\"action\": \"CreateRoom\",\"success\": true,\"roomId\": \"",
    );
    assert(created_text(code) =~= frame_of(
        "{\"name\": \"msg\",\"args\": [{\"type\": \"Result\",\"action\": \"CreateRoom\",\"success\": true,\"roomId\": \""@
            + code + "\"}]}"@,
    ));
}

/// A room that is opened over a socket tells the game of its host, the tag that is known for it, if
/// any, the code that it was opened under, and this server for players and audience. Its host stands
/// under the next id, with a socket, in this protocol.
pub proof fn law_rooms_of_the_blob_protocol(
    args: ArgsView,
    known_tag: Option<Seq<char>>,
    host: Seq<char>,
    code: Seq<char>,
    room: RoomView,
    user_id: Seq<char>,
)
    ensures
        ({
            let c = blob_room(args, known_tag, host, code);
            let after = with_host(room, user_id);
            let client = after.connections[room.room_serial];
            &&& c.app_id == args.app_id
            &&& c.app_tag == known_tag.unwrap_or(Seq::empty())
            &&& !c.audience_enabled
            &&& c.code == code
            &&& c.host == host
            &&& c.audience_host == host
            &&& after.connections.contains_key(room.room_serial)
            &&& client.profile.id == room.room_serial
            &&& client.profile.user_id == user_id
            &&& client.profile.role == Role::Host
            &&& client.profile.roles == ProfileRolesView::Host
            &&& client.profile.name.len() == 0
            &&& client.profile.room is None
            &&& client.connected
            &&& client.pc == 0
            &&& client.client_type == ClientType::Blobcast
            &&& room.room_serial < i64::MAX ==> after.room_serial == room.room_serial + 1
            &&& after.entities == room.entities
            &&& after.room_config == room.room_config
            &&& forall|other: i64|
                other != room.room_serial && #[trigger] room.connections.contains_key(other)
                    ==> after.connections[other] == room.connections[other]
        }),
{
}

/// Sockets of the blob protocol are passed on to the port of its server, which keeps their id.
pub proof fn law_where_sockets_go(host: Seq<char>, id: Seq<char>)
    ensures
        crate::blobcast::socket_host(host, id) == "wss://"@ + host + ":38203"@
            + "/socket.io/1/websocket/"@ + id,
        crate::blobcast::default_server() == "http://blobcast.jackboxgames.com"@,
{
    reveal_strlit(":38203");
    reveal_strlit("/socket.io/1/websocket/");
    reveal_strlit(":38203/socket.io/1/websocket/");
    assert(":38203/socket.io/1/websocket/"@ =~= ":38203"@ + "/socket.io/1/websocket/"@);
    assert(crate::blobcast::socket_host(host, id) =~= "wss://"@ + host + ":38203"@
        + "/socket.io/1/websocket/"@ + id);
}

} // verus!
