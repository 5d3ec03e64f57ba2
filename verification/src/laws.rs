//! What holds of a room over several messages.
use vstd::prelude::*;

use crate::acl::{Acl, Role};
use crate::blobcast::ws::{blob_entity, customer_blob_effects, customer_key};
use crate::blobcast::ws::{only_reader, room_blob_effects, room_key, with_host, ArgsView};
use crate::ecast::ws::{answer, answers, audience_of, effects_of, entered, entered_id};
use crate::ecast::ws::{has_doodle, is_order_of, is_refused, is_stroked, locked_by, may_result};
use crate::ecast::ws::{notice, ok, to_all, written, CreateParamsView};
use crate::ecast::ws::{PayloadView, RequestView};
use crate::ecast::WSQueryView;
use crate::entity::{in_index_order, may_read, type_text, EntityView, JBType, LineView, ValueView};
use crate::message::EffectView;
use crate::room::{after_effect, after_effects, frame_of, ProfileView, RoomView, SendOutcome};

verus! {

/// The effect of one row of effects after another.
pub proof fn lemma_effects_in_turn(room: RoomView, a: Seq<EffectView>, b: Seq<EffectView>)
    ensures
        after_effects(room, a + b) == after_effects(after_effects(room, a), b),
    decreases b.len(),
{
    if b.len() == 0 {
        assert(a + b =~= a);
    } else {
        assert((a + b).drop_last() =~= a + b.drop_last());
        lemma_effects_in_turn(room, a, b.drop_last());
    }
}

/// The effect does nothing to the entities.
pub open spec fn keeps_entities(e: EffectView) -> bool {
    !(e is Put) && !(e is Forget)
}

/// Effects that do nothing to the entities leave them.
proof fn lemma_entities_kept(room: RoomView, e: Seq<EffectView>)
    requires
        forall|i: int| 0 <= i < e.len() ==> keeps_entities(#[trigger] e[i]),
    ensures
        after_effects(room, e).entities == room.entities,
    decreases e.len(),
{
    if e.len() > 0 {
        let head = e.drop_last();
        assert forall|i: int| 0 <= i < head.len() implies keeps_entities(#[trigger] head[i]) by {
            assert(head[i] == e[i]);
        }
        lemma_entities_kept(room, head);
        assert(keeps_entities(e[e.len() - 1]));
    }
}

/// One change of the entities between effects that leave them.
pub proof fn lemma_one_change(
    room: RoomView,
    a: Seq<EffectView>,
    e: EffectView,
    b: Seq<EffectView>,
)
    requires
        forall|i: int| 0 <= i < a.len() ==> keeps_entities(#[trigger] a[i]),
        forall|i: int| 0 <= i < b.len() ==> keeps_entities(#[trigger] b[i]),
    ensures
        after_effects(room, a + seq![e] + b).entities == (match e {
            EffectView::Put { key, entity } => room.entities.insert(key, entity),
            EffectView::Forget { key } => room.entities.remove(key),
            _ => room.entities,
        }),
{
    lemma_entities_kept(room, a);
    let mid = after_effects(room, a);
    lemma_effects_in_turn(room, a, seq![e]);
    assert(seq![e].drop_last() =~= Seq::<EffectView>::empty());
    let next = after_effects(room, a + seq![e]);
    assert(next == after_effect(mid, e)) by {
        assert(after_effects(mid, Seq::<EffectView>::empty()) == mid);
        assert(after_effects(mid, seq![e]) == after_effect(mid, e));
    }
    lemma_effects_in_turn(room, a + seq![e], b);
    lemma_entities_kept(next, b);
}

/// How a wish changes the entities.
pub open spec fn entities_after(
    room: RoomView,
    who: ProfileView,
    request: RequestView,
    after: EntityView,
) -> Map<Seq<char>, EntityView> {
    match request {
        RequestView::Write { kind, params } => if is_refused(room, who, params.key) {
            room.entities
        } else {
            room.entities.insert(params.key, written(room, who, kind, params))
        },
        RequestView::Stroke { key, line } => if has_doodle(room, key) {
            room.entities.insert(key, after)
        } else {
            room.entities
        },
        RequestView::Lock { key } => if room.entities.contains_key(key) {
            room.entities.insert(key, locked_by(room.entities[key], who.id))
        } else {
            room.entities
        },
        RequestView::Drop { key } => room.entities.remove(key),
        _ => room.entities,
    }
}

/// Once a wish is carried out, the entities are as before but for the one that it is about.
pub proof fn law_entities_after(
    room: RoomView,
    who: ProfileView,
    request: RequestView,
    seq: u64,
    effects: Seq<EffectView>,
)
    requires
        answers(room, who, request, seq, effects),
    ensures
        exists|after: EntityView| #[trigger]
            may_result(room, who, request, after) && after_effects(room, effects).entities
                == entities_after(room, who, request, after),
{
    let (order, after) = choose|order: Seq<i64>, after: EntityView|
        #![trigger effects_of(room, who, request, seq, order, after)]
        is_order_of(order, audience_of(room, who, request)) && may_result(room, who, request, after)
            && effects == effects_of(room, who, request, seq, order, after);
    let none = Seq::<EffectView>::empty();
    let heard = seq![ok(who.id, seq)];
    match request {
        RequestView::Write { kind, params } => {
            if !is_refused(room, who, params.key) {
                let told = to_all(
                    order,
                    notice(type_text(kind), PayloadView::Object(after.object)),
                );
                let put = EffectView::Put { key: params.key, entity: after };
                lemma_one_change(room, told, put, heard);
                assert(effects =~= told + seq![put] + heard);
            }
        },
        RequestView::Stroke { key, line } => {
            if has_doodle(room, key) {
                let told = to_all(
                    order,
                    notice("doodle/line"@, PayloadView::Line { key, from: who.id, line }),
                );
                let put = EffectView::Put { key, entity: after };
                lemma_one_change(room, none, put, told + heard);
                assert(effects =~= none + seq![put] + (told + heard));
            }
        },
        RequestView::Lock { key } => {
            if room.entities.contains_key(key) {
                let told = to_all(order, notice("lock"@, PayloadView::Lock { key, from: who.id }));
                let put = EffectView::Put { key, entity: after };
                lemma_one_change(room, none, put, told + heard);
                assert(effects =~= none + seq![put] + (told + heard));
            } else {
                lemma_entities_kept(room, effects);
            }
        },
        RequestView::Drop { key } => {
            let forget = EffectView::Forget { key };
            lemma_one_change(room, none, forget, heard);
            assert(effects =~= none + seq![forget] + heard);
        },
        _ => {
            lemma_entities_kept(room, effects);
        },
    }
}

/// What a client writes is what any client then gets: the value, whose version counts up from the
/// one before.
pub proof fn law_written_is_read(
    room: RoomView,
    who: ProfileView,
    kind: JBType,
    params: CreateParamsView,
    seq: u64,
    effects: Seq<EffectView>,
    reader: ProfileView,
    asked: JBType,
    reader_seq: u64,
    reply: Seq<EffectView>,
)
    requires
        !is_refused(room, who, params.key),
        answers(room, who, RequestView::Write { kind, params }, seq, effects),
        answers(
            after_effects(room, effects),
            reader,
            RequestView::Get { kind: asked, key: params.key },
            reader_seq,
            reply,
        ),
    ensures
        reply == seq![
            answer(
                reader.id,
                reader_seq,
                type_text(asked),
                PayloadView::Object(written(room, who, kind, params).object),
            ),
        ],
{
    law_entities_after(room, who, RequestView::Write { kind, params }, seq, effects);
}

/// A wish to write that is not granted does nothing, and nobody is told.
pub proof fn law_refused_write_does_nothing(
    room: RoomView,
    who: ProfileView,
    kind: JBType,
    params: CreateParamsView,
    seq: u64,
    effects: Seq<EffectView>,
)
    requires
        is_refused(room, who, params.key),
        answers(room, who, RequestView::Write { kind, params }, seq, effects),
    ensures
        effects.len() == 0,
        after_effects(room, effects) == room,
{
}

/// Rewriting an entity keeps its access list, counts its version up by one and unlocks it.
pub proof fn law_rewriting(
    room: RoomView,
    who: ProfileView,
    kind: JBType,
    params: CreateParamsView,
)
    requires
        room.entities.contains_key(params.key),
        room.entities[params.key].object.version < u32::MAX,
    ensures
        ({
            let before = room.entities[params.key];
            let after = written(room, who, kind, params);
            &&& after.attributes.acl == before.attributes.acl
            &&& after.object.version == before.object.version + 1
            &&& !after.attributes.locked
            &&& after.object.from == who.id
        }),
{
}

/// What is locked is locked by the one who asked for it, until it is written again.
pub proof fn law_locked_until_written(
    room: RoomView,
    who: ProfileView,
    key: Seq<char>,
    seq: u64,
    effects: Seq<EffectView>,
    writer: ProfileView,
    kind: JBType,
    params: CreateParamsView,
)
    requires
        room.entities.contains_key(key),
        answers(room, who, RequestView::Lock { key }, seq, effects),
        params.key == key,
    ensures
        ({
            let locked = after_effects(room, effects);
            &&& locked.entities.contains_key(key)
            &&& locked.entities[key].attributes.locked
            &&& locked.entities[key].object.from == who.id
            &&& locked.entities[key].object.val == room.entities[key].object.val
            &&& !is_refused(locked, writer, key)
            &&& !written(locked, writer, kind, params).attributes.locked
        }),
{
    law_entities_after(room, who, RequestView::Lock { key }, seq, effects);
}

/// What was dropped is not got any more, and only a host makes it anew, from version zero.
pub proof fn law_dropped_is_gone(
    room: RoomView,
    who: ProfileView,
    key: Seq<char>,
    seq: u64,
    effects: Seq<EffectView>,
    reader: ProfileView,
    kind: JBType,
    reader_seq: u64,
    reply: Seq<EffectView>,
    params: CreateParamsView,
)
    requires
        answers(room, who, RequestView::Drop { key }, seq, effects),
        answers(
            after_effects(room, effects),
            reader,
            RequestView::Get { kind, key },
            reader_seq,
            reply,
        ),
        params.key == key,
    ensures
        reply.len() == 0,
        is_refused(after_effects(room, effects), reader, key) <==> reader.role != Role::Host,
        written(after_effects(room, effects), reader, kind, params).object.version == 0,
{
    law_entities_after(room, who, RequestView::Drop { key }, seq, effects);
}

/// A line that is added to a drawing is one line more, among the others in the order of the
/// indices; all else stays.
pub proof fn law_stroke_adds_a_line(
    room: RoomView,
    who: ProfileView,
    key: Seq<char>,
    line: LineView,
    seq: u64,
    effects: Seq<EffectView>,
)
    requires
        has_doodle(room, key),
        answers(room, who, RequestView::Stroke { key, line }, seq, effects),
    ensures
        ({
            let before = room.entities[key];
            let after = after_effects(room, effects).entities[key];
            &&& has_doodle(after_effects(room, effects), key)
            &&& after.attributes == before.attributes
            &&& after.object.version == before.object.version
            &&& before.object.val matches Some(ValueView::Doodle(d))
            &&& after.object.val matches Some(ValueView::Doodle(e))
            &&& e.lines.len() == d.lines.len() + 1
            &&& in_index_order(e.lines)
            &&& e.lines.contains(line)
            &&& forall|l: LineView| d.lines.contains(l) ==> #[trigger] e.lines.contains(l)
        }),
{
    let request = RequestView::Stroke { key, line };
    law_entities_after(room, who, request, seq, effects);
    let after = choose|after: EntityView| #[trigger]
        may_result(room, who, request, after) && after_effects(room, effects).entities
            == entities_after(room, who, request, after);
    let before = room.entities[key];
    assert(is_stroked(before, line, after));
    let d = before.object.val->0->Doodle_0;
    let e = after.object.val->0->Doodle_0;
    let grown = d.lines.push(line);
    broadcast use vstd::seq_lib::group_to_multiset_ensures;

    assert(grown.to_multiset().len() == grown.len());
    assert(e.lines.to_multiset().len() == e.lines.len());
    assert(grown[d.lines.len() as int] == line);
    assert(grown.contains(line));
    assert(e.lines.to_multiset().count(line) > 0);
    assert forall|l: LineView| d.lines.contains(l) implies #[trigger] e.lines.contains(l) by {
        let i = choose|i: int| 0 <= i < d.lines.len() && d.lines[i] == l;
        assert(grown[i] == l);
        assert(grown.contains(l));
        assert(e.lines.to_multiset().count(l) > 0);
    }
}

/// What a wish sends: to the one who has it an answer with the number of its message, and to
/// others only notices of what they may read.
pub proof fn law_only_readers_are_told(
    room: RoomView,
    who: ProfileView,
    request: RequestView,
    seq: u64,
    effects: Seq<EffectView>,
    i: int,
)
    requires
        answers(room, who, request, seq, effects),
        0 <= i < effects.len(),
    ensures
        effects[i] matches EffectView::Send { to, message } ==> if message.re is Some {
            to == who.id && message.re == Some(seq)
        } else {
            let acl = match request {
                RequestView::Write { kind, params } => written(room, who, kind, params).attributes.acl,
                RequestView::Stroke { key, line } => room.entities[key].attributes.acl,
                RequestView::Lock { key } => room.entities[key].attributes.acl,
                _ => Seq::empty(),
            };
            &&& to != who.id
            &&& room.connections.contains_key(to)
            &&& may_read(acl, room.connections[to].profile.role, to)
        },
        !(effects[i] is SendBlobcast),
        effects[i] is Close || effects[i] is Exit ==> request is Exit,
{
    let (order, after) = choose|order: Seq<i64>, after: EntityView|
        #![trigger effects_of(room, who, request, seq, order, after)]
        is_order_of(order, audience_of(room, who, request)) && may_result(room, who, request, after)
            && effects == effects_of(room, who, request, seq, order, after);
    if let EffectView::Send { to, message } = effects[i] {
        if message.re is None {
            match request {
                RequestView::Exit => {
                    assert(false);
                },
                _ => {
                    assert(order.contains(to)) by {
                        let n = order.len() as int;
                        if i < n && order[i] == to {
                        } else {
                            assert(1 <= i <= n && order[i - 1] == to);
                        }
                    }
                    assert(order.to_set().contains(to));
                },
            }
        }
    }
}

/// How many of the effects send to the given client.
pub open spec fn sends_to(e: Seq<EffectView>, id: i64) -> nat
    decreases e.len(),
{
    if e.len() == 0 {
        0
    } else {
        sends_to(e.drop_last(), id) + match e.last() {
            EffectView::Send { to, .. } => if to == id {
                1nat
            } else {
                0nat
            },
            _ => 0nat,
        }
    }
}

/// Effects bring no client in and take none out; they change nothing of a client but the number of
/// its next message, which counts up by one for each message, until the numbers run out.
pub proof fn law_messages_are_numbered(room: RoomView, e: Seq<EffectView>, id: i64)
    requires
        room.connections.contains_key(id),
        room.connections[id].pc + sends_to(e, id) <= u64::MAX,
    ensures
        after_effects(room, e).connections.dom() == room.connections.dom(),
        after_effects(room, e).connections[id] == (crate::room::ClientView {
            pc: (room.connections[id].pc + sends_to(e, id)) as u64,
            ..room.connections[id]
        }),
        after_effects(room, e).room_serial == room.room_serial,
        after_effects(room, e).room_config == room.room_config,
    decreases e.len(),
{
    if e.len() > 0 {
        law_messages_are_numbered(room, e.drop_last(), id);
        assert(after_effects(room, e).connections.dom() =~= room.connections.dom());
    }
}

/// Effects keep every client under its own id, and the ids that were given out.
pub proof fn law_effects_keep_rooms_well_formed(room: RoomView, e: Seq<EffectView>)
    ensures
        room.wf() ==> after_effects(room, e).wf(),
        room.ids_in_use_are_known() ==> after_effects(room, e).ids_in_use_are_known(),
    decreases e.len(),
{
    if e.len() > 0 {
        law_effects_keep_rooms_well_formed(room, e.drop_last());
    }
}

/// What happens at a socket keeps every client under its own id, the ids that were given out, and
/// the entities.
pub proof fn law_sockets_keep_rooms_well_formed(
    room: RoomView,
    id: i64,
    closing: bool,
    outcome: SendOutcome,
)
    ensures
        room.wf() ==> room.without_socket(id).wf() && room.after_delivery(
            id,
            closing,
            outcome,
        ).wf(),
        room.ids_in_use_are_known() ==> room.without_socket(id).ids_in_use_are_known()
            && room.after_delivery(id, closing, outcome).ids_in_use_are_known(),
        room.without_socket(id).entities == room.entities,
        room.after_delivery(id, closing, outcome).entities == room.entities,
{
}

/// A client that a frame could not be delivered to in time is not sent another one, until it comes
/// back.
pub proof fn law_no_frames_without_a_socket(room: RoomView, id: i64, e: EffectView)
    requires
        room.connections.contains_key(id),
    ensures
        ({
            let after = room.after_delivery(id, false, SendOutcome::TimedOut);
            frame_of(after, e) matches Some((to, _, _)) ==> to != id
        }),
{
}

/// An id of zero is never that of a client, so who brings it is new; who is new gets an id that
/// nobody has, as long as the ids have not run out.
pub proof fn law_new_clients_get_new_ids(room: RoomView, code: Seq<char>, q: WSQueryView)
    requires
        room.ids_in_use_are_known(),
        room.room_serial < i64::MAX,
    ensures
        !room.connections.contains_key(0),
        entered(room, code, q).ids_in_use_are_known(),
        entered_id(room, q) != 0,
        !room.connections.contains_key(q.id) ==> !room.connections.contains_key(
            entered_id(room, q),
        ),
{
}

/// The host of a blob room gets an id that nobody has.
pub proof fn law_blob_host_gets_a_new_id(room: RoomView, user_id: Seq<char>)
    requires
        room.ids_in_use_are_known(),
        room.room_serial < i64::MAX,
    ensures
        !room.connections.contains_key(room.room_serial),
        with_host(room, user_id).connections.contains_key(room.room_serial),
        with_host(room, user_id).ids_in_use_are_known(),
{
}

/// Who comes back is who it was, with the numbering of its messages, and nobody else is touched by
/// someone's entering.
pub proof fn law_coming_back(room: RoomView, code: Seq<char>, q: WSQueryView, other: i64)
    requires
        room.ids_in_use_are_known(),
    ensures
        ({
            let after = entered(room, code, q);
            let id = entered_id(room, q);
            &&& after.connections.contains_key(id)
            &&& after.connections[id].connected
            &&& room.connections.contains_key(q.id) ==> id == q.id && after.connections[id]
                == (crate::room::ClientView { connected: true, ..room.connections[id] })
                && after.room_serial == room.room_serial
            &&& room.connections.contains_key(other) && other != id
                ==> after.connections.contains_key(other) && after.connections[other]
                == room.connections[other]
            &&& after.entities == room.entities
        }),
{
}

/// Who was thrown out of its socket can enter again as the one that it was.
pub proof fn law_disconnected_can_come_back(room: RoomView, code: Seq<char>, q: WSQueryView)
    requires
        room.connections.contains_key(q.id),
    ensures
        room.without_socket(q.id).connections.contains_key(q.id),
        entered(room.without_socket(q.id), code, q).connections[q.id]
            == entered(room, code, q).connections[q.id],
{
}

/// The blob of a customer is read by that customer and by hosts, and by nobody else.
pub proof fn law_customer_blob_is_private(customer: i64, role: Role, id: i64)
    ensures
        may_read(seq![only_reader(customer)], role, id) <==> role == Role::Host || id == customer,
{
    let acl = seq![only_reader(customer)];
    assert(acl[0].principle.covers(role, id) <==> id == customer);
    assert(acl[0].interest.readable);
}

/// The blob of the room is read by everybody, and once it is set it stands under its key with its
/// version counted up.
pub proof fn law_room_blob_is_set(
    room: RoomView,
    who: i64,
    args: ArgsView,
    order: Seq<i64>,
    role: Role,
    id: i64,
)
    requires
        crate::blobcast::ws::action_value(args.action)
            == crate::blobcast::ws::Action::SetRoomBlob,
        args.blob is Object,
        room.entities.contains_key(room_key()) ==> room.entities[room_key()].object.version
            < u32::MAX,
    ensures
        ({
            let after = after_effects(room, room_blob_effects(room, who, args, order));
            &&& after.entities == room.entities.insert(
                room_key(),
                blob_entity(room, args, who, seq![Acl::everyone_reads()]),
            )
            &&& may_read(after.entities[room_key()].attributes.acl, role, id)
            &&& after.entities[room_key()].object.val == Some(
                ValueView::Object(args.blob->Object_0),
            )
            &&& room.entities.contains_key(room_key()) ==> after.entities[room_key()].object.version
                == room.entities[room_key()].object.version + 1
        }),
{
    let entity = blob_entity(room, args, who, seq![Acl::everyone_reads()]);
    let effects = room_blob_effects(room, who, args, order);
    let told = crate::blobcast::ws::all_told_of_blob(room, args, entity, order);
    let put = EffectView::Put { key: room_key(), entity };
    let rest = seq![effects.last()];
    lemma_one_change(room, told, put, rest);
    assert(effects =~= told + seq![put] + rest);
    crate::entity::law_default_acl(role, id);
}

/// The blob of a customer that is set is told to that customer alone, and stands under the key of
/// the customer.
pub proof fn law_customer_blob_is_set(room: RoomView, who: i64, args: ArgsView, id: i64)
    ensures
        after_effects(room, customer_blob_effects(room, who, args, id)).entities
            == room.entities.insert(
            customer_key(args.customer_user_id),
            blob_entity(room, args, who, seq![only_reader(id)]),
        ),
{
    let effects = customer_blob_effects(room, who, args, id);
    let put = effects[1];
    lemma_one_change(room, seq![effects[0]], put, Seq::empty());
    assert(effects =~= seq![effects[0]] + seq![put] + Seq::<EffectView>::empty());
}

} // verus!
