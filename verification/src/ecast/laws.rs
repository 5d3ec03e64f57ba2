//! What the messages of the entity protocol do, told from what is sent and received.
use vstd::prelude::*;

use crate::acl::Role;
use crate::ecast::ws::{answers, audience_of, can_enter, effects_of, entered, entered_id, greeting};
use crate::ecast::ws::{greets, is_order_of, is_processable, is_welcome, lists, may_result};
use crate::ecast::ws::{operation_value, profiles_here, readable_entities, to_all};
use crate::ecast::ws::{CreateParamsView, MessageView, Operation, ParamValueView, PayloadView};
use crate::ecast::ws::{RequestView, WelcomeView};
use crate::ecast::WSQueryView;
use crate::entity::{law_type_reads_back, may_read, type_text, EntityView, JBType, LineView};
use crate::entity::{ObjectView, ValueView};
use crate::laws::{law_entities_after, lemma_one_change, sends_to};
use crate::message::EffectView;
use crate::room::{after_effects, ClientType, ProfileRolesView, ProfileView, RoomView};
use crate::text::{joined, law_joined_pieces_come_apart, law_pieces_make_up_the_text};

verus! {

/// Two rows of effects send what each of them sends.
proof fn lemma_sends_in_turn(a: Seq<EffectView>, b: Seq<EffectView>, id: i64)
    ensures
        sends_to(a + b, id) == sends_to(a, id) + sends_to(b, id),
    decreases b.len(),
{
    if b.len() == 0 {
        assert(a + b =~= a);
    } else {
        assert((a + b).drop_last() =~= a + b.drop_last());
        lemma_sends_in_turn(a, b.drop_last(), id);
    }
}

/// One effect sends once or not at all.
proof fn lemma_sends_once(e: EffectView, id: i64)
    ensures
        sends_to(seq![e], id) == (if e matches EffectView::Send { to, .. } && to == id {
            1nat
        } else {
            0nat
        }),
{
    assert(seq![e].drop_last() =~= Seq::<EffectView>::empty());
    assert(sends_to(Seq::<EffectView>::empty(), id) == 0);
}

/// A message to each of the clients in an order reaches each of them once.
proof fn lemma_sends_to_all(order: Seq<i64>, message: MessageView, id: i64)
    requires
        order.no_duplicates(),
    ensures
        sends_to(to_all(order, message), id) == (if order.contains(id) {
            1nat
        } else {
            0nat
        }),
    decreases order.len(),
{
    let all = to_all(order, message);
    if order.len() > 0 {
        let head = order.drop_last();
        let n = order.len() - 1;
        assert(all.drop_last() =~= to_all(head, message));
        lemma_sends_to_all(head, message, id);
        assert(order[n] == order.last());
        if order.last() == id {
            assert(!head.contains(id)) by {
                if head.contains(id) {
                    let j = choose|j: int| 0 <= j < head.len() && head[j] == id;
                    assert(order[j] == order[n]);
                }
            }
        } else {
            if order.contains(id) {
                let j = choose|j: int| 0 <= j < order.len() && order[j] == id;
                assert(head[j] == id);
            }
            if head.contains(id) {
                let j = choose|j: int| 0 <= j < head.len() && head[j] == id;
                assert(order[j] == id);
            }
        }
    }
}

/// Everybody else who may read what stands under the key is told once, and nobody else; the one who
/// asked gets one answer.
pub open spec fn readers_are_told(
    room: RoomView,
    who: i64,
    e: EntityView,
    effects: Seq<EffectView>,
) -> bool {
    forall|id: i64| #[trigger]
        sends_to(effects, id) == (if id == who {
            1nat
        } else if room.connections.contains_key(id) && may_read(
            e.attributes.acl,
            room.connections[id].profile.role,
            id,
        ) {
            1nat
        } else {
            0nat
        })
}

/// Every message of the effects says to the one who asked that its message was heard, or to another
/// client what is given.
pub open spec fn nothing_else_is_said(
    who: i64,
    seq: u64,
    opcode: Seq<char>,
    result: PayloadView,
    effects: Seq<EffectView>,
) -> bool {
    forall|i: int|
        0 <= i < effects.len() ==> (#[trigger] effects[i] matches EffectView::Send { to, message }
            ==> message == if to == who {
            MessageView { pc: 0, re: Some(seq), opcode: "ok"@, result: PayloadView::Empty }
        } else {
            MessageView { pc: 0, re: None, opcode, result }
        })
}

/// The last effect says to the one who asked that its message was heard.
pub open spec fn is_heard_last(who: i64, seq: u64, effects: Seq<EffectView>) -> bool {
    effects.len() > 0 && is_only_heard(who, seq, effects.skip(effects.len() - 1))
}

/// The effects send and, besides, put one entity under one key.
pub open spec fn puts_only(effects: Seq<EffectView>, key: Seq<char>, e: EntityView) -> bool {
    &&& effects.contains(EffectView::Put { key, entity: e })
    &&& forall|i: int|
        0 <= i < effects.len() ==> #[trigger] effects[i] is Send || effects[i] == (EffectView::Put {
            key,
            entity: e,
        })
}

/// The value is the one that a wish to write an entity of the kind brings: a text for a text, a
/// number for a number, an object for an object, and the drawing that comes along for a drawing.
pub open spec fn brings(kind: JBType, p: CreateParamsView, v: ValueView) -> bool {
    match kind {
        JBType::Text => p.val == ParamValueView::Text(v->Text_0) && v is Text,
        JBType::Number => p.val == ParamValueView::Number(v->Number_0) && v is Number,
        JBType::Object => p.val == ParamValueView::Object(v->Object_0) && v is Object,
        JBType::Doodle => v == ValueView::Doodle(p.doodle),
    }
}

/// The order in which others are told, and what stands under the key afterwards.
spec fn is_course(
    room: RoomView,
    who: ProfileView,
    request: RequestView,
    seq: u64,
    effects: Seq<EffectView>,
    order: Seq<i64>,
    after: EntityView,
) -> bool {
    &&& is_order_of(order, audience_of(room, who, request))
    &&& may_result(room, who, request, after)
    &&& effects == effects_of(room, who, request, seq, order, after)
}

/// Some course was taken.
proof fn lemma_course(
    room: RoomView,
    who: ProfileView,
    request: RequestView,
    seq: u64,
    effects: Seq<EffectView>,
) -> (r: (Seq<i64>, EntityView))
    requires
        answers(room, who, request, seq, effects),
    ensures
        is_course(room, who, request, seq, effects, r.0, r.1),
{
    choose|order: Seq<i64>, after: EntityView|
        #![trigger effects_of(room, who, request, seq, order, after)]
        is_order_of(order, audience_of(room, who, request)) && may_result(room, who, request, after)
            && effects == effects_of(room, who, request, seq, order, after)
}

/// The client is told.
proof fn lemma_told(order: Seq<i64>, ids: Set<i64>, id: i64)
    requires
        is_order_of(order, ids),
    ensures
        order.contains(id) <==> ids.contains(id),
{
    assert(order.to_set().contains(id) <==> order.contains(id));
}

/// What is got is what was sent. A wish to write is granted to a host, and to anybody where there
/// is an entity already. The value, the key, the restrictions and the kind that stand under the key
/// afterwards are those of the wish; a new entity has the list that came along, an old one keeps its
/// own and counts its version up. Everybody else who may read it is told of it, once and with just
/// this object, and the one who wrote is told that its message was heard.
pub proof fn law_what_is_written(
    room: RoomView,
    who: ProfileView,
    kind: JBType,
    params: CreateParamsView,
    v: ValueView,
    seq: u64,
    effects: Seq<EffectView>,
)
    requires
        answers(room, who, RequestView::Write { kind, params }, seq, effects),
        room.entities.contains_key(params.key) || who.role == Role::Host,
        room.entities.contains_key(params.key) ==> room.entities[params.key].object.version
            < u32::MAX,
        brings(kind, params, v),
    ensures
        ({
            let after = after_effects(room, effects);
            let known = room.entities.contains_key(params.key);
            let before = room.entities[params.key];
            let e = after.entities[params.key];
            &&& e.kind == kind
            &&& e.object.key == params.key
            &&& e.object.val == Some(v)
            &&& e.object.restrictions == params.restrictions
            &&& e.object.from == who.id
            &&& e.object.version == if known {
                before.object.version + 1
            } else {
                0
            }
            &&& !e.attributes.locked
            &&& e.attributes.acl == if known {
                before.attributes.acl
            } else {
                params.acl
            }
            &&& after.entities == room.entities.insert(params.key, e)
            &&& puts_only(effects, params.key, e)
            &&& is_heard_last(who.id, seq, effects)
            &&& readers_are_told(room, who.id, e, effects)
            &&& nothing_else_is_said(
                who.id,
                seq,
                type_text(kind),
                PayloadView::Object(e.object),
                effects,
            )
        }),
{
    let request = RequestView::Write { kind, params };
    let (order, e) = lemma_course(room, who, request, seq, effects);
    law_entities_after(room, who, request, seq, effects);
    let told = to_all(
        order,
        MessageView {
            pc: 0,
            re: None,
            opcode: type_text(kind),
            result: PayloadView::Object(e.object),
        },
    );
    let put = EffectView::Put { key: params.key, entity: e };
    let heard = EffectView::Send {
        to: who.id,
        message: MessageView { pc: 0, re: Some(seq), opcode: "ok"@, result: PayloadView::Empty },
    };
    let n = order.len() as int;
    assert(effects =~= told + seq![put] + seq![heard]);
    assert(effects[n] == put);
    assert(effects.skip(effects.len() - 1) =~= seq![heard]);
    assert forall|i: int| 0 <= i < n implies order[i] != who.id by {
        lemma_told(order, audience_of(room, who, request), order[i]);
    }
    assert forall|id: i64| #[trigger]
        sends_to(effects, id) == (if id == who.id {
            1nat
        } else if room.connections.contains_key(id) && may_read(
            e.attributes.acl,
            room.connections[id].profile.role,
            id,
        ) {
            1nat
        } else {
            0nat
        }) by {
        lemma_sends_in_turn(told + seq![put], seq![heard], id);
        lemma_sends_in_turn(told, seq![put], id);
        lemma_sends_once(put, id);
        lemma_sends_once(heard, id);
        lemma_sends_to_all(
            order,
            MessageView {
                pc: 0,
                re: None,
                opcode: type_text(kind),
                result: PayloadView::Object(e.object),
            },
            id,
        );
        lemma_told(order, audience_of(room, who, request), id);
    }
}

/// Only a host makes new entities: the wish of anybody else for one does nothing, and nobody is told
/// of it.
pub proof fn law_only_hosts_make_entities(
    room: RoomView,
    who: ProfileView,
    kind: JBType,
    params: CreateParamsView,
    seq: u64,
    effects: Seq<EffectView>,
)
    requires
        answers(room, who, RequestView::Write { kind, params }, seq, effects),
        !room.entities.contains_key(params.key),
        who.role != Role::Host,
    ensures
        effects.len() == 0,
{
    let _ = lemma_course(room, who, RequestView::Write { kind, params }, seq, effects);
}

/// Whoever asks for what stands under a key gets it, in one answer to its message; where nothing
/// stands there, it gets no answer. Nothing changes by asking.
pub proof fn law_what_is_got(
    room: RoomView,
    who: ProfileView,
    kind: JBType,
    key: Seq<char>,
    seq: u64,
    effects: Seq<EffectView>,
)
    requires
        answers(room, who, RequestView::Get { kind, key }, seq, effects),
    ensures
        room.entities.contains_key(key) ==> effects == seq![
            EffectView::Send {
                to: who.id,
                message: MessageView {
                    pc: 0,
                    re: Some(seq),
                    opcode: type_text(kind),
                    result: PayloadView::Object(room.entities[key].object),
                },
            },
        ],
        !room.entities.contains_key(key) ==> effects.len() == 0,
        after_effects(room, effects).entities == room.entities,
{
    let _ = lemma_course(room, who, RequestView::Get { kind, key }, seq, effects);
    law_entities_after(room, who, RequestView::Get { kind, key }, seq, effects);
}

/// What one client writes, any client gets that asks for it next: the key, the value and the
/// restrictions that were sent, and who sent them.
pub proof fn law_what_is_got_is_what_was_sent(
    room: RoomView,
    who: ProfileView,
    kind: JBType,
    params: CreateParamsView,
    v: ValueView,
    seq: u64,
    effects: Seq<EffectView>,
    reader: ProfileView,
    asked: JBType,
    reader_seq: u64,
    reply: Seq<EffectView>,
)
    requires
        answers(room, who, RequestView::Write { kind, params }, seq, effects),
        room.entities.contains_key(params.key) || who.role == Role::Host,
        room.entities.contains_key(params.key) ==> room.entities[params.key].object.version
            < u32::MAX,
        brings(kind, params, v),
        answers(
            after_effects(room, effects),
            reader,
            RequestView::Get { kind: asked, key: params.key },
            reader_seq,
            reply,
        ),
    ensures
        reply == seq![
            EffectView::Send {
                to: reader.id,
                message: MessageView {
                    pc: 0,
                    re: Some(reader_seq),
                    opcode: type_text(asked),
                    result: PayloadView::Object(
                        ObjectView {
                            key: params.key,
                            val: Some(v),
                            restrictions: params.restrictions,
                            version: if room.entities.contains_key(params.key) {
                                (room.entities[params.key].object.version + 1) as u32
                            } else {
                                0
                            },
                            from: who.id,
                        },
                    ),
                },
            },
        ],
{
    law_what_is_written(room, who, kind, params, v, seq, effects);
    law_what_is_got(
        after_effects(room, effects),
        reader,
        asked,
        params.key,
        reader_seq,
        reply,
    );
}

/// A wish to write can be carried out exactly where it is refused, or where it brings a value that
/// fits its kind and the versions have not run out; any other wish can be carried out.
pub proof fn law_what_can_be_processed(
    room: RoomView,
    who: ProfileView,
    kind: JBType,
    params: CreateParamsView,
    request: RequestView,
)
    ensures
        is_processable(room, who, RequestView::Write { kind, params }) <==> if room.entities.contains_key(
            params.key,
        ) {
            room.entities[params.key].object.version < u32::MAX && exists|v: ValueView|
                brings(kind, params, v)
        } else {
            who.role != Role::Host || exists|v: ValueView| brings(kind, params, v)
        },
        !(request is Write) ==> is_processable(room, who, request),
{
    let fits = match (kind, params.val) {
        (JBType::Text, ParamValueView::Text(t)) => Some(ValueView::Text(t)),
        (JBType::Number, ParamValueView::Number(n)) => Some(ValueView::Number(n)),
        (JBType::Object, ParamValueView::Object(o)) => Some(ValueView::Object(o)),
        (JBType::Doodle, _) => Some(ValueView::Doodle(params.doodle)),
        _ => None,
    };
    if let Some(v) = fits {
        assert(brings(kind, params, v));
    }
}

/// A line that is sent for a drawing is one line more of it, among the others in the order of the
/// indices, and nothing else of the entity changes. Everybody else who may read the drawing is told
/// of the line and of who drew it, once. Where there is no drawing nothing happens.
pub proof fn law_what_is_drawn(
    room: RoomView,
    who: ProfileView,
    key: Seq<char>,
    line: LineView,
    seq: u64,
    effects: Seq<EffectView>,
)
    requires
        answers(room, who, RequestView::Stroke { key, line }, seq, effects),
    ensures
        ({
            let after = after_effects(room, effects);
            let before = room.entities[key];
            let e = after.entities[key];
            if room.entities.contains_key(key) && (before.object.val matches Some(
                ValueView::Doodle(_),
            )) {
                let d = before.object.val->0->Doodle_0;
                let f = e.object.val->0->Doodle_0;
                &&& e.object.val matches Some(ValueView::Doodle(_))
                &&& f.lines.to_multiset() == d.lines.push(line).to_multiset()
                &&& forall|i: int, j: int|
                    0 <= i < j < f.lines.len() ==> (#[trigger] f.lines[i]).index
                        <= (#[trigger] f.lines[j]).index
                &&& f.colors == d.colors
                &&& f.live == d.live
                &&& f.max_points == d.max_points
                &&& f.max_layer == d.max_layer
                &&& f.size == d.size
                &&& f.weights == d.weights
                &&& e.kind == before.kind
                &&& e.attributes == before.attributes
                &&& e.object.key == before.object.key
                &&& e.object.restrictions == before.object.restrictions
                &&& e.object.version == before.object.version
                &&& e.object.from == before.object.from
                &&& after.entities == room.entities.insert(key, e)
                &&& puts_only(effects, key, e)
                &&& is_heard_last(who.id, seq, effects)
                &&& readers_are_told(room, who.id, before, effects)
                &&& nothing_else_is_said(
                    who.id,
                    seq,
                    "doodle/line"@,
                    PayloadView::Line { key, from: who.id, line },
                    effects,
                )
            } else {
                effects.len() == 0
            }
        }),
{
    let request = RequestView::Stroke { key, line };
    let (order, e) = lemma_course(room, who, request, seq, effects);
    let before = room.entities[key];
    if room.entities.contains_key(key) && (before.object.val matches Some(ValueView::Doodle(_))) {
        lemma_key_is_changed(
            room,
            who,
            seq,
            key,
            e,
            order,
            MessageView {
                pc: 0,
                re: None,
                opcode: "doodle/line"@,
                result: PayloadView::Line { key, from: who.id, line },
            },
            effects,
        );
    }
}

/// An entity that is locked keeps everything but the lock and who last touched it. Everybody else
/// who may read it is told, once; the one who asked is told that its message was heard, also where
/// there is no such entity.
pub proof fn law_what_is_locked(
    room: RoomView,
    who: ProfileView,
    key: Seq<char>,
    seq: u64,
    effects: Seq<EffectView>,
)
    requires
        answers(room, who, RequestView::Lock { key }, seq, effects),
    ensures
        ({
            let after = after_effects(room, effects);
            let before = room.entities[key];
            let e = after.entities[key];
            if room.entities.contains_key(key) {
                &&& e.attributes.locked
                &&& e.attributes.acl == before.attributes.acl
                &&& e.kind == before.kind
                &&& e.object.from == who.id
                &&& e.object.key == before.object.key
                &&& e.object.val == before.object.val
                &&& e.object.restrictions == before.object.restrictions
                &&& e.object.version == before.object.version
                &&& after.entities == room.entities.insert(key, e)
                &&& puts_only(effects, key, e)
                &&& is_heard_last(who.id, seq, effects)
                &&& readers_are_told(room, who.id, before, effects)
                &&& nothing_else_is_said(
                    who.id,
                    seq,
                    "lock"@,
                    PayloadView::Lock { key, from: who.id },
                    effects,
                )
            } else {
                is_only_heard(who.id, seq, effects)
            }
        }),
{
    let request = RequestView::Lock { key };
    let (order, e) = lemma_course(room, who, request, seq, effects);
    if room.entities.contains_key(key) {
        lemma_key_is_changed(
            room,
            who,
            seq,
            key,
            e,
            order,
            MessageView {
                pc: 0,
                re: None,
                opcode: "lock"@,
                result: PayloadView::Lock { key, from: who.id },
            },
            effects,
        );
    }
}

/// What follows a change of an entity that keeps its list.
proof fn lemma_key_is_changed(
    room: RoomView,
    who: ProfileView,
    seq: u64,
    key: Seq<char>,
    e: EntityView,
    order: Seq<i64>,
    message: MessageView,
    effects: Seq<EffectView>,
)
    requires
        is_order_of(
            order,
            crate::ecast::ws::readers(room, room.entities[key].attributes.acl, who.id),
        ),
        message.re is None,
        message.pc == 0,
        effects == seq![EffectView::Put { key, entity: e }] + to_all(order, message) + seq![
            crate::ecast::ws::ok(who.id, seq),
        ],
    ensures
        after_effects(room, effects).entities == room.entities.insert(key, e),
        puts_only(effects, key, e),
        is_heard_last(who.id, seq, effects),
        readers_are_told(room, who.id, room.entities[key], effects),
        nothing_else_is_said(who.id, seq, message.opcode, message.result, effects),
{
    let acl = room.entities[key].attributes.acl;
    let ids = crate::ecast::ws::readers(room, acl, who.id);
    let told = to_all(order, message);
    let put = EffectView::Put { key, entity: e };
    let heard = EffectView::Send {
        to: who.id,
        message: MessageView { pc: 0, re: Some(seq), opcode: "ok"@, result: PayloadView::Empty },
    };
    let n = order.len() as int;
    let none = Seq::<EffectView>::empty();
    lemma_one_change(room, none, put, told + seq![heard]);
    assert(effects =~= none + seq![put] + (told + seq![heard]));
    assert(effects =~= seq![put] + told + seq![heard]);
    assert(effects[0] == put);
    assert(effects.skip(effects.len() - 1) =~= seq![heard]);
    assert forall|i: int| 0 <= i < n implies order[i] != who.id by {
        lemma_told(order, ids, order[i]);
    }
    assert forall|id: i64| #[trigger]
        sends_to(effects, id) == (if id == who.id {
            1nat
        } else if room.connections.contains_key(id) && may_read(
            acl,
            room.connections[id].profile.role,
            id,
        ) {
            1nat
        } else {
            0nat
        }) by {
        lemma_sends_in_turn(seq![put] + told, seq![heard], id);
        lemma_sends_in_turn(seq![put], told, id);
        lemma_sends_once(put, id);
        lemma_sends_once(heard, id);
        lemma_sends_to_all(order, message, id);
        lemma_told(order, ids, id);
    }
}

/// All that happens is that the one who asked is told that its message was heard.
pub open spec fn is_only_heard(who: i64, seq: u64, effects: Seq<EffectView>) -> bool {
    effects == seq![
        EffectView::Send {
            to: who,
            message: MessageView { pc: 0, re: Some(seq), opcode: "ok"@, result: PayloadView::Empty },
        },
    ]
}

/// What is dropped is gone, and nothing else; the one who asked is told that its message was heard.
/// Of a wish that is not known it is told the same, and nothing changes.
pub proof fn law_what_is_dropped(
    room: RoomView,
    who: ProfileView,
    key: Seq<char>,
    seq: u64,
    dropping: Seq<EffectView>,
    other: Seq<EffectView>,
)
    requires
        answers(room, who, RequestView::Drop { key }, seq, dropping),
        answers(room, who, RequestView::Other, seq, other),
    ensures
        after_effects(room, dropping).entities == room.entities.remove(key),
        dropping.len() == 2,
        dropping[0] == (EffectView::Forget { key }),
        is_only_heard(who.id, seq, dropping.drop_first()),
        is_only_heard(who.id, seq, other),
{
    let _ = lemma_course(room, who, RequestView::Drop { key }, seq, dropping);
    let _ = lemma_course(room, who, RequestView::Other, seq, other);
    law_entities_after(room, who, RequestView::Drop { key }, seq, dropping);
    assert(dropping.drop_first() =~= seq![crate::ecast::ws::ok(who.id, seq)]);
}

/// When a room is ended, the one who asked is told that its message was heard, every client's socket
/// is closed, once, and then the room ends.
pub proof fn law_how_a_room_ends(
    room: RoomView,
    who: ProfileView,
    seq: u64,
    effects: Seq<EffectView>,
)
    requires
        answers(room, who, RequestView::Exit, seq, effects),
    ensures
        effects.len() >= 2,
        is_only_heard(who.id, seq, effects.take(1)),
        effects.last() == EffectView::Exit,
        forall|i: int|
            1 <= i < effects.len() - 1 ==> (#[trigger] effects[i] matches EffectView::Close { to }
                && room.connections.contains_key(to)),
        forall|i: int, j: int| 1 <= i < j < effects.len() - 1 ==> effects[i] != effects[j],
        forall|id: i64| #[trigger]
            room.connections.contains_key(id) ==> effects.contains(EffectView::Close { to: id }),
{
    let (order, after) = lemma_course(room, who, RequestView::Exit, seq, effects);
    let n = order.len() as int;
    let heard = seq![crate::ecast::ws::ok(who.id, seq)];
    assert(effects =~= heard + crate::ecast::ws::close_all(order) + seq![EffectView::Exit]);
    assert(effects.take(1) =~= heard);
    assert forall|i: int| 1 <= i < effects.len() - 1 implies (#[trigger] effects[i] matches EffectView::Close {
        to,
    } && room.connections.contains_key(to)) by {
        assert(effects[i] == EffectView::Close { to: order[i - 1] });
        lemma_told(order, room.connections.dom(), order[i - 1]);
    }
    assert forall|i: int, j: int| 1 <= i < j < effects.len() - 1 implies effects[i]
        != effects[j] by {
        assert(effects[i] == EffectView::Close { to: order[i - 1] });
        assert(effects[j] == EffectView::Close { to: order[j - 1] });
    }
    assert forall|id: i64| #[trigger] room.connections.contains_key(id) implies effects.contains(
        EffectView::Close { to: id },
    ) by {
        lemma_told(order, room.connections.dom(), id);
        let j = choose|j: int| 0 <= j < order.len() && order[j] == id;
        assert(effects[j + 1] == EffectView::Close { to: id });
    }
}

/// The list holds just these pairs, each key once.
pub open spec fn holds_exactly<K, V>(s: Seq<(K, V)>, wanted: spec_fn(K, V) -> bool) -> bool {
    &&& forall|k: K, v: V| #[trigger] s.contains((k, v)) <==> wanted(k, v)
    &&& forall|i: int, j: int| 0 <= i < j < s.len() ==> s[i].0 != s[j].0
}

/// A list of what a map holds.
proof fn lemma_lists<K, V>(s: Seq<(K, V)>, m: Map<K, V>)
    requires
        lists(s, m),
    ensures
        holds_exactly(s, |k: K, v: V| m.contains_key(k) && m[k] == v),
{
    assert forall|k: K, v: V| #[trigger] s.contains((k, v)) <==> m.contains_key(k) && m[k] == v by {
        if s.contains((k, v)) {
            let i = choose|i: int| 0 <= i < s.len() && s[i] == (k, v);
            assert(m.contains_key(s[i].0));
        }
        if m.contains_key(k) && m[k] == v {
            let i = choose|i: int| 0 <= i < s.len() && (#[trigger] s[i]).0 == k;
            assert(s[i] == (k, v));
        }
    }
}

/// Who a client is once it has entered: who it was before, or somebody new with the next id, the
/// name, the role and the user id that it brings, and the code of the room.
pub open spec fn is_self(
    room: RoomView,
    code: Seq<char>,
    q: WSQueryView,
    p: ProfileView,
) -> bool {
    if room.connections.contains_key(q.id) {
        p == room.connections[q.id].profile
    } else {
        &&& p.id == room.room_serial
        &&& p.user_id == q.user_id
        &&& p.role == q.role
        &&& p.name == q.name
        &&& p.room == Some(code)
        &&& p.roles == if q.role == Role::Host {
            ProfileRolesView::Host
        } else {
            ProfileRolesView::Player { name: q.name }
        }
    }
}

/// Whoever enters is welcomed first of all, with its id, its secret and who it is. The welcome shows
/// the state of the game: every entity of the room whose list lets this client read, as it stands,
/// and no other; and everybody who is in the room, itself among them.
pub proof fn law_the_welcome_shows_the_game(
    room: RoomView,
    code: Seq<char>,
    q: WSQueryView,
    secret: Seq<u8>,
    effects: Seq<EffectView>,
)
    requires
        room.wf(),
        greets(room, code, q, secret, effects),
    ensures
        effects.len() > 0,
        ({
            let known = room.connections.contains_key(q.id);
            let id = if known {
                q.id
            } else {
                room.room_serial
            };
            &&& effects[0] matches EffectView::Send { to, message }
            &&& to == id
            &&& message.pc == 0 && message.re is None && message.opcode == "client/welcome"@
            &&& message.result matches PayloadView::Welcome(w)
            &&& w.id == id
            &&& w.secret == secret
            &&& w.reconnect == known
            &&& w.device_id == "0000000000.0000000000000000000000"@
            &&& is_self(room, code, q, w.profile)
            &&& holds_exactly(
                w.entities,
                |key: Seq<char>, e: EntityView|
                    room.entities.contains_key(key) && room.entities[key] == e && may_read(
                        e.attributes.acl,
                        q.role,
                        id,
                    ),
            )
            &&& holds_exactly(
                w.here,
                |other: i64, p: ProfileView|
                    if other == id {
                        is_self(room, code, q, p)
                    } else {
                        room.connections.contains_key(other) && room.connections[other].profile == p
                    },
            )
        }),
{
    let (w, order) = lemma_greeting(room, code, q, secret, effects);
    let after = entered(room, code, q);
    let id = entered_id(room, q);
    lemma_lists(w.entities, readable_entities(after, q.role, id));
    lemma_lists(w.here, profiles_here(after));
    assert forall|key: Seq<char>, e: EntityView| #[trigger]
        w.entities.contains((key, e)) <==> room.entities.contains_key(key) && room.entities[key] == e
            && may_read(e.attributes.acl, q.role, id) by {
        let m = readable_entities(after, q.role, id);
        assert(w.entities.contains((key, e)) <==> m.contains_key(key) && m[key] == e);
    }
    assert forall|other: i64, p: ProfileView| #[trigger]
        w.here.contains((other, p)) <==> if other == id {
            is_self(room, code, q, p)
        } else {
            room.connections.contains_key(other) && room.connections[other].profile == p
        } by {
        let m = profiles_here(after);
        assert(w.here.contains((other, p)) <==> m.contains_key(other) && m[other] == p);
        if other == id && is_self(room, code, q, p) {
            assert(p =~= after.connections[id].profile);
        }
    }
}

/// The welcome and the order of the notices.
proof fn lemma_greeting(
    room: RoomView,
    code: Seq<char>,
    q: WSQueryView,
    secret: Seq<u8>,
    effects: Seq<EffectView>,
) -> (r: (WelcomeView, Seq<i64>))
    requires
        greets(room, code, q, secret, effects),
    ensures
        ({
            let after = entered(room, code, q);
            let id = entered_id(room, q);
            let known = room.connections.contains_key(q.id);
            &&& is_welcome(after, q, id, known, secret, r.0)
            &&& is_order_of(r.1, after.connections.dom().remove(id))
            &&& effects == greeting(after, id, known, r.0, r.1)
        }),
{
    let after = entered(room, code, q);
    let id = entered_id(room, q);
    let known = room.connections.contains_key(q.id);
    choose|w: WelcomeView, order: Seq<i64>|
        #![trigger greeting(after, id, known, w, order)]
        is_welcome(after, q, id, known, secret, w) && is_order_of(
            order,
            after.connections.dom().remove(id),
        ) && effects == greeting(after, id, known, w, order)
}

/// When a client enters, everybody else in the room is told once who it is and whether it was here
/// before. Nothing else happens but its welcome.
pub proof fn law_the_others_are_told_who_entered(
    room: RoomView,
    code: Seq<char>,
    q: WSQueryView,
    secret: Seq<u8>,
    effects: Seq<EffectView>,
)
    requires
        room.wf(),
        greets(room, code, q, secret, effects),
    ensures
        ({
            let known = room.connections.contains_key(q.id);
            let id = if known {
                q.id
            } else {
                room.room_serial
            };
            &&& forall|other: i64| #[trigger]
                sends_to(effects, other) == (if other == id || room.connections.contains_key(
                    other,
                ) {
                    1nat
                } else {
                    0nat
                })
            &&& forall|i: int|
                0 < i < effects.len() ==> (#[trigger] effects[i] matches EffectView::Send {
                    to,
                    message,
                } && to != id && message.pc == 0 && message.re is None && message.opcode
                    == "client/connected"@ && (message.result matches PayloadView::Connected(c)
                    && is_self(room, code, q, c.profile) && c.id == c.profile.id && c.user_id
                    == c.profile.user_id && c.name == c.profile.name && c.role == c.profile.role
                    && c.reconnect == known))
        }),
{
    let (w, order) = lemma_greeting(room, code, q, secret, effects);
    let after = entered(room, code, q);
    let known = room.connections.contains_key(q.id);
    let id = entered_id(room, q);
    let ids = after.connections.dom().remove(id);
    let first = effects[0];
    let rest = effects.drop_first();
    assert(effects =~= seq![first] + rest);
    let message = rest_message(after, id, known);
    assert(rest =~= to_all(order, message));
    assert forall|other: i64| #[trigger]
        sends_to(effects, other) == (if other == id || room.connections.contains_key(other) {
            1nat
        } else {
            0nat
        }) by {
        lemma_sends_in_turn(seq![first], rest, other);
        lemma_sends_once(first, other);
        lemma_sends_to_all(order, message, other);
        lemma_told(order, ids, other);
    }
    assert forall|i: int| 0 < i < effects.len() implies (#[trigger] effects[i] matches EffectView::Send {
        to,
        message,
    } && to != id && message.pc == 0 && message.re is None && message.opcode
        == "client/connected"@ && (message.result matches PayloadView::Connected(c) && is_self(
        room,
        code,
        q,
        c.profile,
    ) && c.id == c.profile.id && c.user_id == c.profile.user_id && c.name == c.profile.name
        && c.role == c.profile.role && c.reconnect == known)) by {
        assert(effects[i] == rest[i - 1]);
        lemma_told(order, ids, order[i - 1]);
    }
}

/// What the others are told.
spec fn rest_message(after: RoomView, id: i64, known: bool) -> MessageView {
    crate::ecast::ws::notice(
        "client/connected"@,
        PayloadView::Connected(
            crate::ecast::ws::connected_view(after.connections[id].profile, known),
        ),
    )
}

/// What entering does to a room: who comes back has a socket again and keeps all else; who is new
/// stands under the next id, with a socket, in this protocol, and is sent its first message next. A
/// client that was never here can enter as a host or as a player.
pub proof fn law_what_entering_does(room: RoomView, code: Seq<char>, q: WSQueryView)
    requires
        room.wf(),
    ensures
        ({
            let after = entered(room, code, q);
            let known = room.connections.contains_key(q.id);
            let id = if known {
                q.id
            } else {
                room.room_serial
            };
            &&& entered_id(room, q) == id
            &&& after.connections.dom() == room.connections.dom().insert(id)
            &&& after.connections[id].connected
            &&& is_self(room, code, q, after.connections[id].profile)
            &&& after.connections[id].pc == if known {
                room.connections[id].pc
            } else {
                0
            }
            &&& after.connections[id].client_type == if known {
                room.connections[id].client_type
            } else {
                ClientType::Ecast
            }
            &&& forall|other: i64|
                other != id && #[trigger] room.connections.contains_key(other)
                    ==> after.connections[other] == room.connections[other]
            &&& after.entities == room.entities
            &&& after.room_config == room.room_config
            &&& known ==> after.room_serial == room.room_serial
            &&& !known && room.room_serial < i64::MAX ==> after.room_serial == room.room_serial + 1
            &&& can_enter(room, q) <==> known || q.role == Role::Host || q.role == Role::Player
        }),
{
    let after = entered(room, code, q);
    assert(after.connections.dom() =~= room.connections.dom().insert(entered_id(room, q)));
}

/// What is written by a host under a list that lets everybody read is in the welcome of whoever
/// enters next.
pub proof fn law_who_enters_sees_what_was_written(
    room: RoomView,
    who: ProfileView,
    kind: JBType,
    params: CreateParamsView,
    v: ValueView,
    seq: u64,
    effects: Seq<EffectView>,
    code: Seq<char>,
    q: WSQueryView,
    secret: Seq<u8>,
    greetings: Seq<EffectView>,
)
    requires
        room.wf(),
        !room.entities.contains_key(params.key),
        who.role == Role::Host,
        brings(kind, params, v),
        answers(room, who, RequestView::Write { kind, params }, seq, effects),
        may_read(params.acl, q.role, entered_id(after_effects(room, effects), q)),
        greets(after_effects(room, effects), code, q, secret, greetings),
    ensures
        greetings.len() > 0,
        greetings[0] matches EffectView::Send { to, message } && (message.result matches PayloadView::Welcome(
            w,
        ) && exists|e: EntityView| #[trigger]
            w.entities.contains((params.key, e)) && e.object.val == Some(v) && e.kind == kind),
{
    let next = after_effects(room, effects);
    law_what_is_written(room, who, kind, params, v, seq, effects);
    crate::laws::law_effects_keep_rooms_well_formed(room, effects);
    law_the_welcome_shows_the_game(next, code, q, secret, greetings);
    let e = next.entities[params.key];
    let w = greetings[0]->Send_message.result->Welcome_0;
    assert(w.entities.contains((params.key, e)));
}

/// A scope and an action with a slash between.
proof fn lemma_opcode(scope: Seq<char>, action: Seq<char>)
    requires
        !scope.contains('/'),
        !action.contains('/'),
    ensures
        crate::text::pieces(scope + seq!['/'] + action, '/') == seq![scope, action],
{
    let parts = seq![scope, action];
    reveal_with_fuel(joined, 3);
    assert(parts.drop_first() =~= seq![action]);
    assert(joined(parts, '/') =~= scope + seq!['/'] + action);
    law_joined_pieces_come_apart(parts, '/');
}

/// What the opcodes ask for: a kind can be created, set, updated and got, a drawing can be drawn on,
/// a room can be ended, and entities can be locked and dropped.
pub proof fn law_what_opcodes_ask_for(kind: JBType)
    ensures
        operation_value(type_text(kind) + seq!['/'] + "create"@) == Operation::Write(kind),
        operation_value(type_text(kind) + seq!['/'] + "set"@) == Operation::Write(kind),
        operation_value(type_text(kind) + seq!['/'] + "update"@) == Operation::Write(kind),
        operation_value(type_text(kind) + seq!['/'] + "get"@) == Operation::Get(kind),
        operation_value("doodle"@ + seq!['/'] + "stroke"@) == Operation::Stroke,
        operation_value("room"@ + seq!['/'] + "exit"@) == Operation::Exit,
        operation_value("lock"@) == Operation::Lock,
        operation_value("drop"@) == Operation::Drop,
{
    law_type_reads_back(kind);
    reveal_strlit("text");
    reveal_strlit("number");
    reveal_strlit("object");
    reveal_strlit("doodle");
    reveal_strlit("create");
    reveal_strlit("set");
    reveal_strlit("update");
    reveal_strlit("get");
    reveal_strlit("stroke");
    reveal_strlit("room");
    reveal_strlit("exit");
    reveal_strlit("lock");
    reveal_strlit("drop");
    let name = type_text(kind);
    assert(!name.contains('/'));
    lemma_opcode(name, "create"@);
    lemma_opcode(name, "set"@);
    lemma_opcode(name, "update"@);
    lemma_opcode(name, "get"@);
    lemma_opcode("doodle"@, "stroke"@);
    lemma_opcode("room"@, "exit"@);
    law_joined_pieces_come_apart(seq!["lock"@], '/');
    law_joined_pieces_come_apart(seq!["drop"@], '/');
    assert("create"@[0] == 'c');
    assert("set"@[0] == 's' && "set"@[1] == 'e');
    assert("update"@[0] == 'u');
    assert("get"@[0] == 'g');
    assert("stroke"@[0] == 's' && "stroke"@[1] == 't');
    assert("exit"@[0] == 'e');
    assert("lock"@[0] == 'l');
    assert("drop"@[0] == 'd' && "drop"@[1] == 'r');
    assert("room"@[0] == 'r');
}

/// What an opcode of a scope and an action asks for, if it asks for anything.
pub proof fn law_opcodes_in_two_parts(scope: Seq<char>, action: Seq<char>)
    requires
        !scope.contains('/'),
        !action.contains('/'),
    ensures
        match operation_value(scope + seq!['/'] + action) {
            Operation::Write(k) => scope == type_text(k) && (action == "create"@ || action == "set"@
                || action == "update"@),
            Operation::Get(k) => scope == type_text(k) && action == "get"@,
            Operation::Stroke => scope == "doodle"@ && action == "stroke"@,
            Operation::Exit => scope == "room"@ && action == "exit"@,
            Operation::Lock | Operation::Drop => false,
            Operation::Other => true,
        },
        match operation_value(scope) {
            Operation::Lock => scope == "lock"@,
            Operation::Drop => scope == "drop"@,
            Operation::Other => scope != "lock"@ && scope != "drop"@,
            _ => false,
        },
{
    lemma_opcode(scope, action);
    law_joined_pieces_come_apart(seq![scope], '/');
    assert(joined(seq![scope], '/') == scope);
}

/// What follows a scope and an action in an opcode says nothing.
pub proof fn law_the_rest_of_an_opcode(scope: Seq<char>, action: Seq<char>, rest: Seq<char>)
    requires
        !scope.contains('/'),
        !action.contains('/'),
    ensures
        operation_value(scope + seq!['/'] + action + seq!['/'] + rest) == operation_value(
            scope + seq!['/'] + action,
        ),
{
    let tail = crate::text::pieces(rest, '/');
    let parts = seq![scope, action] + tail;
    law_pieces_make_up_the_text(rest, '/');
    lemma_opcode(scope, action);
    assert forall|k: int| 0 <= k < parts.len() implies !(#[trigger] parts[k]).contains('/') by {
        if k >= 2 {
            assert(parts[k] == tail[k - 2]);
        }
    }
    law_joined_pieces_come_apart(parts, '/');
    let behind = parts.drop_first();
    assert(behind.drop_first() =~= tail);
    assert(joined(behind, '/') == action + seq!['/'] + rest);
    assert(joined(parts, '/') =~= scope + seq!['/'] + action + seq!['/'] + rest);
}

} // verus!
