//! The sockets of the entity protocol.
use vstd::prelude::*;

use crate::acl::{Acl, Role};
use crate::ecast::{WSQuery, WSQueryView};
use crate::entity::{in_index_order, may_read, type_text, type_value};
use crate::entity::{AttributesView, DoodleView, EntityView, LineView, ObjectView, RestrictionsView};
use crate::entity::{JBAttributes, JBDoodle, JBEntity, JBLine, JBObject, JBRestrictions, JBType};
use crate::entity::{JBValue, ValueView};
use crate::json::{JsonMembers, JsonObject};
use crate::maps::{clients_keys, entities_get, entities_keys};
use crate::message::{effect_views, Effect, EffectView, SocketEvent, SocketStep};
use crate::room::{next_serial, Client, ClientType, ClientView, JBProfile, JBProfileRoles};
use crate::room::{ProfileRolesView, ProfileView, Room, RoomView};
use crate::text::{pieces, same, split, texts};
use crate::token::Token;

verus! {

/// What a client is told when it enters a room.
#[derive(Debug)]
pub struct ClientWelcome {
    pub id: i64,
    pub secret: Token,
    pub reconnect: bool,
    pub device_id: String,
    pub entities: Vec<(String, JBEntity)>,
    pub here: Vec<(i64, JBProfile)>,
    pub profile: JBProfile,
}

/// What a welcome says.
#[verifier::ext_equal]
pub struct WelcomeView {
    pub id: i64,
    pub secret: Seq<u8>,
    pub reconnect: bool,
    pub device_id: Seq<char>,
    pub entities: Seq<(Seq<char>, EntityView)>,
    pub here: Seq<(i64, ProfileView)>,
    pub profile: ProfileView,
}

/// What a list of entities with their keys says.
pub open spec fn keyed_entities(v: Seq<(String, JBEntity)>) -> Seq<(Seq<char>, EntityView)> {
    Seq::new(v.len(), |i: int| (v[i].0@, v[i].1@))
}

/// What a list of profiles with their ids says.
pub open spec fn keyed_profiles(v: Seq<(i64, JBProfile)>) -> Seq<(i64, ProfileView)> {
    Seq::new(v.len(), |i: int| (v[i].0, v[i].1@))
}

impl View for ClientWelcome {
    type V = WelcomeView;

    open spec fn view(&self) -> WelcomeView {
        WelcomeView {
            id: self.id,
            secret: self.secret@,
            reconnect: self.reconnect,
            device_id: self.device_id@,
            entities: keyed_entities(self.entities@),
            here: keyed_profiles(self.here@),
            profile: self.profile@,
        }
    }
}

/// What the others in a room are told when a client enters.
#[derive(Debug)]
pub struct ClientConnected {
    pub id: i64,
    pub user_id: String,
    pub name: String,
    pub role: Role,
    pub reconnect: bool,
    pub profile: JBProfile,
}

/// What such a notice says.
#[verifier::ext_equal]
pub struct ConnectedView {
    pub id: i64,
    pub user_id: Seq<char>,
    pub name: Seq<char>,
    pub role: Role,
    pub reconnect: bool,
    pub profile: ProfileView,
}

impl View for ClientConnected {
    type V = ConnectedView;

    open spec fn view(&self) -> ConnectedView {
        ConnectedView {
            id: self.id,
            user_id: self.user_id@,
            name: self.name@,
            role: self.role,
            reconnect: self.reconnect,
            profile: self.profile@,
        }
    }
}

/// What a message brings.
#[derive(Debug)]
pub enum Payload {
    Empty,
    Object(JBObject),
    Line { key: String, from: i64, line: JBLine },
    Lock { key: String, from: i64 },
    Welcome(ClientWelcome),
    Connected(ClientConnected),
}

/// What a payload says.
#[verifier::ext_equal]
pub enum PayloadView {
    Empty,
    Object(ObjectView),
    Line { key: Seq<char>, from: i64, line: LineView },
    Lock { key: Seq<char>, from: i64 },
    Welcome(WelcomeView),
    Connected(ConnectedView),
}

impl View for Payload {
    type V = PayloadView;

    open spec fn view(&self) -> PayloadView {
        match self {
            Payload::Empty => PayloadView::Empty,
            Payload::Object(o) => PayloadView::Object(o@),
            Payload::Line { key, from, line } => PayloadView::Line {
                key: key@,
                from: *from,
                line: line@,
            },
            Payload::Lock { key, from } => PayloadView::Lock { key: key@, from: *from },
            Payload::Welcome(w) => PayloadView::Welcome(w@),
            Payload::Connected(c) => PayloadView::Connected(c@),
        }
    }
}

/// A message of the entity protocol: its number, the number of the message that it answers, what
/// it is about and what it brings.
#[derive(Debug)]
pub struct JBMessage {
    pub pc: u64,
    pub re: Option<u64>,
    pub opcode: String,
    pub result: Payload,
}

/// What a message says.
#[verifier::ext_equal]
pub struct MessageView {
    pub pc: u64,
    pub re: Option<u64>,
    pub opcode: Seq<char>,
    pub result: PayloadView,
}

impl View for JBMessage {
    type V = MessageView;

    open spec fn view(&self) -> MessageView {
        MessageView {
            pc: self.pc,
            re: self.re,
            opcode: self.opcode@,
            result: self.result@,
        }
    }
}

/// What a client asks for, as its opcode says.
#[derive(Debug, Clone, Copy, PartialEq, Eq, Structural)]
pub enum Operation {
    Write(JBType),
    Stroke,
    Get(JBType),
    Exit,
    Lock,
    Drop,
    Other,
}

/// The operation that an opcode names: a scope, or a scope and an action with a slash between.
pub open spec fn operation_value(opcode: Seq<char>) -> Operation {
    let parts = pieces(opcode, '/');
    let scope = parts[0];
    let kind = type_value(scope);
    if parts.len() == 1 {
        if scope == "lock"@ {
            Operation::Lock
        } else if scope == "drop"@ {
            Operation::Drop
        } else {
            Operation::Other
        }
    } else {
        let action = parts[1];
        if (action == "create"@ || action == "set"@ || action == "update"@) && kind is Some {
            Operation::Write(kind->0)
        } else if action == "stroke"@ && scope == "doodle"@ {
            Operation::Stroke
        } else if action == "get"@ && kind is Some {
            Operation::Get(kind->0)
        } else if action == "exit"@ && scope == "room"@ {
            Operation::Exit
        } else {
            Operation::Other
        }
    }
}

/// The operation that an opcode names.
pub fn operation(opcode: &str) -> (r: Operation)
    ensures
        r == operation_value(opcode@),
{
    let parts = split(opcode, '/');
    assert(texts(parts@)[0] == parts@[0]@);
    let scope = parts[0].as_str();
    let kind = JBType::from_str(scope);
    if parts.len() == 1 {
        if same(scope, "lock") {
            Operation::Lock
        } else if same(scope, "drop") {
            Operation::Drop
        } else {
            Operation::Other
        }
    } else {
        assert(texts(parts@)[1] == parts@[1]@);
        let action = parts[1].as_str();
        if same(action, "create") || same(action, "set") || same(action, "update") {
            if let Ok(k) = kind {
                return Operation::Write(k);
            }
        }
        if same(action, "stroke") && same(scope, "doodle") {
            return Operation::Stroke;
        }
        if same(action, "get") {
            if let Ok(k) = kind {
                return Operation::Get(k);
            }
        }
        if same(action, "exit") && same(scope, "room") {
            return Operation::Exit;
        }
        Operation::Other
    }
}

/// The value that a client sends along, as far as a kind can use it; a number is held as the bits
/// of a 64 bit floating point number.
#[derive(Debug)]
pub enum ParamValue {
    Text(String),
    Number(u64),
    Object(JsonObject),
    Unusable,
}

/// What such a value says.
#[verifier::ext_equal]
pub enum ParamValueView {
    Text(Seq<char>),
    Number(u64),
    Object(JsonMembers),
    Unusable,
}

impl View for ParamValue {
    type V = ParamValueView;

    open spec fn view(&self) -> ParamValueView {
        match self {
            ParamValue::Text(t) => ParamValueView::Text(t@),
            ParamValue::Number(n) => ParamValueView::Number(*n),
            ParamValue::Object(o) => ParamValueView::Object(o@),
            ParamValue::Unusable => ParamValueView::Unusable,
        }
    }
}

/// What comes with the wish to write an entity.
#[derive(Debug)]
pub struct JBCreateParams {
    pub acl: Vec<Acl>,
    pub key: String,
    pub val: ParamValue,
    pub restrictions: JBRestrictions,
    pub doodle: JBDoodle,
}

/// What that says.
#[verifier::ext_equal]
pub struct CreateParamsView {
    pub acl: Seq<Acl>,
    pub key: Seq<char>,
    pub val: ParamValueView,
    pub restrictions: RestrictionsView,
    pub doodle: DoodleView,
}

impl View for JBCreateParams {
    type V = CreateParamsView;

    open spec fn view(&self) -> CreateParamsView {
        CreateParamsView {
            acl: self.acl@,
            key: self.key@,
            val: self.val@,
            restrictions: self.restrictions@,
            doodle: self.doodle@,
        }
    }
}

/// The value that an entity of the given kind takes; a drawing is described by the message itself.
pub open spec fn value_of(kind: JBType, p: CreateParamsView) -> Option<ValueView> {
    match (kind, p.val) {
        (JBType::Text, ParamValueView::Text(t)) => Some(ValueView::Text(t)),
        (JBType::Number, ParamValueView::Number(n)) => Some(ValueView::Number(n)),
        (JBType::Object, ParamValueView::Object(o)) => Some(ValueView::Object(o)),
        (JBType::Doodle, _) => Some(ValueView::Doodle(p.doodle)),
        _ => None,
    }
}

/// A wish of a client with what it brings.
#[derive(Debug)]
pub enum Request {
    Write { kind: JBType, params: JBCreateParams },
    Stroke { key: String, line: JBLine },
    Get { kind: JBType, key: String },
    Exit,
    Lock { key: String },
    Drop { key: String },
    Other,
}

/// What a wish says.
#[verifier::ext_equal]
pub enum RequestView {
    Write { kind: JBType, params: CreateParamsView },
    Stroke { key: Seq<char>, line: LineView },
    Get { kind: JBType, key: Seq<char> },
    Exit,
    Lock { key: Seq<char> },
    Drop { key: Seq<char> },
    Other,
}

impl View for Request {
    type V = RequestView;

    open spec fn view(&self) -> RequestView {
        match self {
            Request::Write { kind, params } => RequestView::Write { kind: *kind, params: params@ },
            Request::Stroke { key, line } => RequestView::Stroke { key: key@, line: line@ },
            Request::Get { kind, key } => RequestView::Get { kind: *kind, key: key@ },
            Request::Exit => RequestView::Exit,
            Request::Lock { key } => RequestView::Lock { key: key@ },
            Request::Drop { key } => RequestView::Drop { key: key@ },
            Request::Other => RequestView::Other,
        }
    }
}

/// The order names every id of the set once.
pub open spec fn is_order_of(order: Seq<i64>, ids: Set<i64>) -> bool {
    order.no_duplicates() && order.to_set() == ids
}

/// The others in the room that may read what stands under the list.
pub open spec fn readers(room: RoomView, acl: Seq<Acl>, except: i64) -> Set<i64> {
    room.connections.dom().filter(
        |id: i64| id != except && may_read(acl, room.connections[id].profile.role, id),
    )
}

/// A message that answers nothing.
pub open spec fn notice(opcode: Seq<char>, result: PayloadView) -> MessageView {
    MessageView { pc: 0, re: None, opcode, result }
}

/// The answer to message `seq`.
pub open spec fn answer(to: i64, seq: u64, opcode: Seq<char>, result: PayloadView) -> EffectView {
    EffectView::Send { to, message: MessageView { pc: 0, re: Some(seq), opcode, result } }
}

/// The answer that says that message `seq` was heard.
pub open spec fn ok(to: i64, seq: u64) -> EffectView {
    answer(to, seq, "ok"@, PayloadView::Empty)
}

/// One message to each of the clients.
pub open spec fn to_all(order: Seq<i64>, message: MessageView) -> Seq<EffectView> {
    Seq::new(order.len(), |i: int| EffectView::Send { to: order[i], message })
}

/// A close to each of the clients.
pub open spec fn close_all(order: Seq<i64>) -> Seq<EffectView> {
    Seq::new(order.len(), |i: int| EffectView::Close { to: order[i] })
}

/// A wish to write that is not granted: only a host makes new entities.
pub open spec fn is_refused(room: RoomView, who: ProfileView, key: Seq<char>) -> bool {
    !room.entities.contains_key(key) && who.role != Role::Host
}

/// The entity that a wish to write leads to: a rewritten one keeps its list and counts its version
/// up; in any case it is unlocked.
pub open spec fn written(
    room: RoomView,
    who: ProfileView,
    kind: JBType,
    p: CreateParamsView,
) -> EntityView {
    let known = room.entities.contains_key(p.key);
    let before = room.entities[p.key];
    EntityView {
        kind,
        object: ObjectView {
            key: p.key,
            val: value_of(kind, p),
            restrictions: p.restrictions,
            version: if known {
                (before.object.version + 1) as u32
            } else {
                0
            },
            from: who.id,
        },
        attributes: AttributesView {
            locked: false,
            acl: if known {
                before.attributes.acl
            } else {
                p.acl
            },
        },
    }
}

/// A drawing stands under the key.
pub open spec fn has_doodle(room: RoomView, key: Seq<char>) -> bool {
    room.entities.contains_key(key) && (room.entities[key].object.val matches Some(
        ValueView::Doodle(_),
    ))
}

/// `after` is the drawing `before` with one more line, in the order of the lines' indices.
pub open spec fn is_stroked(before: EntityView, line: LineView, after: EntityView) -> bool {
    &&& before.object.val matches Some(ValueView::Doodle(d))
    &&& after.object.val matches Some(ValueView::Doodle(e))
    &&& in_index_order(e.lines)
    &&& e.lines.to_multiset() == d.lines.push(line).to_multiset()
    &&& e == (DoodleView { lines: e.lines, ..d })
    &&& after == (EntityView { object: ObjectView { val: after.object.val, ..before.object }, ..before
    })
}

/// The entity, locked by the given client.
pub open spec fn locked_by(e: EntityView, id: i64) -> EntityView {
    EntityView {
        object: ObjectView { from: id, ..e.object },
        attributes: AttributesView { locked: true, ..e.attributes },
        ..e
    }
}

/// The wish can be carried out: a value fits its kind, and versions have not run out.
pub open spec fn is_processable(room: RoomView, who: ProfileView, request: RequestView) -> bool {
    match request {
        RequestView::Write { kind, params } => is_refused(room, who, params.key) || (value_of(
            kind,
            params,
        ) is Some && (room.entities.contains_key(params.key)
            ==> room.entities[params.key].object.version < u32::MAX)),
        _ => true,
    }
}

/// The effects of a wish, where `order` is the order in which the others are told and `after` the
/// entity that stands under the key afterwards.
pub open spec fn effects_of(
    room: RoomView,
    who: ProfileView,
    request: RequestView,
    seq: u64,
    order: Seq<i64>,
    after: EntityView,
) -> Seq<EffectView> {
    let heard = seq![ok(who.id, seq)];
    match request {
        RequestView::Write { kind, params } => if is_refused(room, who, params.key) {
            Seq::empty()
        } else {
            to_all(order, notice(type_text(kind), PayloadView::Object(after.object))) + seq![
                EffectView::Put { key: params.key, entity: after },
            ] + heard
        },
        RequestView::Stroke { key, line } => if has_doodle(room, key) {
            seq![EffectView::Put { key, entity: after }] + to_all(
                order,
                notice("doodle/line"@, PayloadView::Line { key, from: who.id, line }),
            ) + heard
        } else {
            Seq::empty()
        },
        RequestView::Get { kind, key } => if room.entities.contains_key(key) {
            seq![
                answer(
                    who.id,
                    seq,
                    type_text(kind),
                    PayloadView::Object(room.entities[key].object),
                ),
            ]
        } else {
            Seq::empty()
        },
        RequestView::Exit => heard + close_all(order) + seq![EffectView::Exit],
        RequestView::Lock { key } => if room.entities.contains_key(key) {
            seq![EffectView::Put { key, entity: after }] + to_all(
                order,
                notice("lock"@, PayloadView::Lock { key, from: who.id }),
            ) + heard
        } else {
            heard
        },
        RequestView::Drop { key } => seq![EffectView::Forget { key }] + heard,
        RequestView::Other => heard,
    }
}

/// Whom a wish concerns beside the one who has it.
pub open spec fn audience_of(room: RoomView, who: ProfileView, request: RequestView) -> Set<i64> {
    match request {
        RequestView::Write { kind, params } => if is_refused(room, who, params.key) {
            Set::empty()
        } else {
            readers(room, written(room, who, kind, params).attributes.acl, who.id)
        },
        RequestView::Stroke { key, line } => if has_doodle(room, key) {
            readers(room, room.entities[key].attributes.acl, who.id)
        } else {
            Set::empty()
        },
        RequestView::Lock { key } => if room.entities.contains_key(key) {
            readers(room, room.entities[key].attributes.acl, who.id)
        } else {
            Set::empty()
        },
        RequestView::Exit => room.connections.dom(),
        _ => Set::empty(),
    }
}

/// `after` may stand under the key once the wish is carried out.
pub open spec fn may_result(
    room: RoomView,
    who: ProfileView,
    request: RequestView,
    after: EntityView,
) -> bool {
    match request {
        RequestView::Write { kind, params } => !is_refused(room, who, params.key) ==> after
            == written(room, who, kind, params),
        RequestView::Stroke { key, line } => has_doodle(room, key) ==> is_stroked(
            room.entities[key],
            line,
            after,
        ),
        RequestView::Lock { key } => room.entities.contains_key(key) ==> after == locked_by(
            room.entities[key],
            who.id,
        ),
        _ => true,
    }
}

/// The effects are those of the wish.
pub open spec fn answers(
    room: RoomView,
    who: ProfileView,
    request: RequestView,
    seq: u64,
    effects: Seq<EffectView>,
) -> bool {
    exists|order: Seq<i64>, after: EntityView|
        #![trigger effects_of(room, who, request, seq, order, after)]
        is_order_of(order, audience_of(room, who, request)) && may_result(room, who, request, after)
            && effects == effects_of(room, who, request, seq, order, after)
}

/// The others in the room that may read what stands under the attributes.
fn readers_of(room: &Room, attributes: &JBAttributes, except: i64) -> (r: Vec<i64>)
    ensures
        is_order_of(r@, readers(room@, attributes@.acl, except)),
{
    let ids = clients_keys(&room.connections);
    let ghost wanted = readers(room@, attributes@.acl, except);
    let mut out: Vec<i64> = Vec::new();
    for k in 0..ids.len()
        invariant
            ids@.no_duplicates(),
            ids@.to_set() == room@.connections.dom(),
            wanted == readers(room@, attributes@.acl, except),
            out@.no_duplicates(),
            forall|id: i64| #[trigger]
                out@.contains(id) <==> ids@.take(k as int).contains(id) && wanted.contains(id),
    {
        let id: i64 = ids[k];
        let ghost before = out@;
        proof {
            assert(ids@.contains(id));
            assert(ids@.to_set().contains(id));
            assert(ids@.take(k + 1) =~= ids@.take(k as int).push(id));
            assert(!ids@.take(k as int).contains(id));
        }
        if id != except {
            if let Some(c) = room.client(id) {
                if attributes.readable_by(c.profile.role, id) {
                    out.push(id);
                }
            }
        }
        proof {
            assert(wanted.contains(id) ==> out@ == before.push(id));
            assert forall|x: i64| #[trigger]
                out@.contains(x) <==> ids@.take(k + 1).contains(x) && wanted.contains(x) by {
                lemma_push_contains(ids@.take(k as int), id, x);
                lemma_push_contains(before, id, x);
            }
            if out@ != before {
                assert(out@ == before.push(id));
                assert(!before.contains(id));
                lemma_push_no_duplicates(before, id);
            }
        }
    }
    proof {
        assert(ids@.take(ids@.len() as int) =~= ids@);
        assert(out@.to_set() =~= wanted) by {
            assert forall|x: i64| #[trigger] out@.to_set().contains(x) <==> wanted.contains(x) by {
                assert(out@.contains(x) <==> ids@.contains(x) && wanted.contains(x));
                if wanted.contains(x) {
                    assert(ids@.to_set().contains(x));
                }
            }
        }
    }
    out
}

/// What a row holds once an item is added.
proof fn lemma_push_contains(s: Seq<i64>, id: i64, x: i64)
    ensures
        s.push(id).contains(x) <==> s.contains(x) || x == id,
{
    let t = s.push(id);
    assert(t[s.len() as int] == id);
    if s.contains(x) {
        let j = choose|j: int| 0 <= j < s.len() && s[j] == x;
        assert(t[j] == x);
    }
    if t.contains(x) {
        let j = choose|j: int| 0 <= j < t.len() && t[j] == x;
        if j < s.len() {
            assert(s[j] == x);
        }
    }
}

/// Adding a new item brings no item in twice.
proof fn lemma_push_no_duplicates(s: Seq<i64>, id: i64)
    requires
        s.no_duplicates(),
        !s.contains(id),
    ensures
        s.push(id).no_duplicates(),
{
    let t = s.push(id);
    assert forall|i: int, j: int| 0 <= i < t.len() && 0 <= j < t.len() && i != j implies t[i]
        != t[j] by {
        if i < s.len() {
            assert(s.contains(s[i]));
        }
        if j < s.len() {
            assert(s.contains(s[j]));
        }
    }
}

/// A message to each of the clients, appended to a row of effects.
fn send_all(effects: &mut Vec<Effect>, order: &Vec<i64>, opcode: &str, result: &Payload)
    requires
        !(result is Welcome),
    ensures
        effect_views(final(effects)@) == effect_views(old(effects)@) + to_all(
            order@,
            notice(opcode@, result@),
        ),
{
    let ghost start = effect_views(effects@);
    assert(start + to_all(order@.take(0), notice(opcode@, result@)) =~= start);
    for k in 0..order.len()
        invariant
            !(result is Welcome),
            effect_views(effects@) == start + to_all(
                order@.take(k as int),
                notice(opcode@, result@),
            ),
    {
        let ghost before = effect_views(effects@);
        let message = JBMessage {
            pc: 0,
            re: None,
            opcode: opcode.to_owned(),
            result: result.duplicate(),
        };
        assert(message@ =~= notice(opcode@, result@));
        effects.push(Effect::Send { to: order[k], message });
        proof {
            let e = EffectView::Send { to: order@[k as int], message: notice(opcode@, result@) };
            assert(effect_views(effects@) =~= before.push(e));
            assert(to_all(order@.take(k + 1), notice(opcode@, result@)) =~= to_all(
                order@.take(k as int),
                notice(opcode@, result@),
            ).push(e));
        }
    }
    assert(order@.take(order@.len() as int) =~= order@);
}

/// The answer that says that message `seq` was heard.
fn ok_effect(to: i64, seq: u64) -> (r: Effect)
    ensures
        r@ == ok(to, seq),
{
    Effect::Send {
        to,
        message: JBMessage { pc: 0, re: Some(seq), opcode: "ok".to_owned(), result: Payload::Empty },
    }
}

impl Payload {
    /// Another payload that says the same, for what is sent to many.
    pub fn duplicate(&self) -> (r: Payload)
        requires
            !(self is Welcome),
        ensures
            r@ == self@,
    {
        match self {
            Payload::Empty => Payload::Empty,
            Payload::Object(o) => Payload::Object(o.duplicate()),
            Payload::Line { key, from, line } => Payload::Line {
                key: key.clone(),
                from: *from,
                line: line.duplicate(),
            },
            Payload::Lock { key, from } => Payload::Lock { key: key.clone(), from: *from },
            Payload::Connected(c) => Payload::Connected(
                ClientConnected {
                    id: c.id,
                    user_id: c.user_id.clone(),
                    name: c.name.clone(),
                    role: c.role,
                    reconnect: c.reconnect,
                    profile: c.profile.duplicate(),
                },
            ),
            Payload::Welcome(_) => Payload::Empty,
        }
    }
}

/// The value that an entity of the given kind takes.
fn take_value(kind: JBType, val: ParamValue, doodle: JBDoodle) -> (r: Option<JBValue>)
    ensures
        match r {
            Some(v) => forall|p: CreateParamsView|
                p.val == val@ && p.doodle == doodle@ ==> #[trigger] value_of(kind, p) == Some(v@),
            None => forall|p: CreateParamsView|
                p.val == val@ && p.doodle == doodle@ ==> #[trigger] value_of(kind, p) is None,
        },
{
    match (kind, val) {
        (JBType::Text, ParamValue::Text(t)) => Some(JBValue::Text(t)),
        (JBType::Number, ParamValue::Number(n)) => Some(JBValue::Number(n)),
        (JBType::Object, ParamValue::Object(o)) => Some(JBValue::Object(o)),
        (JBType::Doodle, _) => Some(JBValue::Doodle(doodle)),
        _ => None,
    }
}

/// Whether a value fits its kind.
fn value_fits(kind: JBType, params: &JBCreateParams) -> (r: bool)
    ensures
        r == (value_of(kind, params@) is Some),
{
    match (kind, &params.val) {
        (JBType::Text, ParamValue::Text(_)) => true,
        (JBType::Number, ParamValue::Number(_)) => true,
        (JBType::Object, ParamValue::Object(_)) => true,
        (JBType::Doodle, _) => true,
        _ => false,
    }
}

/// Whether a wish can be carried out.
pub fn can_process(room: &Room, client: &Client, request: &Request) -> (r: bool)
    ensures
        r == is_processable(room@, client.profile@, request@),
{
    match request {
        Request::Write { kind, params } => match entities_get(
            &room.entities,
            params.key.as_str(),
        ) {
            Some(e) => value_fits(*kind, params) && e.1.version < u32::MAX,
            None => client.profile.role != Role::Host || value_fits(*kind, params),
        },
        _ => true,
    }
}

/// The effects of a wish to write an entity.
fn write_entity(room: &Room, client: &Client, kind: JBType, params: JBCreateParams, seq: u64) -> (r:
    Vec<Effect>)
    requires
        is_processable(room@, client.profile@, RequestView::Write { kind, params: params@ }),
    ensures
        answers(
            room@,
            client.profile@,
            RequestView::Write { kind, params: params@ },
            seq,
            effect_views(r@),
        ),
{
    let ghost who = client.profile@;
    let ghost p = params@;
    let ghost request = RequestView::Write { kind, params: p };
    let mut effects: Vec<Effect> = Vec::new();
    let previous = entities_get(&room.entities, params.key.as_str());
    let has_been_created = previous.is_some();
    let is_unlocked = match &previous {
        Some(e) => !e.2.locked,
        None => false,
    };
    let has_perms = match &previous {
        Some(e) => match e.2.perms(client.profile.role, client.profile.id) {
            Some(i) => i.is_writable(),
            None => false,
        },
        None => false,
    };
    if !(has_been_created || is_unlocked || has_perms) && client.profile.role != Role::Host {
        proof {
            let order = Seq::<i64>::empty();
            let after = written(room@, who, kind, p);
            assert(order.to_set() =~= Set::<i64>::empty());
            assert(effect_views(effects@) =~= effects_of(room@, who, request, seq, order, after));
        }
        return effects;
    }
    let version: u32 = match &previous {
        Some(e) => e.1.version + 1,
        None => 0,
    };
    let JBCreateParams { acl: given_acl, key, val, restrictions, doodle } = params;
    let value = take_value(kind, val, doodle);
    assert(value matches Some(v) && Some(v@) == value_of(kind, p)) by {
        let _ = value_of(kind, p);
    }
    let acl = match previous {
        Some(e) => e.2.acl,
        None => given_acl,
    };
    let entity = JBEntity(
        kind,
        JBObject { key: key.clone(), val: value, restrictions, version, from: client.profile.id },
        JBAttributes { locked: false, acl },
    );
    let ghost after = written(room@, who, kind, p);
    assert(entity@ =~= after);
    let order = readers_of(room, &entity.2, client.profile.id);
    let result = Payload::Object(entity.1.duplicate());
    let opcode = kind.to_text();
    send_all(&mut effects, &order, opcode.as_str(), &result);
    effects.push(Effect::Put { key, entity });
    effects.push(ok_effect(client.profile.id, seq));
    proof {
        assert(effect_views(effects@) =~= effects_of(room@, who, request, seq, order@, after));
    }
    effects
}

/// The effects of a wish to add a line to a drawing.
fn stroke_doodle(room: &Room, client: &Client, key: String, line: JBLine, seq: u64) -> (r: Vec<
    Effect,
>)
    ensures
        answers(
            room@,
            client.profile@,
            RequestView::Stroke { key: key@, line: line@ },
            seq,
            effect_views(r@),
        ),
{
    let ghost who = client.profile@;
    let ghost request = RequestView::Stroke { key: key@, line: line@ };
    let mut effects: Vec<Effect> = Vec::new();
    if let Some(entity) = entities_get(&room.entities, key.as_str()) {
        let ghost before = entity@;
        let JBEntity(kind, object, attributes) = entity;
        let JBObject { key: own_key, val, restrictions, version, from } = object;
        if let Some(JBValue::Doodle(doodle)) = val {
            let mut doodle = doodle;
            let result = Payload::Line {
                key: key.clone(),
                from: client.profile.id,
                line: line.duplicate(),
            };
            let order = readers_of(room, &attributes, client.profile.id);
            doodle.add_line(line);
            let entity = JBEntity(
                kind,
                JBObject {
                    key: own_key,
                    val: Some(JBValue::Doodle(doodle)),
                    restrictions,
                    version,
                    from,
                },
                attributes,
            );
            let ghost after = entity@;
            assert(is_stroked(before, line@, after));
            effects.push(Effect::Put { key, entity });
            assert(effect_views(effects@) =~= seq![EffectView::Put { key: key@, entity: after }]);
            send_all(&mut effects, &order, "doodle/line", &result);
            effects.push(ok_effect(client.profile.id, seq));
            proof {
                assert(effect_views(effects@) =~= effects_of(
                    room@,
                    who,
                    request,
                    seq,
                    order@,
                    after,
                ));
            }
            return effects;
        }
    }
    proof {
        let order = Seq::<i64>::empty();
        let after = room@.entities[key@];
        assert(order.to_set() =~= Set::<i64>::empty());
        assert(effect_views(effects@) =~= effects_of(room@, who, request, seq, order, after));
    }
    effects
}

/// The effects of a wish to lock an entity.
fn lock_entity(room: &Room, client: &Client, key: String, seq: u64) -> (r: Vec<Effect>)
    ensures
        answers(
            room@,
            client.profile@,
            RequestView::Lock { key: key@ },
            seq,
            effect_views(r@),
        ),
{
    let ghost who = client.profile@;
    let ghost request = RequestView::Lock { key: key@ };
    let mut effects: Vec<Effect> = Vec::new();
    let ghost mut order = Seq::<i64>::empty();
    let ghost after = locked_by(room@.entities[key@], who.id);
    proof {
        assert(order.to_set() =~= Set::<i64>::empty());
    }
    if let Some(entity) = entities_get(&room.entities, key.as_str()) {
        let mut entity = entity;
        entity.2.locked = true;
        entity.1.from = client.profile.id;
        assert(entity@ =~= after);
        let told = readers_of(room, &entity.2, client.profile.id);
        proof {
            order = told@;
        }
        let result = Payload::Lock { key: key.clone(), from: client.profile.id };
        effects.push(Effect::Put { key, entity });
        assert(effect_views(effects@) =~= seq![EffectView::Put { key: key@, entity: after }]);
        send_all(&mut effects, &told, "lock", &result);
    }
    effects.push(ok_effect(client.profile.id, seq));
    proof {
        assert(effect_views(effects@) =~= effects_of(room@, who, request, seq, order, after));
    }
    effects
}

/// The effects of a wish to end the room.
fn exit_room(room: &Room, client: &Client, seq: u64) -> (r: Vec<Effect>)
    ensures
        answers(room@, client.profile@, RequestView::Exit, seq, effect_views(r@)),
{
    let ghost who = client.profile@;
    let mut effects: Vec<Effect> = Vec::new();
    effects.push(ok_effect(client.profile.id, seq));
    let order = clients_keys(&room.connections);
    assert(effect_views(effects@) =~= seq![ok(who.id, seq)] + close_all(order@.take(0)));
    for k in 0..order.len()
        invariant
            effect_views(effects@) == seq![ok(who.id, seq)] + close_all(order@.take(k as int)),
    {
        let ghost before = effect_views(effects@);
        effects.push(Effect::Close { to: order[k] });
        proof {
            let e = EffectView::Close { to: order@[k as int] };
            assert(effect_views(effects@) =~= before.push(e));
            assert(close_all(order@.take(k + 1)) =~= close_all(order@.take(k as int)).push(e));
        }
    }
    assert(order@.take(order@.len() as int) =~= order@);
    effects.push(Effect::Exit);
    proof {
        let after = room@.entities[Seq::<char>::empty()];
        assert(effect_views(effects@) =~= effects_of(
            room@,
            who,
            RequestView::Exit,
            seq,
            order@,
            after,
        ));
    }
    effects
}

/// The effects of a client's wish.
pub fn process_message(room: &Room, client: &Client, request: Request, seq: u64) -> (r: Vec<Effect>)
    requires
        is_processable(room@, client.profile@, request@),
    ensures
        answers(room@, client.profile@, request@, seq, effect_views(r@)),
{
    let ghost who = client.profile@;
    let ghost asked = request@;
    let mut effects: Vec<Effect> = Vec::new();
    match request {
        Request::Write { kind, params } => {
            return write_entity(room, client, kind, params, seq);
        },
        Request::Stroke { key, line } => {
            return stroke_doodle(room, client, key, line, seq);
        },
        Request::Lock { key } => {
            return lock_entity(room, client, key, seq);
        },
        Request::Exit => {
            return exit_room(room, client, seq);
        },
        Request::Get { kind, key } => {
            if let Some(entity) = entities_get(&room.entities, key.as_str()) {
                effects.push(
                    Effect::Send {
                        to: client.profile.id,
                        message: JBMessage {
                            pc: 0,
                            re: Some(seq),
                            opcode: kind.to_text(),
                            result: Payload::Object(entity.1),
                        },
                    },
                );
            }
        },
        Request::Drop { key } => {
            effects.push(Effect::Forget { key });
            effects.push(ok_effect(client.profile.id, seq));
        },
        Request::Other => {
            effects.push(ok_effect(client.profile.id, seq));
        },
    }
    proof {
        let order = Seq::<i64>::empty();
        let after = room@.entities[Seq::<char>::empty()];
        assert(order.to_set() =~= Set::<i64>::empty());
        assert(effect_views(effects@) =~= effects_of(room@, who, asked, seq, order, after));
    }
    effects
}

/// The list holds exactly what the map holds, each key once.
pub open spec fn lists<K, V>(s: Seq<(K, V)>, m: Map<K, V>) -> bool {
    &&& forall|i: int, j: int| 0 <= i < j < s.len() ==> s[i].0 != s[j].0
    &&& forall|i: int|
        0 <= i < s.len() ==> m.contains_key((#[trigger] s[i]).0) && m[s[i].0] == s[i].1
    &&& forall|k: K| #[trigger]
        m.contains_key(k) ==> exists|i: int| 0 <= i < s.len() && (#[trigger] s[i]).0 == k
}

/// The entities of a room that a client with this role and this id may read.
pub open spec fn readable_entities(room: RoomView, role: Role, id: i64) -> Map<
    Seq<char>,
    EntityView,
> {
    room.entities.restrict(
        room.entities.dom().filter(
            |k: Seq<char>| may_read(room.entities[k].attributes.acl, role, id),
        ),
    )
}

/// The profiles of the clients of a room.
pub open spec fn profiles_here(room: RoomView) -> Map<i64, ProfileView> {
    room.connections.map_values(|c: ClientView| c.profile)
}

/// The entities of a room that a client with this role and this id may read.
pub fn visible_entities(room: &Room, role: Role, id: i64) -> (r: Vec<(String, JBEntity)>)
    ensures
        lists(keyed_entities(r@), readable_entities(room@, role, id)),
{
    let keys = entities_keys(&room.entities);
    let ghost names = texts(keys@);
    let ghost m = readable_entities(room@, role, id);
    let mut out: Vec<(String, JBEntity)> = Vec::new();
    let ghost mut from: Seq<int> = Seq::empty();
    for k in 0..keys.len()
        invariant
            names == texts(keys@),
            names.no_duplicates(),
            names.to_set() == room@.entities.dom(),
            m == readable_entities(room@, role, id),
            from.len() == out@.len(),
            forall|i: int| 0 <= i < from.len() ==> 0 <= #[trigger] from[i] < k,
            forall|i: int, j: int| 0 <= i < j < from.len() ==> from[i] < from[j],
            forall|i: int|
                0 <= i < from.len() ==> {
                    let e = keyed_entities(out@)[i];
                    e.0 == names[#[trigger] from[i]] && m.contains_key(e.0) && m[e.0] == e.1
                },
            forall|a: int|
                0 <= a < k && m.contains_key(#[trigger] names[a]) ==> exists|i: int|
                    0 <= i < from.len() && #[trigger] from[i] == a,
    {
        let ghost before = out@;
        let ghost from0 = from;
        assert(names[k as int] == keys@[k as int]@);
        assert(names.contains(names[k as int]));
        assert(names.to_set().contains(names[k as int]));
        let key = &keys[k];
        if let Some(entity) = entities_get(&room.entities, key.as_str()) {
            if entity.2.readable_by(role, id) {
                assert(m.contains_key(key@));
                assert(m[key@] == entity@);
                let ghost e = (key@, entity@);
                out.push((key.clone(), entity));
                proof {
                    from = from.push(k as int);
                    assert(keyed_entities(out@) =~= keyed_entities(before).push(e));
                    assert forall|i: int| 0 <= i < from.len() implies {
                        let e = keyed_entities(out@)[i];
                        e.0 == names[#[trigger] from[i]] && m.contains_key(e.0) && m[e.0] == e.1
                    } by {
                        if i < from0.len() {
                            assert(from0[i] == from[i]);
                        }
                    }
                }
            }
        }
        proof {
            assert forall|a: int| 0 <= a < k + 1 && m.contains_key(#[trigger] names[a]) implies exists|
                i: int,
            | 0 <= i < from.len() && #[trigger] from[i] == a by {
                if a < k {
                    let i = choose|i: int| 0 <= i < from0.len() && #[trigger] from0[i] == a;
                    assert(from[i] == a);
                } else {
                    assert(from[from.len() - 1] == a);
                }
            }
        }
    }
    proof {
        let s = keyed_entities(out@);
        assert forall|i: int, j: int| 0 <= i < j < s.len() implies s[i].0 != s[j].0 by {
            assert(from[i] < from[j]);
        }
        assert forall|i: int| 0 <= i < s.len() implies m.contains_key((#[trigger] s[i]).0)
            && m[s[i].0] == s[i].1 by {
            assert(0 <= from[i]);
        }
        assert forall|x: Seq<char>| #[trigger] m.contains_key(x) implies exists|i: int|
            0 <= i < s.len() && (#[trigger] s[i]).0 == x by {
            assert(names.to_set().contains(x));
            let a = choose|a: int| 0 <= a < names.len() && names[a] == x;
            let i = choose|i: int| 0 <= i < from.len() && #[trigger] from[i] == a;
            assert(s[i].0 == x);
        }
    }
    out
}

/// The profiles of the clients of a room.
pub fn here(room: &Room) -> (r: Vec<(i64, JBProfile)>)
    ensures
        lists(keyed_profiles(r@), profiles_here(room@)),
{
    let ids = clients_keys(&room.connections);
    let mut out: Vec<(i64, JBProfile)> = Vec::new();
    for k in 0..ids.len()
        invariant
            ids@.no_duplicates(),
            ids@.to_set() == room@.connections.dom(),
            out@.len() == k,
            forall|i: int|
                0 <= i < k ==> (#[trigger] out@[i]).0 == ids@[i] && out@[i].1@
                    == room@.connections[ids@[i]].profile,
    {
        let id: i64 = ids[k];
        assert(ids@.contains(id));
        assert(ids@.to_set().contains(id));
        if let Some(c) = room.client(id) {
            out.push((id, c.profile));
        }
    }
    proof {
        let s = keyed_profiles(out@);
        let m = profiles_here(room@);
        assert forall|i: int| 0 <= i < s.len() implies m.contains_key((#[trigger] s[i]).0)
            && m[s[i].0] == s[i].1 by {
            assert(out@[i].0 == ids@[i]);
            assert(ids@.to_set().contains(ids@[i]));
        }
        assert forall|i: int, j: int| 0 <= i < j < s.len() implies s[i].0 != s[j].0 by {
            assert(out@[i].0 == ids@[i]);
            assert(out@[j].0 == ids@[j]);
        }
        assert forall|x: i64| #[trigger] m.contains_key(x) implies exists|i: int|
            0 <= i < s.len() && (#[trigger] s[i]).0 == x by {
            assert(ids@.to_set().contains(x));
            let a = choose|a: int| 0 <= a < ids@.len() && ids@[a] == x;
            assert(out@[a].0 == ids@[a]);
            assert(s[a].0 == x);
        }
    }
    out
}

/// The device id that every client is told.
pub open spec fn device_id_text() -> Seq<char> {
    "0000000000.0000000000000000000000"@
}

/// Who a new client with the given id is.
pub open spec fn profile_for(code: Seq<char>, q: WSQueryView, id: i64) -> ProfileView {
    ProfileView {
        id,
        user_id: q.user_id,
        role: q.role,
        name: q.name,
        roles: if q.role == Role::Host {
            ProfileRolesView::Host
        } else {
            ProfileRolesView::Player { name: q.name }
        },
        room: Some(code),
    }
}

/// The client can enter: it is known, or it is a host or a player.
pub open spec fn can_enter(room: RoomView, q: WSQueryView) -> bool {
    room.connections.contains_key(q.id) || q.role == Role::Host || q.role == Role::Player
}

/// The id that a client has once it has entered: its own where that is known, else the next one.
pub open spec fn entered_id(room: RoomView, q: WSQueryView) -> i64 {
    if room.connections.contains_key(q.id) {
        q.id
    } else {
        room.room_serial
    }
}

/// The room once a client has entered: a known client gets a new socket, a new one the next id.
pub open spec fn entered(room: RoomView, code: Seq<char>, q: WSQueryView) -> RoomView {
    if room.connections.contains_key(q.id) {
        RoomView {
            connections: room.connections.insert(
                q.id,
                ClientView { connected: true, ..room.connections[q.id] },
            ),
            ..room
        }
    } else {
        RoomView {
            connections: room.connections.insert(
                room.room_serial,
                ClientView {
                    profile: profile_for(code, q, room.room_serial),
                    connected: true,
                    pc: 0,
                    client_type: ClientType::Ecast,
                },
            ),
            room_serial: next_serial(room.room_serial),
            ..room
        }
    }
}

/// What the client is told: what it may read and who is here.
pub open spec fn is_welcome(
    room: RoomView,
    q: WSQueryView,
    id: i64,
    reconnect: bool,
    secret: Seq<u8>,
    w: WelcomeView,
) -> bool {
    &&& w.id == id
    &&& w.secret == secret
    &&& w.reconnect == reconnect
    &&& w.device_id == device_id_text()
    &&& lists(w.entities, readable_entities(room, q.role, id))
    &&& lists(w.here, profiles_here(room))
    &&& w.profile == room.connections[id].profile
}

/// What the others are told.
pub open spec fn connected_view(p: ProfileView, reconnect: bool) -> ConnectedView {
    ConnectedView {
        id: p.id,
        user_id: p.user_id,
        name: p.name,
        role: p.role,
        reconnect,
        profile: p,
    }
}

/// The effects of a client's entering the room: it is welcomed, and the others are told.
pub open spec fn greets(
    before: RoomView,
    code: Seq<char>,
    q: WSQueryView,
    secret: Seq<u8>,
    effects: Seq<EffectView>,
) -> bool {
    let after = entered(before, code, q);
    let id = entered_id(before, q);
    let reconnect = before.connections.contains_key(q.id);
    exists|w: WelcomeView, order: Seq<i64>|
        #![trigger greeting(after, id, reconnect, w, order)]
        is_welcome(after, q, id, reconnect, secret, w) && is_order_of(
            order,
            after.connections.dom().remove(id),
        ) && effects == greeting(after, id, reconnect, w, order)
}

/// A welcome and the notices to the others in the given order.
pub open spec fn greeting(
    after: RoomView,
    id: i64,
    reconnect: bool,
    w: WelcomeView,
    order: Seq<i64>,
) -> Seq<EffectView> {
    seq![
        EffectView::Send { to: id, message: notice("client/welcome"@, PayloadView::Welcome(w)) },
    ] + to_all(
        order,
        notice(
            "client/connected"@,
            PayloadView::Connected(connected_view(after.connections[id].profile, reconnect)),
        ),
    )
}

/// Everybody in the room but one.
fn others(room: &Room, except: i64) -> (r: Vec<i64>)
    ensures
        is_order_of(r@, room@.connections.dom().remove(except)),
{
    let ids = clients_keys(&room.connections);
    let mut out: Vec<i64> = Vec::new();
    for k in 0..ids.len()
        invariant
            ids@.no_duplicates(),
            ids@.to_set() == room@.connections.dom(),
            out@.no_duplicates(),
            forall|id: i64| #[trigger]
                out@.contains(id) <==> ids@.take(k as int).contains(id) && id != except,
    {
        let id: i64 = ids[k];
        let ghost before = out@;
        proof {
            assert(ids@.take(k + 1) =~= ids@.take(k as int).push(id));
            assert(!ids@.take(k as int).contains(id));
        }
        if id != except {
            out.push(id);
            proof {
                assert(!before.contains(id));
                lemma_push_no_duplicates(before, id);
            }
        }
        proof {
            assert forall|x: i64| #[trigger]
                out@.contains(x) <==> ids@.take(k + 1).contains(x) && x != except by {
                lemma_push_contains(ids@.take(k as int), id, x);
                lemma_push_contains(before, id, x);
            }
        }
    }
    proof {
        assert(ids@.take(ids@.len() as int) =~= ids@);
        assert(out@.to_set() =~= room@.connections.dom().remove(except)) by {
            assert forall|x: i64| #[trigger] out@.to_set().contains(x)
                <==> room@.connections.dom().remove(except).contains(x) by {
                assert(out@.contains(x) <==> ids@.contains(x) && x != except);
                assert(ids@.to_set().contains(x) <==> ids@.contains(x));
            }
        }
    }
    out
}

/// Whether a client can enter.
pub fn may_enter(room: &Room, query: &WSQuery) -> (r: bool)
    ensures
        r == can_enter(room@, query@),
{
    room.client(query.id).is_some() || query.role == Role::Host || query.role == Role::Player
}

/// Lets a client into a room, with the secret that it is to be told.
pub fn enter(room: &mut Room, code: &str, query: &WSQuery, secret: Token) -> (r: (i64, Vec<Effect>))
    requires
        old(room)@.wf(),
        can_enter(old(room)@, query@),
    ensures
        final(room)@ == entered(old(room)@, code@, query@),
        final(room)@.wf(),
        r.0 == entered_id(old(room)@, query@),
        greets(old(room)@, code@, query@, secret@, effect_views(r.1@)),
{
    let (reconnect, id) = match room.client(query.id) {
        Some(c) => {
            let mut c = c;
            c.connected = true;
            room.put_client(query.id, c);
            (true, query.id)
        },
        None => {
            let serial = room.take_serial();
            let roles = if query.role == Role::Host {
                JBProfileRoles::Host
            } else {
                JBProfileRoles::Player { name: query.name.clone() }
            };
            let profile = JBProfile {
                id: serial,
                user_id: query.user_id.clone(),
                role: query.role,
                name: query.name.clone(),
                roles,
                room: Some(code.to_owned()),
            };
            assert(profile@ =~= profile_for(code@, query@, serial));
            room.put_client(
                serial,
                Client { profile, connected: true, pc: 0, client_type: ClientType::Ecast },
            );
            (false, serial)
        },
    };
    let ghost after = entered(old(room)@, code@, query@);
    assert(room@ =~= after);
    let mut effects: Vec<Effect> = Vec::new();
    if let Some(client) = room.client(id) {
        let welcome = ClientWelcome {
            id: client.profile.id,
            secret,
            reconnect,
            device_id: "0000000000.0000000000000000000000".to_owned(),
            entities: visible_entities(room, query.role, client.profile.id),
            here: here(room),
            profile: client.profile.duplicate(),
        };
        let ghost w = welcome@;
        effects.push(
            Effect::Send {
                to: id,
                message: JBMessage {
                    pc: 0,
                    re: None,
                    opcode: "client/welcome".to_owned(),
                    result: Payload::Welcome(welcome),
                },
            },
        );
        let order = others(room, id);
        let connected = ClientConnected {
            id: client.profile.id,
            user_id: client.profile.user_id.clone(),
            name: client.profile.name.clone(),
            role: client.profile.role,
            reconnect,
            profile: client.profile.duplicate(),
        };
        assert(connected@ =~= connected_view(after.connections[id].profile, reconnect));
        assert(effect_views(effects@) =~= seq![
            EffectView::Send { to: id, message: notice("client/welcome"@, PayloadView::Welcome(w)) },
        ]);
        send_all(&mut effects, &order, "client/connected", &Payload::Connected(connected));
        assert(effect_views(effects@) =~= greeting(after, id, reconnect, w, order@));
        assert(is_welcome(after, query@, id, reconnect, secret@, w));
        assert(is_order_of(order@, after.connections.dom().remove(id)));
        assert(greeting(after, id, reconnect, w, order@) == greeting(
            entered(old(room)@, code@, query@),
            entered_id(old(room)@, query@),
            old(room)@.connections.contains_key(query@.id),
            w,
            order@,
        ));
    }
    (id, effects)
}

/// Lets a client into a room. It is told the token that it came with, or else a drawn one.
pub fn handle_socket(room: &mut Room, code: &str, query: &WSQuery) -> (r: (i64, Vec<Effect>))
    requires
        old(room)@.wf(),
        can_enter(old(room)@, query@),
    ensures
        final(room)@ == entered(old(room)@, code@, query@),
        final(room)@.wf(),
        r.0 == entered_id(old(room)@, query@),
        exists|secret: Seq<u8>| #[trigger]
            greets(old(room)@, code@, query@, secret, effect_views(r.1@)) && match query@.host_token {
                Some(t) => secret == t,
                None => secret.len() == 12,
            },
{
    let secret = match query.host_token {
        Some(t) => t,
        None => Token::random(),
    };
    enter(room, code, query, secret)
}

/// What is done about something that happens at a socket: a text is handled, a ping is answered, a
/// close or the end of the room makes the client leave, and the latter takes the room out of the
/// directory.
pub fn next_step(event: SocketEvent) -> (r: SocketStep)
    ensures
        match event {
            SocketEvent::Text => r is Handle,
            SocketEvent::Ping(d) => r == SocketStep::Pong(d),
            SocketEvent::Close => r == (SocketStep::Leave { drop_room: false }),
            SocketEvent::RoomEnded => r == (SocketStep::Leave { drop_room: true }),
            _ => r is Wait,
        },
{
    match event {
        SocketEvent::Text => SocketStep::Handle,
        SocketEvent::Ping(d) => SocketStep::Pong(d),
        SocketEvent::Close => SocketStep::Leave { drop_room: false },
        SocketEvent::RoomEnded => SocketStep::Leave { drop_room: true },
        _ => SocketStep::Wait,
    }
}

/// The effects of a client's leaving: with a host, the room ends.
pub fn leave(role: Role) -> (r: Vec<Effect>)
    ensures
        effect_views(r@) == (if role == Role::Host {
            seq![EffectView::Exit]
        } else {
            Seq::empty()
        }),
{
    let mut effects: Vec<Effect> = Vec::new();
    if role == Role::Host {
        effects.push(Effect::Exit);
        assert(effect_views(effects@) =~= seq![EffectView::Exit]);
    } else {
        assert(effect_views(effects@) =~= Seq::<EffectView>::empty());
    }
    effects
}

} // verus!
