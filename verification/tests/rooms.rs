use johnbox::acl::{Acl, Role};
use johnbox::ecast::ws::{can_process, enter, handle_socket, here, leave, may_enter, next_step};
use johnbox::ecast::ws::{operation, process_message, visible_entities, JBCreateParams, JBMessage};
use johnbox::ecast::ws::{Operation, ParamValue, Payload, Request};
use johnbox::ecast::WSQuery;
use johnbox::entity::{JBDoodle, JBLine, JBPoint, JBRestrictions, JBSize, JBType, JBValue, Rgba};
use johnbox::message::{Effect, Outgoing, SocketEvent, SocketStep};
use johnbox::room::{JBProfileRoles, JBRoom, Room, SendOutcome, Task};
use johnbox::token::Token;

fn room() -> Room {
    let s = |t: &str| t.to_owned();
    Room::new(JBRoom::fresh(s("app"), s("tag"), true, s("ABCD"), s("host"), s("audience")))
}

fn query(role: Role, name: &str, id: i64) -> WSQuery {
    WSQuery {
        user_id: format!("user-{}", name),
        format: "json".to_owned(),
        name: name.to_owned(),
        role,
        host_token: None,
        secret: None,
        id,
    }
}

fn join(room: &mut Room, role: Role, name: &str) -> i64 {
    let (id, effects) = handle_socket(room, "ABCD", &query(role, name, 0));
    run(room, effects);
    id
}

fn run(room: &mut Room, effects: Vec<Effect>) -> Vec<(i64, Outgoing)> {
    let mut sent = vec![];
    for e in effects {
        if let Task::Deliver { to, frame, .. } = room.perform(e) {
            sent.push((to, frame));
        }
    }
    sent
}

fn ask(room: &mut Room, id: i64, request: Request, seq: u64) -> Vec<(i64, Outgoing)> {
    let client = room.client(id).unwrap();
    assert!(can_process(room, &client, &request));
    let effects = process_message(room, &client, request, seq);
    run(room, effects)
}

fn ecast(frame: &Outgoing) -> &JBMessage {
    match frame {
        Outgoing::Ecast(m) => m,
        _ => panic!("another protocol"),
    }
}

fn params(key: &str, text: &str, acl: &str) -> JBCreateParams {
    JBCreateParams {
        acl: vec![Acl::from_str(acl).unwrap()],
        key: key.to_owned(),
        val: ParamValue::Text(text.to_owned()),
        restrictions: JBRestrictions::default(),
        doodle: doodle(),
    }
}

fn doodle() -> JBDoodle {
    JBDoodle {
        colors: vec![],
        live: true,
        max_points: 1,
        max_layer: 1,
        size: JBSize { width: 1, height: 1 },
        weights: Some(vec![4]),
        lines: vec![],
    }
}

fn write(key: &str, text: &str, acl: &str) -> Request {
    Request::Write { kind: JBType::Text, params: params(key, text, acl) }
}

fn get(key: &str) -> Request {
    Request::Get { kind: JBType::Text, key: key.to_owned() }
}

fn line(index: usize) -> JBLine {
    let color = Rgba { r: 0, g: 0, b: 0, a: 255 };
    JBLine { color, weight: 0, layer: 0, points: vec![JBPoint { x: 1, y: 2 }], index }
}

#[test]
fn opcodes() {
    assert_eq!(operation("text/create"), Operation::Write(JBType::Text));
    assert_eq!(operation("number/set"), Operation::Write(JBType::Number));
    assert_eq!(operation("object/update/more"), Operation::Write(JBType::Object));
    assert_eq!(operation("doodle/stroke"), Operation::Stroke);
    assert_eq!(operation("doodle/get"), Operation::Get(JBType::Doodle));
    assert_eq!(operation("room/exit"), Operation::Exit);
    assert_eq!(operation("lock"), Operation::Lock);
    assert_eq!(operation("drop"), Operation::Drop);
    for o in ["", "text", "room/create", "text/stroke", "text/exit", "lock/get", "lock/", "client/send"] {
        assert_eq!(operation(o), Operation::Other, "{}", o);
    }
}

#[test]
fn first_clients_are_welcomed() {
    let mut r = room();
    let mut q = query(Role::Host, "", 0);
    q.host_token = Some(Token::from([7; 12]));
    let (host, effects) = handle_socket(&mut r, "ABCD", &q);
    assert_eq!(host, 1);
    let sent = run(&mut r, effects);
    assert_eq!(sent.len(), 1);
    let m = ecast(&sent[0].1);
    assert_eq!((m.pc, m.re, m.opcode.as_str()), (0, None, "client/welcome"));
    match &m.result {
        Payload::Welcome(w) => {
            assert_eq!(w.id, 1);
            assert_eq!(w.secret.to_text(), "070707070707070707070707");
            assert!(!w.reconnect);
            assert_eq!(w.device_id, "0000000000.0000000000000000000000");
            assert_eq!(w.here.len(), 1);
            assert!(w.entities.is_empty());
            assert_eq!(w.profile.room.as_deref(), Some("ABCD"));
            assert!(matches!(w.profile.roles, JBProfileRoles::Host));
        }
        _ => panic!("no welcome"),
    }
    let (player, effects) = handle_socket(&mut r, "ABCD", &query(Role::Player, "ann", 0));
    assert_eq!(player, 2);
    let sent = run(&mut r, effects);
    assert_eq!(sent.len(), 2);
    assert_eq!(sent[1].0, 1);
    let m = ecast(&sent[1].1);
    assert_eq!((m.pc, m.opcode.as_str()), (1, "client/connected"));
    match &m.result {
        Payload::Connected(c) => {
            assert_eq!((c.id, c.name.as_str(), c.user_id.as_str()), (2, "ann", "user-ann"));
            assert_eq!(c.role, Role::Player);
            assert!(!c.reconnect);
            assert!(matches!(&c.profile.roles, JBProfileRoles::Player { name } if name == "ann"));
        }
        _ => panic!("no notice"),
    }
    assert_eq!(here(&r).len(), 2);
}

#[test]
fn drawn_secrets_are_told() {
    let mut r = room();
    let (_, effects) = handle_socket(&mut r, "ABCD", &query(Role::Player, "a", 0));
    match &effects[0] {
        Effect::Send { message: JBMessage { result: Payload::Welcome(w), .. }, .. } => {
            assert_ne!(w.secret.to_text(), "000000000000000000000000");
        }
        _ => panic!("no welcome"),
    }
}

#[test]
fn clients_come_back() {
    let mut r = room();
    let host = join(&mut r, Role::Host, "");
    let player = join(&mut r, Role::Player, "ann");
    r.disconnect(player);
    assert!(!r.client(player).unwrap().connected);
    let (id, effects) = enter(&mut r, "ABCD", &query(Role::Player, "other", player), Token::from([1; 12]));
    assert_eq!(id, player);
    let sent = run(&mut r, effects);
    assert_eq!(sent[0].0, player);
    let m = ecast(&sent[0].1);
    assert_eq!(m.pc, 1);
    assert!(matches!(&m.result, Payload::Welcome(w) if w.reconnect && w.profile.name == "ann"));
    assert_eq!(sent[1].0, host);
    assert!(matches!(&ecast(&sent[1].1).result, Payload::Connected(c) if c.reconnect));
    assert_eq!(r.room_serial, 3);
    let (id, _) = enter(&mut r, "ABCD", &query(Role::Player, "bob", 77), Token::from([1; 12]));
    assert_eq!(id, 3);
}

#[test]
fn audiences_cannot_enter_anew() {
    let mut r = room();
    assert!(!may_enter(&r, &query(Role::Audience, "a", 0)));
    assert!(!may_enter(&r, &query(Role::Moderator, "a", 0)));
    assert!(may_enter(&r, &query(Role::Player, "a", 0)));
    let id = join(&mut r, Role::Player, "a");
    assert!(may_enter(&r, &query(Role::Audience, "a", id)));
}

#[test]
fn what_is_written_is_read() {
    let mut r = room();
    let host = join(&mut r, Role::Host, "");
    let a = join(&mut r, Role::Player, "a");
    let b = join(&mut r, Role::Player, "b");
    let sent = ask(&mut r, host, write("k", "v", &format!("r id:{}", a)), 11);
    assert_eq!(sent.len(), 2);
    assert_eq!(sent[0].0, a);
    let m = ecast(&sent[0].1);
    assert_eq!((m.re, m.opcode.as_str()), (None, "text"));
    match &m.result {
        Payload::Object(o) => {
            assert_eq!((o.key.as_str(), o.version, o.from), ("k", 0, host));
            assert!(matches!(&o.val, Some(JBValue::Text(t)) if t == "v"));
        }
        _ => panic!("no object"),
    }
    assert_eq!(sent[1].0, host);
    let m = ecast(&sent[1].1);
    assert_eq!((m.re, m.opcode.as_str()), (Some(11), "ok"));
    assert!(matches!(m.result, Payload::Empty));
    let sent = ask(&mut r, b, get("k"), 3);
    assert_eq!(sent.len(), 1);
    let m = ecast(&sent[0].1);
    assert_eq!((sent[0].0, m.re, m.opcode.as_str()), (b, Some(3), "text"));
    assert!(matches!(&m.result, Payload::Object(o) if o.version == 0));
    assert!(ask(&mut r, b, get("none"), 3).is_empty());
    assert_eq!(visible_entities(&r, Role::Player, a).len(), 1);
    assert_eq!(visible_entities(&r, Role::Player, b).len(), 0);
    assert_eq!(visible_entities(&r, Role::Host, b)[0].0, "k");
}

#[test]
fn rewriting_counts_versions() {
    let mut r = room();
    let host = join(&mut r, Role::Host, "");
    let a = join(&mut r, Role::Player, "a");
    ask(&mut r, host, write("k", "1", "rw role:player"), 1);
    ask(&mut r, a, write("k", "2", "r *"), 2);
    let e = visible_entities(&r, Role::Host, host).remove(0).1;
    assert_eq!((e.1.version, e.1.from), (1, a));
    assert_eq!(e.2.acl[0].to_text(), "rw role:player");
    assert!(matches!(&e.1.val, Some(JBValue::Text(t)) if t == "2"));
}

#[test]
fn only_hosts_make_entities() {
    let mut r = room();
    let host = join(&mut r, Role::Host, "");
    let a = join(&mut r, Role::Player, "a");
    assert!(ask(&mut r, a, write("k", "v", "r *"), 5).is_empty());
    assert!(visible_entities(&r, Role::Host, host).is_empty());
}

#[test]
fn values_that_do_not_fit() {
    let mut r = room();
    let host = join(&mut r, Role::Host, "");
    let a = join(&mut r, Role::Player, "a");
    let wrong = |kind| Request::Write { kind, params: params("k", "v", "r *") };
    let h = r.client(host).unwrap();
    assert!(!can_process(&r, &h, &wrong(JBType::Number)));
    assert!(!can_process(&r, &h, &wrong(JBType::Object)));
    assert!(can_process(&r, &h, &wrong(JBType::Doodle)));
    assert!(can_process(&r, &r.client(a).unwrap(), &wrong(JBType::Number)));
}

#[test]
fn locks_last_until_the_next_write() {
    let mut r = room();
    let host = join(&mut r, Role::Host, "");
    let a = join(&mut r, Role::Player, "a");
    ask(&mut r, host, write("k", "1", "r *"), 1);
    let sent = ask(&mut r, a, Request::Lock { key: "k".to_owned() }, 9);
    assert_eq!(sent[0].0, host);
    let m = ecast(&sent[0].1);
    assert_eq!(m.opcode, "lock");
    assert!(matches!(&m.result, Payload::Lock { key, from } if key == "k" && *from == a));
    assert_eq!(ecast(&sent[1].1).re, Some(9));
    let e = visible_entities(&r, Role::Host, host).remove(0).1;
    assert!(e.2.locked);
    assert_eq!(e.1.from, a);
    ask(&mut r, a, write("k", "2", "r *"), 2);
    assert!(!visible_entities(&r, Role::Host, host).remove(0).1 .2.locked);
    let sent = ask(&mut r, a, Request::Lock { key: "none".to_owned() }, 10);
    assert_eq!(sent.len(), 1);
    assert_eq!(ecast(&sent[0].1).opcode, "ok");
}

#[test]
fn dropped_entities_are_gone() {
    let mut r = room();
    let host = join(&mut r, Role::Host, "");
    ask(&mut r, host, write("k", "1", "r *"), 1);
    ask(&mut r, host, write("k", "2", "r *"), 2);
    let sent = ask(&mut r, host, Request::Drop { key: "k".to_owned() }, 4);
    assert_eq!(sent.len(), 1);
    assert_eq!(ecast(&sent[0].1).re, Some(4));
    assert!(ask(&mut r, host, get("k"), 5).is_empty());
    ask(&mut r, host, write("k", "3", "r *"), 6);
    assert_eq!(visible_entities(&r, Role::Host, host)[0].1 .1.version, 0);
}

#[test]
fn strokes_are_added_and_told() {
    let mut r = room();
    let host = join(&mut r, Role::Host, "");
    let a = join(&mut r, Role::Player, "a");
    ask(&mut r, host, Request::Write { kind: JBType::Doodle, params: params("d", "", "r role:player") }, 1);
    for i in [2, 0, 1] {
        let sent = ask(&mut r, host, Request::Stroke { key: "d".to_owned(), line: line(i) }, 8);
        assert_eq!(sent.len(), 2);
        assert_eq!(sent[0].0, a);
        assert_eq!(ecast(&sent[0].1).opcode, "doodle/line");
        assert!(matches!(&ecast(&sent[0].1).result,
            Payload::Line { key, from, line } if key == "d" && *from == host && line.index == i));
        assert_eq!(ecast(&sent[1].1).re, Some(8));
    }
    let e = visible_entities(&r, Role::Host, host).remove(0).1;
    assert_eq!(e.1.version, 0);
    match e.1.val {
        Some(JBValue::Doodle(d)) => {
            let order: Vec<usize> = d.lines.iter().map(|l| l.index).collect();
            assert_eq!(order, vec![0, 1, 2]);
            assert_eq!(d.weights, Some(vec![4]));
        }
        _ => panic!("no drawing"),
    }
    ask(&mut r, host, write("t", "x", "r *"), 1);
    assert!(ask(&mut r, host, Request::Stroke { key: "t".to_owned(), line: line(0) }, 8).is_empty());
    assert!(ask(&mut r, host, Request::Stroke { key: "none".to_owned(), line: line(0) }, 8).is_empty());
}

#[test]
fn ending_a_room_closes_all_sockets() {
    let mut r = room();
    let host = join(&mut r, Role::Host, "");
    let a = join(&mut r, Role::Player, "a");
    let client = r.client(host).unwrap();
    let effects = process_message(&r, &client, Request::Exit, 2);
    assert!(matches!(effects.last(), Some(Effect::Exit)));
    let mut closed = vec![];
    let mut woken = 0;
    for e in effects {
        match r.perform(e) {
            Task::Deliver { to, closing: true, frame: Outgoing::Close { code, reason } } => {
                assert_eq!((code, reason.as_str()), (1000, "normal close"));
                closed.push(to);
            }
            Task::Wake => woken += 1,
            _ => {}
        }
    }
    closed.sort();
    assert_eq!(closed, vec![host, a]);
    assert_eq!(woken, 1);
}

#[test]
fn other_messages_are_heard() {
    let mut r = room();
    let a = join(&mut r, Role::Player, "a");
    let sent = ask(&mut r, a, Request::Other, 12);
    assert_eq!(sent.len(), 1);
    assert_eq!(ecast(&sent[0].1).re, Some(12));
    assert_eq!(ecast(&sent[0].1).opcode, "ok");
}

#[test]
fn messages_are_numbered() {
    let mut r = room();
    let a = join(&mut r, Role::Player, "a");
    for i in 1..5 {
        let sent = ask(&mut r, a, Request::Other, 0);
        assert_eq!(ecast(&sent[0].1).pc, i);
    }
    r.disconnect(a);
    assert!(ask(&mut r, a, Request::Other, 0).is_empty());
    assert_eq!(r.client(a).unwrap().pc, 6);
}

#[test]
fn sockets_that_fail() {
    let mut r = room();
    let a = join(&mut r, Role::Player, "a");
    assert_eq!(r.delivered(a, false, SendOutcome::Delivered), Ok(()));
    assert!(r.client(a).unwrap().connected);
    assert_eq!(r.delivered(a, true, SendOutcome::Failed), Err(()));
    assert!(r.client(a).unwrap().connected);
    assert_eq!(r.delivered(a, false, SendOutcome::Failed), Err(()));
    assert!(!r.client(a).unwrap().connected);
    let b = join(&mut r, Role::Player, "b");
    assert_eq!(r.delivered(b, true, SendOutcome::TimedOut), Ok(()));
    assert!(!r.client(b).unwrap().connected);
    assert_eq!(r.delivered(99, false, SendOutcome::Failed), Err(()));
    assert_eq!(johnbox::room::SEND_TIMEOUT_SECS, 3);
}

#[test]
fn pings_are_answered() {
    let mut r = room();
    let a = join(&mut r, Role::Player, "a");
    let c = r.client(a).unwrap();
    assert!(matches!(c.pong(vec![1, 2]), Some(Outgoing::Pong(d)) if d == vec![1, 2]));
    r.disconnect(a);
    assert!(r.client(a).unwrap().pong(vec![1]).is_none());
}

#[test]
fn steps_of_an_entity_socket() {
    assert!(matches!(next_step(SocketEvent::Text), SocketStep::Handle));
    assert!(matches!(next_step(SocketEvent::Ping(vec![4])), SocketStep::Pong(d) if d == vec![4]));
    assert!(matches!(next_step(SocketEvent::Close), SocketStep::Leave { drop_room: false }));
    assert!(matches!(next_step(SocketEvent::RoomEnded), SocketStep::Leave { drop_room: true }));
    assert!(matches!(next_step(SocketEvent::Other), SocketStep::Wait));
    assert!(matches!(next_step(SocketEvent::ReadError), SocketStep::Wait));
    assert!(matches!(next_step(SocketEvent::Ended), SocketStep::Wait));
    assert!(matches!(leave(Role::Host).as_slice(), [Effect::Exit]));
    assert!(leave(Role::Player).is_empty());
}
