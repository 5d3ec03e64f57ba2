use johnbox::acl::Role;
use johnbox::blobcast::ws::{admit_host, can_process, create_room, find_user, frame_text};
use johnbox::blobcast::ws::{handle_socket, hello, leave, next_step, process_message, JBArgs};
use johnbox::blobcast::ws::{JBMessage, JBMessageArgs, WSMessage};
use johnbox::blobcast::{BlobcastRoomResponse, BlobcastWSQuery};
use johnbox::ecast::{AppConfig, JBResponse, Play, RoomRequest, RoomResponse, RoomsGet, WSQuery};
use johnbox::entity::JBValue;
use johnbox::json::{Json, JsonObject};
use johnbox::message::{Effect, SocketEvent, SocketStep};
use johnbox::room::{JBRoom, Room};
use johnbox::state::{Config, Ecast, OpMode, Ports, State};
use johnbox::token::Token;

fn state(op_mode: OpMode, server_url: Option<&str>) -> State {
    let protocol = || Ecast { op_mode, server_url: server_url.map(|s| s.to_owned()) };
    let config = Config {
        ecast: protocol(),
        blobcast: protocol(),
        ports: Ports { https: 443, blobcast: 38203, http: None },
        accessible_host: "10.0.0.1".to_owned(),
    };
    State::new(config, false)
}

fn request() -> RoomRequest {
    RoomRequest { app_id: "id".to_owned(), app_tag: "quiplash3".to_owned(), audience_enabled: true }
}

fn reply(host: &str, code: &str) -> RoomResponse {
    RoomResponse { host: host.to_owned(), code: code.to_owned(), token: "tok".to_owned() }
}

fn query(role: Role) -> WSQuery {
    WSQuery {
        user_id: "u 1".to_owned(),
        format: "json".to_owned(),
        name: "a&b".to_owned(),
        role,
        host_token: Some(Token::from([1; 12])),
        secret: None,
        id: -3,
    }
}

fn blob() -> Json {
    Json::Object(JsonObject { members: vec![("state".to_owned(), "\"lobby\"".to_owned())] })
}

fn message(action: &str, customer: &str, blob: Json) -> JBMessage {
    let mut args = JBArgs::default();
    args.action = action.to_owned();
    args.customer_user_id = customer.to_owned();
    args.blob = blob;
    JBMessage { name: "msg".to_owned(), args: JBMessageArgs::Object(args) }
}

fn blob_room() -> (State, Room, i64) {
    let mut s = state(OpMode::Native, None);
    let mut args = JBArgs::default();
    args.app_id = "app".to_owned();
    args.user_id = "host-user".to_owned();
    let (_, mut room, _) = create_room(&mut s, &args, Some("tag".to_owned()), "10.0.0.1", "WXYZ");
    let id = admit_host(&mut room, &args);
    (s, room, id)
}

#[test]
fn rooms_are_opened_here() {
    let mut s = state(OpMode::Native, None);
    assert!(johnbox::ecast::rooms_url(&s).is_none());
    let (handle, room, answer) = johnbox::ecast::rooms_handler(&mut s, &request(), None);
    assert!(answer.ok);
    let code = answer.body.code.clone();
    assert_eq!(code.len(), 4);
    assert_eq!(answer.body.host, "10.0.0.1");
    assert_eq!(answer.body.token.len(), 24);
    assert_eq!(room.room_config.code, code);
    let entry = s.room(&code).unwrap();
    assert_eq!(entry.handle, handle);
    assert_eq!(entry.room_config.app_tag, "quiplash3");
    assert_eq!(entry.room_config.locale, "en");
    assert!(entry.room_config.audience_enabled && !entry.room_config.locked);
    match johnbox::ecast::rooms_get_handler(&s, &code) {
        Ok(RoomsGet::Known(r)) => assert!(r.ok && r.body.app_id == "id" && r.body.host == "10.0.0.1"),
        _ => panic!("not known"),
    }
    let e = johnbox::ecast::rooms_get_handler(&s, "none").unwrap_err();
    assert_eq!((e.status, e.text.as_str()), (404, "Room not found"));
    assert!(matches!(johnbox::ecast::play_handler(&s, &code, &query(Role::Player)),
        Ok(Play::Enter { handle: h }) if h == handle));
    assert_eq!(s.close_room(&code), Some(handle));
    assert_eq!(s.close_room(&code), None);
    assert_eq!(johnbox::ecast::play_handler(&s, &code, &query(Role::Player)).unwrap_err().status, 404);
}

#[test]
fn rooms_have_their_own_numbers() {
    let mut s = state(OpMode::Proxy, None);
    let (a, _, _) = johnbox::ecast::rooms_handler(&mut s, &request(), Some(reply("h", "AAAA")));
    let (b, _, _) = johnbox::ecast::rooms_handler(&mut s, &request(), Some(reply("h", "BBBB")));
    assert_ne!(a, b);
    let (c, _, _) = johnbox::ecast::rooms_handler(&mut s, &request(), Some(reply("i", "AAAA")));
    assert_eq!(s.room("AAAA").unwrap().handle, c);
    assert_eq!(s.room("AAAA").unwrap().room_config.host, "i");
    assert_eq!(s.room("BBBB").unwrap().handle, b);
}

#[test]
fn rooms_are_opened_elsewhere() {
    let mut s = state(OpMode::Proxy, Some("https://other"));
    assert_eq!(johnbox::ecast::rooms_url(&s).unwrap(), "https://other/api/v2/rooms");
    let (_, _, answer) = johnbox::ecast::rooms_handler(&mut s, &request(), Some(reply("e.com", "CODE")));
    assert_eq!(answer.body.host, "10.0.0.1");
    assert_eq!(answer.body.code, "CODE");
    assert_eq!(answer.body.token, "tok");
    assert_eq!(s.room("CODE").unwrap().room_config.host, "e.com");
    assert_eq!(s.room("CODE").unwrap().room_config.audience_host, "10.0.0.1");
    match johnbox::ecast::play_handler(&s, "CODE", &query(Role::Player)) {
        Ok(Play::PassOn { host, request }) => {
            assert_eq!(host, "wss://e.com");
            assert_eq!(
                request,
                "wss://e.com/api/v2/rooms/CODE/play?user-id=u+1&format=json&name=a%26b&role=player\
                 &host-token=010101010101010101010101&id=-3"
            );
        }
        _ => panic!("not passed on"),
    }
    match johnbox::ecast::play_handler(&s, "CODE", &query(Role::Audience)) {
        Ok(Play::PassOn { host, request }) => {
            assert_eq!(host, "wss://ecast.jackboxgames.com");
            assert!(request.starts_with("wss://ecast.jackboxgames.com/api/v2/audience/CODE/play?"));
        }
        _ => panic!("not passed on"),
    }
    match johnbox::ecast::rooms_get_handler(&s, "ABCD") {
        Ok(RoomsGet::Ask { url }) => assert_eq!(url, "https://other/api/v2/rooms/ABCD"),
        _ => panic!("not asked"),
    }
    let t = |t: &str| t.to_owned();
    let body = JBRoom::fresh(t("a"), t("b"), false, t("ABCD"), t("far"), t("away"));
    let answer = johnbox::ecast::rooms_get_answered(&s, JBResponse { ok: true, body });
    assert_eq!((answer.body.host.as_str(), answer.body.audience_host.as_str()), ("10.0.0.1", "10.0.0.1"));
    assert_eq!(answer.body.code, "ABCD");
}

#[test]
fn hosts_with_schemes_are_made_sockets() {
    let mut s = state(OpMode::Proxy, None);
    johnbox::ecast::rooms_handler(&mut s, &request(), Some(reply("https://a/http://b", "CODE")));
    match johnbox::ecast::play_handler(&s, "CODE", &query(Role::Host)) {
        Ok(Play::PassOn { host, .. }) => assert_eq!(host, "wss://wss://a/ws://b"),
        _ => panic!("not passed on"),
    }
}

#[test]
fn settings_of_games() {
    let pairs = vec![("a b".to_owned(), "1/2".to_owned()), ("c".to_owned(), "é".to_owned())];
    match johnbox::ecast::app_config_handler(&state(OpMode::Proxy, None), "drawful2", &pairs) {
        AppConfig::Ask { url } => assert_eq!(
            url,
            "https://ecast.jackboxgames.com/api/v2/app-configs/drawful2?a+b=1%2F2&c=%C3%A9"
        ),
        _ => panic!("not asked"),
    }
    match johnbox::ecast::app_config_handler(&state(OpMode::Native, None), "drawful2", &pairs) {
        AppConfig::Known(r) => assert!(r.ok && r.body.server_url == "10.0.0.1"),
        _ => panic!("not known"),
    }
}

#[test]
fn queries_are_encoded() {
    let s = state(OpMode::Proxy, Some("h"));
    let url = |pairs: &[(&str, &str)]| {
        let pairs = pairs.iter().map(|p| (p.0.to_owned(), p.1.to_owned())).collect();
        match johnbox::ecast::app_config_handler(&s, "t", &pairs) {
            AppConfig::Ask { url } => url,
            _ => panic!("not asked"),
        }
    };
    assert_eq!(url(&[]), "h/api/v2/app-configs/t?");
    assert_eq!(url(&[("", "")]), "h/api/v2/app-configs/t?=");
    assert_eq!(url(&[("", ""), ("", "")]), "h/api/v2/app-configs/t?=&=");
    assert_eq!(url(&[("aZ09*-._", "~+ %\n")]), "h/api/v2/app-configs/t?aZ09*-._=%7E%2B+%25%0A");
    assert_eq!(url(&[("k", "🎉")]), "h/api/v2/app-configs/t?k=%F0%9F%8E%89");
}

#[test]
fn blob_servers_are_passed_on() {
    let mut s = state(OpMode::Proxy, None);
    assert_eq!(johnbox::blobcast::rooms_url(&s).unwrap(), "http://blobcast.jackboxgames.com/room");
    let far = BlobcastRoomResponse { create: false, server: "blob.example".to_owned() };
    let r = johnbox::blobcast::rooms_handler(&mut s, Some(far));
    assert!(!r.create);
    assert_eq!(r.server, "10.0.0.1");
    assert_eq!(s.blobcast_host, "blob.example");
    let (host, request) = johnbox::blobcast::play_handler(&s, "42");
    assert_eq!(host, "wss://blob.example:38203/socket.io/1/websocket/42");
    assert_eq!(request, "wss://blob.example:38203/socket.io/1/websocket/42/socket.io/websocket/42");
    assert_eq!(
        johnbox::blobcast::load_handler(&s, BlobcastWSQuery { t: 1700 }),
        "https://blob.example:38203/socket.io/1?t=1700"
    );
    assert_eq!(
        johnbox::blobcast::access_token_handler(&s),
        "http://blobcast.jackboxgames.com/accessToken"
    );
    assert_eq!(
        johnbox::blobcast::access_token_handler(&state(OpMode::Proxy, Some("http://x"))),
        "http://x/accessToken"
    );
}

#[test]
fn blob_rooms_can_be_opened_here() {
    let mut s = state(OpMode::Native, None);
    assert!(johnbox::blobcast::rooms_url(&s).is_none());
    let r = johnbox::blobcast::rooms_handler(&mut s, None);
    assert!(r.create);
    assert_eq!(r.server, "10.0.0.1");
    assert_eq!(s.blobcast_host, "");
}

#[test]
fn frames_are_read() {
    let m = WSMessage::from_str("5:::{\"a\":1}").unwrap();
    assert_eq!((m.opcode, m.payload.as_deref()), (5, Some("{\"a\":1}")));
    let m = WSMessage::from_str("2::").unwrap();
    assert_eq!((m.opcode, m.payload), (2, None));
    let m = WSMessage::from_str("+5::x").unwrap();
    assert_eq!((m.opcode, m.payload.as_deref()), (5, Some("")));
    assert_eq!(WSMessage::from_str("5::").unwrap_err(), Some(5));
    assert_eq!(WSMessage::from_str("5::é").unwrap_err(), Some(5));
    assert_eq!(WSMessage::from_str("5:").unwrap_err(), None);
    assert_eq!(WSMessage::from_str("256::").unwrap_err(), None);
    assert_eq!(WSMessage::from_str("::").unwrap_err(), None);
}

#[test]
fn frames_are_read_back() {
    for json in ["", "{}", "é::5"] {
        let m = WSMessage::from_str(&frame_text(json)).unwrap();
        assert_eq!((m.opcode, m.payload.as_deref()), (5, Some(json)));
    }
    assert_eq!(hello(), "1::");
}

#[test]
fn blob_rooms_are_opened_over_sockets() {
    let mut s = state(OpMode::Native, None);
    let mut args = JBArgs::default();
    args.app_id = "app".to_owned();
    let (code, handle, room, text) = handle_socket(&mut s, &args, None, "10.0.0.1");
    assert_eq!(code.len(), 4);
    assert_eq!(s.room(&code).unwrap().handle, handle);
    assert_eq!(room.room_config.app_tag, "");
    assert_eq!(room.room_config.host, "10.0.0.1");
    assert!(!room.room_config.audience_enabled);
    assert_eq!(
        text,
        format!(
            "5:::{{\"name\": \"msg\",\"args\": [{{\"type\": \"Result\",\"action\": \"CreateRoom\",\
             \"success\": true,\"roomId\": \"{}\"}}]}}",
            code
        )
    );
    let (_, room, host) = blob_room();
    assert_eq!(room.room_config.app_tag, "tag");
    assert_eq!(host, 1);
    let c = room.client(1).unwrap();
    assert_eq!((c.profile.user_id.as_str(), c.profile.name.as_str()), ("host-user", ""));
    assert_eq!(c.profile.role, Role::Host);
}

#[test]
fn room_blobs_are_told_to_all() {
    let (_, mut room, host) = blob_room();
    let mut q = query(Role::Player);
    q.id = 0;
    let (player, _) = johnbox::ecast::ws::handle_socket(&mut room, "WXYZ", &q);
    let m = message("SetRoomBlob", "", blob());
    assert!(can_process(&room, m.args.get_args()));
    let client = room.client(host).unwrap();
    for version in 0..2 {
        let effects = process_message(&room, &client, &m);
        assert_eq!(effects.len(), 4);
        let mut told = vec![];
        for e in &effects {
            match e {
                Effect::Send { to, message } => {
                    assert_eq!((*to, message.opcode.as_str()), (player, "object"));
                    told.push(*to);
                }
                Effect::SendBlobcast { to, notice } => {
                    let a = notice.args.get_args();
                    assert_eq!(*to, host);
                    assert!(matches!(notice.args, JBMessageArgs::Array(_)));
                    if a.arg_type == "Event" {
                        assert_eq!(a.action, "RoomBlobChanged");
                        assert_eq!(a.room_id, "WXYZ");
                        assert!(matches!(&a.blob, Json::Object(o) if o.members[0].1 == "\"lobby\""));
                        told.push(*to);
                    } else {
                        assert_eq!((a.arg_type.as_str(), a.action.as_str()), ("Result", "SetRoomBlob"));
                        assert_eq!(a.success, Some(true));
                    }
                }
                Effect::Put { key, entity } => {
                    assert_eq!(key, "bc:room");
                    assert_eq!(entity.1.version, version);
                    assert_eq!(entity.1.from, host);
                    assert_eq!(entity.2.acl[0].to_text(), "r *");
                    assert!(matches!(&entity.1.val, Some(JBValue::Object(_))));
                }
                _ => panic!("unexpected"),
            }
        }
        told.sort();
        assert_eq!(told, vec![host, player]);
        for e in effects {
            room.perform(e);
        }
    }
}

#[test]
fn customer_blobs_are_private() {
    let (_, mut room, host) = blob_room();
    let mut q = query(Role::Player);
    q.id = 0;
    let (player, _) = johnbox::ecast::ws::handle_socket(&mut room, "WXYZ", &q);
    assert_eq!(find_user(&room, "u 1"), Some(player));
    assert_eq!(find_user(&room, "nobody"), None);
    let m = message("SetCustomerBlob", "u 1", blob());
    assert!(can_process(&room, m.args.get_args()));
    let client = room.client(host).unwrap();
    let effects = process_message(&room, &client, &m);
    assert_eq!(effects.len(), 2);
    assert!(matches!(&effects[0], Effect::Send { to, message } if *to == player && message.opcode == "object"));
    match &effects[1] {
        Effect::Put { key, entity } => {
            assert_eq!(key, "bc:customer:u 1");
            assert_eq!(entity.2.acl[0].to_text(), format!("r id:{}", player));
            assert!(!entity.2.readable_by(Role::Player, player + 1));
            assert!(entity.2.readable_by(Role::Player, player));
        }
        _ => panic!("nothing put"),
    }
    assert!(!can_process(&room, message("SetCustomerBlob", "nobody", blob()).args.get_args()));
    assert!(!can_process(&room, message("SetCustomerBlob", "u 1", Json::Null).args.get_args()));
    assert!(!can_process(&room, message("SetRoomBlob", "", Json::Array(vec![])).args.get_args()));
    assert!(!can_process(&room, message("Dance", "", blob()).args.get_args()));
}

#[test]
fn rooms_can_be_locked() {
    let (_, room, host) = blob_room();
    let client = room.client(host).unwrap();
    let effects = process_message(&room, &client, &message("LockRoom", "", Json::Null));
    match effects.as_slice() {
        [Effect::SendBlobcast { to, notice }] => {
            let a = notice.args.get_args();
            assert_eq!(*to, host);
            assert_eq!((a.arg_type.as_str(), a.action.as_str()), ("Result", "LockRoom"));
            assert_eq!((a.room_id.as_str(), a.success), ("WXYZ", Some(true)));
        }
        _ => panic!("unexpected"),
    }
}

#[test]
fn steps_of_a_blob_socket() {
    assert!(matches!(next_step(SocketEvent::Text), SocketStep::Handle));
    assert!(matches!(next_step(SocketEvent::Tick), SocketStep::Say(t) if t == "2:::"));
    assert!(matches!(next_step(SocketEvent::Ping(vec![1])), SocketStep::Pong(_)));
    assert!(matches!(next_step(SocketEvent::Other), SocketStep::Wait));
    assert!(matches!(next_step(SocketEvent::ReadError), SocketStep::Wait));
    for e in [SocketEvent::Close, SocketEvent::Ended, SocketEvent::RoomEnded] {
        assert!(matches!(next_step(e), SocketStep::Leave { drop_room: true }));
    }
    let (_, mut room, host) = blob_room();
    assert!(matches!(leave(&mut room, host).as_slice(), [Effect::Exit]));
    assert!(!room.client(host).unwrap().connected);
    assert_eq!(johnbox::blobcast::ws::HEARTBEAT_SECS, 5);
}
