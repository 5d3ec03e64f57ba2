//! The entity protocol.
use vstd::prelude::*;

use crate::acl::{role_text, Role};
use crate::decimal::{signed_text, write_signed};
use crate::json::text_pairs;
use crate::message::Refusal;
use crate::outside::{urlencode, urlencoded};
use crate::room::{fresh_config, JBRoom, Room, RoomConfigView, RoomView};
use crate::state::{server_of, OpMode, State, StateView};
use crate::text::{holds, law_replacing, law_what_a_text_holds, lemma_first_from_none};
use crate::text::{occurs_at, replace_all, replaced};
use crate::token::{hex_text, is_room_code, room_id, Token};

pub mod laws;
pub mod ws;

verus! {

/// What a client says of itself when it opens a socket. An id of zero stands for none.
#[derive(Debug)]
pub struct WSQuery {
    pub user_id: String,
    pub format: String,
    pub name: String,
    pub role: Role,
    pub host_token: Option<Token>,
    pub secret: Option<Token>,
    pub id: i64,
}

/// What that says.
#[verifier::ext_equal]
pub struct WSQueryView {
    pub user_id: Seq<char>,
    pub format: Seq<char>,
    pub name: Seq<char>,
    pub role: Role,
    pub host_token: Option<Seq<u8>>,
    pub secret: Option<Seq<u8>>,
    pub id: i64,
}

/// What a token that may be missing says.
pub open spec fn opt_token(t: Option<Token>) -> Option<Seq<u8>> {
    match t {
        Some(t) => Some(t@),
        None => None,
    }
}

impl View for WSQuery {
    type V = WSQueryView;

    open spec fn view(&self) -> WSQueryView {
        WSQueryView {
            user_id: self.user_id@,
            format: self.format@,
            name: self.name@,
            role: self.role,
            host_token: opt_token(self.host_token),
            secret: opt_token(self.secret),
            id: self.id,
        }
    }
}

/// The pairs of a query that may hold a token.
pub open spec fn token_pair(name: Seq<char>, t: Option<Seq<u8>>) -> Seq<(Seq<char>, Seq<char>)> {
    match t {
        Some(t) => seq![(name, hex_text(t))],
        None => Seq::empty(),
    }
}

/// The names and values that a query is made of.
pub open spec fn query_pairs(q: WSQueryView) -> Seq<(Seq<char>, Seq<char>)> {
    seq![
        ("user-id"@, q.user_id),
        ("format"@, q.format),
        ("name"@, q.name),
        ("role"@, role_text(q.role)),
    ] + token_pair("host-token"@, q.host_token) + token_pair("secret"@, q.secret) + seq![
        ("id"@, signed_text(q.id as int)),
    ]
}

/// Appends the token, if there is one, under its name.
fn push_token(pairs: &mut Vec<(String, String)>, name: &str, t: &Option<Token>)
    ensures
        text_pairs(final(pairs)@) == text_pairs(old(pairs)@) + token_pair(name@, opt_token(*t)),
{
    match t {
        Some(t) => {
            pairs.push((name.to_owned(), t.to_text()));
            assert(text_pairs(pairs@) =~= text_pairs(old(pairs)@) + token_pair(name@, Some(t@)));
        },
        None => {
            assert(text_pairs(pairs@) =~= text_pairs(old(pairs)@) + token_pair(name@, None));
        },
    }
}

impl WSQuery {
    /// The names and values that the query is made of.
    pub fn pairs(&self) -> (r: Vec<(String, String)>)
        ensures
            text_pairs(r@) == query_pairs(self@),
    {
        let mut pairs: Vec<(String, String)> = Vec::new();
        pairs.push(("user-id".to_owned(), self.user_id.clone()));
        pairs.push(("format".to_owned(), self.format.clone()));
        pairs.push(("name".to_owned(), self.name.clone()));
        pairs.push(("role".to_owned(), self.role.to_text()));
        assert(text_pairs(pairs@) =~= seq![
            ("user-id"@, self@.user_id),
            ("format"@, self@.format),
            ("name"@, self@.name),
            ("role"@, role_text(self@.role)),
        ]);
        push_token(&mut pairs, "host-token", &self.host_token);
        push_token(&mut pairs, "secret", &self.secret);
        let ghost before = text_pairs(pairs@);
        pairs.push(("id".to_owned(), write_signed(self.id)));
        assert(text_pairs(pairs@) =~= before + seq![("id"@, signed_text(self.id as int))]);
        pairs
    }
}

/// The server of the entity protocol that is asked where the settings name none.
pub open spec fn default_server() -> Seq<char> {
    "https://ecast.jackboxgames.com"@
}

/// The part of a request to open a room that the rules read.
#[derive(Debug)]
pub struct RoomRequest {
    pub app_id: String,
    pub app_tag: String,
    pub audience_enabled: bool,
}

/// An answer with its content.
#[derive(Debug)]
pub struct JBResponse<T> {
    pub ok: bool,
    pub body: T,
}

/// Where an opened room is found, and the token of its host.
#[derive(Debug)]
pub struct RoomResponse {
    pub host: String,
    pub code: String,
    pub token: String,
}

/// What such an answer says.
#[verifier::ext_equal]
pub struct RoomResponseView {
    pub host: Seq<char>,
    pub code: Seq<char>,
    pub token: Seq<char>,
}

impl View for RoomResponse {
    type V = RoomResponseView;

    open spec fn view(&self) -> RoomResponseView {
        RoomResponseView { host: self.host@, code: self.code@, token: self.token@ }
    }
}

/// What is done for a client that wants to play: its socket is passed on to another server, or it
/// enters the room with the given number.
#[derive(Debug)]
pub enum Play {
    PassOn { host: String, request: String },
    Enter { handle: u64 },
}

/// The address of the server that a socket is passed on to.
pub open spec fn socket_host(role: Role, room_host: Seq<char>) -> Seq<char> {
    let base = if role == Role::Audience {
        default_server()
    } else {
        "wss://"@ + room_host
    };
    replaced(replaced(base, "https://"@, "wss://"@), "http://"@, "ws://"@)
}

/// The address that a socket is passed on to.
pub open spec fn socket_request(host: Seq<char>, code: Seq<char>, q: WSQueryView) -> Seq<char> {
    host + "/api/v2/"@ + (if q.role == Role::Audience {
        "audience"@
    } else {
        "rooms"@
    }) + "/"@ + code + "/play?"@ + urlencoded(query_pairs(q))
}

/// Decides what is done for a client that wants to play in the room with the given code.
pub fn play_handler(state: &State, code: &str, query: &WSQuery) -> (r: Result<Play, Refusal>)
    ensures
        match r {
            Err(e) => !state@.rooms.contains_key(code@) && e.says(404, "Room not found"@),
            Ok(Play::PassOn { host, request }) => {
                &&& state@.rooms.contains_key(code@)
                &&& state@.config.ecast_mode == OpMode::Proxy
                &&& host@ == socket_host(query@.role, state@.rooms[code@].room_config.host)
                &&& request@ == socket_request(host@, code@, query@)
            },
            Ok(Play::Enter { handle }) => {
                &&& state@.rooms.contains_key(code@)
                &&& state@.config.ecast_mode == OpMode::Native
                &&& handle == state@.rooms[code@].handle
            },
        },
{
    let entry = match state.room(code) {
        Some(e) => e,
        None => {
            return Err(Refusal::new(404, "Room not found"));
        },
    };
    let base = match query.role {
        Role::Audience => "https://ecast.jackboxgames.com".to_owned(),
        _ => {
            let mut h = "wss://".to_owned();
            h.append(entry.room_config.host.as_str());
            h
        },
    };
    proof {
        reveal_strlit("https://");
        reveal_strlit("http://");
    }
    let secure = replace_all(base.as_str(), "https://", "wss://");
    let host = replace_all(secure.as_str(), "http://", "ws://");
    if state.config.ecast.op_mode == OpMode::Proxy {
        let mut request = host.clone();
        request.append("/api/v2/");
        request.append(
            match query.role {
                Role::Audience => "audience",
                _ => "rooms",
            },
        );
        request.append("/");
        request.append(code);
        request.append("/play?");
        request.append(urlencode(&query.pairs()).as_str());
        Ok(Play::PassOn { host, request })
    } else {
        Ok(Play::Enter { handle: entry.handle })
    }
}

/// The address that a request to open a room is passed on to, where it is.
pub fn rooms_url(state: &State) -> (r: Option<String>)
    ensures
        match r {
            Some(u) => state@.config.ecast_mode == OpMode::Proxy && u@ == server_of(
                state@.config.ecast_url,
                default_server(),
            ) + "/api/v2/rooms"@,
            None => state@.config.ecast_mode == OpMode::Native,
        },
{
    match state.config.ecast.op_mode {
        OpMode::Proxy => {
            let mut url = state.config.ecast.server("https://ecast.jackboxgames.com").to_owned();
            url.append("/api/v2/rooms");
            Some(url)
        },
        OpMode::Native => None,
    }
}

/// What a room that is opened on request tells about itself.
pub open spec fn requested_room(
    state: StateView,
    request: RoomRequest,
    at: RoomResponseView,
) -> RoomConfigView {
    fresh_config(
        request.app_id@,
        request.app_tag@,
        request.audience_enabled,
        at.code,
        at.host,
        state.config.accessible_host,
    )
}

/// A room without entities and clients.
pub open spec fn empty_room(room_config: RoomConfigView) -> RoomView {
    RoomView {
        entities: Map::empty(),
        connections: Map::empty(),
        room_serial: 1,
        room_config,
    }
}

/// Opens a room where `at` says, and tells the host to come to this server for it.
pub fn open_room_at(state: &mut State, request: &RoomRequest, at: RoomResponse) -> (r: (
    u64,
    Room,
    JBResponse<RoomResponse>,
))
    requires
        old(state)@.wf(),
        old(state)@.next_handle < u64::MAX,
    ensures
        final(state)@ == old(state)@.opened(requested_room(old(state)@, *request, at@)),
        final(state)@.wf(),
        r.0 == old(state)@.next_handle,
        r.1@ == empty_room(requested_room(old(state)@, *request, at@)),
        r.2.ok,
        r.2.body@ == (RoomResponseView { host: old(state)@.config.accessible_host, ..at@ }),
{
    let RoomResponse { host, code, token } = at;
    let config = JBRoom::fresh(
        request.app_id.clone(),
        request.app_tag.clone(),
        request.audience_enabled,
        code.clone(),
        host,
        state.config.accessible_host.clone(),
    );
    let room = Room::new(config.duplicate());
    let handle = state.open_room(config);
    let body = RoomResponse { host: state.config.accessible_host.clone(), code, token };
    (handle, room, JBResponse { ok: true, body })
}

/// Opens a room: where the server that was asked says, or else here, under a drawn code and with a
/// drawn token.
pub fn rooms_handler(state: &mut State, request: &RoomRequest, reply: Option<RoomResponse>) -> (r: (
    u64,
    Room,
    JBResponse<RoomResponse>,
))
    requires
        old(state)@.wf(),
        old(state)@.next_handle < u64::MAX,
        reply is Some <==> old(state)@.config.ecast_mode == OpMode::Proxy,
    ensures
        exists|at: RoomResponseView|
            {
                &&& match reply {
                    Some(a) => at == a@,
                    None => is_room_code(at.code) && at.host == old(state)@.config.accessible_host
                        && exists|t: Seq<u8>| t.len() == 12 && at.token == #[trigger] hex_text(t),
                }
                &&& final(state)@ == old(state)@.opened(
                    #[trigger] requested_room(old(state)@, *request, at),
                )
                &&& r.1@ == empty_room(requested_room(old(state)@, *request, at))
                &&& r.2.body@ == (RoomResponseView {
                    host: old(state)@.config.accessible_host,
                    ..at
                })
            },
        final(state)@.wf(),
        r.0 == old(state)@.next_handle,
        r.2.ok,
{
    let at = match reply {
        Some(a) => a,
        None => {
            RoomResponse {
                host: state.config.accessible_host.clone(),
                code: room_id(),
                token: Token::random().to_text(),
            }
        },
    };
    open_room_at(state, request, at)
}

/// What is done about a question for a room: it is answered, or passed on.
#[derive(Debug)]
pub enum RoomsGet {
    Known(JBResponse<JBRoom>),
    Ask { url: String },
}

/// Decides what is done about a question for the room with the given code.
pub fn rooms_get_handler(state: &State, code: &str) -> (r: Result<RoomsGet, Refusal>)
    ensures
        match r {
            Err(e) => state@.config.ecast_mode == OpMode::Native && !state@.rooms.contains_key(
                code@,
            ) && e.says(404, "Room not found"@),
            Ok(RoomsGet::Known(a)) => state@.config.ecast_mode == OpMode::Native
                && state@.rooms.contains_key(code@) && a.ok && a.body@
                == state@.rooms[code@].room_config,
            Ok(RoomsGet::Ask { url }) => state@.config.ecast_mode == OpMode::Proxy && url@
                == server_of(state@.config.ecast_url, default_server()) + "/api/v2/rooms/"@ + code@,
        },
{
    match state.config.ecast.op_mode {
        OpMode::Native => match state.room(code) {
            Some(e) => Ok(RoomsGet::Known(JBResponse { ok: true, body: e.room_config })),
            None => Err(Refusal::new(404, "Room not found")),
        },
        OpMode::Proxy => {
            let mut url = state.config.ecast.server("https://ecast.jackboxgames.com").to_owned();
            url.append("/api/v2/rooms/");
            url.append(code);
            Ok(RoomsGet::Ask { url })
        },
    }
}

/// The answer of another server to a question for a room, with this server in the place of the
/// hosts that it names.
pub fn rooms_get_answered(state: &State, response: JBResponse<JBRoom>) -> (r: JBResponse<JBRoom>)
    ensures
        r.ok == response.ok,
        r.body@ == (RoomConfigView {
            host: state@.config.accessible_host,
            audience_host: state@.config.accessible_host,
            ..response.body@
        }),
{
    let JBResponse { ok, body } = response;
    let mut body = body;
    body.host = state.config.accessible_host.clone();
    body.audience_host = state.config.accessible_host.clone();
    JBResponse { ok, body }
}

/// The settings that a game is told: the server that it plays on.
#[derive(Debug)]
pub struct AppSettings {
    pub server_url: String,
}

/// What is done about a question for the settings of a game: it is answered, or passed on.
#[derive(Debug)]
pub enum AppConfig {
    Known(JBResponse<AppSettings>),
    Ask { url: String },
}

/// Decides what is done about a question for the settings of the game with the given tag.
pub fn app_config_handler(state: &State, app_tag: &str, query: &Vec<(String, String)>) -> (r:
    AppConfig)
    ensures
        match r {
            AppConfig::Known(a) => state@.config.ecast_mode == OpMode::Native && a.ok
                && a.body.server_url@ == state@.config.accessible_host,
            AppConfig::Ask { url } => state@.config.ecast_mode == OpMode::Proxy && url@
                == server_of(state@.config.ecast_url, default_server()) + "/api/v2/app-configs/"@
                + app_tag@ + "?"@ + urlencoded(text_pairs(query@)),
        },
{
    match state.config.ecast.op_mode {
        OpMode::Native => AppConfig::Known(
            JBResponse {
                ok: true,
                body: AppSettings { server_url: state.config.accessible_host.clone() },
            },
        ),
        OpMode::Proxy => {
            let mut url = state.config.ecast.server("https://ecast.jackboxgames.com").to_owned();
            url.append("/api/v2/app-configs/");
            url.append(app_tag);
            url.append("?");
            url.append(urlencode(query).as_str());
            AppConfig::Ask { url }
        },
    }
}

/// A room that is opened on request tells what the request says of the game, the code and the host
/// that it was opened under, and this server as the host of the audience. It is found under its code
/// and begins without entities and without clients, the first of whom gets the id one.
pub proof fn law_requested_rooms(state: StateView, request: RoomRequest, at: RoomResponseView)
    ensures
        ({
            let c = requested_room(state, request, at);
            let found = state.opened(c).rooms[at.code].room_config;
            &&& state.opened(c).rooms.contains_key(at.code)
            &&& found.app_id == request.app_id@
            &&& found.app_tag == request.app_tag@
            &&& found.audience_enabled == request.audience_enabled
            &&& found.code == at.code
            &&& found.host == at.host
            &&& found.audience_host == state.config.accessible_host
            &&& empty_room(c).room_config == c
            &&& empty_room(c).entities == Map::<Seq<char>, crate::entity::EntityView>::empty()
            &&& empty_room(c).connections == Map::<i64, crate::room::ClientView>::empty()
            &&& empty_room(c).room_serial == 1
        }),
{
}

/// A query names what the client says of itself, each thing once: its user id, its format, its name,
/// its role, the tokens that it has and its id.
pub proof fn law_queries_say_it_all(q: WSQueryView)
    ensures
        ({
            let pairs = query_pairs(q);
            &&& pairs.len() == 5 + (if q.host_token is Some {
                1int
            } else {
                0
            }) + (if q.secret is Some {
                1int
            } else {
                0
            })
            &&& pairs[0] == ("user-id"@, q.user_id)
            &&& pairs[1] == ("format"@, q.format)
            &&& pairs[2] == ("name"@, q.name)
            &&& pairs[3] == ("role"@, role_text(q.role))
            &&& q.host_token matches Some(t) ==> pairs[4] == ("host-token"@, hex_text(t))
            &&& q.secret matches Some(t) ==> pairs[pairs.len() - 2] == ("secret"@, hex_text(t))
            &&& pairs.last() == ("id"@, signed_text(q.id as int))
        }),
{
}

/// A text without an `h` holds no address.
proof fn lemma_no_address(s: Seq<char>, from: Seq<char>, j: int)
    requires
        0 <= j,
        from.len() > 0,
        from[0] == 'h',
        j < s.len() ==> s[j] != 'h',
    ensures
        !occurs_at(s, from, j),
{
    if occurs_at(s, from, j) {
        assert(s.subrange(j, j + from.len())[0] == 'h');
    }
}

/// A socket of the audience is passed on to the usual server, and any other one to the host of the
/// room, where that is not an address itself; it is asked there for the room with its code.
pub proof fn law_where_sockets_go(
    room_host: Seq<char>,
    role: Role,
    host: Seq<char>,
    code: Seq<char>,
    q: WSQueryView,
)
    requires
        role != Role::Audience,
        !holds(room_host, "https://"@),
        !holds(room_host, "http://"@),
    ensures
        socket_host(role, room_host) == "wss://"@ + room_host,
        socket_host(Role::Audience, room_host) == "wss://ecast.jackboxgames.com"@,
        default_server() == "https://ecast.jackboxgames.com"@,
        q.role == Role::Audience ==> socket_request(host, code, q) == host + "/api/v2/audience/"@
            + code + "/play?"@ + urlencoded(query_pairs(q)),
        q.role != Role::Audience ==> socket_request(host, code, q) == host + "/api/v2/rooms/"@ + code
            + "/play?"@ + urlencoded(query_pairs(q)),
{
    reveal_strlit("https://");
    reveal_strlit("http://");
    reveal_strlit("wss://");
    reveal_strlit("https://ecast.jackboxgames.com");
    reveal_strlit("wss://ecast.jackboxgames.com");
    reveal_strlit("/api/v2/");
    reveal_strlit("audience");
    reveal_strlit("rooms");
    reveal_strlit("/");
    reveal_strlit("/api/v2/audience/");
    reveal_strlit("/api/v2/rooms/");
    let secure = "https://"@;
    let plain = "http://"@;
    let base = "wss://"@ + room_host;
    law_what_a_text_holds(room_host, secure);
    law_what_a_text_holds(room_host, plain);
    assert forall|j: int| 0 <= j implies !#[trigger] occurs_at(base, secure, j) by {
        if j < 6 {
            lemma_no_address(base, secure, j);
        } else if occurs_at(base, secure, j) {
            assert(room_host.subrange(j - 6, j - 6 + 8) =~= base.subrange(j, j + 8));
            assert(occurs_at(room_host, secure, j - 6));
        }
    }
    assert forall|j: int| 0 <= j implies !#[trigger] occurs_at(base, plain, j) by {
        if j < 6 {
            lemma_no_address(base, plain, j);
        } else if occurs_at(base, plain, j) {
            assert(room_host.subrange(j - 6, j - 6 + 7) =~= base.subrange(j, j + 7));
            assert(occurs_at(room_host, plain, j - 6));
        }
    }
    lemma_first_from_none(base, secure, 0);
    lemma_first_from_none(base, plain, 0);
    let none = Seq::<char>::empty();
    let tail = default_server().skip(8);
    let usual = "wss://ecast.jackboxgames.com"@;
    assert(none + secure + tail =~= default_server());
    assert forall|j: int| 0 <= j implies !#[trigger] occurs_at(tail, secure, j) by {
        lemma_no_address(tail, secure, j);
    }
    assert forall|j: int| 0 <= j implies !#[trigger] occurs_at(usual, plain, j) by {
        lemma_no_address(usual, plain, j);
    }
    law_replacing(none, secure, tail, "wss://"@);
    assert(none + "wss://"@ + tail =~= usual);
    lemma_first_from_none(usual, plain, 0);
    assert("/api/v2/audience/"@ =~= "/api/v2/"@ + "audience"@ + "/"@);
    assert("/api/v2/rooms/"@ =~= "/api/v2/"@ + "rooms"@ + "/"@);
    assert(socket_request(host, code, q) =~= host + (if q.role == Role::Audience {
        "/api/v2/audience/"@
    } else {
        "/api/v2/rooms/"@
    }) + code + "/play?"@ + urlencoded(query_pairs(q)));
}

} // verus!
