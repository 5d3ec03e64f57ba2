//! The blob protocol.
use vstd::prelude::*;

use crate::decimal::{decimal_text, write_unsigned};
use crate::json::text_pairs;
use crate::outside::{urlencode, urlencoded};
use crate::state::{server_of, OpMode, State, StateView};

pub mod laws;
pub mod ws;

verus! {

/// The time that a client sends along when it wants a socket.
#[derive(Debug, Clone, Copy, PartialEq, Eq, Structural)]
pub struct BlobcastWSQuery {
    pub t: u32,
}

/// Whether rooms can be opened, and the server for them.
#[derive(Debug)]
pub struct BlobcastRoomResponse {
    pub create: bool,
    pub server: String,
}

/// The server of the blob protocol that is asked where the settings name none.
pub open spec fn default_server() -> Seq<char> {
    "http://blobcast.jackboxgames.com"@
}

/// The address of the server that a socket is passed on to.
pub open spec fn socket_host(blobcast_host: Seq<char>, id: Seq<char>) -> Seq<char> {
    "wss://"@ + blobcast_host + ":38203/socket.io/1/websocket/"@ + id
}

/// The server that the socket with the given id is passed on to, and the address there.
pub fn play_handler(state: &State, id: &str) -> (r: (String, String))
    requires
        state@.config.ecast_mode == OpMode::Proxy,
    ensures
        r.0@ == socket_host(state@.blobcast_host, id@),
        r.1@ == r.0@ + "/socket.io/websocket/"@ + id@,
{
    let mut host = "wss://".to_owned();
    host.append(state.blobcast_host.as_str());
    host.append(":38203/socket.io/1/websocket/");
    host.append(id);
    let mut request = host.clone();
    request.append("/socket.io/websocket/");
    request.append(id);
    (host, request)
}

/// The address that the wish for a socket is passed on to.
pub fn load_handler(state: &State, query: BlobcastWSQuery) -> (r: String)
    requires
        state@.config.blobcast_mode == OpMode::Proxy,
    ensures
        r@ == "https://"@ + state@.blobcast_host + ":38203/socket.io/1?"@ + urlencoded(
            seq![("t"@, decimal_text(query.t as nat))],
        ),
{
    let mut pairs: Vec<(String, String)> = Vec::new();
    pairs.push(("t".to_owned(), write_unsigned(query.t as u64)));
    assert(text_pairs(pairs@) =~= seq![("t"@, decimal_text(query.t as nat))]);
    let mut url = "https://".to_owned();
    url.append(state.blobcast_host.as_str());
    url.append(":38203/socket.io/1?");
    url.append(urlencode(&pairs).as_str());
    url
}

/// The address that a question for a server is passed on to, where it is.
pub fn rooms_url(state: &State) -> (r: Option<String>)
    ensures
        match r {
            Some(u) => state@.config.blobcast_mode == OpMode::Proxy && u@ == server_of(
                state@.config.blobcast_url,
                default_server(),
            ) + "/room"@,
            None => state@.config.blobcast_mode == OpMode::Native,
        },
{
    match state.config.blobcast.op_mode {
        OpMode::Proxy => {
            let mut url = state.config.blobcast.server(
                "http://blobcast.jackboxgames.com",
            ).to_owned();
            url.append("/room");
            Some(url)
        },
        OpMode::Native => None,
    }
}

/// Answers a question for a server: with this one, whatever the server that was asked says; that
/// one is remembered.
pub fn rooms_handler(state: &mut State, reply: Option<BlobcastRoomResponse>) -> (r:
    BlobcastRoomResponse)
    requires
        reply is Some <==> old(state)@.config.blobcast_mode == OpMode::Proxy,
    ensures
        r.server@ == old(state)@.config.accessible_host,
        match reply {
            Some(a) => r.create == a.create && final(state)@ == (StateView {
                blobcast_host: a.server@,
                ..old(state)@
            }),
            None => r.create && final(state)@ == old(state)@,
        },
{
    let create = match reply {
        Some(a) => {
            state.blobcast_host = a.server;
            a.create
        },
        None => true,
    };
    BlobcastRoomResponse { create, server: state.config.accessible_host.clone() }
}

/// The address that a wish for an access token is passed on to.
pub fn access_token_handler(state: &State) -> (r: String)
    ensures
        r@ == server_of(state@.config.blobcast_url, default_server()) + "/accessToken"@,
{
    let mut url = state.config.blobcast.server("http://blobcast.jackboxgames.com").to_owned();
    url.append("/accessToken");
    url
}

} // verus!
