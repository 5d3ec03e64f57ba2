# Johnbox

A private server for party games that are played over web sockets. It plays rooms itself or passes
them on to another server, and it keeps what it fetched of the web site, so that games can be played
offline.

The rules of the server are a library, written in Verus: what each function does is stated in its
contract and proved. The program around it talks to sockets, files and other servers.

## Layout

* `src/` is the library.
  * `text`, `decimal`, `json`, `pattern`: texts, numbers, JSON values and search patterns.
  * `token`, `acl`, `entity`: secrets and room codes, access lists, and the values that clients share.
  * `room`, `message`, `maps`: rooms and their clients, and the effects that messages have.
  * `ecast`, `blobcast`: the two protocols, over HTTP and over sockets.
  * `state`, `site`: the directory of rooms, and the web site.
  * `http_cache`, `stream`, `patch`: the cache, the decoding of what is fetched, and its rewriting.
  * `laws`: what holds of a room over several messages. Laws about one module stand in that module;
    their names begin with `law_`.
  * `outside` and the functions marked as external bodies state what is believed of other crates.
* `app/` is the server program. It reads `config.toml`; with an argument it stays offline.
* `tests/` runs the library.

## How the program uses the library

A message that arrives is turned into a request. The library answers with a row of effects, and the
program carries them out in order: it hands each effect to the room, sends the frame that the room
gives back, and tells the room how sending ended. Requests for pages are sessions: the library says
what to do next, and the program does it and says what came of it.
