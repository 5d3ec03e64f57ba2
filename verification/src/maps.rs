//! The concurrent maps of the server: what they hold and how that changes.
use dashmap::DashMap;
use vstd::prelude::*;

use crate::entity::{EntityView, JBEntity};
use crate::room::{Client, ClientView};
use crate::state::{RoomEntry, RoomEntryView};
use crate::text::texts;

verus! {

/// `dashmap::DashMap`, a map that is shared between tasks.
#[verifier::external_type_specification]
#[verifier::external_body]
#[verifier::reject_recursive_types(K)]
#[verifier::reject_recursive_types(V)]
#[verifier::reject_recursive_types(S)]
pub struct ExDashMap<K, V, S>(DashMap<K, V, S>);

/// The entities that a map holds, by their keys.
pub uninterp spec fn entities_of(m: DashMap<String, JBEntity>) -> Map<Seq<char>, EntityView>;

/// The clients that a map holds, by their ids.
pub uninterp spec fn clients_of(m: DashMap<i64, Client>) -> Map<i64, ClientView>;

/// The rooms that a map holds, by their codes.
pub uninterp spec fn rooms_of(m: DashMap<String, RoomEntry>) -> Map<Seq<char>, RoomEntryView>;

/// `DashMap::new` for entities: the map holds nothing.
#[verifier::external_body]
pub(crate) fn entities_new() -> (r: DashMap<String, JBEntity>)
    ensures
        (entities_of(r) == Map::<Seq<char>, EntityView>::empty()),
{
    DashMap::new()
}

/// `DashMap::get` for entities: what stands under the key, if anything does.
#[verifier::external_body]
pub(crate) fn entities_get(m: &DashMap<String, JBEntity>, key: &str) -> (r: Option<JBEntity>)
    ensures
        match r {
            Some(e) => entities_of(*m).contains_key(key@) && e@ == entities_of(*m)[key@],
            None => !entities_of(*m).contains_key(key@),
        },
{
    m.get(key).map(|e| e.value().duplicate())
}

/// `DashMap::insert` for entities: the value stands under the key, whatever stood there before.
#[verifier::external_body]
pub(crate) fn entities_insert(m: &mut DashMap<String, JBEntity>, key: String, entity: JBEntity)
    ensures
        entities_of(*final(m)) == entities_of(*old(m)).insert(key@, entity@),
{
    m.insert(key, entity);
}

/// `DashMap::remove` for entities: nothing stands under the key any more.
#[verifier::external_body]
pub(crate) fn entities_remove(m: &mut DashMap<String, JBEntity>, key: &str)
    ensures
        entities_of(*final(m)) == entities_of(*old(m)).remove(key@),
{
    m.remove(key);
}

/// `DashMap::iter` for entities: every key once, in an order that nothing is said of.
#[verifier::external_body]
pub(crate) fn entities_keys(m: &DashMap<String, JBEntity>) -> (r: Vec<String>)
    ensures
        texts(r@).no_duplicates(),
        texts(r@).to_set() == entities_of(*m).dom(),
{
    m.iter().map(|e| e.key().clone()).collect()
}

/// `DashMap::new` for clients: the map holds nothing.
#[verifier::external_body]
pub(crate) fn clients_new() -> (r: DashMap<i64, Client>)
    ensures
        (clients_of(r) == Map::<i64, ClientView>::empty()),
{
    DashMap::new()
}

/// `DashMap::get` for clients: what stands under the id, if anything does.
#[verifier::external_body]
pub(crate) fn clients_get(m: &DashMap<i64, Client>, id: i64) -> (r: Option<Client>)
    ensures
        match r {
            Some(c) => clients_of(*m).contains_key(id) && c@ == clients_of(*m)[id],
            None => !clients_of(*m).contains_key(id),
        },
{
    m.get(&id).map(|c| c.value().duplicate())
}

/// `DashMap::insert` for clients: the value stands under the id, whatever stood there before.
#[verifier::external_body]
pub(crate) fn clients_insert(m: &mut DashMap<i64, Client>, id: i64, client: Client)
    ensures
        clients_of(*final(m)) == clients_of(*old(m)).insert(id, client@),
{
    m.insert(id, client);
}

/// `DashMap::iter` for clients: every id once, in an order that nothing is said of.
#[verifier::external_body]
pub(crate) fn clients_keys(m: &DashMap<i64, Client>) -> (r: Vec<i64>)
    ensures
        r@.no_duplicates(),
        r@.to_set() == clients_of(*m).dom(),
{
    m.iter().map(|c| *c.key()).collect()
}

/// `DashMap::new` for rooms: the map holds nothing.
#[verifier::external_body]
pub(crate) fn rooms_new() -> (r: DashMap<String, RoomEntry>)
    ensures
        (rooms_of(r) == Map::<Seq<char>, RoomEntryView>::empty()),
{
    DashMap::new()
}

/// `DashMap::get` for rooms: what stands under the code, if anything does.
#[verifier::external_body]
pub(crate) fn rooms_get(m: &DashMap<String, RoomEntry>, code: &str) -> (r: Option<RoomEntry>)
    ensures
        match r {
            Some(e) => rooms_of(*m).contains_key(code@) && e@ == rooms_of(*m)[code@],
            None => !rooms_of(*m).contains_key(code@),
        },
{
    m.get(code).map(|e| e.value().duplicate())
}

/// `DashMap::insert` for rooms: the value stands under the code, whatever stood there before.
#[verifier::external_body]
pub(crate) fn rooms_insert(m: &mut DashMap<String, RoomEntry>, code: String, entry: RoomEntry)
    ensures
        rooms_of(*final(m)) == rooms_of(*old(m)).insert(code@, entry@),
{
    m.insert(code, entry);
}

/// `DashMap::remove` for rooms: nothing stands under the code any more, and what did is handed
/// out.
#[verifier::external_body]
pub(crate) fn rooms_remove(m: &mut DashMap<String, RoomEntry>, code: &str) -> (r: Option<RoomEntry>)
    ensures
        rooms_of(*final(m)) == rooms_of(*old(m)).remove(code@),
        match r {
            Some(e) => rooms_of(*old(m)).contains_key(code@) && e@ == rooms_of(*old(m))[code@],
            None => !rooms_of(*old(m)).contains_key(code@),
        },
{
    m.remove(code).map(|e| e.1)
}

} // verus!
