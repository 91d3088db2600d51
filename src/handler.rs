use vstd::prelude::*;

use crate::person::Person;
use crate::route::Route;
use crate::store::{is_full, is_next_id, lists_exactly, patched, with_id, Store};

verus! {

/// The short text messages that the service answers with.
#[derive(Clone, Copy, Debug, PartialEq, Eq)]
pub enum Notice {
    InvalidJson,
    InvalidId,
    PersonNotFound,
    RouteNotFound,
    PersonRemoved,
    Internal,
}

impl Notice {
    pub open spec fn spec_text(self) -> Seq<char> {
        match self {
            Notice::InvalidJson => "JSON inválido"@,
            Notice::InvalidId => "ID inválido"@,
            Notice::PersonNotFound => "Pessoa não encontrada"@,
            Notice::RouteNotFound => "Rota não encontrada"@,
            Notice::PersonRemoved => "Pessoa removida"@,
            Notice::Internal => "Erro interno"@,
        }
    }

    /// The message as sent in a response body.
    pub fn text(&self) -> (r: String)
        ensures
            r@ == self.spec_text(),
    {
        let s: &str = match self {
            Notice::InvalidJson => "JSON inválido",
            Notice::InvalidId => "ID inválido",
            Notice::PersonNotFound => "Pessoa não encontrada",
            Notice::RouteNotFound => "Rota não encontrada",
            Notice::PersonRemoved => "Pessoa removida",
            Notice::Internal => "Erro interno",
        };
        s.to_owned()
    }
}

/// What a response carries: one record, a list of records, or a message.
#[derive(Clone, Debug, PartialEq, Eq)]
pub enum Payload {
    Record(Person),
    Records(Vec<Person>),
    Message(Notice),
}

/// A response: its HTTP status code and what its body carries.
#[derive(Clone, Debug, PartialEq, Eq)]
pub struct Response {
    pub status: u16,
    pub payload: Payload,
}

/// A response with status `status` and message `n`.
pub open spec fn says(r: Response, status: u16, n: Notice) -> bool {
    r.status == status && r.payload == Payload::Message(n)
}

/// `r` answers with status 200 and one record.
pub open spec fn carries_record(r: Response) -> bool {
    r.status == 200 && r.payload is Record
}

fn reply(status: u16, n: Notice) -> (r: Response)
    ensures
        says(r, status, n),
{
    Response { status, payload: Payload::Message(n) }
}

/// Carries out `route` on `store`. `body` is the request body decoded as a
/// person record, or `None` where it could not be decoded; it is read only
/// for `Create` and `Update`.
pub fn handle(store: &mut Store, route: Route, body: Option<Person>) -> (r: Response)
    requires
        old(store).inv(),
    ensures
        final(store).inv(),
        match route {
            Route::Create => match body {
                None => says(r, 400, Notice::InvalidJson) && final(store)@ == old(store)@,
                Some(d) => if is_full(old(store)@) {
                    says(r, 500, Notice::Internal) && final(store)@ == old(store)@
                } else {
                    &&& carries_record(r)
                    &&& is_next_id(old(store)@, r.payload->Record_0.id)
                    &&& r.payload->Record_0@ == with_id(d@, r.payload->Record_0.id)
                    &&& final(store)@ == old(store)@.insert(
                        r.payload->Record_0.id,
                        r.payload->Record_0@,
                    )
                },
            },
            Route::ListAll => {
                &&& r.status == 200
                &&& r.payload is Records
                &&& lists_exactly(r.payload->Records_0@.map_values(|p: Person| p@), old(store)@)
                &&& final(store)@ == old(store)@
            },
            Route::Fetch(id) => {
                &&& final(store)@ == old(store)@
                &&& if old(store)@.contains_key(id) {
                    carries_record(r) && r.payload->Record_0@ == old(store)@[id]
                } else {
                    says(r, 404, Notice::PersonNotFound)
                }
            },
            Route::Update(id) => match body {
                None => says(r, 400, Notice::InvalidJson) && final(store)@ == old(store)@,
                Some(patch) => if old(store)@.contains_key(id) {
                    &&& carries_record(r)
                    &&& r.payload->Record_0@ == patched(old(store)@[id], patch@)
                    &&& final(store)@ == old(store)@.insert(id, r.payload->Record_0@)
                } else {
                    says(r, 404, Notice::PersonNotFound) && final(store)@ == old(store)@
                },
            },
            Route::Remove(id) => {
                &&& final(store)@ == old(store)@.remove(id)
                &&& if old(store)@.contains_key(id) {
                    says(r, 200, Notice::PersonRemoved)
                } else {
                    says(r, 404, Notice::PersonNotFound)
                }
            },
            Route::BadId => says(r, 400, Notice::InvalidId) && final(store)@ == old(store)@,
            Route::Unknown => says(r, 404, Notice::RouteNotFound) && final(store)@
                == old(store)@,
        },
{
    match route {
        Route::Create => match body {
            None => reply(400, Notice::InvalidJson),
            Some(draft) => match store.create(draft) {
                Some(p) => Response { status: 200, payload: Payload::Record(p) },
                None => reply(500, Notice::Internal),
            },
        },
        Route::ListAll => Response { status: 200, payload: Payload::Records(store.list()) },
        Route::Fetch(id) => match store.get(id) {
            Some(p) => Response { status: 200, payload: Payload::Record(p) },
            None => reply(404, Notice::PersonNotFound),
        },
        Route::Update(id) => match body {
            None => reply(400, Notice::InvalidJson),
            Some(patch) => match store.update(id, patch) {
                Some(p) => Response { status: 200, payload: Payload::Record(p) },
                None => reply(404, Notice::PersonNotFound),
            },
        },
        Route::Remove(id) => if store.delete(id) {
            reply(200, Notice::PersonRemoved)
        } else {
            reply(404, Notice::PersonNotFound)
        },
        Route::BadId => reply(400, Notice::InvalidId),
        Route::Unknown => reply(404, Notice::RouteNotFound),
    }
}

} // verus!
