use crud_multiversx::handler::{handle, Notice, Payload, Response};
use crud_multiversx::person::Person;
use crud_multiversx::route::{parse_id, route, Method, Route};
use crud_multiversx::store::Store;

fn person(id: u64, name: &str, age: u32) -> Person {
    Person::new(id, name.to_string(), age)
}

fn request(store: &mut Store, method: Method, path: &str, body: Option<Person>) -> Response {
    handle(store, route(method, path), body)
}

fn record(r: &Response) -> Person {
    match &r.payload {
        Payload::Record(p) => p.clone(),
        other => panic!("expected a record, got {:?}", other),
    }
}

fn chars(s: &str) -> Vec<char> {
    s.chars().collect()
}

#[test]
fn create_then_fetch() {
    let mut store = Store::new();
    let r = request(&mut store, Method::Post, "/persons", Some(person(0, "Ada", 37)));
    assert_eq!(r.status, 200);
    assert_eq!(record(&r), person(1, "Ada", 37));
    let r = request(&mut store, Method::Get, "/persons/1", None);
    assert_eq!(r.status, 200);
    assert_eq!(record(&r), person(1, "Ada", 37));
}

#[test]
fn list_after_two_creates() {
    let mut store = Store::new();
    let r = request(&mut store, Method::Post, "/persons", Some(person(99, "B", 1)));
    assert_eq!(r.status, 200);
    assert_eq!(record(&r).id, 1);
    let r = request(&mut store, Method::Post, "/persons", Some(person(99, "C", 2)));
    assert_eq!(r.status, 200);
    assert_eq!(record(&r).id, 2);
    let r = request(&mut store, Method::Get, "/persons", None);
    assert_eq!(r.status, 200);
    match r.payload {
        Payload::Records(mut v) => {
            v.sort_by_key(|p| p.id);
            assert_eq!(v, vec![person(1, "B", 1), person(2, "C", 2)]);
        }
        other => panic!("expected records, got {:?}", other),
    }
}

#[test]
fn update_keeps_id() {
    let mut store = Store::new();
    request(&mut store, Method::Post, "/persons", Some(person(0, "Ada", 37)));
    let r = request(&mut store, Method::Put, "/persons/1", Some(person(555, "Ada L.", 38)));
    assert_eq!(r.status, 200);
    assert_eq!(record(&r), person(1, "Ada L.", 38));
    let r = request(&mut store, Method::Get, "/persons/1", None);
    assert_eq!(record(&r), person(1, "Ada L.", 38));
}

#[test]
fn delete_then_not_found() {
    let mut store = Store::new();
    request(&mut store, Method::Post, "/persons", Some(person(0, "Ada", 37)));
    let r = request(&mut store, Method::Delete, "/persons/1", None);
    assert_eq!(r.status, 200);
    assert_eq!(r.payload, Payload::Message(Notice::PersonRemoved));
    assert_eq!(Notice::PersonRemoved.text(), "Pessoa removida");
    let r = request(&mut store, Method::Get, "/persons/1", None);
    assert_eq!(r.status, 404);
    assert_eq!(r.payload, Payload::Message(Notice::PersonNotFound));
    let r = request(&mut store, Method::Delete, "/persons/1", None);
    assert_eq!(r.status, 404);
}

#[test]
fn bad_inputs() {
    let mut store = Store::new();
    let r = request(&mut store, Method::Post, "/persons", None);
    assert_eq!(r.status, 400);
    assert_eq!(r.payload, Payload::Message(Notice::InvalidJson));
    let r = request(&mut store, Method::Get, "/persons/abc", None);
    assert_eq!(r.status, 400);
    assert_eq!(r.payload, Payload::Message(Notice::InvalidId));
    let r = request(&mut store, Method::Get, "/other", None);
    assert_eq!(r.status, 404);
    assert_eq!(r.payload, Payload::Message(Notice::RouteNotFound));
    assert_eq!(Notice::RouteNotFound.text(), "Rota não encontrada");
}

#[test]
fn id_allocation_after_delete() {
    let mut store = Store::new();
    for name in ["A", "B", "C"] {
        request(&mut store, Method::Post, "/persons", Some(person(0, name, 1)));
    }
    assert_eq!(request(&mut store, Method::Delete, "/persons/2", None).status, 200);
    let r = request(&mut store, Method::Post, "/persons", Some(person(0, "D", 2)));
    assert_eq!(record(&r).id, 4);
    assert_eq!(request(&mut store, Method::Delete, "/persons/4", None).status, 200);
    let r = request(&mut store, Method::Post, "/persons", Some(person(0, "E", 3)));
    assert_eq!(record(&r).id, 4);
}

#[test]
fn serial_creates_count_up() {
    let mut store = Store::new();
    for i in 0..20u64 {
        let p = store.create(person(77, "x", i as u32)).unwrap();
        assert_eq!(p, person(i + 1, "x", i as u32));
        assert_eq!(store.get(i + 1), Some(p));
    }
    assert_eq!(store.list().len(), 20);
}

#[test]
fn update_of_missing_record() {
    let mut store = Store::new();
    assert_eq!(store.update(3, person(3, "Z", 9)), None);
    let r = request(&mut store, Method::Put, "/persons/3", Some(person(3, "Z", 9)));
    assert_eq!(r.status, 404);
    let r = request(&mut store, Method::Put, "/persons/3", None);
    assert_eq!(r, Response { status: 400, payload: Payload::Message(Notice::InvalidJson) });
    assert!(store.list().is_empty());
}

#[test]
fn delete_below_max_is_not_reused() {
    let mut store = Store::new();
    for _ in 0..3 {
        store.create(person(0, "p", 5));
    }
    assert!(store.delete(1));
    assert!(!store.delete(1));
    assert_eq!(store.create(person(0, "q", 6)).unwrap().id, 4);
    assert_eq!(store.get(1), None);
}

#[test]
fn empty_store_lists_nothing() {
    let mut store = Store::new();
    let r = request(&mut store, Method::Get, "/persons", None);
    assert_eq!(r, Response { status: 200, payload: Payload::Records(vec![]) });
}

#[test]
fn routes_by_method_and_path() {
    assert_eq!(route(Method::Post, "/persons"), Route::Create);
    assert_eq!(route(Method::Get, "/persons"), Route::ListAll);
    assert_eq!(route(Method::Get, "/persons/7"), Route::Fetch(7));
    assert_eq!(route(Method::Put, "/persons/7"), Route::Update(7));
    assert_eq!(route(Method::Delete, "/persons/7"), Route::Remove(7));
    assert_eq!(route(Method::Post, "/persons/7"), Route::Unknown);
    assert_eq!(route(Method::Put, "/persons"), Route::Unknown);
    assert_eq!(route(Method::Delete, "/persons"), Route::Unknown);
    assert_eq!(route(Method::Other, "/persons"), Route::Unknown);
    assert_eq!(route(Method::Get, "/persons/"), Route::BadId);
    assert_eq!(route(Method::Get, "/persons/1/2"), Route::BadId);
    assert_eq!(route(Method::Get, "/persons//persons/1"), Route::BadId);
    assert_eq!(route(Method::Get, "/personsx"), Route::Unknown);
    assert_eq!(route(Method::Get, "/persons/abc"), Route::BadId);
    assert!(Route::Create.needs_body());
    assert!(Route::Update(1).needs_body());
    assert!(!Route::Fetch(1).needs_body());
}

#[test]
fn reads_identifier_tokens() {
    assert_eq!(parse_id(&chars("0")), Some(0));
    assert_eq!(parse_id(&chars("42")), Some(42));
    assert_eq!(parse_id(&chars("+42")), Some(42));
    assert_eq!(parse_id(&chars("007")), Some(7));
    assert_eq!(parse_id(&chars("18446744073709551615")), Some(u64::MAX));
    assert_eq!(parse_id(&chars("18446744073709551616")), None);
    assert_eq!(parse_id(&chars("")), None);
    assert_eq!(parse_id(&chars("+")), None);
    assert_eq!(parse_id(&chars("-1")), None);
    assert_eq!(parse_id(&chars("1a")), None);
    assert_eq!(parse_id(&chars(" 1")), None);
}

#[test]
fn notices_read_as_sent() {
    assert_eq!(Notice::InvalidJson.text(), "JSON inválido");
    assert_eq!(Notice::InvalidId.text(), "ID inválido");
    assert_eq!(Notice::PersonNotFound.text(), "Pessoa não encontrada");
    assert_eq!(Notice::Internal.text(), "Erro interno");
}

#[test]
fn duplicate_keeps_fields() {
    let p = person(5, "Grace", 85);
    assert_eq!(p.duplicate(), p);
}

#[test]
fn many_creates_get_distinct_ids() {
    let mut store = Store::new();
    let mut ids = std::collections::HashSet::new();
    for i in 0..100u32 {
        ids.insert(store.create(person(0, "n", i)).unwrap().id);
    }
    assert_eq!(ids.len(), 100);
}

#[test]
fn records_stay_under_their_ids() {
    let mut store = Store::new();
    for i in 0..6u32 {
        store.create(person(1000, "r", i));
    }
    store.delete(3);
    store.update(5, person(9, "s", 50));
    store.create(person(2, "t", 7));
    for p in store.list() {
        assert_eq!(store.get(p.id), Some(p.clone()));
    }
    assert_eq!(store.get(5), Some(person(5, "s", 50)));
    assert_eq!(store.list().len(), 6);
}
