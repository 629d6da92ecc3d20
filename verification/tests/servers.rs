use glados::error::Error;
use glados::registry::ServerRegistry;
use glados::server::{Server, ServerStore};
use glados::status::{verdict_of, ConnectOutcome, Verdict};

fn server(id: u128, name: &str, ip: &str, port: u16) -> Server {
    Server { id, name: name.to_string(), ip: ip.to_string(), port }
}

#[test]
fn new_store_is_empty() {
    let store = ServerStore::new();
    assert_eq!(store.len(), 0);
    assert!(store.list().is_empty());
    assert_eq!(store.get(1), Err(Error::NotFound));
}

#[test]
fn insert_returns_the_identifier() {
    let mut store = ServerStore::new();
    assert_eq!(store.insert(server(7, "a", "10.0.0.1", 8080)), Ok(7));
    assert_eq!(store.get(7), Ok(server(7, "a", "10.0.0.1", 8080)));
    assert_eq!(store.len(), 1);
}

#[test]
fn same_endpoint_twice_is_a_conflict() {
    let mut store = ServerStore::new();
    assert_eq!(store.insert(server(1, "first", "10.0.0.1", 8080)), Ok(1));
    assert_eq!(store.insert(server(2, "second", "10.0.0.1", 8080)), Err(Error::Conflict));
    let all = store.list();
    assert_eq!(all.len(), 1);
    assert_eq!(all[0], server(1, "first", "10.0.0.1", 8080));
}

#[test]
fn same_identifier_twice_is_a_conflict() {
    let mut store = ServerStore::new();
    assert_eq!(store.insert(server(1, "first", "10.0.0.1", 8080)), Ok(1));
    assert_eq!(store.insert(server(1, "second", "10.0.0.2", 8080)), Err(Error::Conflict));
    assert_eq!(store.list(), vec![server(1, "first", "10.0.0.1", 8080)]);
}

#[test]
fn same_address_other_port_is_accepted() {
    let mut store = ServerStore::new();
    assert_eq!(store.insert(server(1, "a", "10.0.0.1", 8080)), Ok(1));
    assert_eq!(store.insert(server(2, "a", "10.0.0.1", 8081)), Ok(2));
    assert_eq!(store.insert(server(3, "a", "10.0.0.2", 8080)), Ok(3));
    assert_eq!(store.len(), 3);
}

#[test]
fn get_after_delete_is_not_found() {
    let mut store = ServerStore::new();
    assert_eq!(store.insert(server(1, "a", "10.0.0.1", 8080)), Ok(1));
    assert_eq!(store.insert(server(2, "b", "10.0.0.2", 8080)), Ok(2));
    assert_eq!(store.delete(1), Ok(()));
    assert_eq!(store.get(1), Err(Error::NotFound));
    assert_eq!(store.get(2), Ok(server(2, "b", "10.0.0.2", 8080)));
    assert_eq!(store.delete(1), Err(Error::NotFound));
}

#[test]
fn a_deleted_endpoint_is_free_again() {
    let mut store = ServerStore::new();
    assert_eq!(store.insert(server(1, "a", "10.0.0.1", 8080)), Ok(1));
    assert_eq!(store.delete(1), Ok(()));
    assert_eq!(store.insert(server(2, "b", "10.0.0.1", 8080)), Ok(2));
}

#[test]
fn list_keeps_insertion_order() {
    let mut store = ServerStore::new();
    for id in [5u128, 3, 9, 1] {
        assert_eq!(store.insert(server(id, "s", "10.0.0.1", id as u16)), Ok(id));
    }
    assert_eq!(store.delete(3), Ok(()));
    let ids: Vec<u128> = store.list().iter().map(|s| s.id).collect();
    assert_eq!(ids, vec![5, 9, 1]);
}

#[test]
fn list_counts_inserts_minus_deletes() {
    let mut store = ServerStore::new();
    for id in 0..10u128 {
        assert_eq!(store.insert(server(id, "s", "10.0.0.1", 1000 + id as u16)), Ok(id));
    }
    for id in [2u128, 4, 6] {
        assert_eq!(store.delete(id), Ok(()));
    }
    assert_eq!(
        store.update(7, server(0, "renamed", "10.0.0.7", 7)),
        Ok(server(7, "renamed", "10.0.0.7", 7))
    );
    assert_eq!(
        store.update(7, server(0, "again", "10.0.0.8", 8)),
        Ok(server(7, "again", "10.0.0.8", 8))
    );
    let all = store.list();
    assert_eq!(all.len(), 7);
    for s in &all {
        if s.id == 7 {
            assert_eq!(*s, server(7, "again", "10.0.0.8", 8));
        } else {
            assert_eq!(*s, server(s.id, "s", "10.0.0.1", 1000 + s.id as u16));
        }
    }
}

#[test]
fn update_keeps_the_identifier_and_the_position() {
    let mut store = ServerStore::new();
    assert_eq!(store.insert(server(1, "a", "10.0.0.1", 80)), Ok(1));
    assert_eq!(store.insert(server(2, "b", "10.0.0.2", 80)), Ok(2));
    assert_eq!(store.update(1, server(99, "c", "10.0.0.3", 81)), Ok(server(1, "c", "10.0.0.3", 81)));
    assert_eq!(store.list(), vec![server(1, "c", "10.0.0.3", 81), server(2, "b", "10.0.0.2", 80)]);
    assert_eq!(store.get(99), Err(Error::NotFound));
}

#[test]
fn update_of_an_unknown_identifier_is_not_found() {
    let mut store = ServerStore::new();
    assert_eq!(store.insert(server(1, "a", "10.0.0.1", 80)), Ok(1));
    assert_eq!(store.update(2, server(2, "b", "10.0.0.1", 80)), Err(Error::NotFound));
    assert_eq!(store.list(), vec![server(1, "a", "10.0.0.1", 80)]);
}

#[test]
fn update_onto_the_endpoint_of_another_is_a_conflict() {
    let mut store = ServerStore::new();
    assert_eq!(store.insert(server(1, "a", "10.0.0.1", 80)), Ok(1));
    assert_eq!(store.insert(server(2, "b", "10.0.0.2", 80)), Ok(2));
    assert_eq!(store.update(2, server(2, "b", "10.0.0.1", 80)), Err(Error::Conflict));
    assert_eq!(store.get(2), Ok(server(2, "b", "10.0.0.2", 80)));
}

#[test]
fn update_may_keep_its_own_endpoint() {
    let mut store = ServerStore::new();
    assert_eq!(store.insert(server(1, "a", "10.0.0.1", 80)), Ok(1));
    assert_eq!(store.update(1, server(1, "renamed", "10.0.0.1", 80)), Ok(server(1, "renamed", "10.0.0.1", 80)));
}

#[test]
fn callers_get_copies() {
    let mut store = ServerStore::new();
    assert_eq!(store.insert(server(1, "a", "10.0.0.1", 80)), Ok(1));
    let mut got = store.get(1).unwrap();
    got.ip = "10.0.0.9".to_string();
    let mut listed = store.list();
    listed[0].port = 1;
    assert_eq!(store.get(1), Ok(server(1, "a", "10.0.0.1", 80)));
}

#[test]
fn fifty_distinct_endpoints_all_register() {
    let mut registry = ServerRegistry::new();
    for i in 0..50u16 {
        let rec = server(i as u128, "s", "192.168.1.1", 4000 + i);
        assert_eq!(registry.register_server(rec), Ok(i as u128));
    }
    assert_eq!(registry.list_servers().len(), 50);
}

#[test]
fn fifty_on_one_endpoint_register_once() {
    let mut registry = ServerRegistry::new();
    let mut accepted = 0;
    let mut conflicts = 0;
    for i in 0..50u128 {
        match registry.register_server(server(i, "s", "192.168.1.1", 4000)) {
            Ok(_) => accepted += 1,
            Err(Error::Conflict) => conflicts += 1,
            Err(e) => panic!("{:?}", e),
        }
    }
    assert_eq!(accepted, 1);
    assert_eq!(conflicts, 49);
    assert_eq!(registry.list_servers().len(), 1);
}

#[test]
fn register_rejects_a_malformed_address() {
    let mut registry = ServerRegistry::new();
    assert_eq!(registry.register_server(server(1, "a", "not an address", 80)), Err(Error::ValidationError));
    assert_eq!(registry.register_server(server(1, "a", "10.0.0.256", 80)), Err(Error::ValidationError));
    assert_eq!(registry.register_server(server(1, "a", "10.0.0", 80)), Err(Error::ValidationError));
    assert!(registry.list_servers().is_empty());
}

#[test]
fn register_rejects_port_zero() {
    let mut registry = ServerRegistry::new();
    assert_eq!(registry.register_server(server(1, "a", "10.0.0.1", 0)), Err(Error::ValidationError));
    assert!(registry.list_servers().is_empty());
    assert_eq!(registry.register_server(server(1, "a", "10.0.0.1", 1)), Ok(1));
}

#[test]
fn update_server_validates_before_it_looks() {
    let mut registry = ServerRegistry::new();
    assert_eq!(registry.update_server(1, server(1, "a", "10.0.0.1", 0)), Err(Error::ValidationError));
    assert_eq!(registry.update_server(1, server(1, "a", "10.0.0.1", 80)), Err(Error::NotFound));
    assert_eq!(registry.register_server(server(1, "a", "10.0.0.1", 80)), Ok(1));
    assert_eq!(registry.update_server(1, server(1, "a", "10.0.0.", 80)), Err(Error::ValidationError));
    assert_eq!(registry.get_server(1), Ok(server(1, "a", "10.0.0.1", 80)));
    assert_eq!(registry.update_server(1, server(1, "b", "10.0.0.2", 81)), Ok(server(1, "b", "10.0.0.2", 81)));
}

#[test]
fn unregister_then_get_is_not_found() {
    let mut registry = ServerRegistry::new();
    assert_eq!(registry.register_server(server(1, "a", "10.0.0.1", 80)), Ok(1));
    assert_eq!(registry.unregister_server(1), Ok(()));
    assert_eq!(registry.get_server(1), Err(Error::NotFound));
    assert_eq!(registry.unregister_server(1), Err(Error::NotFound));
}

#[test]
fn status_probe_names_the_endpoint() {
    let mut registry = ServerRegistry::new();
    assert_eq!(registry.register_server(server(1, "local", "127.0.0.1", 9999)), Ok(1));
    let probe = registry.status_probe(1).unwrap();
    assert_eq!(probe.ip, "127.0.0.1");
    assert_eq!(probe.port, 9999);
    assert_eq!(registry.status_probe(2), Err(Error::NotFound));
}

#[test]
fn nothing_listening_is_offline() {
    let mut registry = ServerRegistry::new();
    assert_eq!(registry.register_server(server(1, "local", "127.0.0.1", 9999)), Ok(1));
    assert!(registry.status_probe(1).is_ok());
    assert_eq!(verdict_of(ConnectOutcome::Refused), Verdict::Offline);
}

#[test]
fn verdict_for_each_outcome() {
    assert_eq!(verdict_of(ConnectOutcome::Connected), Verdict::Online);
    assert_eq!(verdict_of(ConnectOutcome::Refused), Verdict::Offline);
    assert_eq!(verdict_of(ConnectOutcome::Unreachable), Verdict::Offline);
    assert_eq!(verdict_of(ConnectOutcome::TimedOut), Verdict::Unknown("timed out".to_string()));
    assert_eq!(
        verdict_of(ConnectOutcome::Failed("no such host".to_string())),
        Verdict::Unknown("no such host".to_string())
    );
}

#[test]
fn status_code_of_each_error() {
    assert_eq!(Error::NotFound.status_code(), 404);
    assert_eq!(Error::Conflict.status_code(), 409);
    assert_eq!(Error::ReferentialConflict.status_code(), 409);
    assert_eq!(Error::ValidationError.status_code(), 400);
}

#[test]
fn description_of_each_error() {
    assert_eq!(Error::NotFound.describe(), "not found");
    assert_eq!(Error::Conflict.describe(), "conflict");
    assert_eq!(Error::ReferentialConflict.describe(), "referential conflict");
    assert_eq!(Error::ValidationError.describe(), "validation error");
}

#[test]
fn copy_is_equal_and_independent() {
    let source = server(3, "a", "10.0.0.1", 80);
    let mut copy = source.copy();
    assert_eq!(copy, source);
    copy.name.push('x');
    assert_eq!(source, server(3, "a", "10.0.0.1", 80));
}

#[test]
fn len_follows_the_changes() {
    let mut store = ServerStore::new();
    assert_eq!(store.insert(server(1, "a", "10.0.0.1", 80)), Ok(1));
    assert_eq!(store.insert(server(2, "b", "10.0.0.2", 80)), Ok(2));
    assert_eq!(store.len(), 2);
    assert_eq!(store.insert(server(2, "b", "10.0.0.3", 80)), Err(Error::Conflict));
    assert_eq!(store.len(), 2);
    assert_eq!(store.update(2, server(2, "c", "10.0.0.4", 80)), Ok(server(2, "c", "10.0.0.4", 80)));
    assert_eq!(store.len(), 2);
    assert_eq!(store.delete(1), Ok(()));
    assert_eq!(store.len(), 1);
    assert_eq!(store.delete(1), Err(Error::NotFound));
    assert_eq!(store.len(), 1);
}

#[test]
fn a_refused_identifier_leaves_its_endpoint_free() {
    let mut store = ServerStore::new();
    assert_eq!(store.insert(server(1, "a", "10.0.0.1", 80)), Ok(1));
    assert_eq!(store.insert(server(1, "b", "10.0.0.2", 80)), Err(Error::Conflict));
    assert_eq!(store.insert(server(2, "c", "10.0.0.2", 80)), Ok(2));
}
