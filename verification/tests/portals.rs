use glados::error::Error;
use glados::portal::{Portal, PortalConfig, PortalStore};
use glados::registry::PortalRegistry;
use glados::validate::{is_ipv4_text, validate_portal, PortalRequest};

fn config(id: u128, name: &str) -> PortalConfig {
    PortalConfig { id, name: name.to_string() }
}

fn portal(index: u32, config_id: u128) -> Portal {
    Portal {
        index,
        frameBlockId: 10,
        lightWithItemId: -3,
        color_b: 1,
        color_g: 2,
        color_r: 3,
        configId: config_id,
    }
}

fn request(index: u32, config_id: u128, b: i64, g: i64, r: i64) -> PortalRequest {
    PortalRequest {
        index,
        frameBlockId: 10,
        lightWithItemId: -3,
        color_b: b,
        color_g: g,
        color_r: r,
        configId: config_id,
    }
}

#[test]
fn new_portal_store_is_empty() {
    let store = PortalStore::new();
    assert!(store.list_configs().is_empty());
    assert!(store.list_portals().is_empty());
    assert_eq!(store.get_config(1), Err(Error::NotFound));
    assert_eq!(store.get_portal(1), Err(Error::NotFound));
}

#[test]
fn config_identifier_twice_is_a_conflict() {
    let mut store = PortalStore::new();
    assert_eq!(store.insert_config(config(1, "a")), Ok(1));
    assert_eq!(store.insert_config(config(1, "b")), Err(Error::Conflict));
    assert_eq!(store.list_configs(), vec![config(1, "a")]);
}

#[test]
fn config_update_replaces_the_fields() {
    let mut store = PortalStore::new();
    assert_eq!(store.insert_config(config(1, "a")), Ok(1));
    assert_eq!(store.insert_config(config(2, "b")), Ok(2));
    assert_eq!(store.update_config(1, config(5, "c")), Ok(config(1, "c")));
    assert_eq!(store.update_config(3, config(3, "d")), Err(Error::NotFound));
    assert_eq!(store.list_configs(), vec![config(1, "c"), config(2, "b")]);
    assert_eq!(store.get_config(1), Ok(config(1, "c")));
}

#[test]
fn referenced_config_cannot_be_deleted() {
    let mut store = PortalStore::new();
    assert_eq!(store.insert_config(config(1, "a")), Ok(1));
    assert_eq!(store.insert_portal(portal(0, 1)), Ok(0));
    assert_eq!(store.delete_config(1), Err(Error::ReferentialConflict));
    assert_eq!(store.list_configs(), vec![config(1, "a")]);
    assert_eq!(store.get_config(1), Ok(config(1, "a")));
    assert_eq!(store.list_portals(), vec![portal(0, 1)]);
}

#[test]
fn config_can_be_deleted_once_its_portals_are_gone() {
    let mut store = PortalStore::new();
    assert_eq!(store.insert_config(config(1, "a")), Ok(1));
    assert_eq!(store.insert_portal(portal(0, 1)), Ok(0));
    assert_eq!(store.delete_portal(0), Ok(()));
    assert_eq!(store.delete_config(1), Ok(()));
    assert_eq!(store.get_config(1), Err(Error::NotFound));
    assert!(store.list_configs().is_empty());
}

#[test]
fn deleting_an_unknown_config_is_not_found() {
    let mut store = PortalStore::new();
    assert_eq!(store.delete_config(1), Err(Error::NotFound));
    assert_eq!(store.delete_portal(1), Err(Error::NotFound));
}

#[test]
fn portal_needs_an_existing_config() {
    let mut store = PortalStore::new();
    assert_eq!(store.insert_portal(portal(0, 1)), Err(Error::Conflict));
    assert!(store.list_portals().is_empty());
    assert_eq!(store.insert_config(config(1, "a")), Ok(1));
    assert_eq!(store.insert_portal(portal(0, 1)), Ok(0));
}

#[test]
fn portal_index_twice_is_a_conflict() {
    let mut store = PortalStore::new();
    assert_eq!(store.insert_config(config(1, "a")), Ok(1));
    assert_eq!(store.insert_portal(portal(4, 1)), Ok(4));
    let mut other = portal(4, 1);
    other.color_r = 200;
    assert_eq!(store.insert_portal(other), Err(Error::Conflict));
    assert_eq!(store.list_portals(), vec![portal(4, 1)]);
}

#[test]
fn portal_update_keeps_the_index() {
    let mut store = PortalStore::new();
    assert_eq!(store.insert_config(config(1, "a")), Ok(1));
    assert_eq!(store.insert_config(config(2, "b")), Ok(2));
    assert_eq!(store.insert_portal(portal(4, 1)), Ok(4));
    assert_eq!(store.insert_portal(portal(5, 1)), Ok(5));
    let mut patch = portal(77, 2);
    patch.color_g = 99;
    let mut expected = patch;
    expected.index = 4;
    assert_eq!(store.update_portal(4, patch), Ok(expected));
    assert_eq!(store.get_portal(4), Ok(expected));
    assert_eq!(store.get_portal(77), Err(Error::NotFound));
    assert_eq!(store.list_portals(), vec![expected, portal(5, 1)]);
    assert_eq!(store.delete_config(2), Err(Error::ReferentialConflict));
}

#[test]
fn portal_update_checks_index_then_config() {
    let mut store = PortalStore::new();
    assert_eq!(store.insert_config(config(1, "a")), Ok(1));
    assert_eq!(store.insert_portal(portal(4, 1)), Ok(4));
    assert_eq!(store.update_portal(9, portal(9, 1)), Err(Error::NotFound));
    assert_eq!(store.update_portal(9, portal(9, 3)), Err(Error::NotFound));
    assert_eq!(store.update_portal(4, portal(4, 3)), Err(Error::Conflict));
    assert_eq!(store.get_portal(4), Ok(portal(4, 1)));
}

#[test]
fn portal_get_after_delete_is_not_found() {
    let mut store = PortalStore::new();
    assert_eq!(store.insert_config(config(1, "a")), Ok(1));
    assert_eq!(store.insert_portal(portal(4, 1)), Ok(4));
    assert_eq!(store.insert_portal(portal(5, 1)), Ok(5));
    assert_eq!(store.delete_portal(4), Ok(()));
    assert_eq!(store.get_portal(4), Err(Error::NotFound));
    assert_eq!(store.list_portals(), vec![portal(5, 1)]);
}

#[test]
fn portal_list_counts_inserts_minus_deletes() {
    let mut store = PortalStore::new();
    assert_eq!(store.insert_config(config(1, "a")), Ok(1));
    for i in 0..8u32 {
        assert_eq!(store.insert_portal(portal(i, 1)), Ok(i));
    }
    for i in [1u32, 3, 5] {
        assert_eq!(store.delete_portal(i), Ok(()));
    }
    let left: Vec<u32> = store.list_portals().iter().map(|p| p.index).collect();
    assert_eq!(left, vec![0, 2, 4, 6, 7]);
}

#[test]
fn validate_portal_accepts_bytes() {
    let expected = Portal {
        index: 3,
        frameBlockId: 10,
        lightWithItemId: -3,
        color_b: 0,
        color_g: 128,
        color_r: 255,
        configId: 9,
    };
    assert_eq!(validate_portal(request(3, 9, 0, 128, 255)), Ok(expected));
}

#[test]
fn validate_portal_rejects_colours_out_of_range() {
    assert_eq!(validate_portal(request(3, 9, -1, 0, 0)), Err(Error::ValidationError));
    assert_eq!(validate_portal(request(3, 9, 0, -1, 0)), Err(Error::ValidationError));
    assert_eq!(validate_portal(request(3, 9, 0, 0, -1)), Err(Error::ValidationError));
    assert_eq!(validate_portal(request(3, 9, 256, 0, 0)), Err(Error::ValidationError));
    assert_eq!(validate_portal(request(3, 9, 0, 256, 0)), Err(Error::ValidationError));
    assert_eq!(validate_portal(request(3, 9, 0, 0, 256)), Err(Error::ValidationError));
    assert_eq!(validate_portal(request(3, 9, 0, 0, i64::MIN)), Err(Error::ValidationError));
}

#[test]
fn registry_validates_portals_first() {
    let mut registry = PortalRegistry::new();
    assert_eq!(registry.create_portal(request(0, 1, -5, 0, 0)), Err(Error::ValidationError));
    assert_eq!(registry.create_portal(request(0, 1, 5, 0, 0)), Err(Error::Conflict));
    assert_eq!(registry.create_config(config(1, "a")), Ok(1));
    assert_eq!(registry.create_portal(request(0, 1, 5, 6, 7)), Ok(0));
    let stored = registry.get_portal(0).unwrap();
    assert_eq!((stored.color_b, stored.color_g, stored.color_r), (5, 6, 7));
    assert_eq!(registry.update_portal(0, request(0, 1, 0, 0, 300)), Err(Error::ValidationError));
    assert_eq!(registry.get_portal(0), Ok(stored));
    assert_eq!(registry.update_portal(1, request(1, 1, 0, 0, 30)), Err(Error::NotFound));
    let changed = registry.update_portal(0, request(8, 1, 0, 0, 30)).unwrap();
    assert_eq!((changed.index, changed.color_r), (0, 30));
    assert_eq!(registry.list_portals(), vec![changed]);
}

#[test]
fn registry_blocks_deleting_a_config_in_use() {
    let mut registry = PortalRegistry::new();
    assert_eq!(registry.create_config(config(1, "a")), Ok(1));
    assert_eq!(registry.create_portal(request(0, 1, 5, 6, 7)), Ok(0));
    assert_eq!(registry.delete_config(1), Err(Error::ReferentialConflict));
    assert_eq!(registry.list_configs(), vec![config(1, "a")]);
    assert_eq!(registry.delete_portal(0), Ok(()));
    assert_eq!(registry.delete_config(1), Ok(()));
    assert_eq!(registry.get_config(1), Err(Error::NotFound));
    assert_eq!(registry.update_config(1, config(1, "b")), Err(Error::NotFound));
}

#[test]
fn dotted_quads_are_addresses() {
    for text in ["0.0.0.0", "127.0.0.1", "255.255.255.255", "192.168.10.7", "1.2.3.4", "10.0.0.249"] {
        assert!(is_ipv4_text(text.as_bytes()), "{}", text);
    }
}

#[test]
fn other_texts_are_not_addresses() {
    for text in [
        "", ".", "...", "1.2.3", "1.2.3.", ".1.2.3", "1.2.3.4.", "1.2.3.4.5", "1..2.3", "256.0.0.1",
        "1.2.3.256", "1.2.3.1000", "01.2.3.4", "1.2.3.00", "a.b.c.d", "1.2.3.4 ", " 1.2.3.4",
        "1.2.3.-4", "1,2,3,4", "localhost", "::1", "1.2.3.4\n", "1.2.3.\u{663}",
    ] {
        assert!(!is_ipv4_text(text.as_bytes()), "{:?}", text);
    }
}

#[test]
fn config_copy_is_equal() {
    let source = config(3, "shared");
    assert_eq!(source.copy(), source);
}

#[test]
fn registry_lists_in_creation_order() {
    let mut registry = PortalRegistry::new();
    for id in [4u128, 2, 9] {
        assert_eq!(registry.create_config(config(id, "c")), Ok(id));
    }
    for index in [7u32, 1, 3] {
        assert_eq!(registry.create_portal(request(index, 2, 1, 2, 3)), Ok(index));
    }
    let ids: Vec<u128> = registry.list_configs().iter().map(|c| c.id).collect();
    assert_eq!(ids, vec![4, 2, 9]);
    let indices: Vec<u32> = registry.list_portals().iter().map(|p| p.index).collect();
    assert_eq!(indices, vec![7, 1, 3]);
    assert_eq!(registry.get_config(9), Ok(config(9, "c")));
}
