// The rosters of links and the kinds of failure.

use retail_network::errors::Errors;
use retail_network::ring::{greatest_of, Peers};
use retail_network::roster::Roster;
use retail_network::store::{ProductStock, StockTable};

#[test]
fn errors_compare_by_kind() {
    assert_eq!(Errors::StoreNotConnectedError, Errors::StoreNotConnectedError);
    assert_eq!(Errors::NotEnoughStockError, Errors::NotEnoughStockError);
    assert_eq!(Errors::ProductNotFoundError, Errors::ProductNotFoundError);
    assert_eq!(Errors::NoStockError, Errors::NoStockError);
    assert_ne!(Errors::NoStockError, Errors::NotEnoughStockError);
    assert_ne!(Errors::NoActiveLeader, Errors::NoActiveStoresError);
    assert_ne!(Errors::CouldNotParse, Errors::CouldNotReserve);
}

#[test]
fn roster_keeps_members_once_and_in_order() {
    let mut roster = Roster::new();
    assert!(roster.is_empty());
    assert!(roster.insert("B".to_string()));
    assert!(roster.insert("A".to_string()));
    assert!(!roster.insert("B".to_string()));
    assert!(roster.insert("C".to_string()));
    assert_eq!(roster.names(), vec!["B", "A", "C"]);
    assert_eq!(roster.len(), 3);
    assert_eq!(roster.name(1), "A");
    assert_eq!(roster.position(&"C".to_string()), Some(2));
    assert_eq!(roster.position(&"D".to_string()), None);
    assert!(roster.contains(&"A".to_string()));
    assert!(roster.remove(&"A".to_string()));
    assert!(!roster.remove(&"A".to_string()));
    assert_eq!(roster.names(), vec!["B", "C"]);
    roster.clear();
    assert!(roster.is_empty());
}

#[test]
fn peers_follow_one_another_in_a_ring() {
    let mut peers = Peers::new();
    assert_eq!(peers.next_after(3), None);
    for id in [7usize, 2, 9, 2] {
        peers.insert(id);
    }
    assert_eq!(peers.len(), 3);
    assert_eq!(peers.id(0), 7);
    assert_eq!(peers.next_after(1), Some(2));
    assert_eq!(peers.next_after(2), Some(7));
    assert_eq!(peers.next_after(3), Some(7));
    assert_eq!(peers.next_after(7), Some(9));
    assert_eq!(peers.next_after(8), Some(9));
    assert_eq!(peers.next_after(9), Some(2));
    assert_eq!(peers.next_after(usize::MAX), Some(2));
    assert!(peers.remove(7));
    assert!(!peers.remove(7));
    assert!(!peers.contains(7));
    assert_eq!(peers.next_after(3), Some(9));
    assert_eq!(greatest_of(&vec![]), None);
    assert_eq!(greatest_of(&vec![0]), Some(0));
    assert_eq!(greatest_of(&vec![4, 9, 2]), Some(9));
}

#[test]
fn stock_table_overwrites_and_keeps_order() {
    let mut table = StockTable::new();
    let level = |available| ProductStock {
        available_quantity: available,
        reserved_quantity: 0,
    };
    table.insert("shirt".to_string(), level(3));
    table.insert("coat".to_string(), level(5));
    table.insert("shirt".to_string(), level(8));
    assert_eq!(table.len(), 2);
    assert_eq!(table.product(0), "shirt");
    assert_eq!(table.product(1), "coat");
    assert_eq!(table.get("shirt"), Some(level(8)));
    assert!(table.contains_key("coat"));
    assert!(!table.contains_key("hat"));
    assert_eq!(table.get("hat"), None);
}
