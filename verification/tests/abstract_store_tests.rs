// The behavior of the mirror that an ecom keeps of one store.

use retail_network::abstract_store::{
    AbstractStore, AddStock, NewLeader, Order, OrderOutcome, StoreRecord, UpdateStock,
};
use retail_network::errors::Errors;

fn add(product: &str, quantity: &str) -> AddStock {
    AddStock {
        product: product.to_string(),
        quantity: quantity.to_string(),
    }
}

fn update(product: &str, quantity: &str) -> UpdateStock {
    UpdateStock {
        product: product.to_string(),
        quantity: quantity.to_string(),
    }
}

#[test]
fn test_abstract_store_add_stock() {
    let store_id = "1".to_string();
    let mut abs_store = AbstractStore::new(store_id.clone());
    let add_stock = AddStock {
        product: "Camisa".to_string(),
        quantity: "1".to_string(),
    };
    let _ = abs_store.add_stock(add_stock);
    assert_eq!(abs_store.level("Camisa").is_some(), true);
}

#[test]
fn test_abstract_store_add_stock_fail() {
    let store_id = "1".to_string();
    let mut abs_store = AbstractStore::new(store_id.clone());
    let add_stock = AddStock {
        product: "Zapatillas".to_string(),
        quantity: "1".to_string(),
    };
    let _ = abs_store.add_stock(add_stock);
    assert_eq!(abs_store.level("2").is_some(), false);
}

#[test]
fn test_abstract_store_update_stock() {
    let store_id = "1".to_string();
    let mut abs_store = AbstractStore::new(store_id.clone());
    let add_stock = AddStock {
        product: "Campera".to_string(),
        quantity: "5".to_string(),
    };
    let _ = abs_store.add_stock(add_stock);
    let update_stock = UpdateStock {
        product: "Campera".to_string(),
        quantity: "1".to_string(),
    };
    let _ = abs_store.update_stock(update_stock);
    let valor = match abs_store.level("Campera") {
        Some(valor) => valor,
        None => 0,
    };
    assert_eq!(valor, 4);
}

#[test]
fn test_abstract_store_update_stock_fail() {
    let store_id = "1".to_string();
    let mut abs_store = AbstractStore::new(store_id.clone());
    let add_stock = AddStock {
        product: "Campera".to_string(),
        quantity: "2".to_string(),
    };
    let _ = abs_store.add_stock(add_stock);
    let update_stock = UpdateStock {
        product: "Campera".to_string(),
        quantity: "3".to_string(),
    };
    let result = match abs_store.update_stock(update_stock) {
        Ok(_) => Ok(()),
        Err(_) => Err(()),
    };
    assert_eq!(result.is_err(), true);
    let valor = match abs_store.level("Campera") {
        Some(valor) => valor,
        None => 0,
    };
    assert_eq!(valor, 2);
}

#[test]
fn update_overdraft_is_no_stock() {
    let mut link = AbstractStore::new("1".to_string());
    link.add_stock(add("Campera", "2")).unwrap();
    assert!(matches!(
        link.update_stock(update("Campera", "3")),
        Err(Errors::NoStockError)
    ));
    assert_eq!(link.level("Campera"), Some(2));
}

#[test]
fn update_with_bad_quantity_is_rejected() {
    let mut link = AbstractStore::new("1".to_string());
    link.add_stock(add("Campera", "2")).unwrap();
    assert!(matches!(
        link.update_stock(update("Campera", "one")),
        Err(Errors::CouldNotParse)
    ));
    assert_eq!(link.level("Campera"), Some(2));
    assert!(matches!(
        link.add_stock(add("Gorra", "-4")),
        Err(Errors::CouldNotParse)
    ));
    assert_eq!(link.level("Gorra"), None);
}

#[test]
fn add_stock_overwrites_the_level() {
    let mut link = AbstractStore::new("1".to_string());
    link.add_stock(add("Campera", "2")).unwrap();
    link.add_stock(add("Campera", "9")).unwrap();
    assert_eq!(link.level("Campera"), Some(9));
}

#[test]
fn buffered_updates_are_replayed_in_order() {
    let mut late = AbstractStore::new("1".to_string());
    late.update_stock(update("Campera", "1")).unwrap();
    late.update_stock(update("Gorra", "2")).unwrap();
    late.update_stock(update("Campera", "3")).unwrap();
    assert_eq!(late.level("Campera"), None);
    assert_eq!(late.orders_buffer.len(), 3);
    late.add_stock(add("Campera", "10")).unwrap();
    assert_eq!(late.level("Campera"), Some(6));
    assert_eq!(late.orders_buffer.len(), 1);
    assert_eq!(late.orders_buffer[0].product, "Gorra");

    let mut early = AbstractStore::new("1".to_string());
    early.add_stock(add("Campera", "10")).unwrap();
    early.update_stock(update("Campera", "1")).unwrap();
    early.update_stock(update("Gorra", "2")).unwrap();
    early.update_stock(update("Campera", "3")).unwrap();
    assert_eq!(early.level("Campera"), late.level("Campera"));
    assert_eq!(early.orders_buffer.len(), late.orders_buffer.len());
}

#[test]
fn replay_that_underflows_signals_no_stock() {
    let mut late = AbstractStore::new("1".to_string());
    late.update_stock(update("Campera", "4")).unwrap();
    late.update_stock(update("Campera", "3")).unwrap();
    late.update_stock(update("Campera", "1")).unwrap();
    assert!(matches!(
        late.add_stock(add("Campera", "5")),
        Err(Errors::NoStockError)
    ));
    assert_eq!(late.level("Campera"), Some(0));
    assert_eq!(late.orders_buffer.len(), 0);

    let mut early = AbstractStore::new("1".to_string());
    early.add_stock(add("Campera", "5")).unwrap();
    assert!(early.update_stock(update("Campera", "4")).is_ok());
    assert!(early.update_stock(update("Campera", "3")).is_err());
    assert!(early.update_stock(update("Campera", "1")).is_ok());
    assert_eq!(early.level("Campera"), Some(0));
}

#[test]
fn records_from_the_store_are_told_apart() {
    let link = AbstractStore::new("7".to_string());
    match link.handle_line("STOCK,Camisa,12") {
        Ok(StoreRecord::Add(m)) => {
            assert_eq!(m.product, "Camisa");
            assert_eq!(m.quantity, "12");
        }
        _ => panic!("a STOCK record shares a level"),
    }
    match link.handle_line("APPROVED,Camisa,2") {
        Ok(StoreRecord::Update(m)) => {
            assert_eq!(m.product, "Camisa");
            assert_eq!(m.quantity, "2");
        }
        _ => panic!("an APPROVED record reports a sale"),
    }
    assert!(matches!(
        link.handle_line("CANCELLED,Camisa,2"),
        Ok(StoreRecord::Cancelled)
    ));
    for query in ["LEADER,?,?", "LEADER"] {
        match link.handle_line(query) {
            Ok(StoreRecord::AskLeader(m)) => assert_eq!(m.sender_id, "7"),
            _ => panic!("a LEADER record asks who leads"),
        }
    }
    assert!(matches!(
        link.handle_line("HELLO,a,b"),
        Ok(StoreRecord::Unknown)
    ));
    assert!(matches!(
        link.handle_line("STOCK,Camisa"),
        Err(Errors::CouldNotParse)
    ));
    assert!(matches!(link.handle_line(""), Err(Errors::CouldNotParse)));
}

#[test]
fn order_is_forwarded_or_bounced() {
    let mut link = AbstractStore::new("7".to_string());
    link.add_stock(add("Camisa", "2")).unwrap();

    let enough = Order {
        order: "Camisa,2,5".to_string(),
        visited_stores: vec!["3".to_string()],
    };
    match link.order(enough) {
        Ok(OrderOutcome::Forwarded(line)) => assert_eq!(line, "Camisa,2,5\n"),
        _ => panic!("the mirror shows enough stock"),
    }

    let unknown = Order {
        order: "Gorra,40,5".to_string(),
        visited_stores: vec![],
    };
    match link.order(unknown) {
        Ok(OrderOutcome::Forwarded(line)) => assert_eq!(line, "Gorra,40,5\n"),
        _ => panic!("an unknown product is left to the store"),
    }

    let too_much = Order {
        order: "Camisa,3,5".to_string(),
        visited_stores: vec!["3".to_string()],
    };
    match link.order(too_much) {
        Ok(OrderOutcome::Bounced(back)) => {
            assert_eq!(back.order, "Camisa,3,5");
            assert_eq!(back.visited_stores, vec!["3", "7"]);
        }
        _ => panic!("the mirror shows too little stock"),
    }

    let malformed = Order {
        order: "Camisa".to_string(),
        visited_stores: vec![],
    };
    assert!(matches!(link.order(malformed), Err(Errors::CouldNotParse)));
    let malformed = Order {
        order: "Camisa,many,1".to_string(),
        visited_stores: vec![],
    };
    assert!(matches!(link.order(malformed), Err(Errors::CouldNotParse)));
}

#[test]
fn leader_line_for_the_store() {
    let link = AbstractStore::new("7".to_string());
    let line = link.new_leader(NewLeader {
        leader_id: "5".to_string(),
    });
    assert_eq!(line, "LEADER,5\n");
    assert_eq!(link.finished().store_id, "7");
}
