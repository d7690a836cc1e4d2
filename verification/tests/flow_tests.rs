// Messages followed through a whole node, from the line that arrives to the line that leaves.

use retail_network::abstract_store::{AbstractStore, OrderOutcome, StoreRecord};
use retail_network::coordinator::{Coordinator, NewOrder, NewStore, OrderRoute};
use retail_network::ecom_handler::{EcomHandler, EcomRequest};
use retail_network::reserves::resolve;
use retail_network::store::{NewEcomHandler, ProductStock, Store};

#[test]
fn store_shares_its_stock_with_a_new_leader() {
    let lines = vec!["Camisa,10".to_string(), "Gorra,3".to_string()];
    let mut store = Store::from_stock_lines(&lines).unwrap();
    let link: EcomHandler = store.new_ecom_handler(NewEcomHandler {
        ecom_id: "3".to_string(),
    });

    let announced = match link.handle_line("LEADER,3") {
        Ok(EcomRequest::Leader(m)) => m,
        _ => panic!("an announcement"),
    };
    let share = store.new_leader(announced).unwrap();
    let mut written = vec![];
    for answer in store.share_stock(share) {
        let delivery = store.answer_ecom(answer).unwrap();
        assert_eq!(delivery.ecom_id, "3");
        written.push(link.answer(delivery.answer));
    }
    assert_eq!(written, vec!["STOCK,Camisa,10\n", "STOCK,Gorra,3\n"]);

    // The leader's end of the link takes the levels into its mirror.
    let mut mirror = AbstractStore::new("A".to_string());
    for line in &written {
        match mirror.handle_line(line.trim_end()) {
            Ok(StoreRecord::Add(m)) => mirror.add_stock(m).unwrap(),
            _ => panic!("a level"),
        }
    }
    assert_eq!(mirror.level("Camisa"), Some(10));
    assert_eq!(mirror.level("Gorra"), Some(3));
}

#[test]
fn online_order_is_reserved_and_resolved() {
    let lines = vec!["Camisa,10".to_string()];
    let mut store = Store::from_stock_lines(&lines).unwrap();
    let link = store.new_ecom_handler(NewEcomHandler {
        ecom_id: "0".to_string(),
    });
    let mut mirror = AbstractStore::new("A".to_string());
    mirror
        .add_stock(retail_network::abstract_store::AddStock {
            product: "Camisa".to_string(),
            quantity: "10".to_string(),
        })
        .unwrap();

    let mut outcomes = vec![];
    for (line, hold) in [("Camisa,4,2", 5usize), ("Camisa,6,7", 7)] {
        let wanted = match link.handle_line(line) {
            Ok(EcomRequest::Reserve(m)) => m,
            _ => panic!("an order"),
        };
        let held = store.reserve(wanted).unwrap();
        let answer = store.dispatch(resolve(held, hold)).unwrap();
        let delivery = store.answer_ecom(answer).unwrap();
        let written = link.answer(delivery.answer);
        match mirror.handle_line(written.trim_end()) {
            Ok(StoreRecord::Update(m)) => mirror.update_stock(m).unwrap(),
            Ok(StoreRecord::Cancelled) => {}
            _ => panic!("a resolution"),
        }
        outcomes.push(written);
    }
    assert_eq!(outcomes, vec!["CANCELLED,Camisa,4\n", "APPROVED,Camisa,6\n"]);
    assert_eq!(
        store.stock.get("Camisa"),
        Some(ProductStock {
            available_quantity: 4,
            reserved_quantity: 0
        })
    );
    assert_eq!(mirror.level("Camisa"), Some(4));
}

#[test]
fn order_travels_from_store_to_store_until_dropped() {
    let mut coordinator = Coordinator::new(1, vec![], 9);
    let mut links = std::collections::HashMap::new();
    for id in ["A", "B", "C"] {
        let welcome = coordinator
            .new_store(NewStore {
                store_id: id.to_string(),
            })
            .unwrap();
        let mut link = welcome.link;
        link.add_stock(retail_network::abstract_store::AddStock {
            product: "Camisa".to_string(),
            quantity: "1".to_string(),
        })
        .unwrap();
        links.insert(id.to_string(), link);
    }

    let mut order = NewOrder {
        order: "Camisa,4".to_string(),
        visited_stores: vec![],
    };
    let mut visits: Vec<String> = vec![];
    let mut deadline = None;
    loop {
        match coordinator.new_order(order).unwrap() {
            OrderRoute::Dropped => break,
            OrderRoute::Retry(back) => order = back,
            OrderRoute::ToStore {
                store_id,
                order: sent,
            } => {
                assert!(!visits.contains(&store_id));
                let carried = sent.order.clone();
                match deadline.clone() {
                    None => deadline = Some(carried),
                    Some(first) => assert_eq!(first, carried),
                }
                visits.push(store_id.clone());
                match links[&store_id].order(sent) {
                    Ok(OrderOutcome::Bounced(back)) => order = back,
                    _ => panic!("the mirror shows too little"),
                }
            }
            OrderRoute::ToLeader { .. } => panic!("this ecom leads"),
        }
    }
    visits.sort();
    assert_eq!(visits, vec!["A", "B", "C"]);
}
