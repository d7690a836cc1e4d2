// The behavior of the coordinator: membership, leadership and the routing of orders.

use retail_network::coordinator::{
    route_local, ChangeLeader, CoordElection, Coordinator, EcomDisconnected, ElectionStep,
    GetLeader, NewEcom, NewOrder, NewStore, OrderRoute, StoreDisconnected,
};
use retail_network::errors::Errors;

fn coordinator(id: usize, leader: Option<usize>) -> Coordinator {
    let mut coordinator = Coordinator::new(id, vec![], 42);
    coordinator.curr_leader = leader;
    coordinator
}

fn order(text: &str, visited: &[&str]) -> NewOrder {
    NewOrder {
        order: text.to_string(),
        visited_stores: visited.iter().map(|s| s.to_string()).collect(),
    }
}

#[test]
fn test_coordinator_new_store() {
    let mut coordinator = coordinator(0, Some(1));

    let store_id = "1".to_string();
    let new_store = NewStore {
        store_id: store_id.clone(),
    };
    let _ = coordinator.new_store(new_store);
    assert_eq!(coordinator.active_stores.contains(&store_id), true);
}

#[test]
fn test_coordinator_store_disconnected() {
    let mut coordinator = coordinator(0, Some(1));

    let store_id = "1".to_string();
    let new_store = NewStore {
        store_id: store_id.clone(),
    };
    let _ = coordinator.new_store(new_store);
    assert_eq!(coordinator.active_stores.contains(&store_id), true);
    let _ = coordinator.store_disconnected(StoreDisconnected {
        store_id: store_id.clone(),
    });
    assert_eq!(coordinator.active_stores.contains(&store_id), false);
}

#[test]
fn test_coordinator_store_disconnected_fail() {
    let mut coordinator = coordinator(0, Some(1));

    let store_id = "1".to_string();
    let new_store = NewStore {
        store_id: store_id.clone(),
    };
    let _ = coordinator.new_store(new_store);
    assert_eq!(coordinator.active_stores.contains(&store_id), true);
    let resultado = coordinator.store_disconnected(StoreDisconnected {
        store_id: "2".to_string(),
    });
    assert_eq!(resultado.is_err(), true);
    assert_eq!(resultado, Err(Errors::StoreNotConnectedError));
    assert_eq!(coordinator.active_stores.contains(&store_id), true);
}

#[test]
fn new_store_is_told_the_leader_first() {
    let mut coordinator = coordinator(0, Some(1));
    coordinator.change_leader(ChangeLeader { new_leader_id: 12 });
    let welcome = coordinator
        .new_store(NewStore {
            store_id: "A".to_string(),
        })
        .unwrap();
    assert_eq!(welcome.first.leader_id, "12");
    assert_eq!(welcome.link.store_id, "A");
    assert_eq!(welcome.link.level("Camisa"), None);
    assert_eq!(
        welcome.link.new_leader(welcome.first),
        "LEADER,12\n".to_string()
    );
}

#[test]
fn new_store_without_leader_is_refused() {
    let mut coordinator = coordinator(0, None);
    let refused = coordinator.new_store(NewStore {
        store_id: "A".to_string(),
    });
    assert!(matches!(refused, Err(Errors::NoActiveLeader)));
    assert!(coordinator.active_stores.is_empty());
}

#[test]
fn a_store_is_listed_once() {
    let mut coordinator = coordinator(0, Some(0));
    for id in ["A", "B", "A"] {
        coordinator
            .new_store(NewStore {
                store_id: id.to_string(),
            })
            .unwrap();
    }
    assert_eq!(coordinator.active_stores.names(), vec!["A", "B"]);
}

#[test]
fn leader_adoption_on_higher_id_join() {
    let mut coordinator = coordinator(1, Some(1));
    for id in ["A", "B"] {
        coordinator
            .new_store(NewStore {
                store_id: id.to_string(),
            })
            .unwrap();
    }
    let welcome = coordinator
        .new_ecom(NewEcom {
            id: "5".to_string(),
        })
        .unwrap();
    assert_eq!(welcome.link.id, 5);
    assert_eq!(coordinator.curr_leader, Some(5));
    assert!(coordinator.active_ecoms.contains(5));
    let told: Vec<(String, String)> = welcome
        .notices
        .into_iter()
        .map(|n| (n.store_id, n.msg.leader_id))
        .collect();
    assert_eq!(
        told,
        vec![
            ("A".to_string(), "5".to_string()),
            ("B".to_string(), "5".to_string())
        ]
    );
}

#[test]
fn lower_id_join_keeps_the_leader() {
    let mut coordinator = coordinator(4, Some(4));
    coordinator
        .new_store(NewStore {
            store_id: "A".to_string(),
        })
        .unwrap();
    let welcome = coordinator
        .new_ecom(NewEcom {
            id: "2".to_string(),
        })
        .unwrap();
    assert!(welcome.notices.is_empty());
    assert_eq!(coordinator.curr_leader, Some(4));
    let welcome = coordinator
        .new_ecom(NewEcom {
            id: "4".to_string(),
        })
        .unwrap();
    assert!(welcome.notices.is_empty());
    assert_eq!(coordinator.curr_leader, Some(4));
}

#[test]
fn join_without_leader_adopts_nobody() {
    let mut coordinator = coordinator(1, None);
    let welcome = coordinator
        .new_ecom(NewEcom {
            id: "9".to_string(),
        })
        .unwrap();
    assert!(welcome.notices.is_empty());
    assert_eq!(coordinator.curr_leader, None);
    assert!(coordinator.active_ecoms.contains(9));
}

#[test]
fn peer_with_malformed_id_is_rejected() {
    let mut coordinator = coordinator(1, Some(1));
    for id in ["", "x", "3a", "-3", "99999999999999999999999999999999"] {
        let refused = coordinator.new_ecom(NewEcom { id: id.to_string() });
        assert!(matches!(refused, Err(Errors::CouldNotParse)));
    }
    let refused = coordinator.new_ecom(NewEcom {
        id: usize::MAX.to_string(),
    });
    assert!(matches!(refused, Err(Errors::CouldNotParse)));
    assert_eq!(coordinator.active_ecoms.len(), 0);
    assert_eq!(coordinator.curr_leader, Some(1));
}

#[test]
fn leader_down_starts_an_election() {
    let mut coordinator = coordinator(1, Some(1));
    for id in ["2", "3"] {
        coordinator.new_ecom(NewEcom { id: id.to_string() }).unwrap();
    }
    assert_eq!(coordinator.curr_leader, Some(3));

    let quiet = coordinator
        .ecom_disconnected(EcomDisconnected { ecom_id: 2 })
        .unwrap();
    assert!(quiet.is_none());
    assert_eq!(coordinator.curr_leader, Some(3));

    let token = coordinator
        .ecom_disconnected(EcomDisconnected { ecom_id: 3 })
        .unwrap()
        .unwrap();
    assert!(token.visited.is_empty());
    assert_eq!(token.ecom_id, 2);
    assert_eq!(coordinator.curr_leader, None);
    assert_eq!(coordinator.active_ecoms.len(), 0);

    let absent = coordinator.ecom_disconnected(EcomDisconnected { ecom_id: 3 });
    assert!(matches!(absent, Err(Errors::StoreNotConnectedError)));
}

#[test]
fn election_token_goes_to_the_next_in_the_ring() {
    let mut coordinator = coordinator(4, None);
    for id in ["9", "2", "6"] {
        coordinator.new_ecom(NewEcom { id: id.to_string() }).unwrap();
    }
    match coordinator.coord_election(CoordElection {
        ecom_id: 5,
        visited: vec![2],
    }) {
        ElectionStep::Forward { ecom_id, msg } => {
            assert_eq!(ecom_id, 6);
            assert_eq!(msg.visited, vec![2, 4]);
        }
        _ => panic!("the token goes on"),
    }

    let mut last = Coordinator::new(9, vec![], 1);
    for id in ["4", "2", "6"] {
        last.new_ecom(NewEcom { id: id.to_string() }).unwrap();
    }
    match last.coord_election(CoordElection {
        ecom_id: 7,
        visited: vec![4, 6],
    }) {
        ElectionStep::Forward { ecom_id, msg } => {
            assert_eq!(ecom_id, 2);
            assert_eq!(msg.visited, vec![4, 6, 9]);
        }
        _ => panic!("the token wraps round"),
    }
}

#[test]
fn election_token_that_came_round_names_the_greatest() {
    let mut coordinator = coordinator(4, None);
    for id in ["9", "2"] {
        coordinator.new_ecom(NewEcom { id: id.to_string() }).unwrap();
    }
    match coordinator.coord_election(CoordElection {
        ecom_id: 3,
        visited: vec![4, 9, 2],
    }) {
        ElectionStep::Finished {
            announcements,
            local,
        } => {
            assert_eq!(local.new_leader_id, 9);
            let told: Vec<(usize, usize)> = announcements
                .into_iter()
                .map(|n| (n.ecom_id, n.msg.new_leader_id))
                .collect();
            assert_eq!(told, vec![(9, 9), (2, 9)]);
        }
        _ => panic!("the token came round"),
    }
}

#[test]
fn lonely_ecom_elects_itself() {
    let coordinator = coordinator(4, None);
    match coordinator.coord_election(CoordElection {
        ecom_id: 5,
        visited: vec![],
    }) {
        ElectionStep::SelfElected(m) => assert_eq!(m.new_leader_id, 4),
        _ => panic!("there is nobody else"),
    }
}

#[test]
fn change_leader_tells_every_store() {
    let mut coordinator = coordinator(1, Some(1));
    for id in ["A", "B", "C"] {
        coordinator
            .new_store(NewStore {
                store_id: id.to_string(),
            })
            .unwrap();
    }
    let notices = coordinator.change_leader(ChangeLeader { new_leader_id: 7 });
    assert_eq!(coordinator.curr_leader, Some(7));
    let told: Vec<(String, String)> = notices
        .into_iter()
        .map(|n| (n.store_id, n.msg.leader_id))
        .collect();
    assert_eq!(
        told,
        vec![
            ("A".to_string(), "7".to_string()),
            ("B".to_string(), "7".to_string()),
            ("C".to_string(), "7".to_string())
        ]
    );
    let again = coordinator.change_leader(ChangeLeader { new_leader_id: 7 });
    assert_eq!(coordinator.curr_leader, Some(7));
    assert_eq!(again.len(), 3);
}

#[test]
fn get_leader_answers_known_stores_only() {
    let mut coordinator = coordinator(1, Some(3));
    coordinator
        .new_store(NewStore {
            store_id: "A".to_string(),
        })
        .unwrap();
    let answer = coordinator
        .get_leader(GetLeader {
            sender_id: "A".to_string(),
        })
        .unwrap();
    assert_eq!(answer.store_id, "A");
    assert_eq!(answer.msg.leader_id, "3");
    assert!(coordinator
        .get_leader(GetLeader {
            sender_id: "B".to_string()
        })
        .is_none());
    coordinator.curr_leader = None;
    assert!(coordinator
        .get_leader(GetLeader {
            sender_id: "A".to_string()
        })
        .is_none());
}

#[test]
fn order_without_stores_is_rejected() {
    let mut coordinator = coordinator(1, Some(1));
    let refused = coordinator.new_order(order("Camisa,2", &[]));
    assert!(matches!(refused, Err(Errors::NoActiveStoresError)));
    let mut coordinator = Coordinator::new(1, vec![], 3);
    coordinator.curr_leader = None;
    let refused = coordinator.new_order(order("Camisa,2", &[]));
    assert!(matches!(refused, Err(Errors::NoActiveStoresError)));
}

#[test]
fn order_without_leader_is_rejected() {
    let mut coordinator = coordinator(1, Some(1));
    coordinator
        .new_store(NewStore {
            store_id: "A".to_string(),
        })
        .unwrap();
    coordinator.curr_leader = None;
    let refused = coordinator.new_order(order("Camisa,2", &[]));
    assert!(matches!(refused, Err(Errors::NoActiveLeader)));
}

#[test]
fn follower_forwards_the_order_to_the_leader() {
    let mut coordinator = coordinator(1, Some(1));
    coordinator
        .new_store(NewStore {
            store_id: "A".to_string(),
        })
        .unwrap();
    coordinator
        .new_ecom(NewEcom {
            id: "3".to_string(),
        })
        .unwrap();
    match coordinator.new_order(order("Camisa,2", &["A"])) {
        Ok(OrderRoute::ToLeader { ecom_id, msg }) => {
            assert_eq!(ecom_id, 3);
            assert_eq!(msg.order, "Camisa,2");
        }
        _ => panic!("the leader routes orders"),
    }
}

#[test]
fn leader_sends_the_order_to_a_store_with_a_deadline() {
    let mut coordinator = coordinator(1, Some(1));
    for id in ["A", "B", "C"] {
        coordinator
            .new_store(NewStore {
                store_id: id.to_string(),
            })
            .unwrap();
    }
    let mut seen = std::collections::HashSet::new();
    for _ in 0..200 {
        match coordinator.new_order(order("Camisa,2", &[])) {
            Ok(OrderRoute::ToStore {
                store_id,
                order: sent,
            }) => {
                assert!(["A", "B", "C"].contains(&store_id.as_str()));
                assert!(sent.visited_stores.is_empty());
                let deadline: usize = sent.order.strip_prefix("Camisa,2,").unwrap().parse().unwrap();
                assert!((1..10).contains(&deadline));
                seen.insert(store_id);
            }
            _ => panic!("no store has refused the order"),
        }
    }
    assert!(seen.len() > 1);
}

#[test]
fn order_that_every_store_refused_is_dropped() {
    let mut coordinator = coordinator(1, Some(1));
    for id in ["A", "B"] {
        coordinator
            .new_store(NewStore {
                store_id: id.to_string(),
            })
            .unwrap();
    }
    let route = coordinator.new_order(order("Camisa,2", &["B", "X", "A"]));
    assert!(matches!(route, Ok(OrderRoute::Dropped)));
    let route = coordinator.new_order(order("Camisa,2", &["X", "Y"]));
    assert!(!matches!(route, Ok(OrderRoute::Dropped)));
}

#[test]
fn no_store_is_visited_twice() {
    let mut coordinator = coordinator(1, Some(1));
    for id in ["A", "B", "C"] {
        coordinator
            .new_store(NewStore {
                store_id: id.to_string(),
            })
            .unwrap();
    }
    let mut retried = 0;
    for _ in 0..200 {
        match coordinator.new_order(order("Camisa,2", &["A", "C"])) {
            Ok(OrderRoute::ToStore { store_id, order: sent }) => {
                assert_eq!(store_id, "B");
                assert_eq!(sent.visited_stores, vec!["A", "C"]);
            }
            Ok(OrderRoute::Retry(back)) => {
                assert_eq!(back.order, "Camisa,2");
                assert_eq!(back.visited_stores, vec!["A", "C"]);
                retried += 1;
            }
            _ => panic!("one store is left to try"),
        }
    }
    assert!(retried > 0);
}

#[test]
fn route_after_the_draw() {
    match route_local(order("Camisa,2", &["A"]), "B".to_string(), 7) {
        OrderRoute::ToStore { store_id, order: sent } => {
            assert_eq!(store_id, "B");
            assert_eq!(sent.order, "Camisa,2,7");
            assert_eq!(sent.visited_stores, vec!["A"]);
        }
        _ => panic!("B has not seen the order"),
    }
    match route_local(order("Camisa,2,4", &["A"]), "B".to_string(), 7) {
        OrderRoute::ToStore { store_id, order: sent } => {
            assert_eq!(store_id, "B");
            assert_eq!(sent.order, "Camisa,2,4");
            assert_eq!(sent.visited_stores, vec!["A"]);
        }
        _ => panic!("B has not seen the order"),
    }
    match route_local(order("Camisa,2", &["A", "B"]), "B".to_string(), 7) {
        OrderRoute::Retry(back) => {
            assert_eq!(back.order, "Camisa,2");
            assert_eq!(back.visited_stores, vec!["A", "B"]);
        }
        _ => panic!("B has refused the order"),
    }
}
