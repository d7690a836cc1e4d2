// The records that the links read and write, and the election across a ring.

use retail_network::abstract_ecom::{AbstractEcom, Election, NewLeader2, PeerRecord, SendOrder};
use retail_network::coordinator::{
    ChangeLeader, CoordElection, Coordinator, EcomDisconnected, ElectionStep, NewEcom,
};
use retail_network::ecom::{election_from_vec, vec_from_election_msg};
use retail_network::ecom_handler::{Answer, EcomHandler, EcomRequest};
use retail_network::errors::Errors;
use retail_network::feeder::OrderFeeder;
use retail_network::reserves::{resolve, ReserveManager};
use retail_network::store::{
    parse_command, parse_local_order, ConsoleCommand, Reservation,
};
use retail_network::text::{parse_usize, split_fields, usize_to_string};

#[test]
fn numbers_are_read_as_decimal() {
    assert_eq!(parse_usize("0"), Some(0));
    assert_eq!(parse_usize("5"), Some(5));
    assert_eq!(parse_usize("007"), Some(7));
    assert_eq!(parse_usize("+12"), Some(12));
    assert_eq!(parse_usize("1234567890"), Some(1234567890));
    assert_eq!(parse_usize(&usize::MAX.to_string()), Some(usize::MAX));
    for bad in ["", "+", "-", "-1", "1 ", " 1", "1.5", "１", "++1", "1+", "0x10"] {
        assert_eq!(parse_usize(bad), None);
    }
    let too_big = format!("{}0", usize::MAX);
    assert_eq!(parse_usize(&too_big), None);
    let mut just_over = usize::MAX.to_string().into_bytes();
    let last = just_over.len() - 1;
    just_over[last] += 1;
    assert_eq!(parse_usize(&String::from_utf8(just_over).unwrap()), None);
}

#[test]
fn numbers_are_written_as_decimal() {
    for n in [0usize, 1, 9, 10, 11, 99, 100, 101, 4096, 1234567890, usize::MAX] {
        assert_eq!(usize_to_string(n), n.to_string());
        assert_eq!(parse_usize(&usize_to_string(n)), Some(n));
    }
}

#[test]
fn fields_are_split_like_str_split() {
    for text in [
        "",
        ",",
        "a",
        "a,b",
        "a,,b",
        ",a",
        "a,",
        "Camisa,12,3",
        "LEADER,?,?",
        "ñandú,3",
    ] {
        let expected: Vec<String> = text.split(',').map(|s| s.to_string()).collect();
        assert_eq!(split_fields(text, ','), expected);
    }
    assert_eq!(split_fields("1/2/3", '/'), vec!["1", "2", "3"]);
}

#[test]
fn election_token_is_read() {
    assert_eq!(vec_from_election_msg("1/2/3".to_string()), vec![1, 2, 3]);
    assert_eq!(vec_from_election_msg("7".to_string()), vec![7]);
    assert_eq!(vec_from_election_msg("".to_string()), Vec::<usize>::new());
    assert_eq!(vec_from_election_msg("1/x/3/".to_string()), vec![1, 3]);
}

#[test]
fn election_token_is_written() {
    assert_eq!(
        election_from_vec(vec![], "1".to_string()),
        "ELECTION,1\n"
    );
    assert_eq!(
        election_from_vec(vec![1, 2], "3".to_string()),
        "ELECTION,1/2/3\n"
    );
    assert_eq!(
        election_from_vec(vec![10, 200], "3000".to_string()),
        "ELECTION,10/200/3000\n"
    );
}

#[test]
fn peer_link_writes_its_records() {
    let link = AbstractEcom { id: 2 };
    assert_eq!(
        link.send_order(SendOrder {
            order: "Camisa,2".to_string()
        }),
        "ORDER,Camisa,2\n"
    );
    assert_eq!(
        link.new_leader2(NewLeader2 { new_leader_id: 31 }),
        "LEADER,31\n"
    );
    assert_eq!(
        link.election(Election {
            visited: vec![1, 5, 3]
        }),
        "ELECTION,1/5/3\n"
    );
    assert_eq!(link.election(Election { visited: vec![4] }), "ELECTION,4\n");
    assert_eq!(link.election(Election { visited: vec![] }), "ELECTION,\n");
    assert_eq!(link.finished().ecom_id, 2);
}

#[test]
fn peer_link_reads_its_records() {
    let link = AbstractEcom { id: 2 };
    match link.handle_line("ORDER,Camisa,2") {
        Ok(PeerRecord::Order(m)) => {
            assert_eq!(m.order, "Camisa,2");
            assert!(m.visited_stores.is_empty());
        }
        _ => panic!("an order"),
    }
    match link.handle_line("LEADER,31") {
        Ok(PeerRecord::Leader(m)) => assert_eq!(m.new_leader_id, 31),
        _ => panic!("an announcement"),
    }
    match link.handle_line("ELECTION,1/5/3") {
        Ok(PeerRecord::Election(m)) => {
            assert_eq!(m.visited, vec![1, 5, 3]);
            assert_eq!(m.ecom_id, 3);
        }
        _ => panic!("a token"),
    }
    assert!(matches!(
        link.handle_line("HELLO"),
        Ok(PeerRecord::Unknown)
    ));
    for bad in ["ORDER,Camisa", "LEADER", "LEADER,x", "ELECTION"] {
        assert!(matches!(
            link.handle_line(bad),
            Err(Errors::CouldNotParse)
        ));
    }
}

#[test]
fn store_side_link_reads_and_writes() {
    let link = EcomHandler {
        ecom_id: "3".to_string(),
    };
    match link.handle_line("LEADER,3") {
        Ok(EcomRequest::Leader(m)) => assert_eq!(m.ecom_id, "3"),
        _ => panic!("an announcement"),
    }
    match link.handle_line("Camisa,2,7") {
        Ok(EcomRequest::Reserve(m)) => {
            assert_eq!(m.product, "Camisa");
            assert_eq!(m.quantity, 2);
            assert_eq!(m.time_limit, 7);
        }
        _ => panic!("an order"),
    }
    for bad in ["LEADER", "Camisa,2", "Camisa,two,7", "Camisa,2,soon", ""] {
        assert!(matches!(
            link.handle_line(bad),
            Err(Errors::CouldNotParse)
        ));
    }
    assert_eq!(
        link.answer(Answer {
            answer: "APPROVED,Camisa,2".to_string()
        }),
        "APPROVED,Camisa,2\n"
    );
}

#[test]
fn reservation_is_cancelled_only_if_held_past_its_deadline() {
    let held = |deadline| Reservation {
        product: "Camisa".to_string(),
        quantity: 2,
        deadline_seconds: deadline,
    };
    let late = resolve(held(3), 4);
    assert!(late.cancel_order);
    assert_eq!(late.product, "Camisa");
    assert_eq!(late.quantity, 2);
    assert!(!resolve(held(3), 3).cancel_order);
    assert!(!resolve(held(3), 1).cancel_order);
}

#[test]
fn reserve_manager_draws_the_hold() {
    let mut manager = ReserveManager::new(11);
    let mut seen = std::collections::HashSet::new();
    for _ in 0..300 {
        let resolution = manager.schedule(Reservation {
            product: "Camisa".to_string(),
            quantity: 2,
            deadline_seconds: 5,
        });
        assert!((1..10).contains(&resolution.hold_seconds));
        assert_eq!(resolution.dispatch.cancel_order, resolution.hold_seconds > 5);
        assert_eq!(resolution.dispatch.product, "Camisa");
        assert_eq!(resolution.dispatch.quantity, 2);
        seen.insert(resolution.hold_seconds);
    }
    assert!(seen.len() > 1);
}

#[test]
fn feeder_hands_each_order_over_until_accepted() {
    let mut feeder = OrderFeeder::new(vec!["Camisa,2".to_string(), "Gorra,1".to_string()], 5);
    for _ in 0..50 {
        assert!((2..6).contains(&feeder.pause()));
    }
    let first = feeder.current().unwrap();
    assert_eq!(first.order, "Camisa,2");
    assert!(first.visited_stores.is_empty());
    feeder.settle(false);
    assert_eq!(feeder.current().unwrap().order, "Camisa,2");
    feeder.settle(true);
    assert_eq!(feeder.current().unwrap().order, "Gorra,1");
    feeder.settle(true);
    assert!(feeder.current().is_none());
    feeder.settle(true);
    assert!(feeder.current().is_none());
}

#[test]
fn sales_file_lines_and_console_commands() {
    let sale = parse_local_order("Camisa,3").unwrap();
    assert_eq!(sale.product, "Camisa");
    assert_eq!(sale.quantity, 3);
    assert!(matches!(
        parse_local_order("Camisa"),
        Err(Errors::CouldNotParse)
    ));
    assert!(matches!(
        parse_local_order("Camisa,x"),
        Err(Errors::CouldNotParse)
    ));
    assert!(matches!(parse_command("C"), Some(ConsoleCommand::Connect(_))));
    assert!(matches!(parse_command("K"), Some(ConsoleCommand::Kill(_))));
    assert!(matches!(parse_command("S"), Some(ConsoleCommand::Show(_))));
    assert!(parse_command("c").is_none());
    assert!(parse_command("").is_none());
    assert!(parse_command("CK").is_none());
}

fn ring_member(id: usize, peers: &[usize], leader: usize) -> Coordinator {
    let mut coordinator = Coordinator::new(id, vec![], id as u64);
    for peer in peers {
        coordinator
            .new_ecom(NewEcom {
                id: peer.to_string(),
            })
            .unwrap();
    }
    coordinator.curr_leader = Some(leader);
    coordinator
}

#[test]
fn ring_election_with_three_peers() {
    let mut one = ring_member(1, &[2, 3], 3);
    let mut two = ring_member(2, &[1, 3], 3);

    // Leader 3 disconnects; both survivors notice.
    let start = one
        .ecom_disconnected(EcomDisconnected { ecom_id: 3 })
        .unwrap()
        .unwrap();
    assert!(two
        .ecom_disconnected(EcomDisconnected { ecom_id: 3 })
        .unwrap()
        .is_some());
    assert_eq!(one.curr_leader, None);
    assert_eq!(two.curr_leader, None);

    // Coordinator 1 sends ELECTION,[1] to peer 2.
    let first_hop = match one.coord_election(start) {
        ElectionStep::Forward { ecom_id, msg } => {
            assert_eq!(ecom_id, 2);
            assert_eq!(msg.visited, vec![1]);
            AbstractEcom { id: 2 }.election(msg)
        }
        _ => panic!("peer 2 is next"),
    };
    assert_eq!(first_hop, "ELECTION,1\n");

    // Peer 2 forwards ELECTION,[1,2] to peer 1.
    let token = match (AbstractEcom { id: 1 }).handle_line(first_hop.trim_end()) {
        Ok(PeerRecord::Election(token)) => token,
        _ => panic!("a token"),
    };
    let second_hop = match two.coord_election(token) {
        ElectionStep::Forward { ecom_id, msg } => {
            assert_eq!(ecom_id, 1);
            assert_eq!(msg.visited, vec![1, 2]);
            AbstractEcom { id: 1 }.election(msg)
        }
        _ => panic!("peer 1 is next"),
    };
    assert_eq!(second_hop, "ELECTION,1/2\n");

    // Peer 1 sees itself in the list, picks 2 and announces it.
    let token = match (AbstractEcom { id: 2 }).handle_line(second_hop.trim_end()) {
        Ok(PeerRecord::Election(token)) => token,
        _ => panic!("a token"),
    };
    let announcement = match one.coord_election(token) {
        ElectionStep::Finished {
            announcements,
            local,
        } => {
            assert_eq!(local.new_leader_id, 2);
            one.change_leader(local);
            assert_eq!(announcements.len(), 1);
            assert_eq!(announcements[0].ecom_id, 2);
            let notice = announcements.into_iter().next().unwrap();
            AbstractEcom { id: 2 }.new_leader2(notice.msg)
        }
        _ => panic!("the token came round"),
    };
    assert_eq!(announcement, "LEADER,2\n");
    match (AbstractEcom { id: 1 }).handle_line(announcement.trim_end()) {
        Ok(PeerRecord::Leader(m)) => {
            two.change_leader(m);
        }
        _ => panic!("an announcement"),
    }

    assert_eq!(one.curr_leader, Some(2));
    assert_eq!(two.curr_leader, Some(2));
}

fn run_election(members: &[usize], starter: usize) -> usize {
    let mut at = starter;
    let mut token = CoordElection {
        ecom_id: starter + 1,
        visited: vec![],
    };
    for _ in 0..=members.len() {
        let peers: Vec<usize> = members.iter().copied().filter(|m| *m != at).collect();
        let coordinator = ring_member(at, &peers, 0);
        match coordinator.coord_election(token) {
            ElectionStep::Finished { local, .. } => return local.new_leader_id,
            ElectionStep::SelfElected(m) => return m.new_leader_id,
            ElectionStep::Forward { ecom_id, msg } => {
                token = CoordElection {
                    ecom_id: at + 1,
                    visited: msg.visited,
                };
                at = ecom_id;
            }
        }
    }
    panic!("the token never came round");
}

#[test]
fn every_starter_elects_the_greatest_member() {
    for members in [
        vec![1usize],
        vec![1, 2],
        vec![1, 2, 3],
        vec![3, 1, 2],
        vec![10, 4, 7, 1],
        vec![5, 50, 500, 2, 20],
    ] {
        let greatest = *members.iter().max().unwrap();
        for starter in &members {
            assert_eq!(run_election(&members, *starter), greatest);
        }
    }
}

#[test]
fn second_announcement_of_the_same_leader_changes_nothing() {
    let mut coordinator = ring_member(1, &[2, 3], 3);
    coordinator.change_leader(ChangeLeader { new_leader_id: 3 });
    assert_eq!(coordinator.curr_leader, Some(3));
    assert_eq!(coordinator.active_ecoms.len(), 2);
    assert_eq!(coordinator.id, 1);
}
