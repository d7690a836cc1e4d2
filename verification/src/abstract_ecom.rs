//! An ecom's end of a link to one peer.

use vstd::prelude::*;
use crate::coordinator::{ChangeLeader, CoordElection, EcomDisconnected, NewOrder};
use crate::ecom::{election_from_vec, election_ids, election_text, vec_from_election_msg};
use crate::errors::Errors;
use crate::text::{decimal, fields, parse_usize, parse_usize_spec, same_text, split_fields, texts, usize_to_string};
use crate::wire::{leader_record, line_of, order_record, record2, write_line, write_record2};

verus! {

/// The link to the peer with id `id`.
pub struct AbstractEcom {
    pub id: usize,
}

/// An online order for the peer, which leads.
pub struct SendOrder {
    pub order: String,
}

/// An election token for the peer: the ids it has passed, this ecom's last.
pub struct Election {
    pub visited: Vec<usize>,
}

/// The winner of an election, for the peer to follow.
pub struct NewLeader2 {
    pub new_leader_id: usize,
}

/// What a record that arrived from the peer means.
pub enum PeerRecord {
    /// `ORDER,<product>,<quantity>`: an order that no store has seen yet.
    Order(NewOrder),
    /// `LEADER,<id>`: the peer announces the leader.
    Leader(ChangeLeader),
    /// `ELECTION,<id1>/<id2>/…`: an election token.
    Election(CoordElection),
    /// A record with another verb.
    Unknown,
}

/// Whether `r` is what the record `line` means on the link to the peer `id`.
/// An order needs a product and a quantity, an announcement a numeric id and
/// an election a token; a record that lacks them is rejected with
/// `CouldNotParse`. The hop that an election token suggests is the id after
/// the peer's.
pub open spec fn is_peer_record_of(id: usize, line: Seq<char>, r: Result<PeerRecord, Errors>) -> bool {
    let f = fields(line, ',');
    if f[0] == "ORDER"@ {
        if f.len() >= 3 {
            r matches Ok(PeerRecord::Order(m)) && m.order@ == record2(f[1], f[2])
                && m.visited_stores@.len() == 0
        } else {
            r matches Err(Errors::CouldNotParse)
        }
    } else if f[0] == "LEADER"@ {
        if f.len() >= 2 && parse_usize_spec(f[1]) is Some {
            r matches Ok(PeerRecord::Leader(m)) && Some(m.new_leader_id) == parse_usize_spec(f[1])
        } else {
            r matches Err(Errors::CouldNotParse)
        }
    } else if f[0] == "ELECTION"@ {
        if f.len() >= 2 {
            r matches Ok(PeerRecord::Election(m)) && m.visited@ == election_ids(fields(f[1], '/'))
                && m.ecom_id == id + 1
        } else {
            r matches Err(Errors::CouldNotParse)
        }
    } else {
        r matches Ok(PeerRecord::Unknown)
    }
}

/// The line that carries an election token which has passed `visited`:
/// `ELECTION,<id1>/<id2>/…` and a newline.
pub open spec fn election_line(visited: Seq<usize>) -> Seq<char> {
    if visited.len() == 0 {
        election_text(Seq::empty(), Seq::empty())
    } else {
        election_text(visited.drop_last(), decimal(visited.last() as nat))
    }
}

impl AbstractEcom {
    /// The id after the peer's fits in a `usize`.
    pub open spec fn wf(&self) -> bool {
        self.id < usize::MAX
    }

    /// Reads one record that arrived from the peer.
    pub fn handle_line(&self, line: &str) -> (r: Result<PeerRecord, Errors>)
        requires
            self.wf(),
        ensures
            is_peer_record_of(self.id, line@, r),
    {
        let mut f = split_fields(line, ',');
        assert(texts(f@)[0] == f@[0]@);
        if same_text(f[0].as_str(), "ORDER") {
            if f.len() >= 3 {
                assert(texts(f@)[1] == f@[1]@);
                assert(texts(f@)[2] == f@[2]@);
                let order = write_record2(f[1].as_str(), f[2].as_str());
                Ok(PeerRecord::Order(NewOrder { order, visited_stores: Vec::new() }))
            } else {
                Err(Errors::CouldNotParse)
            }
        } else if same_text(f[0].as_str(), "LEADER") {
            if f.len() >= 2 {
                assert(texts(f@)[1] == f@[1]@);
                match parse_usize(f[1].as_str()) {
                    Some(new_leader_id) => Ok(PeerRecord::Leader(ChangeLeader { new_leader_id })),
                    None => Err(Errors::CouldNotParse),
                }
            } else {
                Err(Errors::CouldNotParse)
            }
        } else if same_text(f[0].as_str(), "ELECTION") {
            if f.len() >= 2 {
                assert(texts(f@)[1] == f@[1]@);
                let visited = vec_from_election_msg(f.swap_remove(1));
                Ok(PeerRecord::Election(CoordElection { ecom_id: self.id + 1, visited }))
            } else {
                Err(Errors::CouldNotParse)
            }
        } else {
            Ok(PeerRecord::Unknown)
        }
    }

    /// The line that forwards an order to the peer.
    pub fn send_order(&self, msg: SendOrder) -> (line: String)
        ensures
            line@ == line_of(order_record(msg.order@)),
    {
        let record = write_record2("ORDER", msg.order.as_str());
        write_line(record.as_str())
    }

    /// The line that passes an election token on to the peer.
    pub fn election(&self, msg: Election) -> (line: String)
        ensures
            line@ == election_line(msg.visited@),
    {
        let mut visited = msg.visited;
        match visited.pop() {
            Some(last) => election_from_vec(visited, usize_to_string(last)),
            None => election_from_vec(visited, String::new()),
        }
    }

    /// The line that announces the leader to the peer.
    pub fn new_leader2(&self, msg: NewLeader2) -> (line: String)
        ensures
            line@ == line_of(leader_record(decimal(msg.new_leader_id as nat))),
    {
        let id = usize_to_string(msg.new_leader_id);
        let record = write_record2("LEADER", id.as_str());
        write_line(record.as_str())
    }

    /// The message that tells the coordinator that the link closed.
    pub fn finished(&self) -> (gone: EcomDisconnected)
        ensures
            gone.ecom_id == self.id,
    {
        EcomDisconnected { ecom_id: self.id }
    }
}

} // verus!
