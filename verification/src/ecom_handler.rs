//! The store's end of a link to one ecom.

use vstd::prelude::*;
use crate::errors::Errors;
use crate::store::{NewLeader, ReserveProduct};
use crate::text::{fields, parse_usize, parse_usize_spec, same_text, split_fields, texts};
use crate::wire::{line_of, write_line};

verus! {

/// The link from a store to the ecom with id `ecom_id`.
pub struct EcomHandler {
    pub ecom_id: String,
}

/// A record that the store sends to the ecom at the other end of the link.
pub struct Answer {
    pub answer: String,
}

/// Tells a link to close.
pub struct Stop;

/// What a record that arrived from the ecom asks of the store.
pub enum EcomRequest {
    /// `LEADER,<id>`: a new leader was announced.
    Leader(NewLeader),
    /// `<product>,<quantity>,<deadline>`: an online order to reserve.
    Reserve(ReserveProduct),
}

/// Whether `r` is what the record `line` asks for. A record whose first field
/// is `LEADER` announces the leader named in its second field. Any other
/// record is an order and needs a product, a quantity and a deadline, the
/// last two numeric. A record that is neither is rejected with
/// `CouldNotParse`.
pub open spec fn is_request_of(line: Seq<char>, r: Result<EcomRequest, Errors>) -> bool {
    let f = fields(line, ',');
    if f[0] == "LEADER"@ {
        if f.len() >= 2 {
            r matches Ok(EcomRequest::Leader(m)) && m.ecom_id@ == f[1]
        } else {
            r matches Err(Errors::CouldNotParse)
        }
    } else if f.len() >= 3 && parse_usize_spec(f[1]) is Some && parse_usize_spec(f[2]) is Some {
        r matches Ok(EcomRequest::Reserve(m)) && m.product@ == f[0] && Some(m.quantity)
            == parse_usize_spec(f[1]) && Some(m.time_limit) == parse_usize_spec(f[2])
    } else {
        r matches Err(Errors::CouldNotParse)
    }
}

impl EcomHandler {
    /// Reads one record that arrived from the ecom.
    pub fn handle_line(&self, line: &str) -> (r: Result<EcomRequest, Errors>)
        ensures
            is_request_of(line@, r),
    {
        let mut f = split_fields(line, ',');
        assert(texts(f@)[0] == f@[0]@);
        if same_text(f[0].as_str(), "LEADER") {
            if f.len() >= 2 {
                assert(texts(f@)[1] == f@[1]@);
                let ecom_id = f.swap_remove(1);
                Ok(EcomRequest::Leader(NewLeader { ecom_id }))
            } else {
                Err(Errors::CouldNotParse)
            }
        } else if f.len() >= 3 {
            assert(texts(f@)[1] == f@[1]@);
            assert(texts(f@)[2] == f@[2]@);
            let quantity = parse_usize(f[1].as_str());
            let time_limit = parse_usize(f[2].as_str());
            match (quantity, time_limit) {
                (Some(quantity), Some(time_limit)) => {
                    let product = f.swap_remove(0);
                    Ok(EcomRequest::Reserve(ReserveProduct { product, quantity, time_limit }))
                },
                _ => Err(Errors::CouldNotParse),
            }
        } else {
            Err(Errors::CouldNotParse)
        }
    }

    /// The line that carries `msg` to the ecom.
    pub fn answer(&self, msg: Answer) -> (line: String)
        ensures
            line@ == line_of(msg.answer@),
    {
        write_line(msg.answer.as_str())
    }
}

} // verus!
