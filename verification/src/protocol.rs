//! Both ends of a link use the same encoding: what one end writes, the other
//! end reads as the same message.

use vstd::prelude::*;
use vstd::string::*;
use crate::abstract_ecom::{election_line, is_peer_record_of, PeerRecord};
use crate::abstract_store::{is_record_of, StoreRecord};
use crate::coordinator::with_deadline;
use crate::ecom::{election_ids, election_text, slashed};
use crate::ecom_handler::{is_request_of, EcomRequest};
use crate::errors::Errors;
use crate::text::{decimal, digit_value, fields, law_decimal_round_trip, lemma_decimal_lacks, lemma_fields_cons, lemma_fields_single, parse_usize_spec};
use crate::wire::{approved_record, cancelled_record, leader_query, leader_record, lemma_fields_record2, lemma_fields_record3, line_of, order_record, record2, record3, stock_record};

verus! {

/// The verbs of the records hold no comma and differ from one another.
pub proof fn lemma_verbs()
    ensures
        !"STOCK"@.contains(','),
        !"APPROVED"@.contains(','),
        !"CANCELLED"@.contains(','),
        !"LEADER"@.contains(','),
        !"ORDER"@.contains(','),
        !"ELECTION"@.contains(','),
        !"?"@.contains(','),
        "ELECTION,"@ == "ELECTION"@ + seq![','],
        "STOCK"@ != "LEADER"@,
        "APPROVED"@ != "LEADER"@,
        "APPROVED"@ != "STOCK"@,
        "CANCELLED"@ != "LEADER"@,
        "CANCELLED"@ != "STOCK"@,
        "CANCELLED"@ != "APPROVED"@,
        "LEADER"@ != "ORDER"@,
        "ELECTION"@ != "ORDER"@,
        "ELECTION"@ != "LEADER"@,
{
    reveal_strlit("STOCK");
    reveal_strlit("APPROVED");
    reveal_strlit("CANCELLED");
    reveal_strlit("LEADER");
    reveal_strlit("ORDER");
    reveal_strlit("ELECTION");
    reveal_strlit("ELECTION,");
    reveal_strlit("?");
    assert("ELECTION,"@ =~= "ELECTION"@ + seq![',']);
    assert("STOCK"@.len() != "LEADER"@.len());
    assert("APPROVED"@.len() != "LEADER"@.len());
    assert("APPROVED"@.len() != "STOCK"@.len());
    assert("CANCELLED"@.len() != "LEADER"@.len());
    assert("CANCELLED"@.len() != "STOCK"@.len());
    assert("CANCELLED"@.len() != "APPROVED"@.len());
    assert("LEADER"@.len() != "ORDER"@.len());
    assert("ELECTION"@.len() != "ORDER"@.len());
    assert("ELECTION"@.len() != "LEADER"@.len());
}

/// What a store writes for the ecom that leads, the link at the ecom's end
/// reads as it was meant: a shared level as that level, a sale as that sale,
/// a cancellation as one, and the question who leads as that question. The
/// product must hold no comma.
pub proof fn law_store_records_are_understood(
    store_id: Seq<char>,
    product: Seq<char>,
    n: nat,
    r: Result<StoreRecord, Errors>,
)
    requires
        !product.contains(','),
    ensures
        is_record_of(store_id, stock_record(product, n), r) ==> (r matches Ok(StoreRecord::Add(m))
            && m.product@ == product && m.quantity@ == decimal(n)),
        is_record_of(store_id, approved_record(product, n), r) ==> (r matches Ok(
            StoreRecord::Update(m),
        ) && m.product@ == product && m.quantity@ == decimal(n)),
        is_record_of(store_id, cancelled_record(product, n), r) ==> r matches Ok(
            StoreRecord::Cancelled,
        ),
        is_record_of(store_id, leader_query(), r) ==> (r matches Ok(StoreRecord::AskLeader(m))
            && m.sender_id@ == store_id),
{
    lemma_verbs();
    lemma_decimal_lacks(n, ',');
    lemma_fields_record3("STOCK"@, product, decimal(n));
    lemma_fields_record3("APPROVED"@, product, decimal(n));
    lemma_fields_record3("CANCELLED"@, product, decimal(n));
    lemma_fields_record3("LEADER"@, "?"@, "?"@);
}

/// What an ecom writes for a store, the link at the store's end reads as it
/// was meant: the announcement of a leader as that leader, and an order with
/// its deadline as a reservation of that product and quantity within that
/// deadline. The product must hold no comma and must not be `LEADER`.
pub proof fn law_ecom_records_are_understood(
    leader: usize,
    product: Seq<char>,
    quantity: usize,
    deadline: usize,
    r: Result<EcomRequest, Errors>,
)
    requires
        !product.contains(','),
        product != "LEADER"@,
    ensures
        is_request_of(leader_record(decimal(leader as nat)), r) ==> (r matches Ok(
            EcomRequest::Leader(m),
        ) && parse_usize_spec(m.ecom_id@) == Some(leader)),
        with_deadline(record2(product, decimal(quantity as nat)), deadline) == record3(
            product,
            decimal(quantity as nat),
            decimal(deadline as nat),
        ),
        is_request_of(record3(product, decimal(quantity as nat), decimal(deadline as nat)), r) ==> (
        r matches Ok(EcomRequest::Reserve(m)) && m.product@ == product && m.quantity == quantity
            && m.time_limit == deadline),
{
    lemma_verbs();
    lemma_decimal_lacks(leader as nat, ',');
    lemma_decimal_lacks(quantity as nat, ',');
    lemma_decimal_lacks(deadline as nat, ',');
    law_decimal_round_trip(leader);
    law_decimal_round_trip(quantity);
    law_decimal_round_trip(deadline);
    lemma_fields_record2("LEADER"@, decimal(leader as nat));
    lemma_fields_record2(product, decimal(quantity as nat));
    lemma_fields_record3(product, decimal(quantity as nat), decimal(deadline as nat));
    assert(record2(record2(product, decimal(quantity as nat)), decimal(deadline as nat)) =~= record3(
        product,
        decimal(quantity as nat),
        decimal(deadline as nat),
    ));
}

/// The decimal writings of `ids`, in order.
pub open spec fn decimals(ids: Seq<usize>) -> Seq<Seq<char>> {
    Seq::new(ids.len(), |i: int| decimal(ids[i] as nat))
}

/// Ids that are written with a slash after each, followed by a text, split
/// at the slashes into their decimal writings and the fields of the text.
pub proof fn lemma_fields_slashed(ids: Seq<usize>, tail: Seq<char>)
    ensures
        fields(slashed(ids) + tail, '/') == decimals(ids) + fields(tail, '/'),
    decreases ids.len(),
{
    if ids.len() == 0 {
        assert(slashed(ids) + tail =~= tail);
        assert(decimals(ids) + fields(tail, '/') =~= fields(tail, '/'));
    } else {
        let head = ids.drop_last();
        let last = decimal(ids.last() as nat);
        let longer = last + seq!['/'] + tail;
        lemma_fields_slashed(head, longer);
        lemma_decimal_lacks(ids.last() as nat, '/');
        lemma_fields_cons(last, tail, '/');
        assert(slashed(ids) + tail =~= slashed(head) + longer);
        assert(decimals(head) + (seq![last] + fields(tail, '/')) =~= decimals(ids) + fields(
            tail,
            '/',
        ));
    }
}

/// Reading decimal writings gives the ids that were written.
pub proof fn lemma_election_ids_of_decimals(ids: Seq<usize>)
    ensures
        election_ids(decimals(ids)) == ids,
    decreases ids.len(),
{
    if ids.len() > 0 {
        lemma_election_ids_of_decimals(ids.drop_last());
        law_decimal_round_trip(ids.last());
        assert(decimals(ids).drop_last() =~= decimals(ids.drop_last()));
        assert(election_ids(decimals(ids)) =~= ids);
    }
}

/// An election token that one ecom writes for the ecoms `visited`, at least
/// one, the next ecom reads as a token that passed exactly these ecoms.
pub proof fn law_election_token_is_understood(
    id: usize,
    visited: Seq<usize>,
    record: Seq<char>,
    r: Result<PeerRecord, Errors>,
)
    requires
        visited.len() > 0,
        election_line(visited) == line_of(record),
    ensures
        is_peer_record_of(id, record, r) ==> (r matches Ok(PeerRecord::Election(m)) && m.visited@
            == visited),
{
    lemma_verbs();
    let head = visited.drop_last();
    let last = decimal(visited.last() as nat);
    let token = slashed(head) + last;
    let written = "ELECTION"@ + seq![','] + token;
    assert(election_line(visited) =~= line_of(written));
    assert(record =~= written) by {
        assert(line_of(record).drop_last() =~= record);
        assert(line_of(written).drop_last() =~= written);
    }
    lemma_fields_slashed(head, last);
    lemma_decimal_lacks(visited.last() as nat, '/');
    lemma_fields_single(last, '/');
    assert(decimals(head) + seq![last] =~= decimals(visited));
    lemma_election_ids_of_decimals(visited);
    assert(!token.contains(',')) by {
        lemma_token_lacks_comma(head);
        lemma_decimal_lacks(visited.last() as nat, ',');
        if token.contains(',') {
            let i = choose|i: int| 0 <= i < token.len() && token[i] == ',';
            if i < slashed(head).len() {
                assert(slashed(head)[i] == ',');
                assert(slashed(head).contains(','));
            } else {
                assert(last[i - slashed(head).len()] == ',');
                assert(last.contains(','));
            }
        }
    }
    lemma_fields_record2("ELECTION"@, token);
}

/// Ids that are written with a slash after each hold no comma.
pub proof fn lemma_token_lacks_comma(ids: Seq<usize>)
    ensures
        !slashed(ids).contains(','),
    decreases ids.len(),
{
    if ids.len() > 0 {
        let head = slashed(ids.drop_last());
        let last = decimal(ids.last() as nat);
        lemma_token_lacks_comma(ids.drop_last());
        lemma_decimal_lacks(ids.last() as nat, ',');
        let s = slashed(ids);
        if s.contains(',') {
            let i = choose|i: int| 0 <= i < s.len() && s[i] == ',';
            if i < head.len() {
                assert(head[i] == ',');
                assert(head.contains(','));
            } else if i < head.len() + last.len() {
                assert(last[i - head.len()] == ',');
                assert(last.contains(','));
            }
        }
    }
}

/// What an ecom writes for a peer, the link at the peer's end reads as it was
/// meant: a forwarded order as that order, not yet seen by any store, and the
/// announcement of a leader as that leader. The product must hold no comma.
pub proof fn law_peer_records_are_understood(
    id: usize,
    product: Seq<char>,
    quantity: usize,
    leader: usize,
    r: Result<PeerRecord, Errors>,
)
    requires
        !product.contains(','),
    ensures
        is_peer_record_of(id, order_record(record2(product, decimal(quantity as nat))), r) ==> (
        r matches Ok(PeerRecord::Order(m)) && m.order@ == record2(
            product,
            decimal(quantity as nat),
        ) && m.visited_stores@.len() == 0),
        is_peer_record_of(id, leader_record(decimal(leader as nat)), r) ==> (r matches Ok(
            PeerRecord::Leader(m),
        ) && m.new_leader_id == leader),
{
    lemma_verbs();
    lemma_decimal_lacks(leader as nat, ',');
    lemma_decimal_lacks(quantity as nat, ',');
    law_decimal_round_trip(leader);
    lemma_fields_record2("LEADER"@, decimal(leader as nat));
    lemma_fields_record3("ORDER"@, product, decimal(quantity as nat));
    assert(order_record(record2(product, decimal(quantity as nat))) =~= record3(
        "ORDER"@,
        product,
        decimal(quantity as nat),
    ));
}

} // verus!
