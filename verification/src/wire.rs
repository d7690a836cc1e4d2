//! The shape of the records that travel over the links: comma-separated
//! fields, one record per line.

use vstd::prelude::*;
use vstd::string::*;
use crate::text::{decimal, fields, lemma_fields_cons, lemma_fields_single, usize_to_string};

verus! {

/// Two fields with a comma between them.
pub open spec fn record2(a: Seq<char>, b: Seq<char>) -> Seq<char> {
    a + seq![','] + b
}

/// Three fields with commas between them.
pub open spec fn record3(a: Seq<char>, b: Seq<char>, c: Seq<char>) -> Seq<char> {
    a + seq![','] + b + seq![','] + c
}

/// A record with the newline that ends it on the wire.
pub open spec fn line_of(record: Seq<char>) -> Seq<char> {
    record + seq!['\n']
}

/// `STOCK,<product>,<available>`: a store shares the level of one product.
pub open spec fn stock_record(product: Seq<char>, available: nat) -> Seq<char> {
    record3("STOCK"@, product, decimal(available))
}

/// `APPROVED,<product>,<quantity>`: a sale left the store.
pub open spec fn approved_record(product: Seq<char>, quantity: nat) -> Seq<char> {
    record3("APPROVED"@, product, decimal(quantity))
}

/// `CANCELLED,<product>,<quantity>`: a reservation ran out.
pub open spec fn cancelled_record(product: Seq<char>, quantity: nat) -> Seq<char> {
    record3("CANCELLED"@, product, decimal(quantity))
}

/// `LEADER,<id>`: the ecom with this id leads.
pub open spec fn leader_record(id: Seq<char>) -> Seq<char> {
    record2("LEADER"@, id)
}

/// `LEADER,?,?`: a store asks who leads.
pub open spec fn leader_query() -> Seq<char> {
    record3("LEADER"@, "?"@, "?"@)
}

/// `ORDER,<product>,<quantity>`: an online order forwarded between ecoms.
pub open spec fn order_record(order: Seq<char>) -> Seq<char> {
    record2("ORDER"@, order)
}

/// Writes two fields with a comma between them.
pub fn write_record2(a: &str, b: &str) -> (s: String)
    ensures
        s@ == record2(a@, b@),
{
    proof {
        reveal_strlit(",");
    }
    let mut s = String::from_str(a);
    s.append(",");
    s.append(b);
    assert(","@ =~= seq![',']);
    s
}

/// Writes three fields with commas between them.
pub fn write_record3(a: &str, b: &str, c: &str) -> (s: String)
    ensures
        s@ == record3(a@, b@, c@),
{
    proof {
        reveal_strlit(",");
    }
    let mut s = String::from_str(a);
    s.append(",");
    s.append(b);
    s.append(",");
    s.append(c);
    assert(","@ =~= seq![',']);
    s
}

/// Writes a verb, a product and a number as one record.
pub fn write_counted(verb: &str, product: &str, n: usize) -> (s: String)
    ensures
        s@ == record3(verb@, product@, decimal(n as nat)),
{
    let digits = usize_to_string(n);
    write_record3(verb, product, digits.as_str())
}

/// Ends a record with a newline.
pub fn write_line(record: &str) -> (s: String)
    ensures
        s@ == line_of(record@),
{
    proof {
        reveal_strlit("\n");
    }
    let mut s = String::from_str(record);
    s.append("\n");
    assert("\n"@ =~= seq!['\n']);
    s
}

/// A record of two fields that hold no comma splits into them.
pub proof fn lemma_fields_record2(a: Seq<char>, b: Seq<char>)
    requires
        !a.contains(','),
        !b.contains(','),
    ensures
        fields(record2(a, b), ',') == seq![a, b],
{
    lemma_fields_cons(a, b, ',');
    lemma_fields_single(b, ',');
    assert(seq![a] + seq![b] =~= seq![a, b]);
}

/// A record of three fields that hold no comma splits into them.
pub proof fn lemma_fields_record3(a: Seq<char>, b: Seq<char>, c: Seq<char>)
    requires
        !a.contains(','),
        !b.contains(','),
        !c.contains(','),
    ensures
        fields(record3(a, b, c), ',') == seq![a, b, c],
{
    lemma_fields_record2(b, c);
    lemma_fields_cons(a, record2(b, c), ',');
    assert(record3(a, b, c) =~= a + seq![','] + record2(b, c));
    assert(seq![a] + seq![b, c] =~= seq![a, b, c]);
}

} // verus!
