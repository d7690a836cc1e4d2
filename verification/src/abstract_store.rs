//! The ecom's end of a link to one store, with a mirror of the store's stock.

use vstd::prelude::*;
use vstd::hash_map::StringHashMap;
use crate::coordinator::{GetLeader, NewOrder, StoreDisconnected};
use crate::errors::Errors;
use crate::text::{decimal, fields, law_decimal_round_trip, parse_usize, parse_usize_spec, same_text, split_fields, texts};
use crate::wire::{leader_record, line_of, write_line, write_record2};

verus! {

/// An online order on its way to the store, with its deadline attached.
pub struct Order {
    pub order: String,
    pub visited_stores: Vec<String>,
}

/// `quantity` of `product` left the store.
pub struct UpdateStock {
    pub product: String,
    pub quantity: String,
}

impl Clone for UpdateStock {
    fn clone(&self) -> (r: Self)
        ensures
            r == *self,
    {
        UpdateStock { product: self.product.clone(), quantity: self.quantity.clone() }
    }
}

/// The store has `quantity` of `product`.
pub struct AddStock {
    pub product: String,
    pub quantity: String,
}

/// The ecom with id `leader_id` leads; the store is to be told.
pub struct NewLeader {
    pub leader_id: String,
}

/// The link from an ecom to the store with id `store_id`. `stock` mirrors the
/// levels that the store has shared. `orders_buffer` keeps, in the order of
/// arrival, the sales of products whose level has not been shared yet.
pub struct AbstractStore {
    pub store_id: String,
    pub stock: StringHashMap<usize>,
    pub orders_buffer: Vec<UpdateStock>,
}

/// What a record that arrived from the store means.
pub enum StoreRecord {
    /// `STOCK,<product>,<quantity>`: the level of a product.
    Add(AddStock),
    /// `APPROVED,<product>,<quantity>`: a sale.
    Update(UpdateStock),
    /// `CANCELLED,<product>,<quantity>`: a reservation ran out; the mirror
    /// does not change.
    Cancelled,
    /// `LEADER`, whatever follows: the store asks who leads.
    AskLeader(GetLeader),
    /// A record with another verb.
    Unknown,
}

/// What becomes of an order that is handed to the link.
pub enum OrderOutcome {
    /// The mirror shows too little stock: the order goes back to the
    /// coordinator with this store among those visited.
    Bounced(NewOrder),
    /// The line that carries the order to the store.
    Forwarded(String),
}

/// The mirror as plain values: the known levels, and the buffered sales as
/// pairs of product and quantity.
pub struct Mirror {
    pub stock: Map<Seq<char>, usize>,
    pub buffer: Seq<(Seq<char>, Seq<char>)>,
}

impl Mirror {
    /// No sale is buffered for a product whose level is known.
    pub open spec fn wf(self) -> bool {
        forall|i: int|
            0 <= i < self.buffer.len() ==> !self.stock.contains_key((#[trigger] self.buffer[i]).0)
    }

    /// Takes a sale off the known level of `product`. A quantity that is no
    /// number fails with `CouldNotParse`, one above the level with
    /// `NoStockError`.
    pub open spec fn charged(self, product: Seq<char>, quantity: Seq<char>) -> Result<
        Mirror,
        Errors,
    > {
        match parse_usize_spec(quantity) {
            None => Err(Errors::CouldNotParse),
            Some(q) => if q > self.stock[product] {
                Err(Errors::NoStockError)
            } else {
                Ok(
                    Mirror {
                        stock: self.stock.insert(product, (self.stock[product] - q) as usize),
                        buffer: self.buffer,
                    },
                )
            },
        }
    }

    /// The mirror after a sale was reported, and what the report comes to. A
    /// sale of a known product is taken off its level, and a sale that fails
    /// changes nothing. A sale of an unknown product is buffered.
    pub open spec fn updated(self, product: Seq<char>, quantity: Seq<char>) -> (
        Mirror,
        Result<(), Errors>,
    ) {
        if self.stock.contains_key(product) {
            match self.charged(product, quantity) {
                Ok(m) => (m, Ok(())),
                Err(e) => (self, Err(e)),
            }
        } else {
            (Mirror { stock: self.stock, buffer: self.buffer.push((product, quantity)) }, Ok(()))
        }
    }

    /// The mirror after the buffered sales `pending` were gone through in
    /// order, with the first failure if there was one. A sale of `product` is
    /// taken off its level, or dropped if that fails; any other sale stays
    /// buffered.
    pub open spec fn replayed(self, pending: Seq<(Seq<char>, Seq<char>)>, product: Seq<char>) -> (
        Mirror,
        Option<Errors>,
    )
        decreases pending.len(),
    {
        if pending.len() == 0 {
            (self, None)
        } else {
            let (m, e) = self.replayed(pending.drop_last(), product);
            let sale = pending.last();
            if sale.0 == product {
                match m.charged(product, sale.1) {
                    Ok(after) => (after, e),
                    Err(failure) => (
                        m,
                        if e is None {
                            Some(failure)
                        } else {
                            e
                        },
                    ),
                }
            } else {
                (Mirror { stock: m.stock, buffer: m.buffer.push(sale) }, e)
            }
        }
    }

    /// The mirror after the store shared the level of `product`, and what
    /// that comes to. The level replaces the known one and the buffered sales
    /// of the product are replayed on it. A level that is no number changes
    /// nothing.
    pub open spec fn added(self, product: Seq<char>, quantity: Seq<char>) -> (
        Mirror,
        Result<(), Errors>,
    ) {
        match parse_usize_spec(quantity) {
            None => (self, Err(Errors::CouldNotParse)),
            Some(q) => {
                let start = Mirror { stock: self.stock.insert(product, q), buffer: Seq::empty() };
                let (m, e) = start.replayed(self.buffer, product);
                (
                    m,
                    match e {
                        None => Ok(()),
                        Some(failure) => Err(failure),
                    },
                )
            },
        }
    }

    /// The mirror after the sales `quantities` of `product` were reported in
    /// order.
    pub open spec fn updated_all(self, product: Seq<char>, quantities: Seq<Seq<char>>) -> Mirror
        decreases quantities.len(),
    {
        if quantities.len() == 0 {
            self
        } else {
            self.updated_all(product, quantities.drop_last()).updated(product, quantities.last()).0
        }
    }
}

/// The buffered sales as pairs of product and quantity.
pub open spec fn sales(buffer: Seq<UpdateStock>) -> Seq<(Seq<char>, Seq<char>)> {
    Seq::new(buffer.len(), |i: int| (buffer[i].product@, buffer[i].quantity@))
}

/// Whether `r` is what the record `line` means. A record whose first field is
/// `LEADER` asks who leads. Any other record needs a verb, a product and a
/// quantity, and is rejected with `CouldNotParse` if it is shorter.
pub open spec fn is_record_of(store_id: Seq<char>, line: Seq<char>, r: Result<StoreRecord, Errors>) -> bool {
    let f = fields(line, ',');
    if f[0] == "LEADER"@ {
        r matches Ok(StoreRecord::AskLeader(m)) && m.sender_id@ == store_id
    } else if f.len() < 3 {
        r matches Err(Errors::CouldNotParse)
    } else if f[0] == "STOCK"@ {
        r matches Ok(StoreRecord::Add(m)) && m.product@ == f[1] && m.quantity@ == f[2]
    } else if f[0] == "APPROVED"@ {
        r matches Ok(StoreRecord::Update(m)) && m.product@ == f[1] && m.quantity@ == f[2]
    } else if f[0] == "CANCELLED"@ {
        r matches Ok(StoreRecord::Cancelled)
    } else {
        r matches Ok(StoreRecord::Unknown)
    }
}

/// The product and the quantity of an order `<product>,<quantity>`, whatever
/// follows them, if the order is well formed.
pub open spec fn order_demand(order: Seq<char>) -> Option<(Seq<char>, usize)> {
    let f = fields(order, ',');
    if f.len() >= 2 {
        match parse_usize_spec(f[1]) {
            Some(q) => Some((f[0], q)),
            None => None,
        }
    } else {
        None
    }
}

impl AbstractStore {
    /// The mirror as plain values.
    pub open spec fn mirror(&self) -> Mirror {
        Mirror { stock: self.stock@, buffer: sales(self.orders_buffer@) }
    }

    /// No sale is buffered for a product whose level is known.
    pub open spec fn wf(&self) -> bool {
        self.mirror().wf()
    }

    /// The link to the store `store_id`, with an empty mirror.
    pub fn new(store_id: String) -> (link: Self)
        ensures
            link.wf(),
            link.store_id@ == store_id@,
            link.stock@ == Map::<Seq<char>, usize>::empty(),
            link.orders_buffer@.len() == 0,
    {
        AbstractStore { store_id, stock: StringHashMap::new(), orders_buffer: Vec::new() }
    }

    /// The mirrored level of `product`, if the store has shared it.
    pub fn level(&self, product: &str) -> (r: Option<usize>)
        ensures
            r == if self.stock@.contains_key(product@) {
                Some(self.stock@[product@])
            } else {
                None
            },
    {
        match self.stock.get(product) {
            Some(q) => Some(*q),
            None => None,
        }
    }

    /// Reads one record that arrived from the store.
    pub fn handle_line(&self, line: &str) -> (r: Result<StoreRecord, Errors>)
        ensures
            is_record_of(self.store_id@, line@, r),
    {
        let mut f = split_fields(line, ',');
        assert(texts(f@)[0] == f@[0]@);
        if same_text(f[0].as_str(), "LEADER") {
            return Ok(StoreRecord::AskLeader(GetLeader { sender_id: self.store_id.clone() }));
        }
        if f.len() < 3 {
            return Err(Errors::CouldNotParse);
        }
        assert(texts(f@)[1] == f@[1]@);
        assert(texts(f@)[2] == f@[2]@);
        let is_stock = same_text(f[0].as_str(), "STOCK");
        let is_approved = same_text(f[0].as_str(), "APPROVED");
        let is_cancelled = same_text(f[0].as_str(), "CANCELLED");
        if is_stock || is_approved {
            let quantity = f.swap_remove(2);
            let product = f.swap_remove(1);
            if is_stock {
                Ok(StoreRecord::Add(AddStock { product, quantity }))
            } else {
                Ok(StoreRecord::Update(UpdateStock { product, quantity }))
            }
        } else if is_cancelled {
            Ok(StoreRecord::Cancelled)
        } else {
            Ok(StoreRecord::Unknown)
        }
    }

    /// Decides what becomes of an order that the coordinator chose this store
    /// for. If the mirror knows the product and shows less than is asked for,
    /// the order goes back with this store added to those visited. Otherwise
    /// it is forwarded to the store as it is. An order without a numeric
    /// quantity is rejected.
    pub fn order(&self, msg: Order) -> (r: Result<OrderOutcome, Errors>)
        ensures
            match order_demand(msg.order@) {
                None => r matches Err(Errors::CouldNotParse),
                Some((product, quantity)) => if self.stock@.contains_key(product)
                    && self.stock@[product] < quantity {
                    r matches Ok(OrderOutcome::Bounced(back)) && back.order@ == msg.order@ && texts(
                        back.visited_stores@,
                    ) == texts(msg.visited_stores@).push(self.store_id@)
                } else {
                    r matches Ok(OrderOutcome::Forwarded(line)) && line@ == line_of(msg.order@)
                },
            },
    {
        let f = split_fields(msg.order.as_str(), ',');
        if f.len() < 2 {
            return Err(Errors::CouldNotParse);
        }
        assert(texts(f@)[0] == f@[0]@);
        assert(texts(f@)[1] == f@[1]@);
        let quantity = match parse_usize(f[1].as_str()) {
            Some(q) => q,
            None => {
                return Err(Errors::CouldNotParse);
            },
        };
        if let Some(level) = self.stock.get(f[0].as_str()) {
            if *level < quantity {
                let mut visited_stores = msg.visited_stores;
                let ghost before = visited_stores@;
                visited_stores.push(self.store_id.clone());
                assert(texts(visited_stores@) =~= texts(before).push(self.store_id@));
                return Ok(OrderOutcome::Bounced(NewOrder { order: msg.order, visited_stores }));
            }
        }
        Ok(OrderOutcome::Forwarded(write_line(msg.order.as_str())))
    }

    /// Takes a reported sale into the mirror.
    pub fn update_stock(&mut self, msg: UpdateStock) -> (r: Result<(), Errors>)
        requires
            old(self).wf(),
        ensures
            final(self).wf(),
            final(self).store_id == old(self).store_id,
            final(self).mirror().stock == old(self).mirror().updated(msg.product@, msg.quantity@).0.stock,
            final(self).mirror().buffer == old(self).mirror().updated(
                msg.product@,
                msg.quantity@,
            ).0.buffer,
            r == old(self).mirror().updated(msg.product@, msg.quantity@).1,
    {
        match self.level(msg.product.as_str()) {
            Some(level) => {
                match parse_usize(msg.quantity.as_str()) {
                    None => Err(Errors::CouldNotParse),
                    Some(q) => {
                        if q > level {
                            Err(Errors::NoStockError)
                        } else {
                            self.stock.insert(msg.product, level - q);
                            Ok(())
                        }
                    },
                }
            },
            None => {
                let ghost before = self.orders_buffer@;
                self.orders_buffer.push(msg);
                assert(sales(self.orders_buffer@) =~= sales(before).push(
                    (msg.product@, msg.quantity@),
                ));
                Ok(())
            },
        }
    }

    /// Takes a level that the store shared into the mirror and replays the
    /// buffered sales of that product on it, in the order in which they
    /// arrived. A sale that cannot be taken off the level is dropped, and the
    /// first such failure is returned once all sales are gone through.
    pub fn add_stock(&mut self, msg: AddStock) -> (r: Result<(), Errors>)
        requires
            old(self).wf(),
        ensures
            final(self).wf(),
            final(self).store_id == old(self).store_id,
            final(self).mirror().stock == old(self).mirror().added(msg.product@, msg.quantity@).0.stock,
            final(self).mirror().buffer == old(self).mirror().added(
                msg.product@,
                msg.quantity@,
            ).0.buffer,
            r == old(self).mirror().added(msg.product@, msg.quantity@).1,
    {
        let quantity = match parse_usize(msg.quantity.as_str()) {
            Some(q) => q,
            None => {
                return Err(Errors::CouldNotParse);
            },
        };
        let ghost before = self.mirror();
        let ghost product = msg.product@;
        let ghost start = Mirror { stock: before.stock.insert(product, quantity), buffer: Seq::empty() };
        self.stock.insert(msg.product.clone(), quantity);
        let n = self.orders_buffer.len();
        let mut kept: Vec<UpdateStock> = Vec::new();
        let mut first: Option<Errors> = None;
        let mut i: usize = 0;
        assert(sales(kept@) =~= start.buffer);
        assert(before.buffer.take(0) =~= Seq::empty());
        while i < n
            invariant
                i <= n,
                n == self.orders_buffer@.len(),
                sales(self.orders_buffer@) == before.buffer,
                before.wf(),
                product == msg.product@,
                start.stock.contains_key(product),
                self.store_id == old(self).store_id,
                self.stock@ == start.replayed(before.buffer.take(i as int), product).0.stock,
                sales(kept@) == start.replayed(before.buffer.take(i as int), product).0.buffer,
                first == start.replayed(before.buffer.take(i as int), product).1,
                forall|x: Seq<char>|
                    #[trigger] self.stock@.contains_key(x) <==> (before.stock.contains_key(x) || x
                        == product),
                forall|k: int|
                    0 <= k < kept@.len() ==> (#[trigger] sales(kept@)[k]).0 != product
                        && !before.stock.contains_key(sales(kept@)[k].0),
            decreases n - i,
        {
            let ghost seen = before.buffer.take(i as int);
            let ghost next = before.buffer.take(i + 1);
            assert(next.drop_last() =~= seen);
            assert(next.last() == before.buffer[i as int]);
            assert(before.buffer[i as int] == (
                self.orders_buffer@[i as int].product@,
                self.orders_buffer@[i as int].quantity@,
            ));
            let ghost known = self.stock@;
            if self.orders_buffer[i].product == msg.product {
                let level = self.level(msg.product.as_str()).unwrap();
                match parse_usize(self.orders_buffer[i].quantity.as_str()) {
                    None => {
                        if first.is_none() {
                            first = Some(Errors::CouldNotParse);
                        }
                    },
                    Some(amount) => {
                        if amount > level {
                            if first.is_none() {
                                first = Some(Errors::NoStockError);
                            }
                        } else {
                            self.stock.insert(msg.product.clone(), level - amount);
                        }
                    },
                }
            } else {
                let ghost kept_before = kept@;
                kept.push(self.orders_buffer[i].clone());
                assert(sales(kept@) =~= sales(kept_before).push(before.buffer[i as int]));
                assert forall|k: int| 0 <= k < kept@.len() implies (#[trigger] sales(kept@)[k]).0
                    != product && !before.stock.contains_key(sales(kept@)[k].0) by {
                    if k < kept_before.len() {
                        assert(sales(kept@)[k] == sales(kept_before)[k]);
                    } else {
                        assert(sales(kept@)[k] == before.buffer[i as int]);
                    }
                }
            }
            assert forall|x: Seq<char>| #[trigger]
                self.stock@.contains_key(x) <==> (before.stock.contains_key(x) || x == product) by {
                assert(self.stock@.contains_key(x) <==> known.contains_key(x));
            }
            i += 1;
        }
        assert(before.buffer.take(n as int) =~= before.buffer);
        self.orders_buffer = kept;
        match first {
            None => Ok(()),
            Some(failure) => Err(failure),
        }
    }

    /// The line that tells the store who leads.
    pub fn new_leader(&self, msg: NewLeader) -> (line: String)
        ensures
            line@ == line_of(leader_record(msg.leader_id@)),
    {
        let record = write_record2("LEADER", msg.leader_id.as_str());
        write_line(record.as_str())
    }

    /// The message that tells the coordinator that the link closed.
    pub fn finished(&self) -> (gone: StoreDisconnected)
        ensures
            gone.store_id@ == self.store_id@,
    {
        StoreDisconnected { store_id: self.store_id.clone() }
    }
}

/// The sales `quantities` of `product` as buffered pairs.
pub open spec fn sales_of(product: Seq<char>, quantities: Seq<Seq<char>>) -> Seq<
    (Seq<char>, Seq<char>),
> {
    Seq::new(quantities.len(), |i: int| (product, quantities[i]))
}

/// Replaying keeps the level of the product known.
pub proof fn lemma_replayed_knows(
    start: Mirror,
    pending: Seq<(Seq<char>, Seq<char>)>,
    product: Seq<char>,
)
    requires
        start.stock.contains_key(product),
    ensures
        start.replayed(pending, product).0.stock.contains_key(product),
    decreases pending.len(),
{
    if pending.len() > 0 {
        lemma_replayed_knows(start, pending.drop_last(), product);
    }
}

/// Sales of a product whose level is unknown are buffered in order.
pub proof fn lemma_updates_buffered(m: Mirror, product: Seq<char>, quantities: Seq<Seq<char>>)
    requires
        !m.stock.contains_key(product),
    ensures
        m.updated_all(product, quantities).stock == m.stock,
        m.updated_all(product, quantities).buffer == m.buffer + sales_of(product, quantities),
    decreases quantities.len(),
{
    if quantities.len() == 0 {
        assert(m.buffer + sales_of(product, quantities) =~= m.buffer);
    } else {
        let head = quantities.drop_last();
        lemma_updates_buffered(m, product, head);
        assert(m.buffer + sales_of(product, quantities) =~= (m.buffer + sales_of(product, head)).push(
            (product, quantities.last()),
        ));
    }
}

/// Replaying buffered sales of a product gives the mirror that reporting
/// them one by one gives once the level is known.
pub proof fn lemma_replay_is_update(
    start: Mirror,
    buffer: Seq<(Seq<char>, Seq<char>)>,
    product: Seq<char>,
    quantities: Seq<Seq<char>>,
)
    requires
        start.stock.contains_key(product),
    ensures
        start.replayed(buffer + sales_of(product, quantities), product).0 == start.replayed(
            buffer,
            product,
        ).0.updated_all(product, quantities),
    decreases quantities.len(),
{
    if quantities.len() == 0 {
        assert(buffer + sales_of(product, quantities) =~= buffer);
    } else {
        let head = quantities.drop_last();
        let all = buffer + sales_of(product, quantities);
        lemma_replay_is_update(start, buffer, product, head);
        assert(all.drop_last() =~= buffer + sales_of(product, head));
        assert(all.last() == (product, quantities.last()));
        lemma_replayed_knows(start, buffer + sales_of(product, head), product);
    }
}

/// Sales that were buffered because the level of their product was unknown,
/// and are replayed when the store shares that level, leave the mirror as it
/// would be had the level been shared before the sales were reported.
pub proof fn law_mirror_replay(
    m: Mirror,
    product: Seq<char>,
    level: Seq<char>,
    quantities: Seq<Seq<char>>,
)
    requires
        !m.stock.contains_key(product),
    ensures
        m.updated_all(product, quantities).added(product, level).0 == m.added(
            product,
            level,
        ).0.updated_all(product, quantities),
{
    lemma_updates_buffered(m, product, quantities);
    let late = m.updated_all(product, quantities);
    match parse_usize_spec(level) {
        None => {},
        Some(q) => {
            let start = Mirror { stock: m.stock.insert(product, q), buffer: Seq::empty() };
            lemma_replay_is_update(start, m.buffer, product, quantities);
        },
    }
}

/// Replaying sales of which none is of the product changes no level.
pub proof fn lemma_replay_of_others(
    start: Mirror,
    pending: Seq<(Seq<char>, Seq<char>)>,
    product: Seq<char>,
)
    requires
        forall|i: int| 0 <= i < pending.len() ==> (#[trigger] pending[i]).0 != product,
    ensures
        start.replayed(pending, product).0.stock == start.stock,
        start.replayed(pending, product).0.buffer == start.buffer + pending,
        start.replayed(pending, product).1 is None,
    decreases pending.len(),
{
    if pending.len() == 0 {
        assert(start.buffer + pending =~= start.buffer);
    } else {
        let head = pending.drop_last();
        assert forall|i: int| 0 <= i < head.len() implies (#[trigger] head[i]).0 != product by {
            assert(head[i] == pending[i]);
        }
        lemma_replay_of_others(start, head, product);
        assert(pending[pending.len() - 1].0 != product);
        assert(start.buffer + pending =~= (start.buffer + head).push(pending.last()));
    }
}

/// The mirror understands the numbers that a store writes: a level that is
/// shared in decimal becomes the mirrored level where no sale of the product
/// is buffered, and a sale in decimal that the level covers is taken off it.
pub proof fn law_mirror_reads_decimal(m: Mirror, product: Seq<char>, level: usize, sale: usize)
    requires
        forall|i: int| 0 <= i < m.buffer.len() ==> (#[trigger] m.buffer[i]).0 != product,
    ensures
        m.added(product, decimal(level as nat)).1 is Ok,
        m.added(product, decimal(level as nat)).0.stock == m.stock.insert(product, level),
        m.added(product, decimal(level as nat)).0.buffer == m.buffer,
        m.stock.contains_key(product) && sale <= m.stock[product] ==> m.updated(
            product,
            decimal(sale as nat),
        ) == (
            Mirror {
                stock: m.stock.insert(product, (m.stock[product] - sale) as usize),
                buffer: m.buffer,
            },
            Ok::<(), Errors>(()),
        ),
        m.stock.contains_key(product) && sale > m.stock[product] ==> m.updated(
            product,
            decimal(sale as nat),
        ) == (m, Err::<(), Errors>(Errors::NoStockError)),
{
    law_decimal_round_trip(level);
    law_decimal_round_trip(sale);
    let start = Mirror { stock: m.stock.insert(product, level), buffer: Seq::empty() };
    lemma_replay_of_others(start, m.buffer, product);
    assert(start.buffer + m.buffer =~= m.buffer);
}

} // verus!
