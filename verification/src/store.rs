//! A store: its stock, the reservations that hold part of it, and the links
//! to the ecoms it serves.

use vstd::hash_map::StringHashMap;
use vstd::prelude::*;
use vstd::string::*;
use crate::ecom_handler::{Answer, EcomHandler};
use crate::errors::Errors;
use crate::roster::Roster;
use crate::text::{decimal, fields, parse_usize, parse_usize_spec, same_text, split_fields, texts, usize_to_string};
use crate::wire::{approved_record, cancelled_record, leader_query, stock_record, write_counted, write_record3};

verus! {

/// How much of a product a store has, and how much of that is held by
/// reservations.
#[derive(Debug, Clone, Copy, PartialEq, Eq, Structural)]
pub struct ProductStock {
    pub available_quantity: usize,
    pub reserved_quantity: usize,
}

impl ProductStock {
    /// Reservations never hold more than there is.
    pub open spec fn wf(&self) -> bool {
        self.reserved_quantity <= self.available_quantity
    }

    /// What can still be sold or reserved.
    pub open spec fn free(&self) -> int {
        self.available_quantity - self.reserved_quantity
    }

    /// The stock after `quantity` left the store in a sale that no
    /// reservation held.
    pub open spec fn sold(self, quantity: usize) -> ProductStock {
        ProductStock {
            available_quantity: (self.available_quantity - quantity) as usize,
            reserved_quantity: self.reserved_quantity,
        }
    }

    /// The stock after `quantity` more is held.
    pub open spec fn held(self, quantity: usize) -> ProductStock {
        ProductStock {
            available_quantity: self.available_quantity,
            reserved_quantity: (self.reserved_quantity + quantity) as usize,
        }
    }

    /// The stock after a reservation of `quantity` was cancelled.
    pub open spec fn released(self, quantity: usize) -> ProductStock {
        ProductStock {
            available_quantity: self.available_quantity,
            reserved_quantity: (self.reserved_quantity - quantity) as usize,
        }
    }

    /// The stock after a reservation of `quantity` was dispatched.
    pub open spec fn shipped(self, quantity: usize) -> ProductStock {
        ProductStock {
            available_quantity: (self.available_quantity - quantity) as usize,
            reserved_quantity: (self.reserved_quantity - quantity) as usize,
        }
    }
}

/// The stock of every product of a store. Products keep the order in which
/// they were first entered.
pub struct StockTable {
    names: Vec<String>,
    levels: StringHashMap<ProductStock>,
}

impl View for StockTable {
    type V = Map<Seq<char>, ProductStock>;

    closed spec fn view(&self) -> Map<Seq<char>, ProductStock> {
        self.levels@
    }
}

impl StockTable {
    /// The products, in the order in which they were first entered.
    pub closed spec fn products(&self) -> Seq<Seq<char>> {
        texts(self.names@)
    }

    /// Each product is listed once, the listed products are those that have a
    /// stock, and no reservation holds more than there is.
    pub open spec fn wf(&self) -> bool {
        &&& self.products().no_duplicates()
        &&& forall|p: Seq<char>| #[trigger] self@.contains_key(p) <==> self.products().contains(p)
        &&& forall|p: Seq<char>| self@.contains_key(p) ==> (#[trigger] self@[p]).wf()
    }

    /// A table without products.
    pub fn new() -> (t: Self)
        ensures
            t.wf(),
            t@ == Map::<Seq<char>, ProductStock>::empty(),
            t.products() == Seq::<Seq<char>>::empty(),
    {
        let t = StockTable { names: Vec::new(), levels: StringHashMap::new() };
        assert(t.products() =~= Seq::<Seq<char>>::empty());
        t
    }

    /// The number of products.
    pub fn len(&self) -> (n: usize)
        ensures
            n == self.products().len(),
    {
        self.names.len()
    }

    /// The product that was entered `i`-th.
    pub fn product(&self, i: usize) -> (p: &String)
        requires
            i < self.products().len(),
        ensures
            p@ == self.products()[i as int],
    {
        &self.names[i]
    }

    /// The stock of `product`, if the store carries it.
    pub fn get(&self, product: &str) -> (r: Option<ProductStock>)
        ensures
            r == if self@.contains_key(product@) {
                Some(self@[product@])
            } else {
                None
            },
    {
        match self.levels.get(product) {
            Some(s) => Some(*s),
            None => None,
        }
    }

    /// Whether the store carries `product`.
    pub fn contains_key(&self, product: &str) -> (b: bool)
        ensures
            b == self@.contains_key(product@),
    {
        self.levels.contains_key(product)
    }

    /// Sets the stock of `product`, entering the product if it is new.
    pub fn insert(&mut self, product: String, stock: ProductStock)
        requires
            old(self).wf(),
            stock.wf(),
        ensures
            final(self).wf(),
            final(self)@ == old(self)@.insert(product@, stock),
            final(self).products() == if old(self)@.contains_key(product@) {
                old(self).products()
            } else {
                old(self).products().push(product@)
            },
    {
        let ghost before = self.products();
        let ghost key = product@;
        assert(self@.contains_key(key) <==> before.contains(key));
        if !self.levels.contains_key(product.as_str()) {
            self.names.push(product.clone());
            assert(self.products() =~= before.push(key));
            assert forall|p: Seq<char>| before.push(key).contains(p) <==> (before.contains(p) || p
                == key) by {
                if before.contains(p) {
                    let i = choose|i: int| 0 <= i < before.len() && before[i] == p;
                    assert(before.push(key)[i] == p);
                }
                if p == key {
                    assert(before.push(key)[before.len() as int] == p);
                }
            }
        } else {
            assert(before.contains(key));
        }
        self.levels.insert(product, stock);
        assert(self.products().no_duplicates()) by {
            if !before.contains(key) {
                assert(self.products() == before.push(key));
                assert forall|i: int, j: int|
                    0 <= i < before.len() + 1 && 0 <= j < before.len() + 1 && i != j implies before.push(
                    key,
                )[i] != before.push(key)[j] by {
                    if i == before.len() {
                        assert(before[j] != key);
                    } else if j == before.len() {
                        assert(before[i] != key);
                    }
                }
            }
        }
        assert forall|p: Seq<char>| #[trigger] self@.contains_key(p) <==> self.products().contains(
            p,
        ) by {
            assert(self@.contains_key(p) <==> (old(self)@.contains_key(p) || p == key));
        }
    }
}

/// A sale to a customer in the store.
pub struct LocalProductOrder {
    pub product: String,
    pub quantity: usize,
}

impl Clone for LocalProductOrder {
    fn clone(&self) -> (r: Self)
        ensures
            r == *self,
    {
        LocalProductOrder { product: self.product.clone(), quantity: self.quantity }
    }
}

/// A record for the ecom that leads.
pub struct AnswerEcom {
    pub answer: String,
}

/// Drops the links to all ecoms.
pub struct KillConnection {}

/// Joins the network again.
pub struct Connect {}

/// Holds `quantity` of `product` for an online order that must leave within
/// `time_limit` seconds.
pub struct ReserveProduct {
    pub product: String,
    pub quantity: usize,
    pub time_limit: usize,
}

/// Resolves a reservation: cancels it, or lets the goods leave.
pub struct DispatchProduct {
    pub product: String,
    pub quantity: usize,
    pub cancel_order: bool,
}

/// Asks for the stock table as lines for the operator.
pub struct ShowState;

/// Asks the store to tell the leader its whole stock.
pub struct ShareStock;

/// A link to the ecom with id `ecom_id` was opened.
pub struct NewEcomHandler {
    pub ecom_id: String,
}

/// The ecom with id `ecom_id` leads from now on.
pub struct NewLeader {
    pub ecom_id: String,
}

/// A hold on stock that waits to be dispatched or cancelled.
pub struct Reservation {
    pub product: String,
    pub quantity: usize,
    pub deadline_seconds: usize,
}

/// A record together with the ecom whose link is to carry it.
pub struct EcomDelivery {
    pub ecom_id: String,
    pub answer: Answer,
}

/// A store.
pub struct Store {
    pub stock: StockTable,
    pub active_ecoms: Roster,
    pub connection: bool,
    pub leader: usize,
}

/// The stock table after `quantity` of `product` was sold over the counter.
pub open spec fn after_sale(
    stock: Map<Seq<char>, ProductStock>,
    product: Seq<char>,
    quantity: usize,
) -> Map<Seq<char>, ProductStock> {
    stock.insert(product, stock[product].sold(quantity))
}

/// The stock table after `quantity` of `product` was reserved.
pub open spec fn after_reserve(
    stock: Map<Seq<char>, ProductStock>,
    product: Seq<char>,
    quantity: usize,
) -> Map<Seq<char>, ProductStock> {
    stock.insert(product, stock[product].held(quantity))
}

/// The stock table after a reservation of `quantity` of `product` was
/// resolved. A product that the store does not carry leaves it unchanged.
pub open spec fn after_dispatch(
    stock: Map<Seq<char>, ProductStock>,
    product: Seq<char>,
    quantity: usize,
    cancel: bool,
) -> Map<Seq<char>, ProductStock> {
    if !stock.contains_key(product) {
        stock
    } else if cancel {
        stock.insert(product, stock[product].released(quantity))
    } else {
        stock.insert(product, stock[product].shipped(quantity))
    }
}

/// The line that shows one product to the operator.
pub open spec fn state_line(product: Seq<char>, stock: ProductStock) -> Seq<char> {
    "Product: ["@ + product + "] has a quantity of ["@ + decimal(stock.available_quantity as nat)
        + "]  and has ["@ + decimal(stock.reserved_quantity as nat) + "] reserved."@
}

impl Store {
    /// The stock table and the roster of ecoms are well formed.
    pub open spec fn wf(&self) -> bool {
        self.stock.wf() && self.active_ecoms.wf()
    }

    /// Whether `other` has the links, the leader and the connection flag of
    /// `self`.
    pub open spec fn same_links(&self, other: &Store) -> bool {
        &&& self.active_ecoms@ == other.active_ecoms@
        &&& self.connection == other.connection
        &&& self.leader == other.leader
    }

    /// Whether `other` has the stock of `self`.
    pub open spec fn same_stock(&self, other: &Store) -> bool {
        self.stock@ == other.stock@ && self.stock.products() == other.stock.products()
    }

    /// A store that is not connected, carries nothing and takes ecom 0 for the
    /// leader.
    pub fn new() -> (s: Self)
        ensures
            s.wf(),
            s.stock@ == Map::<Seq<char>, ProductStock>::empty(),
            s.stock.products() == Seq::<Seq<char>>::empty(),
            s.active_ecoms@ == Seq::<Seq<char>>::empty(),
            !s.connection,
            s.leader == 0,
    {
        Store { stock: StockTable::new(), active_ecoms: Roster::new(), connection: false, leader: 0 }
    }

    /// Sells `msg.quantity` of `msg.product` over the counter. The sale needs
    /// the product to be carried and the quantity to be free of reservations;
    /// it then leaves the store at once and is reported as approved, with
    /// what is available down by exactly the quantity reported.
    pub fn local_sale(&mut self, msg: LocalProductOrder) -> (r: Result<AnswerEcom, Errors>)
        requires
            old(self).wf(),
        ensures
            final(self).wf(),
            old(self).same_links(final(self)),
            final(self).stock.products() == old(self).stock.products(),
            match r {
                Ok(a) => {
                    &&& old(self).stock@.contains_key(msg.product@)
                    &&& old(self).stock@[msg.product@].free() >= msg.quantity
                    &&& a.answer@ == approved_record(msg.product@, msg.quantity as nat)
                    &&& final(self).stock@ == after_sale(
                        old(self).stock@,
                        msg.product@,
                        msg.quantity,
                    )
                    &&& final(self).stock@[msg.product@].available_quantity == old(
                        self,
                    ).stock@[msg.product@].available_quantity - msg.quantity
                },
                Err(Errors::ProductNotFoundError) => {
                    &&& !old(self).stock@.contains_key(msg.product@)
                    &&& final(self).stock@ == old(self).stock@
                },
                Err(Errors::NotEnoughStockError) => {
                    &&& old(self).stock@.contains_key(msg.product@)
                    &&& old(self).stock@[msg.product@].free() < msg.quantity
                    &&& final(self).stock@ == old(self).stock@
                },
                Err(_) => false,
            },
    {
        match self.stock.get(msg.product.as_str()) {
            Some(level) => {
                if level.available_quantity - level.reserved_quantity >= msg.quantity {
                    let answer = write_counted("APPROVED", msg.product.as_str(), msg.quantity);
                    self.stock.insert(
                        msg.product,
                        ProductStock {
                            available_quantity: level.available_quantity - msg.quantity,
                            reserved_quantity: level.reserved_quantity,
                        },
                    );
                    Ok(AnswerEcom { answer })
                } else {
                    Err(Errors::NotEnoughStockError)
                }
            },
            None => Err(Errors::ProductNotFoundError),
        }
    }

    /// Addresses a record to the ecom that leads. Nothing is sent while the
    /// store holds no link to the leader.
    pub fn answer_ecom(&self, msg: AnswerEcom) -> (r: Option<EcomDelivery>)
        ensures
            match r {
                Some(d) => {
                    &&& self.active_ecoms@.contains(decimal(self.leader as nat))
                    &&& d.ecom_id@ == decimal(self.leader as nat)
                    &&& d.answer.answer@ == msg.answer@
                },
                None => !self.active_ecoms@.contains(decimal(self.leader as nat)),
            },
    {
        let ecom_id = usize_to_string(self.leader);
        if self.active_ecoms.contains(&ecom_id) {
            Some(EcomDelivery { ecom_id, answer: Answer { answer: msg.answer } })
        } else {
            None
        }
    }

    /// Forgets every link and returns the ecoms whose links are to be stopped.
    pub fn kill_connection(&mut self, msg: KillConnection) -> (stopped: Vec<String>)
        ensures
            texts(stopped@) == old(self).active_ecoms@,
            final(self).active_ecoms@ == Seq::<Seq<char>>::empty(),
            old(self).wf() ==> final(self).wf(),
            old(self).same_stock(final(self)),
            final(self).connection == old(self).connection,
            final(self).leader == old(self).leader,
    {
        let stopped = self.active_ecoms.names();
        self.active_ecoms.clear();
        stopped
    }

    /// Marks the store as connected and asks who leads, over the link that
    /// has been open the longest. Without a link there is nobody to ask.
    pub fn connect(&mut self, msg: Connect) -> (r: Option<EcomDelivery>)
        ensures
            final(self).connection,
            old(self).wf() ==> final(self).wf(),
            old(self).same_stock(final(self)),
            final(self).active_ecoms@ == old(self).active_ecoms@,
            final(self).leader == old(self).leader,
            match r {
                Some(d) => {
                    &&& old(self).active_ecoms@.len() > 0
                    &&& d.ecom_id@ == old(self).active_ecoms@[0]
                    &&& d.answer.answer@ == leader_query()
                },
                None => old(self).active_ecoms@.len() == 0,
            },
    {
        self.connection = true;
        if self.active_ecoms.len() > 0 {
            let ecom_id = self.active_ecoms.name(0).clone();
            let answer = write_record3("LEADER", "?", "?");
            Some(EcomDelivery { ecom_id, answer: Answer { answer } })
        } else {
            None
        }
    }

    /// Holds `msg.quantity` of `msg.product` for an online order. The hold
    /// needs the product to be carried and the quantity to be free; it is then
    /// handed out as a reservation that waits to be resolved.
    pub fn reserve(&mut self, msg: ReserveProduct) -> (r: Result<Reservation, Errors>)
        requires
            old(self).wf(),
        ensures
            final(self).wf(),
            old(self).same_links(final(self)),
            final(self).stock.products() == old(self).stock.products(),
            match r {
                Ok(held) => {
                    &&& old(self).stock@.contains_key(msg.product@)
                    &&& old(self).stock@[msg.product@].free() >= msg.quantity
                    &&& held.product@ == msg.product@
                    &&& held.quantity == msg.quantity
                    &&& held.deadline_seconds == msg.time_limit
                    &&& final(self).stock@ == after_reserve(
                        old(self).stock@,
                        msg.product@,
                        msg.quantity,
                    )
                },
                Err(Errors::ProductNotFoundError) => {
                    &&& !old(self).stock@.contains_key(msg.product@)
                    &&& final(self).stock@ == old(self).stock@
                },
                Err(Errors::NotEnoughStockError) => {
                    &&& old(self).stock@.contains_key(msg.product@)
                    &&& old(self).stock@[msg.product@].free() < msg.quantity
                    &&& final(self).stock@ == old(self).stock@
                },
                Err(_) => false,
            },
    {
        match self.stock.get(msg.product.as_str()) {
            Some(level) => {
                if level.available_quantity - level.reserved_quantity >= msg.quantity {
                    self.stock.insert(
                        msg.product.clone(),
                        ProductStock {
                            available_quantity: level.available_quantity,
                            reserved_quantity: level.reserved_quantity + msg.quantity,
                        },
                    );
                    Ok(
                        Reservation {
                            product: msg.product,
                            quantity: msg.quantity,
                            deadline_seconds: msg.time_limit,
                        },
                    )
                } else {
                    Err(Errors::NotEnoughStockError)
                }
            },
            None => Err(Errors::ProductNotFoundError),
        }
    }

    /// Resolves a reservation of `msg.quantity` of `msg.product`. For a
    /// product that the store does not carry it fails, whether the
    /// reservation is cancelled or dispatched, and nothing changes or is
    /// reported. Cancelling frees the hold. Dispatching takes the goods out of
    /// the hold and out of the store, so that what is available goes down by
    /// exactly the quantity that is reported as approved. The quantity must
    /// be held.
    pub fn dispatch(&mut self, msg: DispatchProduct) -> (r: Result<AnswerEcom, Errors>)
        requires
            old(self).wf(),
            old(self).stock@.contains_key(msg.product@) ==> msg.quantity <= old(
                self,
            ).stock@[msg.product@].reserved_quantity,
        ensures
            final(self).wf(),
            old(self).same_links(final(self)),
            final(self).stock.products() == old(self).stock.products(),
            final(self).stock@ == after_dispatch(
                old(self).stock@,
                msg.product@,
                msg.quantity,
                msg.cancel_order,
            ),
            match r {
                Ok(a) => {
                    &&& old(self).stock@.contains_key(msg.product@)
                    &&& a.answer@ == if msg.cancel_order {
                        cancelled_record(msg.product@, msg.quantity as nat)
                    } else {
                        approved_record(msg.product@, msg.quantity as nat)
                    }
                    &&& !msg.cancel_order ==> final(self).stock@[msg.product@].available_quantity
                        == old(self).stock@[msg.product@].available_quantity - msg.quantity
                },
                Err(Errors::ProductNotFoundError) => {
                    &&& !old(self).stock@.contains_key(msg.product@)
                    &&& final(self).stock@ == old(self).stock@
                },
                Err(_) => false,
            },
    {
        let level = match self.stock.get(msg.product.as_str()) {
            Some(level) => level,
            None => {
                return Err(Errors::ProductNotFoundError);
            },
        };
        if msg.cancel_order {
            let answer = write_counted("CANCELLED", msg.product.as_str(), msg.quantity);
            self.stock.insert(
                msg.product,
                ProductStock {
                    available_quantity: level.available_quantity,
                    reserved_quantity: level.reserved_quantity - msg.quantity,
                },
            );
            Ok(AnswerEcom { answer })
        } else {
            let answer = write_counted("APPROVED", msg.product.as_str(), msg.quantity);
            self.stock.insert(
                msg.product,
                ProductStock {
                    available_quantity: level.available_quantity - msg.quantity,
                    reserved_quantity: level.reserved_quantity - msg.quantity,
                },
            );
            Ok(AnswerEcom { answer })
        }
    }

    /// The stock table as lines for the operator, one per product.
    pub fn show_state(&self, msg: ShowState) -> (lines: Vec<String>)
        requires
            self.wf(),
        ensures
            lines@.len() == self.stock.products().len(),
            forall|i: int|
                0 <= i < lines@.len() ==> (#[trigger] lines@[i])@ == state_line(
                    self.stock.products()[i],
                    self.stock@[self.stock.products()[i]],
                ),
    {
        let n = self.stock.len();
        let mut lines: Vec<String> = Vec::new();
        let mut i: usize = 0;
        while i < n
            invariant
                i <= n,
                n == self.stock.products().len(),
                self.wf(),
                lines@.len() == i,
                forall|j: int|
                    0 <= j < i ==> (#[trigger] lines@[j])@ == state_line(
                        self.stock.products()[j],
                        self.stock@[self.stock.products()[j]],
                    ),
            decreases n - i,
        {
            let product = self.stock.product(i);
            assert(self.stock.products().contains(product@));
            assert(self.stock@.contains_key(product@));
            let level = self.stock.get(product.as_str()).unwrap();
            let available = usize_to_string(level.available_quantity);
            let reserved = usize_to_string(level.reserved_quantity);
            let mut line = String::from_str("Product: [");
            line.append(product.as_str());
            line.append("] has a quantity of [");
            line.append(available.as_str());
            line.append("]  and has [");
            line.append(reserved.as_str());
            line.append("] reserved.");
            lines.push(line);
            i += 1;
        }
        lines
    }

    /// The records that tell the leader the level of every product, in the
    /// order of the stock table.
    pub fn share_stock(&self, msg: ShareStock) -> (out: Vec<AnswerEcom>)
        requires
            self.wf(),
        ensures
            out@.len() == self.stock.products().len(),
            forall|i: int|
                0 <= i < out@.len() ==> (#[trigger] out@[i]).answer@ == stock_record(
                    self.stock.products()[i],
                    self.stock@[self.stock.products()[i]].available_quantity as nat,
                ),
    {
        let n = self.stock.len();
        let mut out: Vec<AnswerEcom> = Vec::new();
        let mut i: usize = 0;
        while i < n
            invariant
                i <= n,
                n == self.stock.products().len(),
                self.wf(),
                out@.len() == i,
                forall|j: int|
                    0 <= j < i ==> (#[trigger] out@[j]).answer@ == stock_record(
                        self.stock.products()[j],
                        self.stock@[self.stock.products()[j]].available_quantity as nat,
                    ),
            decreases n - i,
        {
            let product = self.stock.product(i);
            assert(self.stock.products().contains(product@));
            assert(self.stock@.contains_key(product@));
            let level = self.stock.get(product.as_str()).unwrap();
            let answer = write_counted("STOCK", product.as_str(), level.available_quantity);
            out.push(AnswerEcom { answer });
            i += 1;
        }
        out
    }

    /// Registers the link to an ecom and returns the state that the link
    /// starts in. An ecom that is registered already keeps its place.
    pub fn new_ecom_handler(&mut self, msg: NewEcomHandler) -> (link: EcomHandler)
        requires
            old(self).wf(),
        ensures
            final(self).wf(),
            link.ecom_id@ == msg.ecom_id@,
            final(self).active_ecoms@ == if old(self).active_ecoms@.contains(msg.ecom_id@) {
                old(self).active_ecoms@
            } else {
                old(self).active_ecoms@.push(msg.ecom_id@)
            },
            old(self).same_stock(final(self)),
            final(self).connection == old(self).connection,
            final(self).leader == old(self).leader,
    {
        let link = EcomHandler { ecom_id: msg.ecom_id.clone() };
        self.active_ecoms.insert(msg.ecom_id);
        link
    }

    /// Takes the ecom named in `msg` for the leader and asks for the stock to
    /// be shared with it. An id that is no number is rejected and changes
    /// nothing.
    pub fn new_leader(&mut self, msg: NewLeader) -> (r: Result<ShareStock, Errors>)
        ensures
            old(self).wf() ==> final(self).wf(),
            old(self).same_stock(final(self)),
            final(self).active_ecoms@ == old(self).active_ecoms@,
            final(self).connection == old(self).connection,
            match parse_usize_spec(msg.ecom_id@) {
                Some(id) => r is Ok && final(self).leader == id,
                None => r matches Err(Errors::CouldNotParse) && final(self).leader == old(
                    self,
                ).leader,
            },
    {
        match parse_usize(msg.ecom_id.as_str()) {
            Some(id) => {
                self.leader = id;
                Ok(ShareStock)
            },
            None => Err(Errors::CouldNotParse),
        }
    }

    /// A store that carries what the lines of a stock file say, with nothing
    /// reserved. A product that is listed twice has the level listed last.
    pub fn from_stock_lines(lines: &Vec<String>) -> (r: Result<Store, Errors>)
        ensures
            match r {
                Ok(s) => {
                    &&& s.wf()
                    &&& stock_of_lines(texts(lines@)) == Some(s.stock@)
                    &&& s.stock.products() == products_of_lines(texts(lines@))
                    &&& s.active_ecoms@ == Seq::<Seq<char>>::empty()
                    &&& !s.connection
                    &&& s.leader == 0
                },
                Err(Errors::CouldNotParse) => stock_of_lines(texts(lines@)) is None,
                Err(_) => false,
            },
    {
        let mut store = Store::new();
        let n = lines.len();
        let ghost all = texts(lines@);
        let mut i: usize = 0;
        assert(all.take(0) =~= Seq::<Seq<char>>::empty());
        while i < n
            invariant
                i <= n,
                n == lines@.len(),
                all == texts(lines@),
                store.wf(),
                stock_of_lines(all.take(i as int)) == Some(store.stock@),
                store.stock.products() == products_of_lines(all.take(i as int)),
                store.active_ecoms@ == Seq::<Seq<char>>::empty(),
                !store.connection,
                store.leader == 0,
            decreases n - i,
        {
            assert(all.take(i + 1).drop_last() =~= all.take(i as int));
            assert(all.take(i + 1).last() == lines@[i as int]@);
            match parse_counted_line(lines[i].as_str()) {
                Some((product, quantity)) => {
                    store.stock.insert(
                        product,
                        ProductStock { available_quantity: quantity, reserved_quantity: 0 },
                    );
                },
                None => {
                    proof {
                        lemma_stock_of_lines_prefix(all, i + 1);
                    }
                    return Err(Errors::CouldNotParse);
                },
            }
            i += 1;
        }
        assert(all.take(n as int) =~= all);
        Ok(store)
    }
}

/// What a line `<product>,<quantity>` of a stock file or of a file of sales
/// says, if it is well formed: fields after the second are ignored.
pub open spec fn counted_line(line: Seq<char>) -> Option<(Seq<char>, usize)> {
    let f = fields(line, ',');
    if f.len() >= 2 {
        match parse_usize_spec(f[1]) {
            Some(q) => Some((f[0], q)),
            None => None,
        }
    } else {
        None
    }
}

/// The stock that the lines of a stock file describe, or `None` if one of
/// them is malformed.
pub open spec fn stock_of_lines(lines: Seq<Seq<char>>) -> Option<Map<Seq<char>, ProductStock>>
    decreases lines.len(),
{
    if lines.len() == 0 {
        Some(Map::empty())
    } else {
        match (stock_of_lines(lines.drop_last()), counted_line(lines.last())) {
            (Some(m), Some((p, q))) => Some(
                m.insert(p, ProductStock { available_quantity: q, reserved_quantity: 0 }),
            ),
            _ => None,
        }
    }
}

/// The products that the lines of a stock file name, each once, in the order
/// in which they first appear. Malformed lines name nothing.
pub open spec fn products_of_lines(lines: Seq<Seq<char>>) -> Seq<Seq<char>>
    decreases lines.len(),
{
    if lines.len() == 0 {
        Seq::empty()
    } else {
        let before = products_of_lines(lines.drop_last());
        match counted_line(lines.last()) {
            Some((p, q)) => if before.contains(p) {
                before
            } else {
                before.push(p)
            },
            None => before,
        }
    }
}

/// A stock file with a malformed line among its first `k` is malformed.
pub proof fn lemma_stock_of_lines_prefix(lines: Seq<Seq<char>>, k: int)
    requires
        0 <= k <= lines.len(),
        stock_of_lines(lines.take(k)) is None,
    ensures
        stock_of_lines(lines) is None,
    decreases lines.len() - k,
{
    if k == lines.len() {
        assert(lines.take(k) =~= lines);
    } else {
        assert(lines.take(k + 1).drop_last() =~= lines.take(k));
        lemma_stock_of_lines_prefix(lines, k + 1);
    }
}

/// Reads a line `<product>,<quantity>`.
pub fn parse_counted_line(line: &str) -> (r: Option<(String, usize)>)
    ensures
        match r {
            Some((p, q)) => counted_line(line@) == Some((p@, q)),
            None => counted_line(line@) is None,
        },
{
    let mut f = split_fields(line, ',');
    if f.len() >= 2 {
        assert(texts(f@)[0] == f@[0]@);
        assert(texts(f@)[1] == f@[1]@);
        match parse_usize(f[1].as_str()) {
            Some(q) => Some((f.swap_remove(0), q)),
            None => None,
        }
    } else {
        None
    }
}

/// Reads one sale from a line `<product>,<quantity>` of a file of sales over
/// the counter.
pub fn parse_local_order(line: &str) -> (r: Result<LocalProductOrder, Errors>)
    ensures
        match r {
            Ok(o) => counted_line(line@) == Some((o.product@, o.quantity)),
            Err(Errors::CouldNotParse) => counted_line(line@) is None,
            Err(_) => false,
        },
{
    match parse_counted_line(line) {
        Some((product, quantity)) => Ok(LocalProductOrder { product, quantity }),
        None => Err(Errors::CouldNotParse),
    }
}

/// What the operator can ask of a store on its console.
pub enum ConsoleCommand {
    /// `C`: connect again.
    Connect(Connect),
    /// `K`: drop the links to all ecoms.
    Kill(KillConnection),
    /// `S`: show the stock table.
    Show(ShowState),
}

/// Reads a line that the operator typed. Only `C`, `K` and `S` are commands.
pub fn parse_command(line: &str) -> (r: Option<ConsoleCommand>)
    ensures
        match r {
            Some(ConsoleCommand::Connect(_)) => line@ == "C"@,
            Some(ConsoleCommand::Kill(_)) => line@ == "K"@,
            Some(ConsoleCommand::Show(_)) => line@ == "S"@,
            None => line@ != "C"@ && line@ != "K"@ && line@ != "S"@,
        },
{
    proof {
        reveal_strlit("C");
        reveal_strlit("K");
        reveal_strlit("S");
    }
    if same_text(line, "K") {
        Some(ConsoleCommand::Kill(KillConnection {  }))
    } else if same_text(line, "C") {
        Some(ConsoleCommand::Connect(Connect {  }))
    } else if same_text(line, "S") {
        Some(ConsoleCommand::Show(ShowState))
    } else {
        None
    }
}

/// One change to the stock of a product.
pub enum StockStep {
    /// A sale over the counter.
    Sale { quantity: usize },
    /// A new reservation.
    Reserve { quantity: usize },
    /// The end of a reservation, by cancelling it or by dispatching it.
    Resolve { quantity: usize, cancel: bool },
}

impl ProductStock {
    /// Whether the store lets `step` happen: a sale or a reservation needs the
    /// quantity to be free, and only what is held can be resolved.
    pub open spec fn allows(self, step: StockStep) -> bool {
        match step {
            StockStep::Sale { quantity } => self.free() >= quantity,
            StockStep::Reserve { quantity } => self.free() >= quantity,
            StockStep::Resolve { quantity, cancel } => quantity <= self.reserved_quantity,
        }
    }

    /// The stock after `step`.
    pub open spec fn after(self, step: StockStep) -> ProductStock {
        match step {
            StockStep::Sale { quantity } => self.sold(quantity),
            StockStep::Reserve { quantity } => self.held(quantity),
            StockStep::Resolve { quantity, cancel } => if cancel {
                self.released(quantity)
            } else {
                self.shipped(quantity)
            },
        }
    }

    /// Whether the store lets each of `steps` happen in turn.
    pub open spec fn allows_all(self, steps: Seq<StockStep>) -> bool
        decreases steps.len(),
    {
        steps.len() == 0 || (self.allows_all(steps.drop_last()) && self.after_all(
            steps.drop_last(),
        ).allows(steps.last()))
    }

    /// The stock after each of `steps` in turn.
    pub open spec fn after_all(self, steps: Seq<StockStep>) -> ProductStock
        decreases steps.len(),
    {
        if steps.len() == 0 {
            self
        } else {
            self.after_all(steps.drop_last()).after(steps.last())
        }
    }
}

/// The quantity that the reservations among `steps` put on hold.
pub open spec fn reserved_total(steps: Seq<StockStep>) -> int
    decreases steps.len(),
{
    if steps.len() == 0 {
        0
    } else {
        reserved_total(steps.drop_last()) + match steps.last() {
            StockStep::Reserve { quantity } => quantity as int,
            _ => 0,
        }
    }
}

/// The quantity of the reservations that `steps` resolve.
pub open spec fn resolved_total(steps: Seq<StockStep>) -> int
    decreases steps.len(),
{
    if steps.len() == 0 {
        0
    } else {
        resolved_total(steps.drop_last()) + match steps.last() {
            StockStep::Resolve { quantity, cancel } => quantity as int,
            _ => 0,
        }
    }
}

/// Whatever sales, reservations and resolutions a store lets happen to a
/// product, reservations never hold more of it than there is.
pub proof fn law_stock_stays_well_formed(stock: ProductStock, steps: Seq<StockStep>)
    requires
        stock.wf(),
        stock.allows_all(steps),
    ensures
        stock.after_all(steps).wf(),
    decreases steps.len(),
{
    if steps.len() > 0 {
        law_stock_stays_well_formed(stock, steps.drop_last());
    }
}

/// Reservations conserve what they hold: the held quantity of a product
/// changes by what was reserved less what was resolved. Once every
/// reservation is resolved the held quantity is what it was at the start.
pub proof fn law_reservations_conserved(stock: ProductStock, steps: Seq<StockStep>)
    requires
        stock.wf(),
        stock.allows_all(steps),
    ensures
        stock.after_all(steps).reserved_quantity == stock.reserved_quantity + reserved_total(steps)
            - resolved_total(steps),
        reserved_total(steps) == resolved_total(steps) ==> stock.after_all(steps).reserved_quantity
            == stock.reserved_quantity,
    decreases steps.len(),
{
    if steps.len() > 0 {
        law_stock_stays_well_formed(stock, steps.drop_last());
        law_reservations_conserved(stock, steps.drop_last());
    }
}

/// A reservation that is dispatched leaves the held quantity as it was before
/// the reservation and takes the goods out of the store. One that is
/// cancelled leaves the whole stock as it was.
pub proof fn law_reservation_round_trip(
    stock: Map<Seq<char>, ProductStock>,
    product: Seq<char>,
    quantity: usize,
    cancel: bool,
)
    requires
        stock.contains_key(product),
        stock[product].wf(),
        stock[product].free() >= quantity,
    ensures
        quantity <= after_reserve(stock, product, quantity)[product].reserved_quantity,
        after_dispatch(after_reserve(stock, product, quantity), product, quantity, cancel) == if cancel {
            stock
        } else {
            after_sale(stock, product, quantity)
        },
        after_sale(stock, product, quantity)[product].reserved_quantity
            == stock[product].reserved_quantity,
        after_sale(stock, product, quantity)[product].available_quantity
            == stock[product].available_quantity - quantity,
{
    let held = after_reserve(stock, product, quantity);
    let done = after_dispatch(held, product, quantity, cancel);
    if cancel {
        assert(done =~= stock);
    } else {
        assert(done =~= after_sale(stock, product, quantity));
    }
}

/// A store reports a sale as approved in two cases: over the counter, where
/// the quantity is free, and on dispatch, where the quantity is held. In both
/// the goods have left: the quantity is there to take, what is available
/// goes down by exactly the quantity reported, and no reservation holds more
/// than is left.
pub proof fn law_approved_means_gone(
    stock: Map<Seq<char>, ProductStock>,
    product: Seq<char>,
    quantity: usize,
)
    requires
        stock.contains_key(product),
        stock[product].wf(),
    ensures
        stock[product].free() >= quantity ==> {
            &&& quantity <= stock[product].available_quantity
            &&& after_sale(stock, product, quantity)[product].available_quantity
                == stock[product].available_quantity - quantity
            &&& after_sale(stock, product, quantity)[product].wf()
        },
        quantity <= stock[product].reserved_quantity ==> {
            &&& quantity <= stock[product].available_quantity
            &&& after_dispatch(stock, product, quantity, false)[product].available_quantity
                == stock[product].available_quantity - quantity
            &&& after_dispatch(stock, product, quantity, false)[product].wf()
        },
{
}

} // verus!
