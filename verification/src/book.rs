//! Per-instrument two-sided order book: price levels ordered by price, FIFO
//! order queues at each level, and an order-id index locating every resting
//! order.

use vstd::prelude::*;

use crate::price::{price_units_of, Price, PRICE_UNIT_BOUND};
use crate::schemas::common::{Order, OrderV, Side};
use crate::text::str_eq;

verus! {

/// An order resting in a book, together with the wallet that owns it.
#[derive(Debug, Clone)]
pub struct OrderEntry {
    pub user: String,
    pub order: Order,
}

/// The mathematical value of an [`OrderEntry`].
#[verifier::ext_equal]
pub struct EntryV {
    pub user: Seq<char>,
    pub order: OrderV,
}

impl View for OrderEntry {
    type V = EntryV;

    open spec fn view(&self) -> EntryV {
        EntryV { user: self.user@, order: self.order@ }
    }
}

impl DeepView for OrderEntry {
    type V = EntryV;

    open spec fn deep_view(&self) -> EntryV {
        self.view()
    }
}

impl OrderEntry {
    pub fn new(user: String, order: Order) -> (r: Self)
        ensures
            r@ == (EntryV { user: user@, order: order@ }),
    {
        OrderEntry { user, order }
    }

    pub fn oid(&self) -> (r: u64)
        ensures
            r == self@.order.oid,
    {
        self.order.oid
    }

    pub fn side(&self) -> (r: Side)
        ensures
            r == self@.order.side,
    {
        self.order.side
    }

    pub fn price_str(&self) -> (r: &String)
        ensures
            r@ == self@.order.limit_px,
    {
        &self.order.limit_px
    }

    pub fn size_str(&self) -> (r: &String)
        ensures
            r@ == self@.order.sz,
    {
        &self.order.sz
    }
}

/// Where the index places an order: side, price level, and owner.
#[derive(Debug, Clone)]
pub struct OidLocation {
    pub side: Side,
    pub price: Price,
    pub user: String,
}

/// The mathematical value of an [`OidLocation`].
#[verifier::ext_equal]
pub struct LocV {
    pub side: Side,
    pub price: int,
    pub user: Seq<char>,
}

impl View for OidLocation {
    type V = LocV;

    open spec fn view(&self) -> LocV {
        LocV { side: self.side, price: self.price@, user: self.user@ }
    }
}

impl DeepView for OidLocation {
    type V = LocV;

    open spec fn deep_view(&self) -> LocV {
        self.view()
    }
}

/// First index whose entry carries `oid`, if any.
pub open spec fn entry_find(os: Seq<EntryV>, oid: u64) -> Option<int>
    decreases os.len(),
{
    if os.len() == 0 {
        None
    } else if os[0].order.oid == oid {
        Some(0int)
    } else {
        match entry_find(os.drop_first(), oid) {
            Some(j) => Some(j + 1),
            None => None,
        }
    }
}

pub proof fn lemma_entry_find_props(os: Seq<EntryV>, oid: u64)
    ensures
        match entry_find(os, oid) {
            None => forall|k: int| 0 <= k < os.len() ==> (#[trigger] os[k]).order.oid != oid,
            Some(j) => 0 <= j < os.len() && os[j].order.oid == oid && forall|k: int|
                0 <= k < j ==> (#[trigger] os[k]).order.oid != oid,
        },
    decreases os.len(),
{
    if os.len() > 0 && os[0].order.oid != oid {
        lemma_entry_find_props(os.drop_first(), oid);
        assert(forall|k: int| 1 <= k < os.len() ==> #[trigger] os[k] == os.drop_first()[k - 1]);
    }
}

/// First index whose pair carries `oid`, if any.
pub open spec fn index_find(ix: Seq<(u64, LocV)>, oid: u64) -> Option<LocV>
    decreases ix.len(),
{
    if ix.len() == 0 {
        None
    } else if ix[0].0 == oid {
        Some(ix[0].1)
    } else {
        index_find(ix.drop_first(), oid)
    }
}

/// Position of the first pair carrying `oid`, if any.
pub open spec fn index_pos(ix: Seq<(u64, LocV)>, oid: u64) -> Option<int>
    decreases ix.len(),
{
    if ix.len() == 0 {
        None
    } else if ix[0].0 == oid {
        Some(0int)
    } else {
        match index_pos(ix.drop_first(), oid) {
            Some(j) => Some(j + 1),
            None => None,
        }
    }
}

pub proof fn lemma_index_find_props(ix: Seq<(u64, LocV)>, oid: u64)
    ensures
        match index_pos(ix, oid) {
            None => index_find(ix, oid) is None && forall|k: int|
                0 <= k < ix.len() ==> (#[trigger] ix[k]).0 != oid,
            Some(j) => 0 <= j < ix.len() && ix[j].0 == oid && index_find(ix, oid) == Some(
                ix[j].1,
            ) && forall|k: int| 0 <= k < j ==> (#[trigger] ix[k]).0 != oid,
        },
    decreases ix.len(),
{
    if ix.len() > 0 && ix[0].0 != oid {
        lemma_index_find_props(ix.drop_first(), oid);
        assert(forall|k: int| 1 <= k < ix.len() ==> #[trigger] ix[k] == ix.drop_first()[k - 1]);
    }
}

/// Number of leading levels whose price is below `p`; for a sorted level
/// list this is where a level at `p` sits or would be inserted.
pub open spec fn level_pos(ls: Seq<(int, Seq<EntryV>)>, p: int) -> int
    decreases ls.len(),
{
    if ls.len() == 0 {
        0
    } else if ls[0].0 < p {
        1 + level_pos(ls.drop_first(), p)
    } else {
        0
    }
}

/// The level holding price `p`, if present at the position `level_pos` names.
pub open spec fn level_find(ls: Seq<(int, Seq<EntryV>)>, p: int) -> Option<int> {
    let i = level_pos(ls, p);
    if i < ls.len() && ls[i].0 == p {
        Some(i)
    } else {
        None
    }
}

pub proof fn lemma_level_pos_props(ls: Seq<(int, Seq<EntryV>)>, p: int)
    ensures
        0 <= level_pos(ls, p) <= ls.len(),
        forall|k: int| 0 <= k < level_pos(ls, p) ==> (#[trigger] ls[k]).0 < p,
        level_pos(ls, p) < ls.len() ==> ls[level_pos(ls, p)].0 >= p,
    decreases ls.len(),
{
    if ls.len() > 0 && ls[0].0 < p {
        lemma_level_pos_props(ls.drop_first(), p);
        assert(forall|k: int| 1 <= k < ls.len() ==> #[trigger] ls[k] == ls.drop_first()[k - 1]);
    }
}

/// Prices strictly increase along the level list.
pub open spec fn levels_sorted(ls: Seq<(int, Seq<EntryV>)>) -> bool {
    forall|i: int, j: int| 0 <= i < j < ls.len() ==> (#[trigger] ls[i]).0 < (#[trigger] ls[j]).0
}

/// No level is left empty.
pub open spec fn levels_nonempty(ls: Seq<(int, Seq<EntryV>)>) -> bool {
    forall|i: int| 0 <= i < ls.len() ==> (#[trigger] ls[i]).1.len() > 0
}

/// Every level price stays within the range parsing can produce.
pub open spec fn levels_bounded(ls: Seq<(int, Seq<EntryV>)>) -> bool {
    forall|i: int|
        0 <= i < ls.len() ==> -PRICE_UNIT_BOUND < (#[trigger] ls[i]).0 < PRICE_UNIT_BOUND
}

/// Each order id occurs at most once in the index.
pub open spec fn index_unique(ix: Seq<(u64, LocV)>) -> bool {
    forall|i: int, j: int| 0 <= i < j < ix.len() ==> (#[trigger] ix[i]).0 != (#[trigger] ix[j]).0
}

/// The mathematical value of a [`CoinBook`].
#[verifier::ext_equal]
pub struct BookV {
    pub coin: Seq<char>,
    pub bids: Seq<(int, Seq<EntryV>)>,
    pub asks: Seq<(int, Seq<EntryV>)>,
    pub index: Seq<(u64, LocV)>,
}

impl BookV {
    /// The level list of one side.
    pub open spec fn side_levels(self, side: Side) -> Seq<(int, Seq<EntryV>)> {
        match side {
            Side::Bid => self.bids,
            Side::Ask => self.asks,
        }
    }

    /// Replace the level list of one side.
    pub open spec fn with_side(self, side: Side, ls: Seq<(int, Seq<EntryV>)>) -> BookV {
        match side {
            Side::Bid => BookV { bids: ls, ..self },
            Side::Ask => BookV { asks: ls, ..self },
        }
    }

    /// The index entry for `oid` names a level that holds exactly one entry
    /// with that oid, owned by the recorded user.
    pub open spec fn placed(self, oid: u64, loc: LocV) -> bool {
        let ls = self.side_levels(loc.side);
        match level_find(ls, loc.price) {
            None => false,
            Some(i) => {
                let os = ls[i].1;
                match entry_find(os, oid) {
                    None => false,
                    Some(j) => os[j].user == loc.user && forall|k: int|
                        0 <= k < os.len() && k != j ==> (#[trigger] os[k]).order.oid != oid,
                }
            },
        }
    }

    /// Every entry on `side` is indexed at its own level and user.
    pub open spec fn side_indexed(self, side: Side) -> bool {
        let ls = self.side_levels(side);
        forall|i: int, j: int|
            0 <= i < ls.len() && 0 <= j < (#[trigger] ls[i]).1.len() ==> index_find(
                self.index,
                (#[trigger] ls[i].1[j]).order.oid,
            ) == Some(LocV { side, price: ls[i].0, user: ls[i].1[j].user })
    }

    /// Well-formedness: both sides sorted with no empty level, the index
    /// free of duplicates, and index and levels naming each other exactly.
    pub open spec fn wf(self) -> bool {
        &&& levels_sorted(self.bids)
        &&& levels_sorted(self.asks)
        &&& levels_nonempty(self.bids)
        &&& levels_nonempty(self.asks)
        &&& levels_bounded(self.bids)
        &&& levels_bounded(self.asks)
        &&& index_unique(self.index)
        &&& forall|k: int|
            0 <= k < self.index.len() ==> self.placed(
                (#[trigger] self.index[k]).0,
                self.index[k].1,
            )
        &&& self.side_indexed(Side::Bid)
        &&& self.side_indexed(Side::Ask)
    }

    /// Whether `oid` is known to the index.
    pub open spec fn contains_oid(self, oid: u64) -> bool {
        index_find(self.index, oid) is Some
    }
}

/// A FIFO queue of orders resting at one price.
#[derive(Debug, Clone)]
pub struct PriceLevel {
    pub orders: Vec<OrderEntry>,
}

impl View for PriceLevel {
    type V = Seq<EntryV>;

    open spec fn view(&self) -> Seq<EntryV> {
        self.orders.deep_view()
    }
}

impl DeepView for PriceLevel {
    type V = Seq<EntryV>;

    open spec fn deep_view(&self) -> Seq<EntryV> {
        self.view()
    }
}

impl PriceLevel {
    pub fn new() -> (r: Self)
        ensures
            r@ =~= Seq::<EntryV>::empty(),
    {
        PriceLevel { orders: Vec::new() }
    }

    pub fn push(&mut self, entry: OrderEntry)
        ensures
            final(self)@ =~= old(self)@.push(entry@),
    {
        self.orders.push(entry);
    }

    pub fn is_empty(&self) -> (r: bool)
        ensures
            r == (self@.len() == 0),
    {
        self.orders.len() == 0
    }

    pub fn len(&self) -> (r: usize)
        ensures
            r == self@.len(),
    {
        self.orders.len()
    }

    pub fn orders(&self) -> (r: &Vec<OrderEntry>)
        ensures
            r.deep_view() == self@,
    {
        &self.orders
    }

    #[verifier::loop_isolation(false)]
    pub fn find_by_oid(&self, oid: u64) -> (r: Option<&OrderEntry>)
        ensures
            match entry_find(self@, oid) {
                None => r is None,
                Some(j) => r matches Some(e) && e@ == self@[j],
            },
    {
        proof {
            lemma_entry_find_props(self@, oid);
        }
        let n = self.orders.len();
        let mut i: usize = 0;
        while i < n
            invariant
                0 <= i <= n,
                n == self@.len(),
                forall|k: int| 0 <= k < i ==> (#[trigger] self@[k]).order.oid != oid,
            decreases n - i,
        {
            if self.orders[i].order.oid == oid {
                proof {
                    assert(self@[i as int].order.oid == oid);
                }
                return Some(&self.orders[i]);
            }
            i = i + 1;
        }
        None
    }

    #[verifier::loop_isolation(false)]
    pub fn remove_by_oid(&mut self, oid: u64) -> (r: Option<OrderEntry>)
        ensures
            match entry_find(old(self)@, oid) {
                None => r is None && final(self)@ == old(self)@,
                Some(j) => r matches Some(e) && e@ == old(self)@[j] && final(self)@ =~= old(
                    self,
                )@.remove(j),
            },
    {
        proof {
            lemma_entry_find_props(old(self)@, oid);
        }
        let n = self.orders.len();
        let mut i: usize = 0;
        while i < n
            invariant
                0 <= i <= n,
                n == self@.len(),
                self@ == old(self)@,
                self.orders == old(self).orders,
                forall|k: int| 0 <= k < i ==> (#[trigger] self@[k]).order.oid != oid,
            decreases n - i,
        {
            if self.orders[i].order.oid == oid {
                proof {
                    assert(old(self)@[i as int].order.oid == oid);
                }
                let e = self.orders.remove(i);
                proof {
                    assert(self@ =~= old(self)@.remove(i as int));
                }
                return Some(e);
            }
            i = i + 1;
        }
        None
    }

    #[verifier::loop_isolation(false)]
    pub fn update_size(&mut self, oid: u64, new_sz: String) -> (r: bool)
        ensures
            match entry_find(old(self)@, oid) {
                None => !r && final(self)@ == old(self)@,
                Some(j) => r && final(self)@ =~= old(self)@.update(
                    j,
                    EntryV {
                        user: old(self)@[j].user,
                        order: OrderV { sz: new_sz@, ..old(self)@[j].order },
                    },
                ),
            },
    {
        proof {
            lemma_entry_find_props(old(self)@, oid);
        }
        let n = self.orders.len();
        let mut i: usize = 0;
        while i < n
            invariant
                0 <= i <= n,
                n == self@.len(),
                self@ == old(self)@,
                self.orders == old(self).orders,
                forall|k: int| 0 <= k < i ==> (#[trigger] self@[k]).order.oid != oid,
            decreases n - i,
        {
            if self.orders[i].order.oid == oid {
                proof {
                    assert(old(self)@[i as int].order.oid == oid);
                }
                let mut e = self.orders.remove(i);
                e.order.sz = new_sz;
                self.orders.insert(i, e);
                proof {
                    assert(self@ =~= old(self)@.update(
                        i as int,
                        EntryV {
                            user: old(self)@[i as int].user,
                            order: OrderV { sz: new_sz@, ..old(self)@[i as int].order },
                        },
                    ));
                }
                return true;
            }
            i = i + 1;
        }
        false
    }
}

/// Add an entry at price `p`: append at the back of the existing level, or
/// open a new level at the price-ordered position.
pub open spec fn add_order_spec(ls: Seq<(int, Seq<EntryV>)>, p: int, e: EntryV) -> Seq<
    (int, Seq<EntryV>),
> {
    match level_find(ls, p) {
        Some(i) => ls.update(i, (p, ls[i].1.push(e))),
        None => ls.insert(level_pos(ls, p), (p, seq![e])),
    }
}

/// The book after `insert`: a no-op when the oid is already indexed or the
/// price does not parse; otherwise the entry joins its level FIFO and the
/// index records its location.
pub open spec fn insert_spec(b: BookV, e: EntryV) -> BookV {
    if index_find(b.index, e.order.oid) is Some {
        b
    } else {
        match price_units_of(e.order.limit_px) {
            None => b,
            Some(p) => {
                let side = e.order.side;
                let b2 = b.with_side(side, add_order_spec(b.side_levels(side), p, e));
                BookV {
                    index: b2.index.push(
                        (e.order.oid, LocV { side, price: p, user: e.user }),
                    ),
                    ..b2
                }
            },
        }
    }
}

/// The book after `update(oid, orig_sz, new_sz)` and whether it applied: the
/// resize happens only when the oid is indexed, its level and entry are
/// found, and the recorded size equals `orig_sz`.
pub open spec fn update_spec(b: BookV, oid: u64, orig_sz: Seq<char>, new_sz: Seq<char>) -> (
    BookV,
    bool,
) {
    match index_find(b.index, oid) {
        None => (b, false),
        Some(loc) => {
            let ls = b.side_levels(loc.side);
            match level_find(ls, loc.price) {
                None => (b, false),
                Some(i) => match entry_find(ls[i].1, oid) {
                    None => (b, false),
                    Some(j) => if ls[i].1[j].order.sz == orig_sz {
                        let e2 = EntryV {
                            user: ls[i].1[j].user,
                            order: OrderV { sz: new_sz, ..ls[i].1[j].order },
                        };
                        (
                            b.with_side(
                                loc.side,
                                ls.update(i, (ls[i].0, ls[i].1.update(j, e2))),
                            ),
                            true,
                        )
                    } else {
                        (b, false)
                    },
                },
            }
        },
    }
}

/// The book after `remove(oid)` and the removed entry: the index entry goes
/// first; the order leaves its level, and an emptied level is evicted.
pub open spec fn remove_spec(b: BookV, oid: u64) -> (BookV, Option<EntryV>) {
    match index_pos(b.index, oid) {
        None => (b, None),
        Some(k) => {
            let loc = b.index[k].1;
            let b1 = BookV { index: b.index.remove(k), ..b };
            let ls = b1.side_levels(loc.side);
            match level_find(ls, loc.price) {
                None => (b1, None),
                Some(i) => match entry_find(ls[i].1, oid) {
                    None => (b1, None),
                    Some(j) => {
                        let os2 = ls[i].1.remove(j);
                        let ls2 = if os2.len() == 0 {
                            ls.remove(i)
                        } else {
                            ls.update(i, (ls[i].0, os2))
                        };
                        (b1.with_side(loc.side, ls2), Some(ls[i].1[j]))
                    },
                },
            }
        },
    }
}

/// A per-instrument order book.
#[derive(Debug)]
pub struct CoinBook {
    pub coin: String,
    pub bids: Vec<(Price, PriceLevel)>,
    pub asks: Vec<(Price, PriceLevel)>,
    pub oid_index: Vec<(u64, OidLocation)>,
}

impl View for CoinBook {
    type V = BookV;

    open spec fn view(&self) -> BookV {
        BookV {
            coin: self.coin@,
            bids: self.bids.deep_view(),
            asks: self.asks.deep_view(),
            index: self.oid_index.deep_view(),
        }
    }
}

impl DeepView for CoinBook {
    type V = BookV;

    open spec fn deep_view(&self) -> BookV {
        self.view()
    }
}

impl CoinBook {
    pub fn new(coin: String) -> (r: Self)
        ensures
            r@.coin == coin@,
            r@.bids =~= Seq::<(int, Seq<EntryV>)>::empty(),
            r@.asks =~= Seq::<(int, Seq<EntryV>)>::empty(),
            r@.index =~= Seq::<(u64, LocV)>::empty(),
            r@.wf(),
    {
        let r = CoinBook { coin, bids: Vec::new(), asks: Vec::new(), oid_index: Vec::new() };
        proof {
            assert(r@.bids =~= Seq::<(int, Seq<EntryV>)>::empty());
            assert(r@.asks =~= Seq::<(int, Seq<EntryV>)>::empty());
            assert(r@.index =~= Seq::<(u64, LocV)>::empty());
        }
        r
    }

    pub fn coin(&self) -> (r: &String)
        ensures
            r@ == self@.coin,
    {
        &self.coin
    }

    /// Whether an order with this oid rests in the book.
    #[verifier::loop_isolation(false)]
    pub fn contains(&self, oid: u64) -> (r: bool)
        ensures
            r == self@.contains_oid(oid),
    {
        proof {
            lemma_index_find_props(self@.index, oid);
        }
        let n = self.oid_index.len();
        let mut i: usize = 0;
        while i < n
            invariant
                0 <= i <= n,
                n == self@.index.len(),
                forall|k: int| 0 <= k < i ==> (#[trigger] self@.index[k]).0 != oid,
            decreases n - i,
        {
            if self.oid_index[i].0 == oid {
                proof {
                    assert(self@.index[i as int].0 == oid);
                }
                return true;
            }
            i = i + 1;
        }
        false
    }

    /// The owner recorded for `oid`, if the oid is indexed.
    #[verifier::loop_isolation(false)]
    pub fn get_user(&self, oid: u64) -> (r: Option<&String>)
        ensures
            match index_find(self@.index, oid) {
                None => r is None,
                Some(loc) => r matches Some(u) && u@ == loc.user,
            },
    {
        proof {
            lemma_index_find_props(self@.index, oid);
        }
        let n = self.oid_index.len();
        let mut i: usize = 0;
        while i < n
            invariant
                0 <= i <= n,
                n == self@.index.len(),
                forall|k: int| 0 <= k < i ==> (#[trigger] self@.index[k]).0 != oid,
            decreases n - i,
        {
            if self.oid_index[i].0 == oid {
                proof {
                    assert(self@.index[i as int].0 == oid);
                }
                return Some(&self.oid_index[i].1.user);
            }
            i = i + 1;
        }
        None
    }

    pub fn total_orders(&self) -> (r: usize)
        ensures
            r == self@.index.len(),
    {
        self.oid_index.len()
    }

    pub fn bid_levels(&self) -> (r: usize)
        ensures
            r == self@.bids.len(),
    {
        self.bids.len()
    }

    pub fn ask_levels(&self) -> (r: usize)
        ensures
            r == self@.asks.len(),
    {
        self.asks.len()
    }

    pub fn bids(&self) -> (r: &Vec<(Price, PriceLevel)>)
        ensures
            r.deep_view() == self@.bids,
    {
        &self.bids
    }

    pub fn asks(&self) -> (r: &Vec<(Price, PriceLevel)>)
        ensures
            r.deep_view() == self@.asks,
    {
        &self.asks
    }

    /// Insert an entry: a no-op when its oid is already present or its price
    /// string does not parse.
    pub fn insert(&mut self, entry: OrderEntry)
        ensures
            final(self)@ == insert_spec(old(self)@, entry@),
    {
        proof {
            lemma_index_find_props(self@.index, entry@.order.oid);
        }
        if self.contains(entry.oid()) {
            return;
        }
        let price = match Price::parse(entry.price_str().as_str()) {
            Some(p) => p,
            None => {
                return;
            },
        };
        let oid = entry.oid();
        let user = entry.user.clone();
        let side = entry.side();
        match side {
            Side::Bid => add_to_levels(&mut self.bids, price, entry),
            Side::Ask => add_to_levels(&mut self.asks, price, entry),
        }
        self.oid_index.push((oid, OidLocation { side, price, user }));
        proof {
            assert(self@.index =~= old(self)@.index.push(
                (oid, LocV { side, price: price@, user: user@ }),
            ));
            assert(self@ =~~= insert_spec(old(self)@, entry@));
        }
    }
}

impl CoinBook {
    /// Resize the order `oid` to `new_sz`, but only when the book still
    /// records size `orig_sz` for it; reports whether the resize applied.
    #[verifier::loop_isolation(false)]
    pub fn update(&mut self, oid: u64, orig_sz: &str, new_sz: String) -> (r: bool)
        ensures
            final(self)@ == update_spec(old(self)@, oid, orig_sz@, new_sz@).0,
            r == update_spec(old(self)@, oid, orig_sz@, new_sz@).1,
    {
        proof {
            lemma_index_find_props(self@.index, oid);
        }
        let n = self.oid_index.len();
        let mut i: usize = 0;
        while i < n
            invariant
                0 <= i <= n,
                n == self@.index.len(),
                self.oid_index == old(self).oid_index,
                self.bids == old(self).bids,
                self.asks == old(self).asks,
                self.coin == old(self).coin,
                forall|k: int| 0 <= k < i ==> (#[trigger] self@.index[k]).0 != oid,
            decreases n - i,
        {
            if self.oid_index[i].0 == oid {
                proof {
                    assert(self@.index[i as int].0 == oid);
                }
                let side = self.oid_index[i].1.side;
                let price = self.oid_index[i].1.price;
                let applied = match side {
                    Side::Bid => update_in_levels(&mut self.bids, price, oid, orig_sz, new_sz),
                    Side::Ask => update_in_levels(&mut self.asks, price, oid, orig_sz, new_sz),
                };
                proof {
                    assert(self@ =~~= update_spec(old(self)@, oid, orig_sz@, new_sz@).0);
                }
                return applied;
            }
            i = i + 1;
        }
        false
    }

    /// Delete the order `oid`, evicting its level if that empties it;
    /// returns the removed entry when the oid was present.
    #[verifier::loop_isolation(false)]
    pub fn remove(&mut self, oid: u64) -> (r: Option<OrderEntry>)
        ensures
            final(self)@ == remove_spec(old(self)@, oid).0,
            match remove_spec(old(self)@, oid).1 {
                None => r is None,
                Some(ev) => r matches Some(e) && e@ == ev,
            },
    {
        proof {
            lemma_index_find_props(self@.index, oid);
        }
        let n = self.oid_index.len();
        let mut i: usize = 0;
        while i < n
            invariant
                0 <= i <= n,
                n == self@.index.len(),
                self.oid_index == old(self).oid_index,
                self.bids == old(self).bids,
                self.asks == old(self).asks,
                self.coin == old(self).coin,
                forall|k: int| 0 <= k < i ==> (#[trigger] self@.index[k]).0 != oid,
            decreases n - i,
        {
            if self.oid_index[i].0 == oid {
                proof {
                    assert(self@.index[i as int].0 == oid);
                }
                let side = self.oid_index[i].1.side;
                let price = self.oid_index[i].1.price;
                self.oid_index.remove(i);
                proof {
                    assert(self@.index =~= old(self)@.index.remove(i as int));
                }
                let res = match side {
                    Side::Bid => remove_from_levels(&mut self.bids, price, oid),
                    Side::Ask => remove_from_levels(&mut self.asks, price, oid),
                };
                proof {
                    assert(self@ =~~= remove_spec(old(self)@, oid).0);
                }
                return res;
            }
            i = i + 1;
        }
        None
    }

    /// The highest-priced bid level, if any.
    pub fn best_bid(&self) -> (r: Option<&(Price, PriceLevel)>)
        ensures
            match r {
                None => self@.bids.len() == 0,
                Some(pl) => self@.bids.len() > 0 && pl.0@ == self@.bids.last().0 && pl.1@
                    == self@.bids.last().1,
            },
    {
        let n = self.bids.len();
        if n == 0 {
            None
        } else {
            proof {
                assert(self@.bids[n - 1] == (self.bids@[n - 1].0@, self.bids@[n - 1].1@));
            }
            Some(&self.bids[n - 1])
        }
    }

    /// The lowest-priced ask level, if any.
    pub fn best_ask(&self) -> (r: Option<&(Price, PriceLevel)>)
        ensures
            match r {
                None => self@.asks.len() == 0,
                Some(pl) => self@.asks.len() > 0 && pl.0@ == self@.asks.first().0 && pl.1@
                    == self@.asks.first().1,
            },
    {
        let n = self.asks.len();
        if n == 0 {
            None
        } else {
            proof {
                assert(self@.asks[0] == (self.asks@[0].0@, self.asks@[0].1@));
            }
            Some(&self.asks[0])
        }
    }

    /// Best bid, best ask, and their difference — or nothing while either
    /// side is empty.
    pub fn spread(&self) -> (r: Option<(Price, Price, Price)>)
        requires
            self@.wf(),
        ensures
            match r {
                None => self@.bids.len() == 0 || self@.asks.len() == 0,
                Some((b, a, d)) => self@.bids.len() > 0 && self@.asks.len() > 0 && b@
                    == self@.bids.last().0 && a@ == self@.asks.first().0 && d@ == a@ - b@,
            },
    {
        let nb = self.bids.len();
        let na = self.asks.len();
        if nb == 0 || na == 0 {
            return None;
        }
        proof {
            assert(self@.bids[nb - 1] == (self.bids@[nb - 1].0@, self.bids@[nb - 1].1@));
            assert(self@.asks[0] == (self.asks@[0].0@, self.asks@[0].1@));
        }
        let bid = self.bids[nb - 1].0;
        let ask = self.asks[0].0;
        let d = Price { units: ask.units - bid.units };
        Some((bid, ask, d))
    }
}

/// Position of the first level at or above `price`, matching `level_pos`.
#[verifier::loop_isolation(false)]
fn find_level_pos(levels: &Vec<(Price, PriceLevel)>, price: Price) -> (pos: usize)
    ensures
        pos == level_pos(levels.deep_view(), price@),
        pos <= levels.len(),
{
    let ghost dv = levels.deep_view();
    proof {
        lemma_level_pos_props(dv, price@);
    }
    let n = levels.len();
    let mut pos: usize = 0;
    while pos < n && levels[pos].0.units < price.units
        invariant
            0 <= pos <= n,
            n == dv.len(),
            forall|k: int| 0 <= k < pos ==> (#[trigger] dv[k]).0 < price@,
        decreases n - pos,
    {
        proof {
            assert(dv[pos as int].0 == levels@[pos as int].0@);
        }
        pos = pos + 1;
    }
    proof {
        if pos < n {
            assert(dv[pos as int].0 == levels@[pos as int].0@);
        }
        assert(pos == level_pos(dv, price@)) by {
            let lp = level_pos(dv, price@);
            if lp < pos {
                assert(dv[lp].0 < price@);
            }
            if lp > pos {
                assert(dv[pos as int].0 < price@);
            }
        }
    }
    pos
}

/// Apply a guarded resize inside a level list.
fn update_in_levels(
    levels: &mut Vec<(Price, PriceLevel)>,
    price: Price,
    oid: u64,
    orig_sz: &str,
    new_sz: String,
) -> (r: bool)
    ensures
        ({
            let dv = old(levels).deep_view();
            match level_find(dv, price@) {
                None => !r && final(levels).deep_view() == dv,
                Some(i) => match entry_find(dv[i].1, oid) {
                    None => !r && final(levels).deep_view() == dv,
                    Some(j) => if dv[i].1[j].order.sz == orig_sz@ {
                        r && final(levels).deep_view() =~= dv.update(
                            i,
                            (
                                dv[i].0,
                                dv[i].1.update(
                                    j,
                                    EntryV {
                                        user: dv[i].1[j].user,
                                        order: OrderV { sz: new_sz@, ..dv[i].1[j].order },
                                    },
                                ),
                            ),
                        )
                    } else {
                        !r && final(levels).deep_view() == dv
                    },
                },
            }
        }),
{
    let ghost dv = old(levels).deep_view();
    let pos = find_level_pos(levels, price);
    let n = levels.len();
    if !(pos < n && levels[pos].0.units == price.units) {
        proof {
            if pos < n {
                assert(dv[pos as int].0 == levels@[pos as int].0@);
            }
            assert(level_find(dv, price@) is None);
        }
        return false;
    }
    proof {
        assert(dv[pos as int].0 == levels@[pos as int].0@);
        assert(level_find(dv, price@) == Some(pos as int));
    }
    let (pr, mut lvl) = levels.remove(pos);
    let guard_ok = match lvl.find_by_oid(oid) {
        None => false,
        Some(e) => str_eq(e.order.sz.as_str(), orig_sz),
    };
    let applied = if guard_ok {
        lvl.update_size(oid, new_sz)
    } else {
        false
    };
    levels.insert(pos, (pr, lvl));
    proof {
        match entry_find(dv[pos as int].1, oid) {
            None => {
                assert(levels.deep_view() =~= dv);
            },
            Some(j) => {
                if dv[pos as int].1[j].order.sz == orig_sz@ {
                    assert(levels.deep_view() =~~= dv.update(
                        pos as int,
                        (
                            dv[pos as int].0,
                            dv[pos as int].1.update(
                                j,
                                EntryV {
                                    user: dv[pos as int].1[j].user,
                                    order: OrderV {
                                        sz: new_sz@,
                                        ..dv[pos as int].1[j].order
                                    },
                                },
                            ),
                        ),
                    ));
                } else {
                    assert(levels.deep_view() =~= dv);
                }
            },
        }
    }
    applied
}

/// Delete `oid` inside a level list, evicting the level if it empties.
fn remove_from_levels(levels: &mut Vec<(Price, PriceLevel)>, price: Price, oid: u64) -> (r:
    Option<OrderEntry>)
    ensures
        ({
            let dv = old(levels).deep_view();
            match level_find(dv, price@) {
                None => r is None && final(levels).deep_view() == dv,
                Some(i) => match entry_find(dv[i].1, oid) {
                    None => r is None && final(levels).deep_view() == dv,
                    Some(j) => {
                        let os2 = dv[i].1.remove(j);
                        &&& r matches Some(e) && e@ == dv[i].1[j]
                        &&& final(levels).deep_view() =~= (if os2.len() == 0 {
                            dv.remove(i)
                        } else {
                            dv.update(i, (dv[i].0, os2))
                        })
                    },
                },
            }
        }),
{
    let ghost dv = old(levels).deep_view();
    let pos = find_level_pos(levels, price);
    let n = levels.len();
    if !(pos < n && levels[pos].0.units == price.units) {
        proof {
            if pos < n {
                assert(dv[pos as int].0 == levels@[pos as int].0@);
            }
            assert(level_find(dv, price@) is None);
        }
        return None;
    }
    proof {
        assert(dv[pos as int].0 == levels@[pos as int].0@);
        assert(level_find(dv, price@) == Some(pos as int));
    }
    let (pr, mut lvl) = levels.remove(pos);
    let removed = lvl.remove_by_oid(oid);
    match removed {
        None => {
            levels.insert(pos, (pr, lvl));
            proof {
                assert(levels.deep_view() =~= dv);
            }
            None
        },
        Some(e) => {
            if lvl.is_empty() {
                proof {
                    assert(levels.deep_view() =~~= dv.remove(pos as int));
                }
            } else {
                levels.insert(pos, (pr, lvl));
                proof {
                    let j = entry_find(dv[pos as int].1, oid)->Some_0;
                    assert(levels.deep_view() =~~= dv.update(
                        pos as int,
                        (dv[pos as int].0, dv[pos as int].1.remove(j)),
                    ));
                }
            }
            Some(e)
        },
    }
}

/// Splice an entry into a price-ordered level list.
#[verifier::loop_isolation(false)]
fn add_to_levels(levels: &mut Vec<(Price, PriceLevel)>, price: Price, entry: OrderEntry)
    ensures
        final(levels).deep_view() =~= add_order_spec(old(levels).deep_view(), price@, entry@),
{
    let ghost dv = old(levels).deep_view();
    proof {
        lemma_level_pos_props(dv, price@);
    }
    let n = levels.len();
    let mut pos: usize = 0;
    while pos < n && levels[pos].0.units < price.units
        invariant
            0 <= pos <= n,
            n == dv.len(),
            levels == old(levels),
            forall|k: int| 0 <= k < pos ==> (#[trigger] dv[k]).0 < price@,
        decreases n - pos,
    {
        proof {
            assert(dv[pos as int].0 == levels@[pos as int].0@);
        }
        pos = pos + 1;
    }
    proof {
        if pos < n {
            assert(dv[pos as int].0 == levels@[pos as int].0@);
        }
        assert(pos == level_pos(dv, price@)) by {
            let lp = level_pos(dv, price@);
            if lp < pos {
                assert(dv[lp].0 < price@);
            }
            if lp > pos {
                assert(dv[pos as int].0 < price@);
            }
        }
    }
    if pos < n && levels[pos].0.units == price.units {
        proof {
            assert(level_find(dv, price@) == Some(pos as int));
        }
        let (pr, mut lvl) = levels.remove(pos);
        lvl.push(entry);
        levels.insert(pos, (pr, lvl));
        proof {
            assert(levels.deep_view() =~~= dv.update(
                pos as int,
                (price@, dv[pos as int].1.push(entry@)),
            ));
        }
    } else {
        proof {
            assert(level_find(dv, price@) is None);
        }
        levels.insert(pos, (price, PriceLevel { orders: vec![entry] }));
        proof {
            assert(levels.deep_view() =~~= dv.insert(pos as int, (price@, seq![entry@])));
        }
    }
}

} // verus!
