//! The per-coin book registry: find or create the book for a coin, apply
//! diffs, install snapshot books wholesale, and aggregate counters.

use vstd::prelude::*;

use crate::book::{BookV, CoinBook};
use crate::diff::{apply, apply_spec, lemma_apply_wf, ApplyResult};
use crate::schemas::book_diff::{BookDiff, BookDiffV};
use crate::text::str_eq;

verus! {

/// First index of the book registered for `coin`, if any.
pub open spec fn book_index(s: Seq<BookV>, coin: Seq<char>) -> Option<int>
    decreases s.len(),
{
    if s.len() == 0 {
        None
    } else if s[0].coin == coin {
        Some(0int)
    } else {
        match book_index(s.drop_first(), coin) {
            Some(i) => Some(i + 1),
            None => None,
        }
    }
}

pub proof fn lemma_book_index_props(s: Seq<BookV>, coin: Seq<char>)
    ensures
        match book_index(s, coin) {
            None => forall|k: int| 0 <= k < s.len() ==> (#[trigger] s[k]).coin != coin,
            Some(i) => 0 <= i < s.len() && s[i].coin == coin && forall|k: int|
                0 <= k < i ==> (#[trigger] s[k]).coin != coin,
        },
    decreases s.len(),
{
    if s.len() > 0 && s[0].coin != coin {
        lemma_book_index_props(s.drop_first(), coin);
        assert(forall|k: int| 1 <= k < s.len() ==> #[trigger] s[k] == s.drop_first()[k - 1]);
    }
}

/// A book with nothing resting on either side.
pub open spec fn empty_book(coin: Seq<char>) -> BookV {
    BookV {
        coin,
        bids: Seq::<_>::empty(),
        asks: Seq::<_>::empty(),
        index: Seq::<_>::empty(),
    }
}

/// The registry after installing `b` wholesale for its coin.
pub open spec fn set_spec(s: Seq<BookV>, b: BookV) -> Seq<BookV> {
    match book_index(s, b.coin) {
        Some(i) => s.update(i, b),
        None => s.push(b),
    }
}

/// The registry and outcome after routing one diff to its coin's book,
/// creating the book on first sight of the coin.
pub open spec fn service_apply_spec(s: Seq<BookV>, d: BookDiffV) -> (Seq<BookV>, ApplyResult) {
    match book_index(s, d.coin) {
        Some(i) => {
            let r = apply_spec(s[i], d);
            (s.update(i, r.0), r.1)
        },
        None => {
            let r = apply_spec(empty_book(d.coin), d);
            (s.push(r.0), r.1)
        },
    }
}

/// Aggregate counters over a registry.
pub open spec fn sum_orders(s: Seq<BookV>) -> int
    decreases s.len(),
{
    if s.len() == 0 {
        0
    } else {
        sum_orders(s.drop_last()) + s.last().index.len()
    }
}

pub open spec fn sum_bid_levels(s: Seq<BookV>) -> int
    decreases s.len(),
{
    if s.len() == 0 {
        0
    } else {
        sum_bid_levels(s.drop_last()) + s.last().bids.len()
    }
}

pub open spec fn sum_ask_levels(s: Seq<BookV>) -> int
    decreases s.len(),
{
    if s.len() == 0 {
        0
    } else {
        sum_ask_levels(s.drop_last()) + s.last().asks.len()
    }
}

/// Counters aggregated across all books.
#[derive(Debug, Clone)]
pub struct Stats {
    pub books: usize,
    pub total_orders: u128,
    pub bid_levels: u128,
    pub ask_levels: u128,
}

/// The map from coin to its order book.
#[derive(Debug)]
pub struct OrderBookService {
    pub books: Vec<CoinBook>,
}

impl View for OrderBookService {
    type V = Seq<BookV>;

    open spec fn view(&self) -> Seq<BookV> {
        self.books.deep_view()
    }
}

impl OrderBookService {
    /// Coins are registered at most once and every book is well-formed.
    pub open spec fn inv(self) -> bool {
        &&& forall|i: int, j: int|
            0 <= i < j < self@.len() ==> (#[trigger] self@[i]).coin != (
            #[trigger] self@[j]).coin
        &&& forall|i: int| 0 <= i < self@.len() ==> (#[trigger] self@[i]).wf()
    }

    pub fn new() -> (r: Self)
        ensures
            r@ =~= Seq::<BookV>::empty(),
            r.inv(),
    {
        let r = OrderBookService { books: Vec::new() };
        proof {
            assert(r@ =~= Seq::<BookV>::empty());
        }
        r
    }

    pub fn len(&self) -> (r: usize)
        ensures
            r == self@.len(),
    {
        self.books.len()
    }

    pub fn is_empty(&self) -> (r: bool)
        ensures
            r == (self@.len() == 0),
    {
        self.books.len() == 0
    }

    /// The book registered for `coin`, if any.
    #[verifier::loop_isolation(false)]
    pub fn get(&self, coin: &str) -> (r: Option<&CoinBook>)
        ensures
            match book_index(self@, coin@) {
                None => r is None,
                Some(i) => r matches Some(b) && b@ == self@[i],
            },
    {
        proof {
            lemma_book_index_props(self@, coin@);
        }
        let n = self.books.len();
        let mut i: usize = 0;
        while i < n
            invariant
                0 <= i <= n,
                n == self@.len(),
                forall|k: int| 0 <= k < i ==> (#[trigger] self@[k]).coin != coin@,
            decreases n - i,
        {
            if str_eq(self.books[i].coin().as_str(), coin) {
                proof {
                    assert(self@[i as int].coin == coin@);
                }
                return Some(&self.books[i]);
            }
            i = i + 1;
        }
        None
    }

    /// Install `book` for its coin, replacing any previous book wholesale.
    #[verifier::loop_isolation(false)]
    pub fn set(&mut self, book: CoinBook)
        requires
            old(self).inv(),
            book@.wf(),
        ensures
            final(self).inv(),
            final(self)@ =~= set_spec(old(self)@, book@),
    {
        proof {
            lemma_book_index_props(self@, book@.coin);
        }
        let n = self.books.len();
        let mut i: usize = 0;
        while i < n
            invariant
                0 <= i <= n,
                n == self@.len(),
                self.books == old(self).books,
                forall|k: int| 0 <= k < i ==> (#[trigger] self@[k]).coin != book@.coin,
            decreases n - i,
        {
            if str_eq(self.books[i].coin().as_str(), book.coin().as_str()) {
                proof {
                    assert(self@[i as int].coin == book@.coin);
                }
                let ghost prev = self@;
                self.books.remove(i);
                self.books.insert(i, book);
                proof {
                    assert(self@ =~= prev.update(i as int, book@));
                }
                return ;
            }
            i = i + 1;
        }
        self.books.push(book);
        proof {
            assert(self@ =~= old(self)@.push(book@));
        }
    }

    /// Route one diff to its coin's book, creating the book on first sight.
    #[verifier::loop_isolation(false)]
    pub fn apply_diff(&mut self, diff: BookDiff) -> (r: ApplyResult)
        requires
            old(self).inv(),
        ensures
            final(self).inv(),
            final(self)@ =~= service_apply_spec(old(self)@, diff@).0,
            r == service_apply_spec(old(self)@, diff@).1,
    {
        proof {
            lemma_book_index_props(self@, diff@.coin);
        }
        let n = self.books.len();
        let mut i: usize = 0;
        while i < n
            invariant
                0 <= i <= n,
                n == self@.len(),
                self.books == old(self).books,
                forall|k: int| 0 <= k < i ==> (#[trigger] self@[k]).coin != diff@.coin,
            decreases n - i,
        {
            if str_eq(self.books[i].coin().as_str(), diff.coin.as_str()) {
                proof {
                    assert(self@[i as int].coin == diff@.coin);
                }
                let ghost prev = self@;
                let mut book = self.books.remove(i);
                let r = apply(&mut book, diff);
                self.books.insert(i, book);
                proof {
                    assert(self@ =~= prev.update(i as int, apply_spec(prev[i as int], diff@).0));
                    lemma_apply_wf(prev[i as int], diff@);
                    assert forall|x: int| 0 <= x < self@.len() implies (
                    #[trigger] self@[x]).wf() by {
                        if x != i {
                            assert(self@[x] == prev[x]);
                        }
                    }
                }
                return r;
            }
            i = i + 1;
        }
        let mut book = CoinBook::new(diff.coin.clone());
        proof {
            assert(book@ =~~= empty_book(diff@.coin));
        }
        let r = apply(&mut book, diff);
        let ghost prev = self@;
        self.books.push(book);
        proof {
            assert(self@ =~= prev.push(apply_spec(empty_book(diff@.coin), diff@).0));
            lemma_apply_wf(empty_book(diff@.coin), diff@);
            assert forall|x: int| 0 <= x < self@.len() implies (#[trigger] self@[x]).wf() by {
                if x < prev.len() {
                    assert(self@[x] == prev[x]);
                }
            }
            assert(self@.last().coin == diff@.coin) by {
                lemma_apply_coin(empty_book(diff@.coin), diff@);
            }
            assert forall|x: int, y: int| 0 <= x < y < self@.len() implies (
            #[trigger] self@[x]).coin != (#[trigger] self@[y]).coin by {
                if y < prev.len() {
                    assert(self@[x] == prev[x] && self@[y] == prev[y]);
                } else {
                    assert(self@[x] == prev[x]);
                }
            }
        }
        r
    }

    /// The registered coins, in registration order.
    #[verifier::loop_isolation(false)]
    pub fn coins(&self) -> (r: Vec<String>)
        ensures
            r@.len() == self@.len(),
            forall|i: int| 0 <= i < r@.len() ==> r.deep_view()[i] == (#[trigger] self@[i]).coin,
    {
        let n = self.books.len();
        let mut out: Vec<String> = Vec::new();
        let mut i: usize = 0;
        while i < n
            invariant
                0 <= i <= n,
                n == self@.len(),
                out@.len() == i,
                forall|k: int|
                    0 <= k < i ==> out.deep_view()[k] == (#[trigger] self@[k]).coin,
            decreases n - i,
        {
            out.push(self.books[i].coin().clone());
            i = i + 1;
        }
        out
    }

    /// Aggregate counters over all books.
    #[verifier::loop_isolation(false)]
    pub fn stats(&self) -> (r: Stats)
        ensures
            r.books == self@.len(),
            r.total_orders == sum_orders(self@),
            r.bid_levels == sum_bid_levels(self@),
            r.ask_levels == sum_ask_levels(self@),
    {
        let n = self.books.len();
        let mut total_orders: u128 = 0;
        let mut bid_levels: u128 = 0;
        let mut ask_levels: u128 = 0;
        let mut i: usize = 0;
        while i < n
            invariant
                0 <= i <= n,
                n == self@.len(),
                total_orders == sum_orders(self@.take(i as int)),
                bid_levels == sum_bid_levels(self@.take(i as int)),
                ask_levels == sum_ask_levels(self@.take(i as int)),
                total_orders <= i * 0xffff_ffff_ffff_ffffu128,
                bid_levels <= i * 0xffff_ffff_ffff_ffffu128,
                ask_levels <= i * 0xffff_ffff_ffff_ffffu128,
            decreases n - i,
        {
            proof {
                assert(self@.take(i + 1).drop_last() =~= self@.take(i as int));
                assert(self@.take(i + 1).last() == self@[i as int]);
                assert(self@[i as int] == self.books@[i as int]@);
            }
            total_orders = total_orders + self.books[i].total_orders() as u128;
            bid_levels = bid_levels + self.books[i].bid_levels() as u128;
            ask_levels = ask_levels + self.books[i].ask_levels() as u128;
            i = i + 1;
        }
        proof {
            assert(self@.take(n as int) =~= self@);
        }
        Stats { books: n, total_orders, bid_levels, ask_levels }
    }
}

/// Applying a diff never renames a book.
pub proof fn lemma_apply_coin(b: BookV, d: BookDiffV)
    ensures
        apply_spec(b, d).0.coin == b.coin,
{
}

} // verus!
