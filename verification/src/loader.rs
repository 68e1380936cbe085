//! Turning a parsed full snapshot into fresh books and installing them in
//! the service, one atomic replacement per coin.

use vstd::prelude::*;

use crate::book::{insert_spec, BookV, CoinBook, EntryV, OrderEntry};
use crate::book_laws::lemma_insert_wf;
use crate::schemas::l4_snapshot::{CoinSnapshot, CoinSnapshotV, L4Snapshot, UserOrderV};
use crate::service::{empty_book, set_spec, OrderBookService};

verus! {

/// Fold a run of entries into a book, in order.
pub open spec fn insert_all(b: BookV, os: Seq<EntryV>) -> BookV
    decreases os.len(),
{
    if os.len() == 0 {
        b
    } else {
        insert_all(insert_spec(b, os[0]), os.drop_first())
    }
}

pub open spec fn entries_of(us: Seq<UserOrderV>) -> Seq<EntryV> {
    us.map_values(|u: UserOrderV| EntryV { user: u.0, order: u.1 })
}

/// The book one snapshot entry denotes: its bids, then its asks, inserted
/// into a fresh book.
pub open spec fn snap_book(cs: CoinSnapshotV) -> BookV {
    insert_all(insert_all(empty_book(cs.0), entries_of(cs.1)), entries_of(cs.2))
}

/// The registry after installing every coin of a snapshot, in order.
pub open spec fn load_spec(s: Seq<BookV>, coins: Seq<CoinSnapshotV>) -> Seq<BookV>
    decreases coins.len(),
{
    if coins.len() == 0 {
        s
    } else {
        load_spec(set_spec(s, snap_book(coins[0])), coins.drop_first())
    }
}

pub proof fn lemma_insert_all_wf(b: BookV, os: Seq<EntryV>)
    requires
        b.wf(),
    ensures
        insert_all(b, os).wf(),
    decreases os.len(),
{
    if os.len() > 0 {
        lemma_insert_wf(b, os[0]);
        lemma_insert_all_wf(insert_spec(b, os[0]), os.drop_first());
    }
}

/// Folding one more entry at the back.
pub proof fn lemma_insert_all_snoc(b: BookV, os: Seq<EntryV>, x: EntryV)
    ensures
        insert_all(b, os.push(x)) == insert_spec(insert_all(b, os), x),
    decreases os.len(),
{
    if os.len() == 0 {
        assert(os.push(x)[0] == x);
        assert(os.push(x).drop_first() =~= Seq::<EntryV>::empty());
        assert(insert_all(insert_spec(b, x), Seq::<EntryV>::empty()) == insert_spec(b, x));
    } else {
        assert(os.push(x)[0] == os[0]);
        assert(os.push(x).drop_first() =~= os.drop_first().push(x));
        lemma_insert_all_snoc(insert_spec(b, os[0]), os.drop_first(), x);
    }
}

/// Installing one more coin at the back.
pub proof fn lemma_load_snoc(s: Seq<BookV>, coins: Seq<CoinSnapshotV>, c: CoinSnapshotV)
    ensures
        load_spec(s, coins.push(c)) == set_spec(load_spec(s, coins), snap_book(c)),
    decreases coins.len(),
{
    if coins.len() == 0 {
        assert(coins.push(c)[0] == c);
        assert(coins.push(c).drop_first() =~= Seq::<CoinSnapshotV>::empty());
        assert(load_spec(set_spec(s, snap_book(c)), Seq::<CoinSnapshotV>::empty())
            == set_spec(s, snap_book(c)));
    } else {
        assert(coins.push(c)[0] == coins[0]);
        assert(coins.push(c).drop_first() =~= coins.drop_first().push(c));
        lemma_load_snoc(set_spec(s, snap_book(coins[0])), coins.drop_first(), c);
    }
}

/// Build one coin's book from its snapshot entry.
#[verifier::loop_isolation(false)]
fn build_book(cs: &CoinSnapshot) -> (r: CoinBook)
    ensures
        r@ == snap_book(cs@),
        r@.wf(),
{
    let mut book = CoinBook::new(cs.0.clone());
    proof {
        assert(book@ =~~= empty_book(cs@.0));
    }
    let ghost base = empty_book(cs@.0);
    let ghost bid_entries = entries_of(cs@.1);
    let ghost ask_entries = entries_of(cs@.2);
    let nb = cs.1.0.len();
    let mut i: usize = 0;
    while i < nb
        invariant
            0 <= i <= nb,
            nb == bid_entries.len(),
            book@ == insert_all(base, bid_entries.take(i as int)),
            book@.wf(),
        decreases nb - i,
    {
        proof {
            assert(cs.1.0@[i as int].deep_view() == cs@.1[i as int]);
            assert(bid_entries.take(i + 1) =~= bid_entries.take(i as int).push(
                bid_entries[i as int],
            ));
            lemma_insert_all_snoc(base, bid_entries.take(i as int), bid_entries[i as int]);
            lemma_insert_wf(book@, bid_entries[i as int]);
        }
        let uo = &cs.1.0[i];
        book.insert(OrderEntry::new(uo.0.clone(), uo.1.clone()));
        i = i + 1;
    }
    proof {
        assert(bid_entries.take(nb as int) =~= bid_entries);
    }
    let ghost mid = insert_all(base, bid_entries);
    let na = cs.1.1.len();
    let mut i: usize = 0;
    while i < na
        invariant
            0 <= i <= na,
            na == ask_entries.len(),
            book@ == insert_all(mid, ask_entries.take(i as int)),
            book@.wf(),
        decreases na - i,
    {
        proof {
            assert(cs.1.1@[i as int].deep_view() == cs@.2[i as int]);
            assert(ask_entries.take(i + 1) =~= ask_entries.take(i as int).push(
                ask_entries[i as int],
            ));
            lemma_insert_all_snoc(mid, ask_entries.take(i as int), ask_entries[i as int]);
            lemma_insert_wf(book@, ask_entries[i as int]);
        }
        let uo = &cs.1.1[i];
        book.insert(OrderEntry::new(uo.0.clone(), uo.1.clone()));
        i = i + 1;
    }
    proof {
        assert(ask_entries.take(na as int) =~= ask_entries);
    }
    book
}

/// Install every coin of a snapshot into the service and report the
/// snapshot's block height.
#[verifier::loop_isolation(false)]
pub fn load_into(service: &mut OrderBookService, snapshot: &L4Snapshot) -> (height: u64)
    requires
        old(service).inv(),
    ensures
        final(service).inv(),
        height == snapshot@.0,
        final(service)@ == load_spec(old(service)@, snapshot@.1),
{
    let ghost s0 = old(service)@;
    let ghost coins = snapshot@.1;
    let n = snapshot.coins().len();
    let mut i: usize = 0;
    while i < n
        invariant
            0 <= i <= n,
            n == coins.len(),
            service@ == load_spec(s0, coins.take(i as int)),
            service.inv(),
        decreases n - i,
    {
        proof {
            assert(snapshot.1@[i as int].deep_view() == coins[i as int]);
            assert(coins.take(i + 1) =~= coins.take(i as int).push(coins[i as int]));
            lemma_load_snoc(s0, coins.take(i as int), coins[i as int]);
        }
        let book = build_book(&snapshot.coins()[i]);
        service.set(book);
        i = i + 1;
    }
    proof {
        assert(coins.take(n as int) =~= coins);
    }
    snapshot.block_height()
}

} // verus!
