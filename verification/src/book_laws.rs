//! Laws of the order book: the index and the price levels stay in
//! agreement across every operation, inserts are idempotent, removes of
//! absent oids leave the book unchanged, and updates apply exactly when
//! their size guard matches.

use vstd::prelude::*;

use crate::book::{
    add_order_spec, entry_find, index_find, index_pos, index_unique, insert_spec, level_find,
    level_pos, lemma_entry_find_props, lemma_index_find_props, lemma_level_pos_props,
    levels_bounded, levels_nonempty, levels_sorted, remove_spec, update_spec, BookV, EntryV,
    LocV,
};
use crate::price::{price_units_of, PRICE_UNIT_BOUND};
use crate::schemas::common::{OrderV, Side};

verus! {

/// The level at price `q` — both whether it exists and what it holds — is
/// the same in `ls` and `ls2`.
pub open spec fn same_level_at(
    ls: Seq<(int, Seq<EntryV>)>,
    ls2: Seq<(int, Seq<EntryV>)>,
    q: int,
) -> bool {
    match level_find(ls, q) {
        Some(i) => level_find(ls2, q) matches Some(i2) && ls2[i2].1 == ls[i].1,
        None => level_find(ls2, q) is None,
    }
}

/// In a sorted level list, `level_find` returns exactly the position whose
/// price matches, and fails exactly when no position matches.
pub proof fn lemma_level_find_sorted(ls: Seq<(int, Seq<EntryV>)>, q: int)
    requires
        levels_sorted(ls),
    ensures
        match level_find(ls, q) {
            Some(i) => 0 <= i < ls.len() && ls[i].0 == q,
            None => forall|j: int| 0 <= j < ls.len() ==> (#[trigger] ls[j]).0 != q,
        },
        forall|j: int|
            0 <= j < ls.len() && (#[trigger] ls[j]).0 == q ==> level_find(ls, q) == Some(j),
{
    lemma_level_pos_props(ls, q);
    let lp = level_pos(ls, q);
    assert forall|j: int| 0 <= j < ls.len() && (#[trigger] ls[j]).0 == q implies level_find(
        ls,
        q,
    ) == Some(j) by {
        if j < lp {
            assert(ls[j].0 < q);
        }
        if j > lp {
            assert(ls[lp].0 >= q);
            assert(ls[lp].0 < ls[j].0);
        }
    }
}

/// Appending an entry never disturbs where an oid is first found; a fresh
/// oid is found at the appended position.
pub proof fn lemma_entry_find_push(os: Seq<EntryV>, x: EntryV, oid: u64)
    ensures
        entry_find(os.push(x), oid) == (match entry_find(os, oid) {
            Some(j) => Some(j),
            None => if x.order.oid == oid {
                Some(os.len() as int)
            } else {
                None
            },
        }),
    decreases os.len(),
{
    if os.len() == 0 {
        assert(os.push(x)[0] == x);
        assert(os.push(x).len() == 1);
        assert(os.push(x).drop_first() =~= Seq::<EntryV>::empty());
        assert(entry_find(Seq::<EntryV>::empty(), oid) is None);
    } else {
        assert(os.push(x)[0] == os[0]);
        assert(os.push(x).drop_first() =~= os.drop_first().push(x));
        lemma_entry_find_push(os.drop_first(), x, oid);
    }
}

/// Replacing the entry at `j` with one carrying the same oid leaves every
/// search result unchanged.
pub proof fn lemma_entry_find_update(os: Seq<EntryV>, j: int, e2: EntryV, oid: u64)
    requires
        0 <= j < os.len(),
        e2.order.oid == os[j].order.oid,
    ensures
        entry_find(os.update(j, e2), oid) == entry_find(os, oid),
    decreases os.len(),
{
    let os2 = os.update(j, e2);
    if j == 0 {
        assert(os2[0] == e2);
        if os[0].order.oid != oid {
            assert(os2.drop_first() =~= os.drop_first());
        }
    } else {
        assert(os2[0] == os[0]);
        if os[0].order.oid != oid {
            assert(os2.drop_first() =~= os.drop_first().update(j - 1, e2));
            lemma_entry_find_update(os.drop_first(), j - 1, e2, oid);
        }
    }
}

/// Removing an entry that does not carry `oid` leaves the search for `oid`
/// unchanged.
pub proof fn lemma_entry_find_remove_other(os: Seq<EntryV>, k: int, oid: u64)
    requires
        0 <= k < os.len(),
        os[k].order.oid != oid,
    ensures
        entry_find(os.remove(k), oid) is Some <==> entry_find(os, oid) is Some,
    decreases os.len(),
{
    let os2 = os.remove(k);
    if k == 0 {
        assert(os2 =~= os.drop_first());
    } else {
        assert(os2[0] == os[0]);
        if os[0].order.oid != oid {
            assert(os2.drop_first() =~= os.drop_first().remove(k - 1));
            lemma_entry_find_remove_other(os.drop_first(), k - 1, oid);
        }
    }
}

/// Appending an index pair never disturbs where an oid is first found; a
/// fresh oid is found at the appended pair.
pub proof fn lemma_index_find_push(ix: Seq<(u64, LocV)>, x: (u64, LocV), oid: u64)
    ensures
        index_find(ix.push(x), oid) == (match index_find(ix, oid) {
            Some(l) => Some(l),
            None => if x.0 == oid {
                Some(x.1)
            } else {
                None
            },
        }),
    decreases ix.len(),
{
    if ix.len() == 0 {
        assert(ix.push(x)[0] == x);
        assert(ix.push(x).len() == 1);
        assert(ix.push(x).drop_first() =~= Seq::<(u64, LocV)>::empty());
        assert(index_find(Seq::<(u64, LocV)>::empty(), oid) is None);
    } else {
        assert(ix.push(x)[0] == ix[0]);
        assert(ix.push(x).drop_first() =~= ix.drop_first().push(x));
        lemma_index_find_push(ix.drop_first(), x, oid);
    }
}

/// Removing a pair that does not carry `oid` leaves the search for `oid`
/// unchanged.
pub proof fn lemma_index_find_remove_other(ix: Seq<(u64, LocV)>, k: int, oid: u64)
    requires
        0 <= k < ix.len(),
        ix[k].0 != oid,
    ensures
        index_find(ix.remove(k), oid) == index_find(ix, oid),
    decreases ix.len(),
{
    let ix2 = ix.remove(k);
    if k == 0 {
        assert(ix2 =~= ix.drop_first());
    } else {
        assert(ix2[0] == ix[0]);
        if ix[0].0 != oid {
            assert(ix2.drop_first() =~= ix.drop_first().remove(k - 1));
            lemma_index_find_remove_other(ix.drop_first(), k - 1, oid);
        }
    }
}

/// Structure of a level list after `add_order_spec`: order and bounds are
/// kept, the level at `p` gains the entry at its back (or appears fresh),
/// every other price keeps exactly its level, and no price appears from
/// nowhere.
pub proof fn lemma_add_order(ls: Seq<(int, Seq<EntryV>)>, p: int, e: EntryV) -> (ls2: Seq<
    (int, Seq<EntryV>),
>)
    requires
        levels_sorted(ls),
        levels_nonempty(ls),
        levels_bounded(ls),
        -PRICE_UNIT_BOUND < p < PRICE_UNIT_BOUND,
    ensures
        ls2 == add_order_spec(ls, p, e),
        levels_sorted(ls2),
        levels_nonempty(ls2),
        levels_bounded(ls2),
        match level_find(ls, p) {
            Some(i) => level_find(ls2, p) matches Some(i2) && ls2[i2].1 == ls[i].1.push(e),
            None => level_find(ls2, p) matches Some(i2) && ls2[i2].1 =~= seq![e],
        },
        forall|q: int| q != p ==> #[trigger] same_level_at(ls, ls2, q),
        forall|i2: int|
            0 <= i2 < ls2.len() ==> (#[trigger] ls2[i2]).0 == p || level_find(ls, ls2[i2].0)
                is Some,
{
    let ls2 = add_order_spec(ls, p, e);
    lemma_level_pos_props(ls, p);
    lemma_level_find_sorted(ls, p);
    let lp = level_pos(ls, p);
    match level_find(ls, p) {
        Some(li) => {
            assert(ls2 == ls.update(li, (p, ls[li].1.push(e))));
            assert(ls[li].0 == p);
            assert(forall|k: int|
                0 <= k < ls2.len() ==> (#[trigger] ls2[k]).0 == ls[k].0 && ls2.len()
                    == ls.len());
            assert(levels_sorted(ls2));
            assert(levels_nonempty(ls2)) by {
                assert(forall|k: int|
                    0 <= k < ls2.len() && k != li ==> (#[trigger] ls2[k]).1 == ls[k].1);
            }
            lemma_level_find_sorted(ls2, p);
            assert(ls2[li].0 == p);
            assert(level_find(ls2, p) == Some(li));
            assert forall|q: int| q != p implies #[trigger] same_level_at(ls, ls2, q) by {
                lemma_level_find_sorted(ls, q);
                lemma_level_find_sorted(ls2, q);
                match level_find(ls, q) {
                    Some(i) => {
                        assert(ls2[i].0 == q);
                        assert(i != li);
                    },
                    None => {
                        match level_find(ls2, q) {
                            Some(i2) => {
                                assert(ls[i2].0 == q);
                            },
                            None => {},
                        }
                    },
                }
            }
            assert forall|i2: int| 0 <= i2 < ls2.len() implies (#[trigger] ls2[i2]).0 == p
                || level_find(ls, ls2[i2].0) is Some by {
                lemma_level_find_sorted(ls, ls2[i2].0);
            }
        },
        None => {
            assert(ls2 == ls.insert(lp, (p, seq![e])));
            assert(ls2.len() == ls.len() + 1);
            assert(forall|k: int| 0 <= k < lp ==> #[trigger] ls2[k] == ls[k]);
            assert(ls2[lp] == (p, seq![e]));
            assert(forall|k: int| lp < k < ls2.len() ==> #[trigger] ls2[k] == ls[k - 1]);
            assert(forall|k: int| lp <= k < ls.len() ==> (#[trigger] ls[k]).0 > p);
            assert(levels_sorted(ls2)) by {
                assert forall|x: int, y: int| 0 <= x < y < ls2.len() implies (
                #[trigger] ls2[x]).0 < (#[trigger] ls2[y]).0 by {
                    if x < lp && y < lp {
                    } else if x < lp && y == lp {
                    } else if x < lp && y > lp {
                        assert(ls[x].0 < ls[y - 1].0 || x == y - 1);
                    } else if x == lp {
                        assert(ls[y - 1].0 > p);
                    } else {
                    }
                }
            }
            assert(levels_nonempty(ls2)) by {
                assert(seq![e].len() == 1);
            }
            assert(levels_bounded(ls2));
            lemma_level_find_sorted(ls2, p);
            assert(ls2[lp].0 == p);
            assert(level_find(ls2, p) == Some(lp));
            assert forall|q: int| q != p implies #[trigger] same_level_at(ls, ls2, q) by {
                lemma_level_find_sorted(ls, q);
                lemma_level_find_sorted(ls2, q);
                match level_find(ls, q) {
                    Some(i) => {
                        if i < lp {
                            assert(ls2[i].0 == q);
                        } else {
                            assert(ls2[i + 1].0 == q);
                        }
                    },
                    None => {
                        match level_find(ls2, q) {
                            Some(i2) => {
                                if i2 < lp {
                                    assert(ls[i2].0 == q);
                                } else if i2 > lp {
                                    assert(ls[i2 - 1].0 == q);
                                }
                            },
                            None => {},
                        }
                    },
                }
            }
            assert forall|i2: int| 0 <= i2 < ls2.len() implies (#[trigger] ls2[i2]).0 == p
                || level_find(ls, ls2[i2].0) is Some by {
                lemma_level_find_sorted(ls, ls2[i2].0);
                if i2 < lp {
                    assert(ls[i2].0 == ls2[i2].0);
                } else if i2 > lp {
                    assert(ls[i2 - 1].0 == ls2[i2].0);
                }
            }
        },
    }
    ls2
}

/// Removing the sole pair carrying `oid` from a duplicate-free index makes
/// the search fail.
pub proof fn lemma_index_find_remove_self(ix: Seq<(u64, LocV)>, k: int, oid: u64)
    requires
        index_unique(ix),
        0 <= k < ix.len(),
        ix[k].0 == oid,
    ensures
        index_find(ix.remove(k), oid) is None,
{
    let ix2 = ix.remove(k);
    lemma_index_find_props(ix2, oid);
    match index_pos(ix2, oid) {
        Some(j) => {
            if j < k {
                assert(ix2[j] == ix[j]);
            } else {
                assert(ix2[j] == ix[j + 1]);
            }
        },
        None => {},
    }
}

/// Structure of a level list after replacing the orders of one level.
pub proof fn lemma_set_level(ls: Seq<(int, Seq<EntryV>)>, i: int, os2: Seq<EntryV>) -> (ls2:
    Seq<(int, Seq<EntryV>)>)
    requires
        levels_sorted(ls),
        0 <= i < ls.len(),
    ensures
        ls2 == ls.update(i, (ls[i].0, os2)),
        levels_sorted(ls2),
        levels_bounded(ls) ==> levels_bounded(ls2),
        level_find(ls2, ls[i].0) == Some(i) && ls2[i].1 == os2,
        forall|q: int| q != ls[i].0 ==> #[trigger] same_level_at(ls, ls2, q),
        forall|i2: int|
            0 <= i2 < ls2.len() ==> level_find(ls, (#[trigger] ls2[i2]).0) is Some,
{
    let ls2 = ls.update(i, (ls[i].0, os2));
    assert(forall|k: int|
        0 <= k < ls2.len() ==> (#[trigger] ls2[k]).0 == ls[k].0 && ls2.len() == ls.len());
    assert(levels_sorted(ls2));
    lemma_level_find_sorted(ls2, ls[i].0);
    assert(ls2[i].0 == ls[i].0);
    assert forall|q: int| q != ls[i].0 implies #[trigger] same_level_at(ls, ls2, q) by {
        lemma_level_find_sorted(ls, q);
        lemma_level_find_sorted(ls2, q);
        match level_find(ls, q) {
            Some(i0) => {
                assert(ls2[i0].0 == q);
                assert(i0 != i);
            },
            None => {
                match level_find(ls2, q) {
                    Some(i2) => {
                        assert(ls[i2].0 == q);
                    },
                    None => {},
                }
            },
        }
    }
    assert forall|i2: int| 0 <= i2 < ls2.len() implies level_find(
        ls,
        (#[trigger] ls2[i2]).0,
    ) is Some by {
        lemma_level_find_sorted(ls, ls2[i2].0);
    }
    ls2
}

/// Structure of a level list after evicting one level.
pub proof fn lemma_drop_level(ls: Seq<(int, Seq<EntryV>)>, i: int) -> (ls2: Seq<
    (int, Seq<EntryV>),
>)
    requires
        levels_sorted(ls),
        0 <= i < ls.len(),
    ensures
        ls2 == ls.remove(i),
        levels_sorted(ls2),
        levels_nonempty(ls) ==> levels_nonempty(ls2),
        levels_bounded(ls) ==> levels_bounded(ls2),
        level_find(ls2, ls[i].0) is None,
        forall|q: int| q != ls[i].0 ==> #[trigger] same_level_at(ls, ls2, q),
        forall|i2: int|
            0 <= i2 < ls2.len() ==> level_find(ls, (#[trigger] ls2[i2]).0) is Some,
{
    let ls2 = ls.remove(i);
    assert(forall|k: int| 0 <= k < i ==> #[trigger] ls2[k] == ls[k]);
    assert(forall|k: int| i <= k < ls2.len() ==> #[trigger] ls2[k] == ls[k + 1]);
    assert(levels_sorted(ls2));
    lemma_level_find_sorted(ls2, ls[i].0);
    assert(level_find(ls2, ls[i].0) is None) by {
        match level_find(ls2, ls[i].0) {
            Some(i2) => {
                assert(ls2[i2].0 == ls[i].0);
                if i2 < i {
                    assert(ls[i2].0 < ls[i].0);
                } else {
                    assert(ls[i].0 < ls[i2 + 1].0);
                }
            },
            None => {},
        }
    }
    assert forall|q: int| q != ls[i].0 implies #[trigger] same_level_at(ls, ls2, q) by {
        lemma_level_find_sorted(ls, q);
        lemma_level_find_sorted(ls2, q);
        match level_find(ls, q) {
            Some(i0) => {
                assert(i0 != i);
                if i0 < i {
                    assert(ls2[i0].0 == q);
                } else {
                    assert(ls2[i0 - 1].0 == q);
                }
            },
            None => {
                match level_find(ls2, q) {
                    Some(i2) => {
                        if i2 < i {
                            assert(ls[i2].0 == q);
                        } else {
                            assert(ls[i2 + 1].0 == q);
                        }
                    },
                    None => {},
                }
            },
        }
    }
    assert forall|i2: int| 0 <= i2 < ls2.len() implies level_find(
        ls,
        (#[trigger] ls2[i2]).0,
    ) is Some by {
        lemma_level_find_sorted(ls, ls2[i2].0);
        if i2 < i {
            assert(ls[i2].0 == ls2[i2].0);
        } else {
            assert(ls[i2 + 1].0 == ls2[i2].0);
        }
    }
    ls2
}

/// After `insert` the book is still well-formed: the oid index and the side
/// maps agree exactly.
pub proof fn lemma_insert_wf(b: BookV, e: EntryV)
    requires
        b.wf(),
    ensures
        insert_spec(b, e).wf(),
{
    let oid = e.order.oid;
    if index_find(b.index, oid) is Some {
    } else {
        match price_units_of(e.order.limit_px) {
            None => {},
            Some(p) => {
                crate::price::lemma_price_units_bound(e.order.limit_px);
                let side = e.order.side;
                let other = if side == Side::Bid {
                    Side::Ask
                } else {
                    Side::Bid
                };
                let ls = b.side_levels(side);
                let loc = LocV { side, price: p, user: e.user };
                lemma_level_pos_props(ls, p);
                lemma_level_find_sorted(ls, p);
                let ls2 = lemma_add_order(ls, p, e);
                let b3 = insert_spec(b, e);
                assert(b3.index == b.index.push((oid, loc)));
                assert(b3.side_levels(side) == ls2);
                assert(b3.side_levels(other) == b.side_levels(other));

                lemma_index_find_props(b.index, oid);
                // No resting entry on `side` carries the fresh oid.
                assert forall|i: int, j: int|
                    0 <= i < ls.len() && 0 <= j < (#[trigger] ls[i]).1.len() implies (
                #[trigger] ls[i].1[j]).order.oid != oid by {
                    assert(index_find(b.index, ls[i].1[j].order.oid) == Some(
                        LocV { side, price: ls[i].0, user: ls[i].1[j].user },
                    ));
                }

                // The index stays duplicate-free.
                assert(index_unique(b3.index)) by {
                    assert(forall|k: int|
                        0 <= k < b.index.len() ==> #[trigger] b3.index[k] == b.index[k]);
                    assert(b3.index[b.index.len() as int] == (oid, loc));
                }

                // The fresh pair is placed.
                lemma_index_find_push(b.index, (oid, loc), oid);
                assert(b3.placed(oid, loc)) by {
                    match level_find(ls, p) {
                        Some(li) => {
                            let os = ls[li].1;
                            lemma_entry_find_props(os, oid);
                            lemma_entry_find_push(os, e, oid);
                            let i2 = level_find(ls2, p)->Some_0;
                            assert(ls2[i2].1 == os.push(e));
                            assert(entry_find(os, oid) is None) by {
                                match entry_find(os, oid) {
                                    Some(j) => {
                                        assert(ls[li].1[j] == os[j]);
                                    },
                                    None => {},
                                }
                            }
                            assert(entry_find(os.push(e), oid) == Some(os.len() as int));
                            assert(os.push(e)[os.len() as int] == e);
                            assert(forall|k: int|
                                0 <= k < os.len() ==> #[trigger] os.push(e)[k] == os[k]);
                        },
                        None => {
                            let i2 = level_find(ls2, p)->Some_0;
                            assert(ls2[i2].1 =~= seq![e]);
                            assert(seq![e][0] == e);
                            assert(seq![e].drop_first() =~= Seq::<EntryV>::empty());
                            assert(entry_find(seq![e], oid) == Some(0int));
                        },
                    }
                }

                // Every old pair stays placed.
                assert forall|k: int| 0 <= k < b.index.len() implies b3.placed(
                    (#[trigger] b.index[k]).0,
                    b.index[k].1,
                ) by {
                    let o = b.index[k].0;
                    let l = b.index[k].1;
                    assert(b.placed(o, l));
                    assert(o != oid);
                    if l.side == side {
                        let i = level_find(ls, l.price)->Some_0;
                        let os = ls[i].1;
                        if l.price == p {
                            match level_find(ls, p) {
                                Some(li) => {
                                    assert(li == i);
                                    let i2 = level_find(ls2, p)->Some_0;
                                    assert(ls2[i2].1 == os.push(e));
                                    lemma_entry_find_push(os, e, o);
                                    lemma_entry_find_props(os, o);
                                    let j = entry_find(os, o)->Some_0;
                                    assert(0 <= j < os.len());
                                    assert(os.push(e)[j] == os[j]);
                                    assert(forall|k2: int|
                                        0 <= k2 < os.len() ==> #[trigger] os.push(e)[k2]
                                            == os[k2]);
                                    assert(os.push(e)[os.len() as int] == e);
                                },
                                None => {},
                            }
                        } else {
                            assert(same_level_at(ls, ls2, l.price));
                        }
                    } else {
                        assert(b3.side_levels(l.side) == b.side_levels(l.side));
                    }
                }
                assert forall|k: int| 0 <= k < b3.index.len() implies b3.placed(
                    (#[trigger] b3.index[k]).0,
                    b3.index[k].1,
                ) by {
                    if k < b.index.len() {
                        assert(b3.index[k] == b.index[k]);
                    } else {
                        assert(b3.index[k] == (oid, loc));
                    }
                }

                // Every entry on the touched side is still indexed at itself.
                assert(b3.side_indexed(side)) by {
                    assert forall|i2: int, j2: int|
                        0 <= i2 < ls2.len() && 0 <= j2 < (#[trigger] ls2[i2]).1.len() implies
                        index_find(b3.index, (#[trigger] ls2[i2].1[j2]).order.oid) == Some(
                        LocV { side, price: ls2[i2].0, user: ls2[i2].1[j2].user },
                    ) by {
                        let q = ls2[i2].0;
                        let x = ls2[i2].1[j2];
                        lemma_level_find_sorted(ls2, q);
                        assert(level_find(ls2, q) == Some(i2));
                        if q == p {
                            match level_find(ls, p) {
                                Some(li) => {
                                    let os = ls[li].1;
                                    assert(ls2[i2].1 == os.push(e));
                                    if j2 < os.len() {
                                        assert(os.push(e)[j2] == os[j2]);
                                        assert(index_find(b.index, os[j2].order.oid) == Some(
                                            LocV {
                                                side,
                                                price: ls[li].0,
                                                user: os[j2].user,
                                            },
                                        ));
                                        lemma_index_find_push(
                                            b.index,
                                            (oid, loc),
                                            os[j2].order.oid,
                                        );
                                    } else {
                                        assert(os.push(e)[j2] == e);
                                        assert(index_find(b3.index, oid) == Some(loc));
                                    }
                                },
                                None => {
                                    assert(ls2[i2].1 =~= seq![e]);
                                    assert(x == e);
                                    assert(index_find(b3.index, oid) == Some(loc));
                                },
                            }
                        } else {
                            assert(same_level_at(ls, ls2, q));
                            assert(level_find(ls, q) is Some);
                            let i = level_find(ls, q)->Some_0;
                            lemma_level_find_sorted(ls, q);
                            assert(0 <= i < ls.len() && ls[i].0 == q);
                            assert(ls2[i2].1 == ls[i].1);
                            assert(ls[i].1[j2] == x);
                            assert(index_find(b.index, x.order.oid) == Some(
                                LocV { side, price: q, user: x.user },
                            ));
                            lemma_index_find_push(b.index, (oid, loc), x.order.oid);
                        }
                    }
                }

                // The untouched side is still indexed at itself.
                assert(b3.side_indexed(other)) by {
                    let lso = b.side_levels(other);
                    assert forall|i2: int, j2: int|
                        0 <= i2 < lso.len() && 0 <= j2 < (#[trigger] lso[i2]).1.len() implies
                        index_find(b3.index, (#[trigger] lso[i2].1[j2]).order.oid) == Some(
                        LocV { side: other, price: lso[i2].0, user: lso[i2].1[j2].user },
                    ) by {
                        assert(index_find(b.index, lso[i2].1[j2].order.oid) == Some(
                            LocV {
                                side: other,
                                price: lso[i2].0,
                                user: lso[i2].1[j2].user,
                            },
                        ));
                        lemma_index_find_push(b.index, (oid, loc), lso[i2].1[j2].order.oid);
                    }
                }
            },
        }
    }
}

/// After `update` the book is still well-formed.
pub proof fn lemma_update_wf(b: BookV, oid: u64, orig_sz: Seq<char>, new_sz: Seq<char>)
    requires
        b.wf(),
    ensures
        update_spec(b, oid, orig_sz, new_sz).0.wf(),
{
    let b2 = update_spec(b, oid, orig_sz, new_sz).0;
    match index_find(b.index, oid) {
        None => {},
        Some(loc) => {
            let side = loc.side;
            let other = if side == Side::Bid {
                Side::Ask
            } else {
                Side::Bid
            };
            let ls = b.side_levels(side);
            match level_find(ls, loc.price) {
                None => {},
                Some(i) => {
                    lemma_level_find_sorted(ls, loc.price);
                    let os = ls[i].1;
                    match entry_find(os, oid) {
                        None => {},
                        Some(j) => {
                            if os[j].order.sz == orig_sz {
                                lemma_entry_find_props(os, oid);
                                let e2 = EntryV {
                                    user: os[j].user,
                                    order: OrderV { sz: new_sz, ..os[j].order },
                                };
                                let os2 = os.update(j, e2);
                                let ls2 = lemma_set_level(ls, i, os2);
                                assert(b2.side_levels(side) == ls2);
                                assert(b2.side_levels(other) == b.side_levels(other));
                                assert(b2.index == b.index);
                                assert(forall|k2: int|
                                    0 <= k2 < os2.len() ==> (#[trigger] os2[k2]).order.oid
                                        == os[k2].order.oid && os2[k2].user == os[k2].user);
                                assert(levels_nonempty(ls2)) by {
                                    assert(forall|k: int|
                                        0 <= k < ls2.len() && k != i ==> (#[trigger] ls2[k]).1
                                            == ls[k].1);
                                    assert(ls2[i].1.len() == os.len());
                                }

                                assert forall|k: int| 0 <= k < b2.index.len() implies
                                    b2.placed((#[trigger] b2.index[k]).0, b2.index[k].1) by {
                                    let o = b2.index[k].0;
                                    let l = b2.index[k].1;
                                    assert(b.placed(o, l));
                                    if l.side == side {
                                        lemma_level_find_sorted(ls, l.price);
                                        if l.price == ls[i].0 {
                                            lemma_entry_find_update(os, j, e2, o);
                                            lemma_entry_find_props(os, o);
                                            let j0 = entry_find(os, o)->Some_0;
                                            assert(os2[j0].order.oid == os[j0].order.oid
                                                && os2[j0].user == os[j0].user);
                                        } else {
                                            assert(same_level_at(ls, ls2, l.price));
                                        }
                                    } else {
                                        assert(b2.side_levels(l.side) == b.side_levels(
                                            l.side,
                                        ));
                                    }
                                }

                                assert(b2.side_indexed(side)) by {
                                    assert forall|i2: int, j2: int|
                                        0 <= i2 < ls2.len() && 0 <= j2 < (
                                    #[trigger] ls2[i2]).1.len() implies index_find(
                                        b2.index,
                                        (#[trigger] ls2[i2].1[j2]).order.oid,
                                    ) == Some(
                                        LocV {
                                            side,
                                            price: ls2[i2].0,
                                            user: ls2[i2].1[j2].user,
                                        },
                                    ) by {
                                        assert(ls2[i2].0 == ls[i2].0);
                                        if i2 == i {
                                            assert(ls2[i2].1[j2].order.oid
                                                == ls[i].1[j2].order.oid && ls2[i2].1[j2].user
                                                == ls[i].1[j2].user);
                                        } else {
                                            assert(ls2[i2] == ls[i2]);
                                            assert(ls2[i2].1[j2] == ls[i2].1[j2]);
                                        }
                                    }
                                }
                                assert(b2.side_indexed(other)) by {
                                    let lso = b.side_levels(other);
                                    assert(forall|i2: int, j2: int|
                                        0 <= i2 < lso.len() && 0 <= j2 < (
                                        #[trigger] lso[i2]).1.len() ==> index_find(
                                            b.index,
                                            (#[trigger] lso[i2].1[j2]).order.oid,
                                        ) == Some(
                                            LocV {
                                                side: other,
                                                price: lso[i2].0,
                                                user: lso[i2].1[j2].user,
                                            },
                                        ));
                                }
                            }
                        },
                    }
                },
            }
        },
    }
}

/// After `remove` the book is still well-formed.
pub proof fn lemma_remove_wf(b: BookV, oid: u64)
    requires
        b.wf(),
    ensures
        remove_spec(b, oid).0.wf(),
{
    let b2 = remove_spec(b, oid).0;
    lemma_index_find_props(b.index, oid);
    match index_pos(b.index, oid) {
        None => {},
        Some(k) => {
            let loc = b.index[k].1;
            assert(index_find(b.index, oid) == Some(loc));
            assert(b.placed(oid, loc));
            let side = loc.side;
            let other = if side == Side::Bid {
                Side::Ask
            } else {
                Side::Bid
            };
            let ix2 = b.index.remove(k);
            assert(forall|k2: int| 0 <= k2 < k ==> #[trigger] ix2[k2] == b.index[k2]);
            assert(forall|k2: int|
                k <= k2 < ix2.len() ==> #[trigger] ix2[k2] == b.index[k2 + 1]);
            assert(index_unique(ix2));
            lemma_index_find_remove_self(b.index, k, oid);

            let ls = b.side_levels(side);
            let i = level_find(ls, loc.price)->Some_0;
            lemma_level_find_sorted(ls, loc.price);
            let os = ls[i].1;
            let j = entry_find(os, oid)->Some_0;
            lemma_entry_find_props(os, oid);
            let os2 = os.remove(j);
            assert(forall|k2: int| 0 <= k2 < j ==> #[trigger] os2[k2] == os[k2]);
            assert(forall|k2: int| j <= k2 < os2.len() ==> #[trigger] os2[k2] == os[k2 + 1]);
            // `oid` sits nowhere else: within the level by placement, at other
            // levels because their indexed price would clash.
            assert forall|i0: int, j0: int|
                0 <= i0 < ls.len() && 0 <= j0 < (#[trigger] ls[i0]).1.len() && !(i0 == i && j0
                    == j) implies (#[trigger] ls[i0].1[j0]).order.oid != oid by {
                assert(index_find(b.index, ls[i0].1[j0].order.oid) == Some(
                    LocV { side, price: ls[i0].0, user: ls[i0].1[j0].user },
                ));
                if i0 != i && ls[i0].1[j0].order.oid == oid {
                    assert(ls[i0].0 == loc.price);
                    assert(level_find(ls, ls[i0].0) == Some(i0));
                }
            }

            let ls2 = if os2.len() == 0 {
                lemma_drop_level(ls, i)
            } else {
                let r = lemma_set_level(ls, i, os2);
                assert(levels_nonempty(r)) by {
                    assert(forall|k2: int|
                        0 <= k2 < r.len() && k2 != i ==> (#[trigger] r[k2]).1 == ls[k2].1);
                }
                r
            };
            assert(b2.side_levels(side) == ls2);
            assert(b2.side_levels(other) == b.side_levels(other));
            assert(b2.index == ix2);

            // Remaining index pairs stay placed.
            assert forall|k2: int| 0 <= k2 < b2.index.len() implies b2.placed(
                (#[trigger] b2.index[k2]).0,
                b2.index[k2].1,
            ) by {
                let o = b2.index[k2].0;
                let l = b2.index[k2].1;
                let korig = if k2 < k {
                    k2
                } else {
                    k2 + 1
                };
                assert(b2.index[k2] == b.index[korig]);
                assert(b.placed(o, l));
                assert(o != oid);
                if l.side == side {
                    lemma_level_find_sorted(ls, l.price);
                    let i0 = level_find(ls, l.price)->Some_0;
                    lemma_entry_find_props(ls[i0].1, o);
                    let j0 = entry_find(ls[i0].1, o)->Some_0;
                    if l.price == ls[i].0 {
                        assert(i0 == i);
                        assert(j0 != j);
                        if os2.len() == 0 {
                            assert(os.len() == 1);
                            assert(false);
                        } else {
                            assert(level_find(ls2, ls[i].0) == Some(i));
                            let jm = if j0 < j {
                                j0
                            } else {
                                j0 - 1
                            };
                            assert(os2[jm] == os[j0]);
                            lemma_entry_find_props(os2, o);
                            match entry_find(os2, o) {
                                None => {
                                    assert(false);
                                },
                                Some(j2) => {
                                    let j2o = if j2 < j {
                                        j2
                                    } else {
                                        j2 + 1
                                    };
                                    assert(os2[j2] == os[j2o]);
                                    assert(j2o == j0);
                                    assert forall|k3: int|
                                        0 <= k3 < os2.len() && k3 != j2 implies (
                                    #[trigger] os2[k3]).order.oid != o by {
                                        let k3o = if k3 < j {
                                            k3
                                        } else {
                                            k3 + 1
                                        };
                                        assert(os2[k3] == os[k3o]);
                                    }
                                },
                            }
                        }
                    } else {
                        assert(same_level_at(ls, ls2, l.price));
                    }
                } else {
                    assert(b2.side_levels(l.side) == b.side_levels(l.side));
                }
            }

            // Entries on the touched side stay indexed at themselves.
            assert(b2.side_indexed(side)) by {
                assert forall|i2: int, j2: int|
                    0 <= i2 < ls2.len() && 0 <= j2 < (#[trigger] ls2[i2]).1.len() implies
                    index_find(b2.index, (#[trigger] ls2[i2].1[j2]).order.oid) == Some(
                    LocV { side, price: ls2[i2].0, user: ls2[i2].1[j2].user },
                ) by {
                    let x = ls2[i2].1[j2];
                    if os2.len() == 0 {
                        let i2o = if i2 < i {
                            i2
                        } else {
                            i2 + 1
                        };
                        assert(ls2[i2] == ls[i2o]);
                        assert(ls[i2o].1[j2] == x);
                        assert(index_find(b.index, x.order.oid) == Some(
                            LocV { side, price: ls[i2o].0, user: x.user },
                        ));
                        assert(x.order.oid != oid);
                        lemma_index_find_remove_other(b.index, k, x.order.oid);
                    } else {
                        assert(ls2[i2].0 == ls[i2].0);
                        if i2 == i {
                            let j2o = if j2 < j {
                                j2
                            } else {
                                j2 + 1
                            };
                            assert(os2[j2] == os[j2o]);
                            assert(ls[i].1[j2o] == os[j2o]);
                            assert(index_find(b.index, x.order.oid) == Some(
                                LocV { side, price: ls[i].0, user: x.user },
                            ));
                            assert(x.order.oid != oid);
                            lemma_index_find_remove_other(b.index, k, x.order.oid);
                        } else {
                            assert(ls2[i2] == ls[i2]);
                            assert(ls[i2].1[j2] == x);
                            assert(index_find(b.index, x.order.oid) == Some(
                                LocV { side, price: ls[i2].0, user: x.user },
                            ));
                            assert(x.order.oid != oid);
                            lemma_index_find_remove_other(b.index, k, x.order.oid);
                        }
                    }
                }
            }
            assert(b2.side_indexed(other)) by {
                let lso = b.side_levels(other);
                assert forall|i2: int, j2: int|
                    0 <= i2 < lso.len() && 0 <= j2 < (#[trigger] lso[i2]).1.len() implies
                    index_find(b2.index, (#[trigger] lso[i2].1[j2]).order.oid) == Some(
                    LocV { side: other, price: lso[i2].0, user: lso[i2].1[j2].user },
                ) by {
                    let x = lso[i2].1[j2];
                    assert(index_find(b.index, x.order.oid) == Some(
                        LocV { side: other, price: lso[i2].0, user: x.user },
                    ));
                    assert(x.order.oid != oid);
                    lemma_index_find_remove_other(b.index, k, x.order.oid);
                }
            }
        },
    }
}

/// The oid index and the side maps agree: an indexed oid rests at exactly
/// its recorded side, price and owner, and an oid the index does not name
/// rests nowhere.
pub proof fn lemma_index_and_levels_agree(b: BookV, oid: u64)
    requires
        b.wf(),
    ensures
        index_find(b.index, oid) matches Some(loc) ==> b.placed(oid, loc),
        index_find(b.index, oid) is None ==> forall|i: int, j: int|
            0 <= i < b.bids.len() && 0 <= j < (#[trigger] b.bids[i]).1.len() ==> (
            #[trigger] b.bids[i].1[j]).order.oid != oid,
        index_find(b.index, oid) is None ==> forall|i: int, j: int|
            0 <= i < b.asks.len() && 0 <= j < (#[trigger] b.asks[i]).1.len() ==> (
            #[trigger] b.asks[i].1[j]).order.oid != oid,
{
    lemma_index_find_props(b.index, oid);
    match index_pos(b.index, oid) {
        Some(k) => {
            assert(b.placed(b.index[k].0, b.index[k].1));
        },
        None => {
            assert forall|i: int, j: int|
                0 <= i < b.bids.len() && 0 <= j < (#[trigger] b.bids[i]).1.len() implies (
            #[trigger] b.bids[i].1[j]).order.oid != oid by {
                assert(index_find(b.index, b.bids[i].1[j].order.oid) is Some);
            }
            assert forall|i: int, j: int|
                0 <= i < b.asks.len() && 0 <= j < (#[trigger] b.asks[i]).1.len() implies (
            #[trigger] b.asks[i].1[j]).order.oid != oid by {
                assert(index_find(b.index, b.asks[i].1[j].order.oid) is Some);
            }
        },
    }
}

/// Inserting the same entry twice is the same as inserting it once: the
/// second insert is a no-op.
pub proof fn lemma_insert_idempotent(b: BookV, e: EntryV)
    ensures
        insert_spec(insert_spec(b, e), e) == insert_spec(b, e),
{
    let oid = e.order.oid;
    if index_find(b.index, oid) is Some {
    } else {
        match price_units_of(e.order.limit_px) {
            None => {},
            Some(p) => {
                let side = e.order.side;
                let loc = LocV { side, price: p, user: e.user };
                let b2 = insert_spec(b, e);
                lemma_index_find_push(b.index, (oid, loc), oid);
                assert(index_find(b2.index, oid) == Some(loc));
            },
        }
    }
}

/// Removing an absent oid reports "not present" and leaves the book
/// unchanged.
pub proof fn lemma_remove_absent(b: BookV, oid: u64)
    requires
        !b.contains_oid(oid),
    ensures
        remove_spec(b, oid).0 == b,
        remove_spec(b, oid).1 is None,
{
    lemma_index_find_props(b.index, oid);
}

/// After an update that applied with new size `s1`, a second update applies
/// exactly when its guard names `s1`.
pub proof fn lemma_update_guard(
    b: BookV,
    oid: u64,
    s0: Seq<char>,
    s1: Seq<char>,
    s2: Seq<char>,
    s3: Seq<char>,
)
    requires
        update_spec(b, oid, s0, s1).1,
    ensures
        update_spec(update_spec(b, oid, s0, s1).0, oid, s2, s3).1 == (s2 == s1),
{
    let b2 = update_spec(b, oid, s0, s1).0;
    let loc = index_find(b.index, oid)->Some_0;
    let side = loc.side;
    let ls = b.side_levels(side);
    let i = level_find(ls, loc.price)->Some_0;
    let os = ls[i].1;
    let j = entry_find(os, oid)->Some_0;
    let e2 = EntryV { user: os[j].user, order: OrderV { sz: s1, ..os[j].order } };
    let os2 = os.update(j, e2);
    lemma_entry_find_props(os, oid);
    lemma_level_pos_props(ls, loc.price);
    assert(b2.index == b.index);
    let ls2 = b2.side_levels(side);
    assert(ls2 == ls.update(i, (ls[i].0, os2)));
    assert(forall|q: int|
        0 <= q < ls2.len() ==> (#[trigger] ls2[q]).0 == ls[q].0 && ls2.len() == ls.len());
    assert(level_pos(ls2, loc.price) == level_pos(ls, loc.price)) by {
        lemma_level_pos_props(ls2, loc.price);
        let lp = level_pos(ls, loc.price);
        let lp2 = level_pos(ls2, loc.price);
        if lp2 < lp {
            assert(ls[lp2].0 < loc.price);
        }
        if lp2 > lp {
            assert(ls2[lp].0 < loc.price);
        }
    }
    assert(level_find(ls2, loc.price) == Some(i));
    lemma_entry_find_update(os, j, e2, oid);
    assert(entry_find(os2, oid) == Some(j));
    assert(os2[j].order.sz == s1);
}

} // verus!
