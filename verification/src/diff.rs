//! Applying one book diff to a book. `Skipped` is a normal outcome — a
//! duplicate insert, an unparsable price, a failed size guard or an unknown
//! oid — and replaying a diff never changes a book it already reflects.

use vstd::prelude::*;

use crate::book::{
    entry_find, index_find, insert_spec, level_find, level_pos, lemma_entry_find_props,
    lemma_index_find_props, lemma_level_pos_props, remove_spec, update_spec, BookV, CoinBook,
    EntryV, OrderEntry,
};
use crate::book_laws::{
    lemma_entry_find_update, lemma_index_find_remove_self, lemma_insert_idempotent,
    lemma_insert_wf, lemma_remove_wf, lemma_update_wf,
};
use crate::price::{price_units_of, Price};
use crate::schemas::book_diff::{BookDiff, BookDiffV, RawBookDiff, RawBookDiffV};
use crate::schemas::common::{Order, OrderV};

verus! {

/// Outcome of applying one diff.
#[derive(Debug, Clone, Copy, PartialEq, Eq, Structural)]
pub enum ApplyResult {
    Applied,
    Skipped,
}

/// The order a `New` diff introduces: the diff's identity fields plus
/// placeholder descriptive fields.
pub open spec fn order_of_diff(d: BookDiffV, sz: Seq<char>) -> OrderV {
    OrderV {
        coin: d.coin,
        side: d.side,
        limit_px: d.px,
        sz,
        oid: d.oid,
        timestamp: 0,
        trigger_condition: "N/A"@,
        is_trigger: false,
        trigger_px: "0.0"@,
        is_position_tpsl: false,
        reduce_only: false,
        order_type: "Limit"@,
        orig_sz: Seq::<char>::empty(),
        tif: None,
        cloid: None,
    }
}

/// The book and outcome after applying one diff.
pub open spec fn apply_spec(b: BookV, d: BookDiffV) -> (BookV, ApplyResult) {
    match d.raw_book_diff {
        RawBookDiffV::New { sz } => {
            if b.contains_oid(d.oid) {
                (b, ApplyResult::Skipped)
            } else if price_units_of(d.px) is None {
                (b, ApplyResult::Skipped)
            } else {
                (
                    insert_spec(b, EntryV { user: d.user, order: order_of_diff(d, sz) }),
                    ApplyResult::Applied,
                )
            }
        },
        RawBookDiffV::Update { orig_sz, new_sz } => {
            let r = update_spec(b, d.oid, orig_sz, new_sz);
            (
                r.0,
                if r.1 {
                    ApplyResult::Applied
                } else {
                    ApplyResult::Skipped
                },
            )
        },
        RawBookDiffV::Remove(_) => {
            let r = remove_spec(b, d.oid);
            (
                r.0,
                if r.1 is Some {
                    ApplyResult::Applied
                } else {
                    ApplyResult::Skipped
                },
            )
        },
    }
}

/// Apply one diff to a book.
pub fn apply(book: &mut CoinBook, diff: BookDiff) -> (r: ApplyResult)
    ensures
        final(book)@ == apply_spec(old(book)@, diff@).0,
        r == apply_spec(old(book)@, diff@).1,
{
    match diff.raw_book_diff {
        RawBookDiff::New { new } => {
            if book.contains(diff.oid) {
                return ApplyResult::Skipped;
            }
            if Price::parse(diff.px.as_str()).is_none() {
                return ApplyResult::Skipped;
            }
            proof {
                reveal_strlit("N/A");
                reveal_strlit("0.0");
                reveal_strlit("Limit");
            }
            let order = Order {
                coin: diff.coin,
                side: diff.side,
                limit_px: diff.px,
                sz: new.sz,
                oid: diff.oid,
                timestamp: 0,
                trigger_condition: String::from_str("N/A"),
                is_trigger: false,
                trigger_px: String::from_str("0.0"),
                is_position_tpsl: false,
                reduce_only: false,
                order_type: String::from_str("Limit"),
                orig_sz: String::new(),
                tif: None,
                cloid: None,
            };
            book.insert(OrderEntry::new(diff.user, order));
            ApplyResult::Applied
        },
        RawBookDiff::Update { update } => {
            if book.update(diff.oid, update.orig_sz.as_str(), update.new_sz) {
                ApplyResult::Applied
            } else {
                ApplyResult::Skipped
            }
        },
        RawBookDiff::Remove(_) => {
            if book.remove(diff.oid).is_some() {
                ApplyResult::Applied
            } else {
                ApplyResult::Skipped
            }
        },
    }
}

/// Applying a diff preserves the book's well-formedness.
pub proof fn lemma_apply_wf(b: BookV, d: BookDiffV)
    requires
        b.wf(),
    ensures
        apply_spec(b, d).0.wf(),
{
    match d.raw_book_diff {
        RawBookDiffV::New { sz } => {
            if !b.contains_oid(d.oid) {
                lemma_insert_wf(b, EntryV { user: d.user, order: order_of_diff(d, sz) });
            }
        },
        RawBookDiffV::Update { orig_sz, new_sz } => {
            lemma_update_wf(b, d.oid, orig_sz, new_sz);
        },
        RawBookDiffV::Remove(_) => {
            lemma_remove_wf(b, d.oid);
        },
    }
}

/// Replaying a diff against a book that already reflects it leaves the book
/// unchanged: the second application is absorbed as a skip or rewrites the
/// same value.
pub proof fn lemma_apply_idempotent(b: BookV, d: BookDiffV)
    requires
        b.wf(),
    ensures
        apply_spec(apply_spec(b, d).0, d).0 == apply_spec(b, d).0,
{
    let b2 = apply_spec(b, d).0;
    match d.raw_book_diff {
        RawBookDiffV::New { sz } => {
            let oid = d.oid;
            if b.contains_oid(oid) {
            } else {
                let e = EntryV { user: d.user, order: order_of_diff(d, sz) };
                lemma_insert_idempotent(b, e);
                if !b2.contains_oid(oid) {
                    assert(insert_spec(b2, e) == b2);
                }
            }
        },
        RawBookDiffV::Update { orig_sz, new_sz } => {
            let oid = d.oid;
            let r1 = update_spec(b, oid, orig_sz, new_sz);
            if r1.1 {
                let loc = index_find(b.index, oid)->Some_0;
                let side = loc.side;
                let ls = b.side_levels(side);
                let i = level_find(ls, loc.price)->Some_0;
                let os = ls[i].1;
                let j = entry_find(os, oid)->Some_0;
                let e2 = EntryV { user: os[j].user, order: OrderV { sz: new_sz, ..os[j].order } };
                let os2 = os.update(j, e2);
                lemma_entry_find_props(os, oid);
                lemma_level_pos_props(ls, loc.price);
                let ls2 = b2.side_levels(side);
                assert(ls2 == ls.update(i, (ls[i].0, os2)));
                assert(forall|q: int|
                    0 <= q < ls2.len() ==> (#[trigger] ls2[q]).0 == ls[q].0 && ls2.len()
                        == ls.len());
                assert(level_pos(ls2, loc.price) == level_pos(ls, loc.price)) by {
                    lemma_level_pos_props(ls2, loc.price);
                    let lp = level_pos(ls, loc.price);
                    let lp2 = level_pos(ls2, loc.price);
                    if lp2 < lp {
                        assert(ls[lp2].0 < loc.price);
                    }
                    if lp2 > lp {
                        assert(ls2[lp].0 < loc.price);
                    }
                }
                assert(level_find(ls2, loc.price) == Some(i));
                lemma_entry_find_update(os, j, e2, oid);
                assert(entry_find(os2, oid) == Some(j));
                assert(os2[j].order.sz == new_sz);
                assert(b2.index == b.index);
                if orig_sz == new_sz {
                    // The guard matches again and rewrites the same size.
                    let e3 = EntryV {
                        user: os2[j].user,
                        order: OrderV { sz: new_sz, ..os2[j].order },
                    };
                    assert(e3 =~~= os2[j]);
                    assert(os2.update(j, e3) =~= os2);
                    assert(ls2.update(i, (ls2[i].0, os2.update(j, e3))) =~~= ls2);
                    assert(update_spec(b2, oid, orig_sz, new_sz).0 =~~= b2);
                }
            }
        },
        RawBookDiffV::Remove(_) => {
            let oid = d.oid;
            lemma_index_find_props(b.index, oid);
            match crate::book::index_pos(b.index, oid) {
                None => {
                    lemma_index_find_props(b2.index, oid);
                },
                Some(k) => {
                    lemma_index_find_remove_self(b.index, k, oid);
                    assert(b2.index == b.index.remove(k));
                    lemma_index_find_props(b2.index, oid);
                },
            }
        },
    }
}

} // verus!
