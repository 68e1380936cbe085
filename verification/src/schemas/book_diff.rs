//! One incremental change to an order book.

use vstd::prelude::*;

use super::common::Side;

verus! {

/// A book diff record: identity of the touched order plus the change kind.
#[derive(Debug, Clone)]
pub struct BookDiff {
    pub user: String,
    pub oid: u64,
    pub coin: String,
    pub side: Side,
    pub px: String,
    pub raw_book_diff: RawBookDiff,
}

/// The change kind: introduce, resize under a guard, or delete.
#[derive(Debug, Clone)]
pub enum RawBookDiff {
    New { new: NewOrder },
    Update { update: UpdateOrder },
    Remove(String),
}

#[derive(Debug, Clone)]
pub struct NewOrder {
    pub sz: String,
}

#[derive(Debug, Clone)]
pub struct UpdateOrder {
    pub orig_sz: String,
    pub new_sz: String,
}

/// The mathematical value of a [`RawBookDiff`].
#[verifier::ext_equal]
pub enum RawBookDiffV {
    New { sz: Seq<char> },
    Update { orig_sz: Seq<char>, new_sz: Seq<char> },
    Remove(Seq<char>),
}

/// The mathematical value of a [`BookDiff`].
#[verifier::ext_equal]
pub struct BookDiffV {
    pub user: Seq<char>,
    pub oid: u64,
    pub coin: Seq<char>,
    pub side: Side,
    pub px: Seq<char>,
    pub raw_book_diff: RawBookDiffV,
}

impl View for RawBookDiff {
    type V = RawBookDiffV;

    open spec fn view(&self) -> RawBookDiffV {
        match self {
            RawBookDiff::New { new } => RawBookDiffV::New { sz: new.sz@ },
            RawBookDiff::Update { update } => RawBookDiffV::Update {
                orig_sz: update.orig_sz@,
                new_sz: update.new_sz@,
            },
            RawBookDiff::Remove(s) => RawBookDiffV::Remove(s@),
        }
    }
}

impl View for BookDiff {
    type V = BookDiffV;

    open spec fn view(&self) -> BookDiffV {
        BookDiffV {
            user: self.user@,
            oid: self.oid,
            coin: self.coin@,
            side: self.side,
            px: self.px@,
            raw_book_diff: self.raw_book_diff@,
        }
    }
}

impl DeepView for BookDiff {
    type V = BookDiffV;

    open spec fn deep_view(&self) -> BookDiffV {
        self.view()
    }
}

} // verus!
