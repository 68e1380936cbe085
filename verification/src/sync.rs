//! Warm-up and steady-state decisions of the sync coordinator: diffs are
//! buffered until the first snapshot is installed, then the buffer is
//! drained in arrival order — snapshot overlap is absorbed as skips — and
//! every later diff is applied immediately.

use vstd::prelude::*;

use crate::book::BookV;
use crate::diff::ApplyResult;
use crate::schemas::book_diff::{BookDiff, BookDiffV};
use crate::service::{service_apply_spec, OrderBookService};

verus! {

/// Where the coordinator finds the upstream node and the snapshot file, and
/// how often it resynchronizes. Times are in milliseconds.
#[derive(Debug, Clone)]
pub struct SyncConfig {
    pub info_url: String,
    pub container_snapshot_path: String,
    pub host_snapshot_path: String,
    pub snapshot_timeout_ms: u64,
    pub resync_interval_ms: u64,
}

impl SyncConfig {
    /// The layout used when the upstream node writes into a mounted volume.
    pub fn docker_volume(volume_path: &str) -> (r: SyncConfig)
        ensures
            r.info_url@ == "http://127.0.0.1:3001/info"@,
            r.container_snapshot_path@ == "/data/l4_snapshot.json"@,
            r.host_snapshot_path@ == volume_path@ + "/l4_snapshot.json"@,
            r.snapshot_timeout_ms == 120_000,
            r.resync_interval_ms == 10_000,
    {
        let mut host = volume_path.to_owned();
        host.append("/l4_snapshot.json");
        SyncConfig {
            info_url: String::from_str("http://127.0.0.1:3001/info"),
            container_snapshot_path: String::from_str("/data/l4_snapshot.json"),
            host_snapshot_path: host,
            snapshot_timeout_ms: 120_000,
            resync_interval_ms: 10_000,
        }
    }
}

impl Default for SyncConfig {
    fn default() -> (r: SyncConfig)
        ensures
            r.info_url@ == "http://127.0.0.1:3001/info"@,
            r.container_snapshot_path@ == "/data/l4_snapshot.json"@,
            r.host_snapshot_path@ == "/var/lib/docker/volumes/hyperliquid_node-data/_data"@
                + "/l4_snapshot.json"@,
            r.snapshot_timeout_ms == 120_000,
            r.resync_interval_ms == 10_000,
    {
        SyncConfig::docker_volume("/var/lib/docker/volumes/hyperliquid_node-data/_data")
    }
}

/// The registry and outcome counts after applying a run of diffs in order.
pub open spec fn drain_spec(s: Seq<BookV>, ds: Seq<BookDiffV>) -> (Seq<BookV>, int, int)
    decreases ds.len(),
{
    if ds.len() == 0 {
        (s, 0, 0)
    } else {
        let r = service_apply_spec(s, ds[0]);
        let rest = drain_spec(r.0, ds.drop_first());
        (
            rest.0,
            rest.1 + if r.1 == ApplyResult::Applied {
                1int
            } else {
                0int
            },
            rest.2 + if r.1 == ApplyResult::Skipped {
                1int
            } else {
                0int
            },
        )
    }
}

/// Every drained diff is accounted for: the applied and skipped counts
/// sum to the number of diffs.
pub proof fn lemma_drain_counts(s: Seq<BookV>, ds: Seq<BookDiffV>)
    ensures
        drain_spec(s, ds).1 + drain_spec(s, ds).2 == ds.len(),
    decreases ds.len(),
{
    if ds.len() > 0 {
        lemma_drain_counts(service_apply_spec(s, ds[0]).0, ds.drop_first());
    }
}

/// The warm-up/live state machine around the book service.
#[derive(Debug)]
pub struct SyncCoordinator {
    pub service: OrderBookService,
    pub buffer: Vec<BookDiff>,
    pub live: bool,
}

impl SyncCoordinator {
    pub open spec fn inv(self) -> bool {
        self.service.inv()
    }

    pub fn new(service: OrderBookService) -> (r: SyncCoordinator)
        requires
            service.inv(),
        ensures
            r.inv(),
            r.service@ == service@,
            r.buffer@.len() == 0,
            !r.live,
    {
        SyncCoordinator { service, buffer: Vec::new(), live: false }
    }

    pub fn is_live(&self) -> (r: bool)
        ensures
            r == self.live,
    {
        self.live
    }

    /// One incoming diff: buffered during warm-up, applied at once when
    /// live.
    pub fn on_diff(&mut self, diff: BookDiff) -> (r: Option<ApplyResult>)
        requires
            old(self).inv(),
        ensures
            final(self).inv(),
            final(self).live == old(self).live,
            old(self).live ==> r == Some(
                service_apply_spec(old(self).service@, diff@).1,
            ) && final(self).service@ == service_apply_spec(old(self).service@, diff@).0
                && final(self).buffer@ == old(self).buffer@,
            !old(self).live ==> r is None && final(self).service@ == old(self).service@
                && final(self).buffer.deep_view() =~= old(self).buffer.deep_view().push(
                diff@,
            ),
    {
        if self.live {
            Some(self.service.apply_diff(diff))
        } else {
            self.buffer.push(diff);
            proof {
                assert(self.buffer.deep_view() =~= old(self).buffer.deep_view().push(diff@));
            }
            None
        }
    }

    /// Drain the warm-up buffer in arrival order against the freshly
    /// installed snapshot and go live; reports how many diffs applied and
    /// how many were absorbed as skips.
    #[verifier::loop_isolation(false)]
    pub fn finish_warmup(&mut self) -> (r: (usize, usize))
        requires
            old(self).inv(),
            !old(self).live,
        ensures
            final(self).inv(),
            final(self).live,
            final(self).buffer@.len() == 0,
            final(self).service@ == drain_spec(
                old(self).service@,
                old(self).buffer.deep_view(),
            ).0,
            r.0 == drain_spec(old(self).service@, old(self).buffer.deep_view()).1,
            r.1 == drain_spec(old(self).service@, old(self).buffer.deep_view()).2,
    {
        let ghost ds = old(self).buffer.deep_view();
        let ghost s0 = old(self).service@;
        let n = self.buffer.len();
        let mut rev: Vec<BookDiff> = Vec::new();
        while self.buffer.len() > 0
            invariant
                rev@.len() + self.buffer@.len() == n,
                self.service == old(self).service,
                forall|k: int|
                    0 <= k < self.buffer@.len() ==> self.buffer.deep_view()[k] == ds[k],
                forall|k: int| 0 <= k < rev@.len() ==> rev.deep_view()[k] == ds[n - 1 - k],
            decreases self.buffer.len(),
        {
            let ghost bpre = self.buffer.deep_view();
            let ghost rpre = rev.deep_view();
            let d = self.buffer.pop().unwrap();
            rev.push(d);
            proof {
                assert(d@ == bpre[bpre.len() - 1]);
                assert(forall|k: int|
                    0 <= k < self.buffer@.len() ==> self.buffer.deep_view()[k] == bpre[k]);
                assert forall|k: int| 0 <= k < rev@.len() implies rev.deep_view()[k]
                    == ds[n - 1 - k] by {
                    if k < rev@.len() - 1 {
                        assert(rev.deep_view()[k] == rpre[k]);
                    } else {
                        assert(rev.deep_view()[k] == d@);
                    }
                }
            }
        }
        proof {
            assert(ds.skip(0) =~= ds);
        }
        let mut applied: usize = 0;
        let mut skipped: usize = 0;
        let mut i: usize = 0;
        while rev.len() > 0
            invariant
                i == n - rev@.len(),
                0 <= i <= n,
                applied + skipped == i,
                self.service.inv(),
                self.buffer@.len() == 0,
                forall|k: int| 0 <= k < rev@.len() ==> rev.deep_view()[k] == ds[n - 1 - k],
                drain_spec(s0, ds).0 == drain_spec(self.service@, ds.skip(i as int)).0,
                drain_spec(s0, ds).1 == applied + drain_spec(
                    self.service@,
                    ds.skip(i as int),
                ).1,
                drain_spec(s0, ds).2 == skipped + drain_spec(
                    self.service@,
                    ds.skip(i as int),
                ).2,
            decreases rev.len(),
        {
            let ghost rpre = rev.deep_view();
            let d = rev.pop().unwrap();
            proof {
                assert(d@ == rpre[rpre.len() - 1]);
                assert(d@ == ds[i as int]);
                assert(ds.skip(i as int)[0] == ds[i as int]);
                assert(ds.skip(i as int).drop_first() =~= ds.skip(i + 1));
                assert forall|k: int| 0 <= k < rev@.len() implies rev.deep_view()[k]
                    == ds[n - 1 - k] by {
                    assert(rev.deep_view()[k] == rpre[k]);
                }
            }
            let res = self.service.apply_diff(d);
            match res {
                ApplyResult::Applied => {
                    applied = applied + 1;
                },
                ApplyResult::Skipped => {
                    skipped = skipped + 1;
                },
            }
            i = i + 1;
        }
        proof {
            assert(ds.skip(n as int) =~= Seq::<BookDiffV>::empty());
        }
        self.live = true;
        (applied, skipped)
    }
}

} // verus!
