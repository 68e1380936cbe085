//! The rotation-aware tailer: it follows one hourly file, queues completed
//! lines in arrival order, and when a strictly newer hourly file appears it
//! flushes the old file's lines, discards any partial, and continues from
//! the beginning of the new file — so all of the old file's lines precede
//! all of the new file's.

use vstd::prelude::*;

use crate::lines::{feed_spec, LineAccumulator};
use crate::rotation::{extract_timestamp, is_valid_hourly_file, stamp_of};
use crate::text::str_eq;

verus! {

/// One queued line, tagged with the file it came from.
#[derive(Debug, Clone)]
pub struct FileEvent {
    pub source: String,
    pub line: String,
}

impl View for FileEvent {
    type V = (Seq<char>, Seq<char>);

    open spec fn view(&self) -> (Seq<char>, Seq<char>) {
        (self.source@, self.line@)
    }
}

impl DeepView for FileEvent {
    type V = (Seq<char>, Seq<char>);

    open spec fn deep_view(&self) -> (Seq<char>, Seq<char>) {
        self.view()
    }
}

/// What the watcher reported for a path.
#[derive(Debug, Clone, Copy, PartialEq, Eq, Structural)]
pub enum FsEventKind {
    Create,
    Modify,
    Other,
}

/// What the tailer decides to do with one watcher event.
#[derive(Debug, Clone, Copy, PartialEq, Eq, Structural)]
pub enum TailAction {
    Rotate,
    ReadCurrent,
    Adopt,
    Ignore,
}

/// Rotation fires only for a strictly newer hourly file, or when nothing is
/// being followed yet; a current file whose own stamp cannot be read gives
/// way to any valid newcomer.
pub open spec fn should_rotate_spec(cur: Option<Seq<char>>, newp: Seq<char>) -> bool {
    match cur {
        None => true,
        Some(c) => match (stamp_of(c), stamp_of(newp)) {
            (Some(a), Some(b)) => b > a,
            (None, Some(_)) => true,
            _ => false,
        },
    }
}

/// The decision for one watcher event.
pub open spec fn classify_spec(cur: Option<Seq<char>>, kind: FsEventKind, path: Seq<char>) -> TailAction {
    match kind {
        FsEventKind::Create => if stamp_of(path) is Some && should_rotate_spec(cur, path) {
            TailAction::Rotate
        } else {
            TailAction::Ignore
        },
        FsEventKind::Modify => match cur {
            Some(c) => if c == path {
                TailAction::ReadCurrent
            } else {
                TailAction::Ignore
            },
            None => if stamp_of(path) is Some {
                TailAction::Adopt
            } else {
                TailAction::Ignore
            },
        },
        FsEventKind::Other => TailAction::Ignore,
    }
}

/// Lines tagged with the file they came from.
pub open spec fn with_source(src: Seq<char>, lines: Seq<Seq<char>>) -> Seq<
    (Seq<char>, Seq<char>),
> {
    lines.map_values(|l: Seq<char>| (src, l))
}

/// The tailer: the file being followed, its pending partial line, and the
/// FIFO queue of completed lines.
#[derive(Debug)]
pub struct Tailer {
    pub current: Option<String>,
    pub acc: LineAccumulator,
    pub pending: Vec<FileEvent>,
}

impl Tailer {
    pub open spec fn current_view(self) -> Option<Seq<char>> {
        match self.current {
            Some(p) => Some(p@),
            None => None,
        }
    }

    /// Start following `initial` (already positioned at its end), or
    /// nothing if no hourly file exists yet.
    pub fn new(initial: Option<String>) -> (r: Tailer)
        ensures
            r.current_view() == (match initial {
                Some(p) => Some(p@),
                None => None::<Seq<char>>,
            }),
            r.acc.partial@ =~= Seq::<char>::empty(),
            r.pending@.len() == 0,
    {
        Tailer { current: initial, acc: LineAccumulator::new(), pending: Vec::new() }
    }

    /// Decide what one watcher event means.
    pub fn classify(&self, kind: FsEventKind, path: &str) -> (r: TailAction)
        ensures
            r == classify_spec(self.current_view(), kind, path@),
    {
        match kind {
            FsEventKind::Create => {
                if !is_valid_hourly_file(path) {
                    return TailAction::Ignore;
                }
                let rotate = match &self.current {
                    None => true,
                    Some(c) => {
                        match (extract_timestamp(c.as_str()), extract_timestamp(path)) {
                            (Some(a), Some(b)) => b > a,
                            (None, Some(_)) => true,
                            _ => false,
                        }
                    },
                };
                if rotate {
                    TailAction::Rotate
                } else {
                    TailAction::Ignore
                }
            },
            FsEventKind::Modify => {
                match &self.current {
                    Some(c) => {
                        if str_eq(c.as_str(), path) {
                            TailAction::ReadCurrent
                        } else {
                            TailAction::Ignore
                        }
                    },
                    None => {
                        if is_valid_hourly_file(path) {
                            TailAction::Adopt
                        } else {
                            TailAction::Ignore
                        }
                    },
                }
            },
            FsEventKind::Other => TailAction::Ignore,
        }
    }

    /// Queue the lines completed by the next chunk of the current file.
    #[verifier::loop_isolation(false)]
    pub fn read_chunk(&mut self, chunk: &str)
        requires
            old(self).current is Some,
        ensures
            final(self).current == old(self).current,
            final(self).pending.deep_view() =~= old(self).pending.deep_view() + with_source(
                old(self).current->Some_0@,
                feed_spec(old(self).acc.partial@, chunk@).0,
            ),
            final(self).acc.partial@ == feed_spec(old(self).acc.partial@, chunk@).1,
    {
        let lines = self.acc.feed(chunk);
        let src = match &self.current {
            Some(p) => p.clone(),
            None => String::new(),
        };
        push_lines(&mut self.pending, &src, &lines);
    }

    /// Rotate to a newer hourly file: flush the old file's final chunk,
    /// discard its partial, then read the new file from its beginning.
    #[verifier::loop_isolation(false)]
    pub fn rotate(&mut self, new_path: String, old_chunk: &str, new_chunk: &str)
        ensures
            final(self).current_view() == Some(new_path@),
            final(self).pending.deep_view() =~= old(self).pending.deep_view() + (match old(
                self,
            ).current {
                Some(p) => with_source(p@, feed_spec(old(self).acc.partial@, old_chunk@).0),
                None => Seq::<(Seq<char>, Seq<char>)>::empty(),
            }) + with_source(new_path@, feed_spec(Seq::<char>::empty(), new_chunk@).0),
            final(self).acc.partial@ == feed_spec(Seq::<char>::empty(), new_chunk@).1,
    {
        match &self.current {
            Some(_) => {
                self.read_chunk(old_chunk);
            },
            None => {},
        }
        self.acc.discard_partial();
        self.current = Some(new_path);
        let lines = self.acc.feed(new_chunk);
        let src = match &self.current {
            Some(p) => p.clone(),
            None => String::new(),
        };
        push_lines(&mut self.pending, &src, &lines);
    }

    /// Follow `path` from its end, when nothing was being followed.
    pub fn adopt(&mut self, path: String)
        requires
            old(self).current is None,
        ensures
            final(self).current_view() == Some(path@),
            final(self).pending == old(self).pending,
            final(self).acc.partial@ == old(self).acc.partial@,
    {
        self.current = Some(path);
    }

    /// The next queued line, oldest first.
    pub fn try_next_event(&mut self) -> (r: Option<FileEvent>)
        ensures
            match r {
                None => old(self).pending@.len() == 0 && *final(self) == *old(self),
                Some(e) => {
                    &&& old(self).pending@.len() > 0
                    &&& e == old(self).pending@[0]
                    &&& final(self).pending@ =~= old(self).pending@.drop_first()
                    &&& final(self).current == old(self).current
                    &&& final(self).acc == old(self).acc
                },
            },
    {
        if self.pending.len() == 0 {
            None
        } else {
            let e = self.pending.remove(0);
            Some(e)
        }
    }
}

/// Append every line to the queue, tagged with `src`, in order.
#[verifier::loop_isolation(false)]
fn push_lines(pending: &mut Vec<FileEvent>, src: &String, lines: &Vec<String>)
    ensures
        final(pending).deep_view() =~= old(pending).deep_view() + with_source(
            src@,
            lines.deep_view(),
        ),
{
    let n = lines.len();
    let mut i: usize = 0;
    while i < n
        invariant
            0 <= i <= n,
            n == lines@.len(),
            pending.deep_view() =~= old(pending).deep_view() + with_source(
                src@,
                lines.deep_view().take(i as int),
            ),
        decreases n - i,
    {
        let ghost before = pending.deep_view();
        pending.push(FileEvent { source: src.clone(), line: lines[i].clone() });
        proof {
            assert(lines.deep_view()[i as int] == lines@[i as int]@);
            assert(pending.deep_view() =~= before.push((src@, lines@[i as int]@)));
            assert(with_source(src@, lines.deep_view().take(i + 1)) =~= with_source(
                src@,
                lines.deep_view().take(i as int),
            ).push((src@, lines.deep_view()[i as int])));
            assert(pending.deep_view() =~= old(pending).deep_view() + with_source(
                src@,
                lines.deep_view().take(i + 1),
            ));
        }
        i = i + 1;
    }
    proof {
        assert(lines.deep_view().take(n as int) =~= lines.deep_view());
    }
}

} // verus!
