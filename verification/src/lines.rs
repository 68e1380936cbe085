//! Line assembly for an append-only file read in chunks. The pending
//! partial is prepended to each read; every newline then closes one line,
//! with only the newline itself removed; empty lines are dropped; whatever
//! follows the last newline is held back as the new partial. On rotation
//! the partial is discarded: the closed file will never complete it.

use vstd::prelude::*;

verus! {

/// Index of the first `'\n'` in `s`, or `s.len()` if there is none.
pub open spec fn first_nl(s: Seq<char>) -> int
    decreases s.len(),
{
    if s.len() == 0 {
        0
    } else if s[0] == '\n' {
        0
    } else {
        1 + first_nl(s.drop_first())
    }
}

pub proof fn lemma_first_nl_range(s: Seq<char>)
    ensures
        0 <= first_nl(s) <= s.len(),
    decreases s.len(),
{
    if s.len() > 0 && s[0] != '\n' {
        lemma_first_nl_range(s.drop_first());
    }
}

pub proof fn lemma_first_nl_at(s: Seq<char>, k: int)
    requires
        0 <= k <= s.len(),
        forall|j: int| 0 <= j < k ==> s[j] != '\n',
        k < s.len() ==> s[k] == '\n',
    ensures
        first_nl(s) == k,
    decreases s.len(),
{
    if s.len() == 0 {
    } else if s[0] == '\n' {
    } else {
        assert(forall|j: int| 0 <= j < k - 1 ==> s.drop_first()[j] == #[trigger] s[j + 1]);
        lemma_first_nl_at(s.drop_first(), k - 1);
    }
}

/// The nonempty newline-terminated segments of `text`, in order, with only
/// the terminating newline removed — and what follows the last newline.
pub open spec fn split_text(text: Seq<char>) -> (Seq<Seq<char>>, Seq<char>)
    decreases text.len(),
    via split_text_dec
{
    let p = first_nl(text);
    if p == text.len() {
        (Seq::<Seq<char>>::empty(), text)
    } else {
        let seg = text.take(p);
        let r = split_text(text.skip(p + 1));
        (
            if seg.len() == 0 {
                r.0
            } else {
                seq![seg] + r.0
            },
            r.1,
        )
    }
}

#[via_fn]
proof fn split_text_dec(text: Seq<char>) {
    lemma_first_nl_range(text);
}

/// The lines completed and the partial carried forward after reading
/// `chunk` with `partial` pending: the partial is prepended to the read.
pub open spec fn feed_spec(partial: Seq<char>, chunk: Seq<char>) -> (Seq<Seq<char>>, Seq<char>) {
    split_text(partial + chunk)
}

/// Assembles lines out of successive chunks of one file.
#[derive(Debug)]
pub struct LineAccumulator {
    pub partial: String,
}

impl LineAccumulator {
    pub fn new() -> (r: Self)
        ensures
            r.partial@ =~= Seq::<char>::empty(),
    {
        LineAccumulator { partial: String::new() }
    }

    /// Feed the next chunk read from the file; returns the lines it
    /// completed, in order.
    #[verifier::loop_isolation(false)]
    pub fn feed(&mut self, chunk: &str) -> (out: Vec<String>)
        ensures
            out.deep_view() == feed_spec(old(self).partial@, chunk@).0,
            final(self).partial@ == feed_spec(old(self).partial@, chunk@).1,
    {
        let mut text = String::new();
        core::mem::swap(&mut text, &mut self.partial);
        text.append(chunk);
        let ghost tv = text@;
        proof {
            assert(tv == old(self).partial@ + chunk@);
        }
        let n = text.as_str().unicode_len();
        let ghost whole = split_text(tv);

        // Locate the last newline, if any.
        let mut last: usize = n;
        let mut i: usize = 0;
        while i < n
            invariant
                0 <= i <= n,
                n == tv.len(),
                text@ == tv,
                last == n || (last < i && tv[last as int] == '\n'),
                forall|j: int| (if last == n { 0 } else { last + 1 }) <= j < i ==> tv[j]
                    != '\n',
            decreases n - i,
        {
            if text.as_str().get_char(i) == '\n' {
                last = i;
            }
            i = i + 1;
        }

        let mut out: Vec<String> = Vec::new();
        if last == n {
            // No newline at all: everything stays pending.
            proof {
                lemma_first_nl_at(tv, n as int);
                assert(out.deep_view() =~= Seq::<Seq<char>>::empty());
            }
            self.partial = text;
            return out;
        }

        let mut pos: usize = 0;
        proof {
            assert(tv.skip(0) =~= tv);
            assert(out.deep_view() =~= Seq::<Seq<char>>::empty());
            assert(Seq::<Seq<char>>::empty() + whole.0 =~= whole.0);
        }
        while pos <= last
            invariant
                0 <= pos <= last + 1,
                last < n,
                n == tv.len(),
                text@ == tv,
                tv[last as int] == '\n',
                forall|j: int| last < j < n ==> tv[j] != '\n',
                whole == split_text(tv),
                whole.0 == out.deep_view() + split_text(tv.skip(pos as int)).0,
                whole.1 == split_text(tv.skip(pos as int)).1,
            decreases last + 1 - pos,
        {
            let ghost rem = tv.skip(pos as int);
            // Find the next newline; one exists at or before `last`.
            let mut q: usize = pos;
            while text.as_str().get_char(q) != '\n'
                invariant
                    pos <= q <= last,
                    forall|j: int| pos <= j < q ==> tv[j] != '\n',
                decreases last - q,
            {
                proof {
                    assert(q < last);
                }
                q = q + 1;
            }
            proof {
                assert(forall|j: int| 0 <= j < q - pos ==> rem[j] == #[trigger] tv[j + pos]);
                assert(rem[q - pos] == tv[q as int]);
                lemma_first_nl_at(rem, q - pos);
            }
            if q > pos {
                let line = text.as_str().substring_char(pos, q);
                out.push(line.to_owned());
                proof {
                    let seg = rem.take(q - pos);
                    assert(seg =~= tv.subrange(pos as int, q as int));
                    let r = split_text(rem.skip(q - pos + 1));
                    assert(rem.skip(q - pos + 1) =~= tv.skip(q + 1));
                    assert(whole.0 == out.deep_view() + r.0) by {
                        assert(out.deep_view() =~= out.deep_view().drop_last().push(
                            out.deep_view().last(),
                        ));
                        assert(forall|k: int|
                            0 <= k < out.deep_view().len() - 1 ==> out.deep_view()[k]
                                == #[trigger] out.deep_view().drop_last()[k]);
                        assert(whole.0 =~= out.deep_view() + r.0);
                    }
                }
            } else {
                proof {
                    assert(rem.take(q - pos).len() == 0);
                    assert(rem.skip(q - pos + 1) =~= tv.skip(q + 1));
                }
            }
            pos = q + 1;
        }

        // Everything after the last newline becomes the new partial.
        let rest = text.as_str().substring_char(pos, n);
        self.partial = rest.to_owned();
        proof {
            let rem = tv.skip(pos as int);
            assert(forall|j: int| 0 <= j < rem.len() ==> rem[j] == #[trigger] tv[j + pos]);
            lemma_first_nl_at(rem, rem.len() as int);
            assert(self.partial@ =~= rem);
            assert(out.deep_view() + Seq::<Seq<char>>::empty() =~= out.deep_view());
        }
        out
    }

    /// Drop any pending partial line; used on rotation, when the previous
    /// file is closed and the fragment will never gain its newline.
    pub fn discard_partial(&mut self)
        ensures
            final(self).partial@ =~= Seq::<char>::empty(),
    {
        self.partial = String::new();
    }
}

/// One nonempty newline-terminated line is delivered exactly once, joined
/// to the pending partial, before anything later in the stream.
pub proof fn lemma_feed_line(partial: Seq<char>, line: Seq<char>, rest: Seq<char>)
    requires
        partial.len() + line.len() > 0,
        forall|i: int| 0 <= i < partial.len() ==> partial[i] != '\n',
        forall|i: int| 0 <= i < line.len() ==> line[i] != '\n',
    ensures
        feed_spec(partial, line + seq!['\n'] + rest) == (
            seq![partial + line] + split_text(rest).0,
            split_text(rest).1,
        ),
{
    let text = partial + (line + seq!['\n'] + rest);
    let joined = partial + line;
    assert(text.len() == partial.len() + line.len() + 1 + rest.len());
    assert(forall|j: int| 0 <= j < joined.len() ==> #[trigger] text[j] == joined[j]);
    assert(forall|j: int|
        0 <= j < joined.len() ==> #[trigger] joined[j] == (if j < partial.len() {
            partial[j]
        } else {
            line[j - partial.len()]
        }));
    assert(text[joined.len() as int] == '\n');
    lemma_first_nl_at(text, joined.len() as int);
    assert(text.take(joined.len() as int) =~= joined);
    assert(text.skip(joined.len() as int + 1) =~= rest);
}

/// An unterminated tail is withheld: it extends the partial and emits
/// nothing.
pub proof fn lemma_feed_tail(partial: Seq<char>, tail: Seq<char>)
    requires
        forall|i: int| 0 <= i < partial.len() ==> partial[i] != '\n',
        forall|i: int| 0 <= i < tail.len() ==> tail[i] != '\n',
    ensures
        feed_spec(partial, tail) == (Seq::<Seq<char>>::empty(), partial + tail),
{
    let text = partial + tail;
    assert(forall|j: int|
        0 <= j < text.len() ==> #[trigger] text[j] == (if j < partial.len() {
            partial[j]
        } else {
            tail[j - partial.len()]
        }));
    lemma_first_nl_at(text, text.len() as int);
}

} // verus!
