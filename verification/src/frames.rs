//! Wire framing. A publish frame is the topic's UTF-8 bytes, one zero
//! byte, then the envelope bytes; a request message carries the peer's
//! identity frame first and the payload frame last.

use vstd::prelude::*;
use vstd::string::StringSliceAdditionalSpecFns;
use vstd::string::StrSliceExecFns;

verus! {

/// Build one publish frame: `<topic-utf8> 0x00 <payload>`.
#[verifier::loop_isolation(false)]
pub fn publish_frame(topic: &str, payload: &Vec<u8>) -> (r: Vec<u8>)
    ensures
        r@ == topic.spec_bytes() + seq![0u8] + payload@,
{
    let mut v = topic.as_bytes_vec();
    v.push(0);
    let n = payload.len();
    let mut i: usize = 0;
    while i < n
        invariant
            0 <= i <= n,
            n == payload@.len(),
            v@ =~= topic.spec_bytes() + seq![0u8] + payload@.take(i as int),
        decreases n - i,
    {
        v.push(payload[i]);
        proof {
            assert(payload@.take(i + 1) =~= payload@.take(i as int).push(payload@[i as int]));
        }
        i = i + 1;
    }
    proof {
        assert(payload@.take(n as int) =~= payload@);
    }
    v
}

/// Split a request message into its identity frame and its payload frame;
/// a message with fewer than two frames is malformed.
pub fn split_frames<'a>(frames: &'a Vec<Vec<u8>>) -> (r: Option<(&'a Vec<u8>, &'a Vec<u8>)>)
    ensures
        match r {
            None => frames@.len() < 2,
            Some(p) => frames@.len() >= 2 && p.0@ == (frames@[0])@ && p.1@ == (frames@.last())@,
        },
{
    let n = frames.len();
    if n < 2 {
        None
    } else {
        Some((&frames[0], &frames[n - 1]))
    }
}

} // verus!
