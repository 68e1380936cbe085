//! Hourly log files live at `<base>/hourly/<date>/<hour>`. A file's
//! rotation stamp is `date * 100 + hour`; the newest file is the one with
//! the greatest stamp, and a path without both integer components, or with
//! an hour of twenty-four or more, is rejected.

use vstd::prelude::*;

use crate::price::{all_digits, digits_val, is_digit, lemma_monotone_digits};

verus! {

/// Position of the last `'/'` in `s`, or `-1` if there is none.
pub open spec fn last_slash(s: Seq<char>) -> int
    decreases s.len(),
{
    if s.len() == 0 {
        -1
    } else if s.last() == '/' {
        s.len() - 1
    } else {
        last_slash(s.drop_last())
    }
}

pub proof fn lemma_last_slash_props(s: Seq<char>)
    ensures
        -1 <= last_slash(s) < s.len(),
        last_slash(s) >= 0 ==> s[last_slash(s)] == '/',
        forall|k: int| last_slash(s) < k < s.len() ==> s[k] != '/',
    decreases s.len(),
{
    if s.len() > 0 && s.last() != '/' {
        lemma_last_slash_props(s.drop_last());
        assert(forall|k: int| 0 <= k < s.len() - 1 ==> #[trigger] s[k] == s.drop_last()[k]);
    }
}

/// The value of a decimal component, when it is a nonempty digit string
/// whose value fits a `u64`.
pub open spec fn component_val(s: Seq<char>) -> Option<int> {
    if s.len() > 0 && all_digits(s) && digits_val(s) <= u64::MAX {
        Some(digits_val(s))
    } else {
        None
    }
}

/// The rotation stamp `date * 100 + hour` denoted by a path, or `None` when
/// either component is missing or malformed, the hour is out of range, or
/// the stamp would overflow.
pub open spec fn stamp_of(s: Seq<char>) -> Option<int> {
    let hp = last_slash(s);
    if hp < 0 {
        None
    } else {
        let hour_part = s.skip(hp + 1);
        let rest = s.take(hp);
        let dp = last_slash(rest);
        let date_part = rest.skip(dp + 1);
        match (component_val(date_part), component_val(hour_part)) {
            (Some(d), Some(h)) => if h < 24 && d * 100 + h <= u64::MAX {
                Some(d * 100 + h)
            } else {
                None
            },
            _ => None,
        }
    }
}

/// Parse a nonempty decimal string into a `u64`.
#[verifier::loop_isolation(false)]
pub fn parse_u64(s: &str) -> (r: Option<u64>)
    ensures
        match r {
            Some(v) => component_val(s@) == Some(v as int),
            None => component_val(s@) is None,
        },
{
    let n = s.unicode_len();
    if n == 0 {
        return None;
    }
    let mut acc: u64 = 0;
    let mut i: usize = 0;
    while i < n
        invariant
            0 <= i <= n,
            n == s@.len(),
            all_digits(s@.take(i as int)),
            acc == digits_val(s@.take(i as int)),
        decreases n - i,
    {
        let c = s.get_char(i);
        let b = c as u32;
        if b < 48 || b > 57 {
            proof {
                assert(!is_digit(s@[i as int]));
            }
            return None;
        }
        let d = (b - 48) as u64;
        if acc > (u64::MAX - d) / 10 {
            proof {
                assert(s@.take(i + 1).drop_last() =~= s@.take(i as int));
                assert(s@.take(i + 1).last() == s@[i as int]);
                assert(all_digits(s@.take(i + 1)));
                assert(digits_val(s@.take(i + 1)) == acc * 10 + d);
                assert(acc * 10 + d > u64::MAX) by (nonlinear_arith)
                    requires
                        acc > (u64::MAX - d) / 10,
                        0 <= d <= 9,
                        acc >= 0,
                {}
                if all_digits(s@) {
                    lemma_monotone_digits(s@, i + 1, n as int);
                    assert(s@.take(n as int) =~= s@);
                }
            }
            return None;
        }
        proof {
            assert(s@.take(i + 1).drop_last() =~= s@.take(i as int));
            assert(s@.take(i + 1).last() == s@[i as int]);
            assert(all_digits(s@.take(i + 1)));
            assert(acc * 10 + d <= u64::MAX) by (nonlinear_arith)
                requires
                    acc <= (u64::MAX - d) / 10,
                    0 <= d <= 9,
                    acc >= 0,
            {}
        }
        acc = acc * 10 + d;
        i = i + 1;
    }
    proof {
        assert(s@.take(n as int) =~= s@);
    }
    Some(acc)
}

/// Position of the last `'/'` in `s`, or `s.unicode_len()` meaning none —
/// the executable companion of `last_slash`.
#[verifier::loop_isolation(false)]
fn find_last_slash(s: &str) -> (r: usize)
    ensures
        if last_slash(s@) >= 0 {
            r == last_slash(s@)
        } else {
            r == s@.len()
        },
{
    proof {
        lemma_last_slash_props(s@);
    }
    let n = s.unicode_len();
    let mut i: usize = n;
    while i > 0
        invariant
            0 <= i <= n,
            n == s@.len(),
            forall|k: int| i <= k < n ==> s@[k] != '/',
        decreases i,
    {
        if s.get_char(i - 1) == '/' {
            proof {
                assert(s@[i - 1] == '/');
                let ls = last_slash(s@);
                if ls < i - 1 {
                    assert(s@[i - 1] != '/');
                }
                if ls > i - 1 {
                    assert(s@[ls] != '/');
                }
            }
            return i - 1;
        }
        i = i - 1;
    }
    proof {
        if last_slash(s@) >= 0 {
            assert(s@[last_slash(s@)] != '/');
        }
    }
    n
}

/// The rotation stamp of an hourly file path.
pub fn extract_timestamp(path: &str) -> (r: Option<u64>)
    ensures
        match r {
            Some(v) => stamp_of(path@) == Some(v as int),
            None => stamp_of(path@) is None,
        },
{
    let n = path.unicode_len();
    let hp = find_last_slash(path);
    if hp == n {
        proof {
            lemma_last_slash_props(path@);
        }
        return None;
    }
    proof {
        lemma_last_slash_props(path@);
    }
    let hour_part = path.substring_char(hp + 1, n);
    let rest = path.substring_char(0, hp);
    let rp = find_last_slash(rest);
    let rn = rest.unicode_len();
    let date_part = if rp == rn {
        proof {
            assert(rest@.skip(last_slash(rest@) + 1) =~= rest@) by {
                lemma_last_slash_props(rest@);
            }
        }
        rest
    } else {
        proof {
            lemma_last_slash_props(rest@);
        }
        rest.substring_char(rp + 1, rn)
    };
    proof {
        assert(hour_part@ =~= path@.skip(hp + 1));
        assert(rest@ =~= path@.take(hp as int));
        if rp != rn {
            assert(date_part@ =~= rest@.skip(rp + 1));
        }
    }
    let hour = match parse_u64(hour_part) {
        Some(h) => h,
        None => {
            return None;
        },
    };
    let date = match parse_u64(date_part) {
        Some(d) => d,
        None => {
            return None;
        },
    };
    if hour >= 24 {
        return None;
    }
    if date > (u64::MAX - hour) / 100 {
        proof {
            assert(date as int * 100 + hour > u64::MAX) by (nonlinear_arith)
                requires
                    date as int > ((u64::MAX - hour) as int) / 100,
                    0 <= hour < 24,
            {}
        }
        return None;
    }
    proof {
        assert(date as int * 100 + hour <= u64::MAX) by (nonlinear_arith)
            requires
                date as int <= ((u64::MAX - hour) as int) / 100,
                0 <= hour < 24,
                date >= 0,
        {}
    }
    Some(date * 100 + hour)
}

/// Whether a path names an hourly file.
pub fn is_valid_hourly_file(path: &str) -> (r: bool)
    ensures
        r == (stamp_of(path@) is Some),
{
    extract_timestamp(path).is_some()
}

/// Index of the latest hourly file among `paths`: the greatest rotation
/// stamp wins, and on a tie the earliest-listed file is kept.
#[verifier::loop_isolation(false)]
pub fn find_latest(paths: &Vec<String>) -> (r: Option<usize>)
    ensures
        match r {
            None => forall|k: int|
                0 <= k < paths@.len() ==> stamp_of((#[trigger] paths@[k])@) is None,
            Some(i) => {
                &&& 0 <= i < paths@.len()
                &&& stamp_of(paths@[i as int]@) is Some
                &&& forall|k: int|
                    0 <= k < paths@.len() && stamp_of((#[trigger] paths@[k])@) is Some
                        ==> stamp_of(paths@[k]@)->Some_0 <= stamp_of(paths@[i as int]@)->Some_0
                &&& forall|k: int|
                    0 <= k < i && stamp_of((#[trigger] paths@[k])@) is Some ==> stamp_of(
                        paths@[k]@,
                    )->Some_0 < stamp_of(paths@[i as int]@)->Some_0
            },
        },
{
    let n = paths.len();
    let mut best: Option<usize> = None;
    let mut best_ts: u64 = 0;
    let mut i: usize = 0;
    while i < n
        invariant
            0 <= i <= n,
            n == paths@.len(),
            match best {
                None => forall|k: int|
                    0 <= k < i ==> stamp_of((#[trigger] paths@[k])@) is None,
                Some(b) => {
                    &&& 0 <= b < i
                    &&& stamp_of(paths@[b as int]@) == Some(best_ts as int)
                    &&& forall|k: int|
                        0 <= k < i && stamp_of((#[trigger] paths@[k])@) is Some ==> stamp_of(
                            paths@[k]@,
                        )->Some_0 <= best_ts
                    &&& forall|k: int|
                        0 <= k < b && stamp_of((#[trigger] paths@[k])@) is Some ==> stamp_of(
                            paths@[k]@,
                        )->Some_0 < best_ts
                },
            },
        decreases n - i,
    {
        match extract_timestamp(paths[i].as_str()) {
            Some(ts) => {
                match best {
                    None => {
                        best = Some(i);
                        best_ts = ts;
                    },
                    Some(_) => {
                        if ts > best_ts {
                            best = Some(i);
                            best_ts = ts;
                        }
                    },
                }
            },
            None => {},
        }
        i = i + 1;
    }
    best
}

} // verus!
