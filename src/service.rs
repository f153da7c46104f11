//! Decisions of the serving layer and the scheduler: API token check, CSRF
//! check, the rollback cool-down gate, and the wait until the next hourly
//! pass.

use vstd::prelude::*;

verus! {

/// Seconds that must pass between two rollbacks.
pub const ROLLBACK_COOLDOWN_SECS: i64 = 10;

pub open spec fn bearer_text() -> Seq<char> {
    seq!['B', 'e', 'a', 'r', 'e', 'r', ' ']
}

fn strip_bearer(h: &String) -> (r: Option<String>)
    ensures
        match r {
            Some(t) => h@.len() >= 7 && h@.subrange(0, 7) == bearer_text() && t@ == h@.subrange(7, h@.len() as int),
            None => !(h@.len() >= 7 && h@.subrange(0, 7) == bearer_text()),
        },
{
    let prefix = "Bearer ";
    proof {
        reveal_strlit("Bearer ");
    }
    assert(prefix@ =~= bearer_text());
    let n = h.unicode_len();
    if n < 7 {
        return None;
    }
    let mut i: usize = 0;
    while i < 7
        invariant
            n == h@.len(),
            n >= 7,
            prefix@ == bearer_text(),
            prefix@.len() == 7,
            0 <= i <= 7,
            forall|j: int| 0 <= j < i ==> h@[j] == bearer_text()[j],
        decreases 7 - i,
    {
        if h.get_char(i) != prefix.get_char(i) {
            assert(h@.subrange(0, 7)[i as int] != bearer_text()[i as int]);
            return None;
        }
        i = i + 1;
    }
    assert(h@.subrange(0, 7) =~= bearer_text());
    Some(h.as_str().substring_char(7, n).to_owned())
}

/// An API request is let through: no token is configured, or its
/// `Authorization` header is "Bearer " followed by the token.
pub open spec fn api_request_allowed(expected: Option<Seq<char>>, authorization: Option<Seq<char>>) -> bool {
    match expected {
        None => true,
        Some(t) => authorization matches Some(h) && h == bearer_text() + t,
    }
}

/// Whether an API request with this `Authorization` header is let through.
pub fn authorize_api(expected: &Option<String>, authorization: &Option<String>) -> (r: bool)
    ensures
        r == api_request_allowed(
            match expected { Some(t) => Some(t@), None => None },
            match authorization { Some(h) => Some(h@), None => None },
        ),
{
    let t = match expected {
        Some(t) => t,
        None => {
            return true;
        },
    };
    let h = match authorization {
        Some(h) => h,
        None => {
            return false;
        },
    };
    match strip_bearer(h) {
        Some(token) => {
            let ok = token == *t;
            proof {
                if h@.len() >= 7 && h@.subrange(0, 7) == bearer_text() {
                    assert(h@ =~= h@.subrange(0, 7) + h@.subrange(7, h@.len() as int));
                }
                if h@ == bearer_text() + t@ {
                    assert(h@.subrange(0, 7) =~= bearer_text());
                    assert(h@.subrange(7, h@.len() as int) =~= t@);
                }
            }
            ok
        },
        None => {
            proof {
                if h@ == bearer_text() + t@ {
                    assert(h@.subrange(0, 7) =~= bearer_text());
                }
            }
            false
        },
    }
}

/// Whether a state-changing request passes the CSRF check: no token is
/// configured, or its `x-csrf-token` header (empty when absent) equals it.
pub fn csrf_accepts(expected: &Option<String>, provided: &Option<String>) -> (r: bool)
    ensures
        r == (match expected {
            None => true,
            Some(t) => match provided {
                Some(p) => p@ == t@,
                None => t@.len() == 0,
            },
        }),
{
    match expected {
        None => true,
        Some(t) => match provided {
            Some(p) => *p == *t,
            None => t.unicode_len() == 0,
        },
    }
}

/// Whether a rollback at `now` may go ahead, given when the last one was let
/// through (Unix seconds): only after the cool-down has passed.
pub fn rollback_allowed(last: Option<i64>, now: i64) -> (r: bool)
    ensures
        r == (match last {
            None => true,
            Some(l) => now - l >= ROLLBACK_COOLDOWN_SECS,
        }),
{
    match last {
        None => true,
        Some(l) => (now as i128) - (l as i128) >= ROLLBACK_COOLDOWN_SECS as i128,
    }
}

/// Seconds to sleep from minute `minute`, second `second` of an hour until
/// the top of the next hour; at least one.
pub fn secs_until_next_hour(minute: u32, second: u32) -> (r: u64)
    requires
        minute < 60,
        second < 60,
    ensures
        r == 3600 - (minute * 60 + second),
        1 <= r <= 3600,
{
    3600 - (minute as u64 * 60 + second as u64)
}

} // verus!
