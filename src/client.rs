//! The node's side of sending: the collector's URL, which answers count as
//! accepted, and when to retry.

use vstd::prelude::*;
use crate::text::{chars_of, push_str, string_of, push_decimal};

verus! {

/// Why sending a batch failed.
#[derive(Debug, PartialEq, Eq)]
pub enum ClientError {
    Http(String),
    Serialization(String),
    InvalidResponse(u16),
}

impl ClientError {
    pub fn message(&self) -> (r: String) {
        let mut out: Vec<char> = Vec::new();
        match self {
            ClientError::Http(m) => {
                push_str(&mut out, "HTTP error: ");
                push_str(&mut out, m.as_str());
            },
            ClientError::Serialization(m) => {
                push_str(&mut out, "Serialization error: ");
                push_str(&mut out, m.as_str());
            },
            ClientError::InvalidResponse(s) => {
                push_str(&mut out, "Invalid response status: ");
                push_decimal(&mut out, *s as u64);
            },
        }
        string_of(&out)
    }
}

pub open spec fn has_prefix(s: Seq<char>, p: Seq<char>) -> bool {
    p.len() <= s.len() && s.subrange(0, p.len() as int) == p
}

fn starts_with(s: &str, p: &str) -> (r: bool)
    ensures
        r == has_prefix(s@, p@),
{
    let a = chars_of(s);
    let b = chars_of(p);
    if b.len() > a.len() {
        return false;
    }
    let mut i: usize = 0;
    while i < b.len()
        invariant
            a@ == s@,
            b@ == p@,
            b@.len() <= a@.len(),
            i <= b@.len(),
            a@.subrange(0, i as int) == b@.subrange(0, i as int),
        decreases b@.len() - i,
    {
        if a[i] != b[i] {
            assert(a@.subrange(0, b@.len() as int)[i as int] != b@[i as int]);
            return false;
        }
        assert(a@.subrange(0, i + 1) =~= a@.subrange(0, i as int).push(a@[i as int]));
        assert(b@.subrange(0, i + 1) =~= b@.subrange(0, i as int).push(b@[i as int]));
        i = i + 1;
    }
    assert(b@.subrange(0, b@.len() as int) =~= b@);
    true
}

/// The probe endpoint of a collector address; `http://` is added where the
/// address names no scheme.
pub open spec fn collector_url_spec(addr: Seq<char>) -> Seq<char> {
    if has_prefix(addr, "http://"@) || has_prefix(addr, "https://"@) {
        addr + "/api/v1/probe"@
    } else {
        "http://"@ + addr + "/api/v1/probe"@
    }
}

pub fn collector_url(addr: &str) -> (r: String)
    ensures
        r@ == collector_url_spec(addr@),
{
    let mut out: Vec<char> = Vec::new();
    if !(starts_with(addr, "http://") || starts_with(addr, "https://")) {
        push_str(&mut out, "http://");
    }
    push_str(&mut out, addr);
    push_str(&mut out, "/api/v1/probe");
    assert(out@ =~= collector_url_spec(addr@));
    string_of(&out)
}

/// The collector took the batch: `200 OK` or `202 Accepted`.
pub fn check_status(status: u16) -> (r: Result<(), ClientError>)
    ensures
        r is Ok <==> (status == 200 || status == 202),
        r matches Err(e) ==> e == ClientError::InvalidResponse(status),
{
    if status == 202 || status == 200 {
        Ok(())
    } else {
        Err(ClientError::InvalidResponse(status))
    }
}

/// What to do after an attempt to send.
#[derive(Debug, Clone, Copy, PartialEq, Eq, Structural)]
pub enum RetryAction {
    /// The batch was sent.
    Done,
    /// The attempts are used up; the last error stands.
    GiveUp,
    /// Wait this many seconds, then try again.
    Wait(u64),
}

pub open spec fn pow2(k: nat) -> int
    decreases k,
{
    if k == 0 { 1 } else { 2 * pow2((k - 1) as nat) }
}

/// Exponential backoff: 1, 2, 4, ... seconds after the first, second, third
/// failed attempt, held at `u64::MAX`.
pub open spec fn backoff_secs(attempt: nat) -> int {
    let p = pow2((attempt - 1) as nat);
    if p > u64::MAX { u64::MAX as int } else { p }
}

/// The decision after attempt number `attempt` (from 1) out of at most
/// `max_retries`.
pub fn after_attempt(attempt: u32, max_retries: u32, succeeded: bool) -> (r: RetryAction)
    requires
        attempt >= 1,
    ensures
        succeeded ==> r == RetryAction::Done,
        !succeeded && attempt >= max_retries ==> r == RetryAction::GiveUp,
        !succeeded && attempt < max_retries ==> r == RetryAction::Wait(backoff_secs(attempt as nat) as u64),
{
    if succeeded {
        return RetryAction::Done;
    }
    if attempt >= max_retries {
        return RetryAction::GiveUp;
    }
    let mut secs: u64 = 1;
    let mut k: u32 = 1;
    let mut capped = false;
    while k < attempt
        invariant
            1 <= k <= attempt,
            !capped ==> secs == pow2((k - 1) as nat),
            capped ==> secs == u64::MAX && pow2((k - 1) as nat) > u64::MAX,
        decreases attempt - k,
    {
        if !capped {
            if secs > u64::MAX / 2 {
                secs = u64::MAX;
                capped = true;
            } else {
                secs = secs * 2;
            }
        }
        proof { lemma_pow2_grows((k - 1) as nat); }
        k = k + 1;
    }
    RetryAction::Wait(secs)
}

proof fn lemma_pow2_grows(k: nat)
    ensures
        pow2(k + 1) == 2 * pow2(k),
        pow2(k) >= 1,
    decreases k,
{
    if k > 0 {
        lemma_pow2_grows((k - 1) as nat);
    }
}

} // verus!
