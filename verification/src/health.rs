//! The `/health` endpoint and the probe that asks it.

use crate::text;
use vstd::prelude::*;

verus! {

/// What to answer a request with: the HTTP status and the body.
pub open spec fn response(path: Seq<char>, healthy: bool) -> (u16, Seq<char>) {
    if path != "/health"@ {
        (404, "not found"@)
    } else if healthy {
        (200, "ok"@)
    } else {
        (503, "unhealthy"@)
    }
}

pub fn handle(path: &str, healthy: bool) -> (r: (u16, &'static str))
    ensures
        (r.0, r.1@) == response(path@, healthy),
{
    if !text::is_text(&text::chars_of(path), "/health") {
        return (404, "not found");
    }
    if healthy {
        (200, "ok")
    } else {
        (503, "unhealthy")
    }
}

/// Whether the bytes begin with the characters of an ASCII text.
pub open spec fn starts_with(bytes: Seq<u8>, prefix: Seq<char>) -> bool {
    bytes.len() >= prefix.len() && forall|i: int|
        0 <= i < prefix.len() ==> #[trigger] bytes[i] as int == prefix[i] as int
}

fn begins_with(bytes: &[u8], prefix: &str) -> (r: bool)
    ensures
        r == starts_with(bytes@, prefix@),
{
    let p: Vec<char> = text::chars_of(prefix);
    if bytes.len() < p.len() {
        return false;
    }
    let mut i: usize = 0;
    while i < p.len()
        invariant
            i <= p.len() <= bytes@.len(),
            p@ == prefix@,
            forall|j: int| 0 <= j < i ==> #[trigger] bytes@[j] as int == prefix@[j] as int,
        decreases p.len() - i,
    {
        let c: char = p[i];
        if bytes[i] as char != c {
            assert(bytes@[i as int] as int != prefix@[i as int] as int);
            return false;
        }
        i = i + 1;
    }
    true
}

/// Whether a reply to the probe reports success.
pub fn probe_succeeded(reply: &[u8]) -> (r: bool)
    ensures
        r == (starts_with(reply@, "HTTP/1.1 200"@) || starts_with(reply@, "HTTP/1.0 200"@)),
{
    begins_with(reply, "HTTP/1.1 200") || begins_with(reply, "HTTP/1.0 200")
}

/// The endpoint answers 200 for `/health` of a healthy loop and for nothing else.
pub proof fn law_ok_only_if_healthy(path: Seq<char>, healthy: bool)
    ensures
        response(path, healthy).0 == 200 <==> path == "/health"@ && healthy,
{
}

/// Any other path is not found, and the health of a loop that is not healthy is
/// reported as unavailable.
pub proof fn law_responses(path: Seq<char>, healthy: bool)
    ensures
        path != "/health"@ ==> response(path, healthy) == (404u16, "not found"@),
        response("/health"@, true) == (200u16, "ok"@),
        response("/health"@, false) == (503u16, "unhealthy"@),
{
}

/// Bytes begin with a text exactly if the text is no longer and every character
/// of it is the byte at its place.
pub proof fn law_starts_with(bytes: Seq<u8>, prefix: Seq<char>)
    ensures
        starts_with(bytes, prefix) <==> prefix.len() <= bytes.len() && forall|i: int|
            0 <= i < prefix.len() ==> #[trigger] prefix[i] as int == bytes[i] as int,
{
    if prefix.len() <= bytes.len() && forall|i: int|
        0 <= i < prefix.len() ==> #[trigger] prefix[i] as int == bytes[i] as int {
        assert forall|i: int| 0 <= i < prefix.len() implies #[trigger] bytes[i] as int
            == prefix[i] as int by {
            assert(prefix[i] as int == bytes[i] as int);
        }
    }
    if starts_with(bytes, prefix) {
        assert forall|i: int| 0 <= i < prefix.len() implies #[trigger] prefix[i] as int
            == bytes[i] as int by {
            assert(bytes[i] as int == prefix[i] as int);
        }
    }
}

} // verus!
