//! The bearer-token decision behind the HTTP authentication layer.
use vstd::prelude::*;

use crate::text::{chars_of, is_prefix, same_chars};

verus! {

/// The scheme prefix of an `Authorization` header that carries a bearer token.
pub open spec fn bearer_prefix() -> Seq<char> {
    seq!['B', 'e', 'a', 'r', 'e', 'r', ' ']
}

/// Why a request was refused.
#[derive(Debug, PartialEq, Eq, Structural)]
pub enum AuthRejection {
    /// The header names the bearer scheme, with another token.
    InvalidToken,
    /// No header, or one that does not start with `Bearer `.
    MissingOrMalformed,
}

/// Decides on a request from its `Authorization` header (if it has one that
/// is text): it passes when the header is `Bearer ` followed by exactly the
/// expected token.
pub fn check_bearer(expected: &str, header: Option<&str>) -> (r: Result<(), AuthRejection>)
    ensures
        match header {
            Some(h) => if is_prefix(bearer_prefix(), h@) {
                if h@.skip(7) == expected@ {
                    r == Ok::<(), AuthRejection>(())
                } else {
                    r == Err::<(), AuthRejection>(AuthRejection::InvalidToken)
                }
            } else {
                r == Err::<(), AuthRejection>(AuthRejection::MissingOrMalformed)
            },
            None => r == Err::<(), AuthRejection>(AuthRejection::MissingOrMalformed),
        },
{
    match header {
        Some(h) => {
            let v = chars_of(h);
            let prefix = vec!['B', 'e', 'a', 'r', 'e', 'r', ' '];
            assert(prefix@ =~= bearer_prefix());
            if crate::text::starts_with(&v, &prefix) {
                let mut token: Vec<char> = Vec::new();
                let mut i: usize = 7;
                while i < v.len()
                    invariant
                        7 <= i <= v.len(),
                        token@ =~= v@.subrange(7, i as int),
                    decreases v.len() - i,
                {
                    token.push(v[i]);
                    i = i + 1;
                }
                assert(token@ =~= h@.skip(7));
                if same_chars(&token, &chars_of(expected)) {
                    Ok(())
                } else {
                    Err(AuthRejection::InvalidToken)
                }
            } else {
                Err(AuthRejection::MissingOrMalformed)
            }
        },
        None => Err(AuthRejection::MissingOrMalformed),
    }
}

/// Law: a request passes exactly when its header is `Bearer ` followed by the
/// expected token.
pub proof fn law_bearer_accepts_exactly(h: Seq<char>, expected: Seq<char>)
    ensures
        (is_prefix(bearer_prefix(), h) && h.skip(7) == expected) <==> h == bearer_prefix()
            + expected,
{
    if h == bearer_prefix() + expected {
        assert(h.take(7) =~= bearer_prefix());
        assert(h.skip(7) =~= expected);
    }
    if is_prefix(bearer_prefix(), h) && h.skip(7) == expected {
        assert(h =~= h.take(7) + h.skip(7));
    }
}

} // verus!
