//! Which requests pass without a token, and where the token of the others
//! is found.
use vstd::prelude::*;
use vstd::string::{StrSliceExecFns, StringExecFns};

verus! {

/// What the authentication layer does with a request.
#[derive(Debug, PartialEq, Eq)]
pub enum Gate {
    /// The path needs no token: pass the request on.
    Public,
    /// The request carries this bearer token: verify it.
    Verify(String),
    /// The request carries no bearer token: refuse it.
    MissingToken,
}

/// The authentication layer: every request but those to public paths must
/// carry a bearer token.
#[derive(Clone, Copy, Debug)]
pub struct JwtMiddleware;

/// The paths that need no token.
pub open spec fn is_public_path(path: Seq<char>) -> bool {
    path == "/health"@ || path == "/auth/login"@
}

/// The prefix of a bearer token in the `Authorization` header.
pub open spec fn bearer_prefix() -> Seq<char> {
    "Bearer "@
}

impl JwtMiddleware {
    /// Decides, from the request path and the text of its `Authorization`
    /// header (if it has one that is text), whether the request passes, must
    /// be verified with its bearer token, or is refused.
    pub fn gate(&self, path: &str, authorization: Option<&str>) -> (r: Gate)
        ensures
            is_public_path(path@) ==> r == Gate::Public,
            !is_public_path(path@) ==> match authorization {
                Some(h) => if h@.len() >= bearer_prefix().len() && h@.subrange(
                    0,
                    bearer_prefix().len() as int,
                ) == bearer_prefix() {
                    r matches Gate::Verify(t) && t@ == h@.subrange(
                        bearer_prefix().len() as int,
                        h@.len() as int,
                    )
                } else {
                    r == Gate::MissingToken
                },
                None => r == Gate::MissingToken,
            },
    {
        let p = String::from_str(path);
        if p.eq(&String::from_str("/health")) || p.eq(&String::from_str("/auth/login")) {
            return Gate::Public;
        }
        match authorization {
            None => Gate::MissingToken,
            Some(h) => {
                let prefix = "Bearer ";
                proof {
                    reveal_strlit("Bearer ");
                }
                let n = h.unicode_len();
                if n < 7 {
                    return Gate::MissingToken;
                }
                let mut i: usize = 0;
                while i < 7
                    invariant
                        !is_public_path(path@),
                        authorization == Some(h),
                        i <= 7,
                        n == h@.len(),
                        n >= 7,
                        prefix@ == bearer_prefix(),
                        prefix@.len() == 7,
                        forall|j: int| 0 <= j < i ==> h@[j] == prefix@[j],
                    decreases 7 - i,
                {
                    if h.get_char(i) != prefix.get_char(i) {
                        assert(h@.subrange(0, 7)[i as int] != bearer_prefix()[i as int]);
                        return Gate::MissingToken;
                    }
                    i = i + 1;
                }
                assert(h@.subrange(0, 7) =~= bearer_prefix());
                Gate::Verify(String::from_str(h.substring_char(7, n)))
            },
        }
    }
}

} // verus!
