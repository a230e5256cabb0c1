//! Which origins may read the responses, and the headers that say so.

use vstd::prelude::*;
use vstd::string::StringSliceAdditionalSpecFns;

verus! {

/// The rule for cross-origin requests.
pub struct CORS;

/// Whether `needle` stands in `hay` at position `at`.
pub open spec fn occurs_at(hay: Seq<u8>, needle: Seq<u8>, at: int) -> bool {
    0 <= at && at + needle.len() <= hay.len() && hay.subrange(at, at + needle.len()) == needle
}

/// Whether `needle` stands somewhere in `hay`.
pub open spec fn occurs(hay: Seq<u8>, needle: Seq<u8>) -> bool {
    exists|at: int| occurs_at(hay, needle, at)
}

/// Whether `needle` stands in `hay` at position `at`.
fn matches_at(hay: &[u8], needle: &[u8], at: usize) -> (found: bool)
    requires
        at + needle@.len() <= hay@.len(),
    ensures
        found == occurs_at(hay@, needle@, at as int),
{
    let total = hay.len();
    let mut k: usize = 0;
    while k < needle.len()
        invariant
            k <= needle@.len(),
            total == hay@.len(),
            at + needle@.len() <= hay@.len(),
            forall|j: int| 0 <= j < k ==> hay@[at + j] == needle@[j],
        decreases needle@.len() - k,
    {
        if hay[at + k] != needle[k] {
            assert(hay@.subrange(at as int, at + needle@.len())[k as int] != needle@[k as int]);
            return false;
        }
        k = k + 1;
    }
    assert(hay@.subrange(at as int, at + needle@.len()) =~= needle@);
    true
}

/// Whether `needle` stands somewhere in `hay`.
pub fn contains_bytes(hay: &[u8], needle: &[u8]) -> (found: bool)
    ensures
        found == occurs(hay@, needle@),
{
    if needle.len() > hay.len() {
        assert(!occurs(hay@, needle@)) by {
            assert forall|at: int| !occurs_at(hay@, needle@, at) by {}
        }
        return false;
    }
    let last = hay.len() - needle.len();
    let mut at: usize = 0;
    loop
        invariant
            last == hay@.len() - needle@.len(),
            at <= last,
            forall|earlier: int| 0 <= earlier < at ==> !occurs_at(hay@, needle@, earlier),
        decreases last - at,
    {
        if matches_at(hay, needle, at) {
            return true;
        }
        if at == last {
            assert(!occurs(hay@, needle@)) by {
                assert forall|at: int| !occurs_at(hay@, needle@, at) by {}
            }
            return false;
        }
        at = at + 1;
    }
}

impl CORS {
    /// Whether responses may be read from `origin`: from the two sites of
    /// the service, and from every origin in which `http://localhost:`
    /// stands.
    pub open spec fn allowed(origin: &str) -> bool {
        ||| origin@ == "http://minecraft.themagicdoor.org:8000"@
        ||| origin@ == "http://minecraft.themagicdoor.org:3000"@
        ||| origin@ == "http://localhost:3000"@
        ||| occurs(origin.spec_bytes(), "http://localhost:".spec_bytes())
    }

    /// The value of the header that names the allowed origin: the origin
    /// itself where it is allowed, none where it is not, and a value that
    /// matches no origin where the request names none.
    pub open spec fn allow_origin_text(origin: Option<&str>) -> Option<Seq<char>> {
        match origin {
            Some(origin) => if Self::allowed(origin) {
                Some(origin@)
            } else {
                None
            },
            None => Some("nothing lmao"@),
        }
    }

    pub fn allow_origin(origin: Option<&str>) -> (value: Option<String>)
        ensures
            match value {
                Some(text) => Self::allow_origin_text(origin) == Some(text@),
                None => Self::allow_origin_text(origin) is None,
            },
    {
        match origin {
            Some(origin) => {
                let given = String::from_str(origin);
                if given == String::from_str("http://minecraft.themagicdoor.org:8000") || given
                    == String::from_str("http://minecraft.themagicdoor.org:3000") || given
                    == String::from_str("http://localhost:3000") || contains_bytes(
                    origin.as_bytes(),
                    "http://localhost:".as_bytes(),
                ) {
                    Some(given)
                } else {
                    None
                }
            },
            None => Some(String::from_str("nothing lmao")),
        }
    }
}

} // verus!
