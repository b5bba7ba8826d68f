//! Qualified cross-collection names.
//!
//! A reference is either a bare name, resolved in the collection currently
//! being spawned into, or `collection/name`, split on the first `/`. This
//! is the only namespacing mechanism, so collection names must not
//! themselves contain `/`.
use vstd::prelude::*;

verus! {

use vstd::string::StrSliceExecFns;
use vstd::string::StringExecFns;

/// The position of the first `/` in `s`, if any.
pub open spec fn first_slash(s: Seq<char>) -> Option<int>
    decreases s.len(),
{
    if s.len() == 0 {
        None
    } else if s[0] == '/' {
        Some(0int)
    } else {
        match first_slash(s.skip(1)) {
            Some(i) => Some(i + 1),
            None => None,
        }
    }
}

/// What `first_slash` returns: the first `/`, or nothing.
pub proof fn lemma_first_slash(s: Seq<char>)
    ensures
        match first_slash(s) {
            Some(i) => 0 <= i < s.len() && s[i] == '/' && (forall|j: int|
                0 <= j < i ==> s[j] != '/'),
            None => forall|j: int| 0 <= j < s.len() ==> s[j] != '/',
        },
    decreases s.len(),
{
    if s.len() > 0 && s[0] != '/' {
        lemma_first_slash(s.skip(1));
        match first_slash(s.skip(1)) {
            Some(i) => {
                assert(s.skip(1)[i] == s[i + 1]);
                assert forall|j: int| 0 <= j < i + 1 implies s[j] != '/' by {
                    if j > 0 {
                        assert(s.skip(1)[j - 1] == s[j]);
                    }
                }
            },
            None => {
                assert forall|j: int| 0 <= j < s.len() implies s[j] != '/' by {
                    if j > 0 {
                        assert(s.skip(1)[j - 1] == s[j]);
                    }
                }
            },
        }
    }
}

/// The first `/` is at `i` exactly when `s[i]` is `/` and nothing before
/// it is.
pub proof fn lemma_first_slash_at(s: Seq<char>, i: int)
    requires
        0 <= i < s.len(),
        s[i] == '/',
        forall|j: int| 0 <= j < i ==> s[j] != '/',
    ensures
        first_slash(s) == Some(i),
    decreases i,
{
    if i > 0 {
        lemma_first_slash_at(s.skip(1), i - 1);
    }
}

/// A string without `/` has no split point.
pub proof fn lemma_first_slash_none(s: Seq<char>)
    requires
        forall|j: int| 0 <= j < s.len() ==> s[j] != '/',
    ensures
        first_slash(s) == Option::<int>::None,
    decreases s.len(),
{
    if s.len() > 0 {
        lemma_first_slash_none(s.skip(1));
    }
}

/// A name prefixed with its defining collection: `collection/name`.
pub open spec fn qualify_name(collection: Seq<char>, name: Seq<char>) -> Seq<char> {
    collection + "/"@ + name
}

/// Splits a path at its first `/` into collection segment and remainder.
/// Returns nothing when the path is a bare name.
pub fn split_path(path: &String) -> (r: Option<(String, String)>)
    ensures
        r is Some <==> first_slash(path@) is Some,
        r matches Some((head, tail)) ==> {
            &&& first_slash(path@) matches Some(i)
            &&& head@ == path@.subrange(0, i)
            &&& tail@ == path@.subrange(i + 1, path@.len() as int)
        },
{
    let s = path.as_str();
    let n = s.unicode_len();
    for i in 0..n
        invariant
            n == s@.len(),
            s@ == path@,
            forall|j: int| 0 <= j < i ==> s@[j] != '/',
    {
        if s.get_char(i) == '/' {
            proof {
                lemma_first_slash_at(path@, i as int);
            }
            let head = s.substring_char(0, i);
            let tail = s.substring_char(i + 1, n);
            return Some((head.to_owned(), tail.to_owned()));
        }
    }
    proof {
        lemma_first_slash_none(path@);
    }
    None
}

/// Builds the qualified form `collection/name`.
pub fn build_qualified(collection: &String, name: &String) -> (r: String)
    ensures
        r@ == qualify_name(collection@, name@),
{
    let mut out = collection.clone();
    out.append("/");
    out.append(name.as_str());
    out
}

} // verus!
