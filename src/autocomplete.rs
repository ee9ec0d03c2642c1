//! Autocompletion: given the line up to the cursor, a suffix to append.
use vstd::prelude::*;

use vstd::string::StringSliceAdditionalSpecFns;

use crate::line::copy_bytes;

verus! {

/// What the engine needs from an autocompletion source.
pub trait Autocomplete: Sized {
    /// The suffix offered for `prefix`, if any.
    spec fn suggestion(&self, prefix: Seq<u8>) -> Option<Seq<u8>>;

    /// The suffix that completes `prefix`, if any.
    fn suggest(&self, prefix: &str) -> (r: Option<Vec<u8>>)
        ensures
            match r {
                Some(s) => self.suggestion(prefix.spec_bytes()) == Some(s@),
                None => self.suggestion(prefix.spec_bytes()) is None,
            },
    ;
}

/// Whether `p` is a prefix of `s`.
pub open spec fn starts_with(s: Seq<u8>, p: Seq<u8>) -> bool {
    p.len() <= s.len() && s.subrange(0, p.len() as int) == p
}

/// The rest of the first name in `names` that starts with `p`; nothing
/// for an empty `p`.
pub open spec fn first_completion(names: Seq<Seq<u8>>, p: Seq<u8>) -> Option<Seq<u8>>
    decreases names.len(),
{
    if p.len() == 0 || names.len() == 0 {
        None
    } else if starts_with(names[0], p) {
        Some(names[0].subrange(p.len() as int, names[0].len() as int))
    } else {
        first_completion(names.drop_first(), p)
    }
}

/// No completion is offered for an empty prefix.
pub proof fn lemma_empty_prefix(names: Seq<Seq<u8>>)
    ensures
        first_completion(names, Seq::empty()) is None,
{
}

/// When exactly one name starts with `p`, the completion is the rest of
/// that name.
pub proof fn lemma_unique_match(names: Seq<Seq<u8>>, p: Seq<u8>, i: int)
    requires
        p.len() > 0,
        0 <= i < names.len(),
        starts_with(names[i], p),
        forall|j: int| 0 <= j < names.len() && j != i ==> !starts_with(#[trigger] names[j], p),
    ensures
        first_completion(names, p) == Some(names[i].subrange(p.len() as int, names[i].len() as int)),
    decreases names.len(),
{
    if i > 0 {
        let rest = names.drop_first();
        assert(!starts_with(names[0], p));
        assert forall|j: int| 0 <= j < rest.len() && j != i - 1 implies !starts_with(#[trigger] rest[j], p) by {
            assert(rest[j] == names[j + 1]);
        }
        lemma_unique_match(rest, p, i - 1);
    }
}

/// Whether `s` starts with `p`.
pub fn has_prefix(s: &[u8], p: &[u8]) -> (r: bool)
    ensures
        r == starts_with(s@, p@),
{
    if p.len() > s.len() {
        return false;
    }
    let mut i: usize = 0;
    while i < p.len()
        invariant
            p@.len() <= s@.len(),
            i <= p@.len(),
            forall|j: int| 0 <= j < i ==> s@[j] == p@[j],
        decreases p@.len() - i,
    {
        if s[i] != p[i] {
            assert(s@.subrange(0, p@.len() as int)[i as int] != p@[i as int]);
            return false;
        }
        i = i + 1;
    }
    assert(s@.subrange(0, p@.len() as int) =~= p@);
    true
}

/// Completion from a fixed list of command names.
pub struct StaticAutocomplete<const N: usize>(pub [&'static str; N]);

impl<const N: usize> StaticAutocomplete<N> {
    /// The names as bytes, in list order.
    pub open spec fn names(&self) -> Seq<Seq<u8>> {
        self.0@.map_values(|s: &'static str| s.spec_bytes())
    }
}

impl<const N: usize> Autocomplete for StaticAutocomplete<N> {
    open spec fn suggestion(&self, prefix: Seq<u8>) -> Option<Seq<u8>> {
        first_completion(self.names(), prefix)
    }

    fn suggest(&self, prefix: &str) -> (r: Option<Vec<u8>>) {
        let p = prefix.as_bytes();
        if p.len() == 0 {
            return None;
        }
        let ghost names = self.names();
        let mut i: usize = 0;
        assert(names.subrange(0, N as int) =~= names);
        while i < N
            invariant
                names == self.names(),
                names.len() == N,
                i <= N,
                p@.len() > 0,
                p@ == prefix.spec_bytes(),
                first_completion(names, p@) == first_completion(names.subrange(i as int, N as int), p@),
            decreases N - i,
        {
            let name = self.0[i].as_bytes();
            assert(names.subrange(i as int, N as int)[0] == name@);
            assert(names.subrange(i as int, N as int).drop_first() =~= names.subrange(i + 1, N as int));
            if has_prefix(name, p) {
                let (_, rest) = name.split_at(p.len());
                let r = copy_bytes(rest);
                assert(r@ =~= name@.subrange(p@.len() as int, name@.len() as int));
                assert(starts_with(names.subrange(i as int, N as int)[0], p@));
                assert(first_completion(names.subrange(i as int, N as int), p@) == Some(r@));
                return Some(r);
            }
            i = i + 1;
        }
        assert(names.subrange(N as int, N as int).len() == 0);
        None
    }
}

} // verus!
