//! Branch names: the reference of a local branch, the branches that a remote
//! advertises, and the readable names of a listing.

use vstd::prelude::*;
use crate::text::strip_prefix_text;

verus! {

/// The namespace of branch heads.
pub open spec fn heads_prefix() -> Seq<char> {
    "refs/heads/"@
}

/// The full reference of the local branch `name`.
pub fn local_branch_ref(name: &str) -> (r: String)
    ensures
        r@ == heads_prefix() + name@,
{
    let mut r = String::from_str("refs/heads/");
    r.append(name);
    r
}

/// The branch that an advertised reference names: the rest of it after the
/// namespace of branch heads; none for a reference outside that namespace.
pub open spec fn branch_of(reference: Seq<char>) -> Option<Seq<char>> {
    let p = heads_prefix();
    if p.len() <= reference.len() && reference.subrange(0, p.len() as int) == p {
        Some(reference.subrange(p.len() as int, reference.len() as int))
    } else {
        None
    }
}

/// The branches among advertised references, in their order.
pub open spec fn branches_among(refs: Seq<Seq<char>>) -> Seq<Seq<char>>
    decreases refs.len(),
{
    if refs.len() == 0 {
        Seq::empty()
    } else {
        let rest = branches_among(refs.drop_last());
        match branch_of(refs.last()) {
            Some(b) => rest.push(b),
            None => rest,
        }
    }
}

/// Texts as values.
pub open spec fn texts(v: Seq<String>) -> Seq<Seq<char>> {
    v.map_values(|s: String| s@)
}

/// The branch names that a remote advertises, out of its reference names.
pub fn remote_branch_names(refs: &Vec<String>) -> (r: Vec<String>)
    ensures
        texts(r@) == branches_among(texts(refs@)),
{
    let mut r: Vec<String> = Vec::new();
    let mut i: usize = 0;
    while i < refs.len()
        invariant
            i <= refs.len(),
            texts(r@) == branches_among(texts(refs@).take(i as int)),
        decreases refs.len() - i,
    {
        let ghost before = r@;
        assert(texts(refs@).take(i as int + 1).drop_last() =~= texts(refs@).take(i as int));
        assert(texts(refs@).take(i as int + 1).last() == refs@[i as int]@);
        let prefix = "refs/heads/";
        match strip_prefix_text(refs[i].as_str(), prefix) {
            Some(b) => {
                r.push(b);
                assert(texts(r@) =~= texts(before).push(r@.last()@));
            },
            None => {},
        }
        i = i + 1;
    }
    assert(texts(refs@).take(refs@.len() as int) =~= texts(refs@));
    r
}

/// The names that could be read, in their order.
pub open spec fn readable(names: Seq<Option<String>>) -> Seq<String>
    decreases names.len(),
{
    if names.len() == 0 {
        Seq::empty()
    } else {
        let rest = readable(names.drop_last());
        match names.last() {
            Some(n) => rest.push(n),
            None => rest,
        }
    }
}

/// Keeps the names that could be read; a name that is not valid UTF-8 comes
/// as none and is skipped.
pub fn readable_names(names: Vec<Option<String>>) -> (r: Vec<String>)
    ensures
        r@ == readable(names@),
{
    let ghost all = names@;
    let mut r: Vec<String> = Vec::new();
    for n in it: names.into_iter()
        invariant
            it.seq() == all,
            r@ == readable(all.take(it.index())),
    {
        assert(all.take(it.index() + 1).drop_last() =~= all.take(it.index()));
        assert(all.take(it.index() + 1).last() == n);
        match n {
            Some(s) => r.push(s),
            None => {},
        }
    }
    assert(all.take(all.len() as int) =~= all);
    r
}

} // verus!
