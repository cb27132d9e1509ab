//! Values, what they mean, and copies of them.

use crate::text::copy_bytes;
use vstd::prelude::*;

verus! {

/// What each value of a list means.
pub open spec fn views<T: View>(v: Seq<T>) -> Seq<T::V> {
    v.map_values(|t: T| t@)
}

/// What an optional value means.
pub open spec fn opt_view<T: View>(o: Option<T>) -> Option<T::V> {
    match o {
        Some(t) => Some(t@),
        None => None,
    }
}

/// What a result in words means, with the reason in words where there is
/// none.
pub open spec fn text_result(r: std::result::Result<String, String>) -> std::result::Result<
    Seq<char>,
    Seq<char>,
> {
    match r {
        Ok(s) => Ok(s@),
        Err(e) => Err(e@),
    }
}

/// A value that can be copied; the copy means the same.
pub trait Duplicate: View + Sized {
    /// The copy.
    fn duplicate(&self) -> (r: Self)
        ensures
            r@ == self@,
    ;
}

impl Duplicate for String {
    fn duplicate(&self) -> (r: String) {
        self.clone()
    }
}

impl Duplicate for Vec<u8> {
    fn duplicate(&self) -> (r: Vec<u8>) {
        copy_bytes(self.as_slice())
    }
}

/// Copy every value of a list.
pub fn duplicate_all<T: Duplicate>(v: &Vec<T>) -> (r: Vec<T>)
    ensures
        views(r@) == views(v@),
{
    let mut out: Vec<T> = Vec::new();
    push_duplicates(&mut out, v);
    assert(Seq::<T::V>::empty() + views(v@) =~= views(v@));
    out
}

/// Append a copy of every value of `v` to `out`.
pub fn push_duplicates<T: Duplicate>(out: &mut Vec<T>, v: &Vec<T>)
    ensures
        views(final(out)@) == views(old(out)@) + views(v@),
{
    let mut i: usize = 0;
    assert(views(v@).take(0) =~= Seq::<T::V>::empty());
    assert(views(old(out)@) + Seq::<T::V>::empty() =~= views(old(out)@));
    while i < v.len()
        invariant
            i <= v@.len(),
            views(out@) == views(old(out)@) + views(v@).take(i as int),
        decreases v.len() - i,
    {
        let ghost before = out@;
        out.push(v[i].duplicate());
        proof {
            assert(views(out@) =~= views(before).push(v@[i as int]@));
            assert(views(v@).take(i + 1) =~= views(v@).take(i as int).push(v@[i as int]@));
        }
        i = i + 1;
    }
    assert(views(v@).take(v@.len() as int) =~= views(v@));
}

/// Copy an optional value.
pub fn duplicate_opt<T: Duplicate>(o: &Option<T>) -> (r: Option<T>)
    ensures
        opt_view(r) == opt_view(*o),
{
    match o {
        Some(t) => Some(t.duplicate()),
        None => None,
    }
}

} // verus!
