//! The order in which profiles apply.
//!
//! A profile names others that it uses. Asking for profiles asks for all
//! that they use, directly or indirectly: those first, then the profile
//! itself. No profile may come up twice, whether because it is asked for
//! twice or because two profiles use it; the user has to say which way
//! they meant. That also rules out cycles, so the walk always ends.

use crate::config::profile::{ProfileDecl, ProfileDeclView};
use crate::errors::{Error, ErrorView, Result};
use crate::name_map::NameMap;
use crate::text::{copy_bytes, str_eq};
use crate::values::views;
use vstd::prelude::*;
use vstd::set_lib::*;
use vstd::string::*;

verus! {

/// How far a walk has come: the profiles that came up, and those that are
/// done, in the order in which they apply.
#[verifier::ext_equal]
pub struct Walk {
    pub seen: Set<Seq<char>>,
    pub order: Seq<Seq<char>>,
}

/// Before the first profile.
pub open spec fn walk_start() -> Walk {
    Walk { seen: Set::empty(), order: seq![] }
}

/// Walk through `names`, in order, and through what each of them uses.
///
/// The profiles that came up never become fewer, which is what
/// `.union(..)` says where it could be left out.
pub open spec fn walk(
    profiles: Map<Seq<char>, ProfileDeclView>,
    names: Seq<Seq<char>>,
    at: Walk,
    config_path: Seq<u8>,
) -> Result<Walk, ErrorView>
    decreases profiles.dom().difference(at.seen).len(),
    when profiles.dom().finite()
    via walk_ends
{
    if names.len() == 0 {
        Ok(at)
    } else if !profiles.contains_key(names[0]) {
        Err(ErrorView::UnknownProfile { name: names[0], config_path })
    } else if at.seen.contains(names[0]) {
        Err(ErrorView::RepeatedProfile { name: names[0], config_path })
    } else {
        let entered = Walk { seen: at.seen.insert(names[0]), order: at.order };
        match walk(profiles, profiles[names[0]].uses, entered, config_path) {
            Err(e) => Err(e),
            Ok(inner) => walk(
                profiles,
                names.skip(1),
                Walk {
                    seen: entered.seen.union(inner.seen),
                    order: inner.order.push(names[0]),
                },
                config_path,
            ),
        }
    }
}

#[via_fn]
proof fn walk_ends(
    profiles: Map<Seq<char>, ProfileDeclView>,
    names: Seq<Seq<char>>,
    at: Walk,
    config_path: Seq<u8>,
) {
    if names.len() > 0 && profiles.contains_key(names[0]) && !at.seen.contains(names[0]) {
        let entered = at.seen.insert(names[0]);
        lemma_fewer_unseen(profiles.dom(), at.seen, entered, names[0]);
        assert forall|more: Set<Seq<char>>|
            profiles.dom().difference(#[trigger] entered.union(more)).len()
                < profiles.dom().difference(at.seen).len() by {
            lemma_fewer_unseen(profiles.dom(), at.seen, entered.union(more), names[0]);
        }
    }
}

/// Where one more name of `all` has come up, fewer are left.
proof fn lemma_fewer_unseen(
    all: Set<Seq<char>>,
    before: Set<Seq<char>>,
    after: Set<Seq<char>>,
    name: Seq<char>,
)
    requires
        all.finite(),
        all.contains(name),
        !before.contains(name),
        after.contains(name),
        before.subset_of(after),
    ensures
        all.difference(after).len() < all.difference(before).len(),
{
    let b = all.difference(before);
    let a = all.difference(after);
    assert(a.subset_of(b.remove(name)));
    lemma_len_subset(a, b.remove(name));
}

/// A walk never forgets: what had come up still has, and what was done
/// stays where it is.
pub proof fn lemma_walk_grows(
    profiles: Map<Seq<char>, ProfileDeclView>,
    names: Seq<Seq<char>>,
    at: Walk,
    config_path: Seq<u8>,
)
    requires
        profiles.dom().finite(),
    ensures
        walk(profiles, names, at, config_path) matches Ok(end) ==> at.seen.subset_of(end.seen)
            && at.order.is_prefix_of(end.order),
    decreases profiles.dom().difference(at.seen).len(),
{
    if names.len() > 0 && profiles.contains_key(names[0]) && !at.seen.contains(names[0]) {
        let entered = Walk { seen: at.seen.insert(names[0]), order: at.order };
        let uses = profiles[names[0]].uses;
        lemma_fewer_unseen(profiles.dom(), at.seen, entered.seen, names[0]);
        lemma_walk_grows(profiles, uses, entered, config_path);
        match walk(profiles, uses, entered, config_path) {
            Err(_) => {},
            Ok(inner) => {
                let next = Walk {
                    seen: entered.seen.union(inner.seen),
                    order: inner.order.push(names[0]),
                };
                lemma_fewer_unseen(profiles.dom(), at.seen, next.seen, names[0]);
                lemma_walk_grows(profiles, names.skip(1), next, config_path);
                match walk(profiles, names.skip(1), next, config_path) {
                    Err(_) => {},
                    Ok(end) => {
                        assert(at.order =~= end.order.subrange(0, at.order.len() as int)) by {
                            assert(at.order == inner.order.subrange(0, at.order.len() as int));
                            assert(next.order == end.order.subrange(0, next.order.len() as int));
                            assert forall|i: int| 0 <= i < at.order.len() implies at.order[i]
                                == end.order[i] by {
                                assert(at.order[i] == inner.order.subrange(
                                    0,
                                    at.order.len() as int,
                                )[i]);
                                assert(next.order[i] == end.order.subrange(
                                    0,
                                    next.order.len() as int,
                                )[i]);
                            }
                        }
                    },
                }
            },
        }
    }
}

/// Does `x` stand in `s` before index `i`?
pub open spec fn stands_before(s: Seq<Seq<char>>, i: int, x: Seq<char>) -> bool {
    exists|j: int| 0 <= j < i && j < s.len() && #[trigger] s[j] == x
}

/// Does `x` stand in `s` somewhere before `y`?
pub open spec fn precedes(s: Seq<Seq<char>>, x: Seq<char>, y: Seq<char>) -> bool {
    exists|i: int, j: int| 0 <= i < j < s.len() && #[trigger] s[i] == x && #[trigger] s[j] == y
}

/// Do the names stand in `s` in their own order, from left to right?
pub open spec fn keeps_order(names: Seq<Seq<char>>, s: Seq<Seq<char>>) -> bool {
    forall|i: int, j: int|
        0 <= i < j < names.len() ==> precedes(s, #[trigger] names[i], #[trigger] names[j])
}

/// What holds of the profiles `done` that a walk through `names` added,
/// where those in `seen` had come up before.
pub open spec fn walked_well(
    profiles: Map<Seq<char>, ProfileDeclView>,
    names: Seq<Seq<char>>,
    seen: Set<Seq<char>>,
    done: Seq<Seq<char>>,
) -> bool {
    // Each is defined, comes up once, and did not come up before.
    &&& done.no_duplicates()
    &&& forall|i: int|
        0 <= i < done.len() ==> profiles.contains_key(#[trigger] done[i]) && !seen.contains(
            done[i],
        )
    // All that were asked for are there, each asked for once.
    &&& names.no_duplicates()
    &&& forall|i: int| 0 <= i < names.len() ==> done.contains(#[trigger] names[i])
    // They stand there from left to right, and so does what a profile uses.
    &&& keeps_order(names, done)
    &&& forall|i: int|
        0 <= i < done.len() ==> keeps_order((#[trigger] profiles[done[i]]).uses, done)
    // What a profile uses comes before it.
    &&& forall|i: int, d: Seq<char>|
        0 <= i < done.len() && #[trigger] profiles[done[i]].uses.contains(d) ==> stands_before(
            done,
            i,
            d,
        )
    // Nothing is used twice, nor both used and asked for.
    &&& forall|i: int|
        0 <= i < done.len() ==> (#[trigger] profiles[done[i]]).uses.no_duplicates()
    &&& forall|i: int, j: int, d: Seq<char>|
        0 <= i < done.len() && 0 <= j < done.len() && i != j
            && #[trigger] profiles[done[i]].uses.contains(d)
            ==> !(#[trigger] profiles[done[j]].uses.contains(d))
    &&& forall|i: int, d: Seq<char>|
        0 <= i < done.len() && #[trigger] profiles[done[i]].uses.contains(d) ==> !names.contains(d)
    // Nothing is there that nobody asked for or uses.
    &&& forall|i: int|
        0 <= i < done.len() ==> names.contains(#[trigger] done[i]) || used_by_one(
            profiles,
            done,
            done[i],
        )
}

/// Does one of `done` use `x`?
pub open spec fn used_by_one(
    profiles: Map<Seq<char>, ProfileDeclView>,
    done: Seq<Seq<char>>,
    x: Seq<char>,
) -> bool {
    exists|k: int| 0 <= k < done.len() && #[trigger] profiles[done[k]].uses.contains(x)
}

/// What a walk adds.
pub open spec fn added(at: Walk, end: Walk) -> Seq<Seq<char>> {
    end.order.skip(at.order.len() as int)
}

/// A walk that succeeds has walked well, and what came up is what had
/// come up before and what it added.
pub proof fn lemma_walks_well(
    profiles: Map<Seq<char>, ProfileDeclView>,
    names: Seq<Seq<char>>,
    at: Walk,
    config_path: Seq<u8>,
)
    requires
        profiles.dom().finite(),
    ensures
        walk(profiles, names, at, config_path) matches Ok(end) ==> walked_well(
            profiles,
            names,
            at.seen,
            added(at, end),
        ) && end.seen == at.seen.union(added(at, end).to_set()) && end.order == at.order + added(
            at,
            end,
        ),
    decreases profiles.dom().difference(at.seen).len(),
{
    if names.len() == 0 {
        assert(added(at, at) =~= Seq::<Seq<char>>::empty());
        assert(at.seen =~= at.seen.union(added(at, at).to_set()));
        assert(at.order =~= at.order + added(at, at));
    } else if profiles.contains_key(names[0]) && !at.seen.contains(names[0]) {
        let n = names[0];
        let rest = names.skip(1);
        let entered = Walk { seen: at.seen.insert(n), order: at.order };
        let uses = profiles[n].uses;
        lemma_fewer_unseen(profiles.dom(), at.seen, entered.seen, n);
        lemma_walks_well(profiles, uses, entered, config_path);
        match walk(profiles, uses, entered, config_path) {
            Err(_) => {},
            Ok(inner) => {
                let next = Walk {
                    seen: entered.seen.union(inner.seen),
                    order: inner.order.push(n),
                };
                lemma_fewer_unseen(profiles.dom(), at.seen, next.seen, n);
                lemma_walks_well(profiles, rest, next, config_path);
                match walk(profiles, rest, next, config_path) {
                    Err(_) => {},
                    Ok(end) => {
                        let a = added(entered, inner);
                        let b = added(next, end);
                        let done = added(at, end);
                        assert(end.order =~= at.order + (a.push(n) + b));
                        assert(done =~= a.push(n) + b);
                        assert(next.seen =~= at.seen.insert(n).union(a.to_set()));
                        lemma_join_walks(profiles, n, rest, at.seen, a, b);
                        assert(names =~= seq![n] + rest);
                        assert(end.seen =~= at.seen.union(done.to_set())) by {
                            assert forall|x: Seq<char>|
                                end.seen.contains(x) == at.seen.union(done.to_set()).contains(x) by {
                                lemma_in_join(a, n, b, x);
                            }
                        }
                    },
                }
            },
        }
    }
}

/// What stands in `a`, then `n`, then `b`.
proof fn lemma_in_join(a: Seq<Seq<char>>, n: Seq<char>, b: Seq<Seq<char>>, x: Seq<char>)
    ensures
        (a.push(n) + b).contains(x) == (a.contains(x) || x == n || b.contains(x)),
{
    let done = a.push(n) + b;
    if a.contains(x) {
        let i = choose|i: int| 0 <= i < a.len() && a[i] == x;
        assert(done[i] == x);
    }
    if x == n {
        assert(done[a.len() as int] == x);
    }
    if b.contains(x) {
        let i = choose|i: int| 0 <= i < b.len() && b[i] == x;
        assert(done[a.len() + 1 + i] == x);
    }
    if done.contains(x) {
        let i = choose|i: int| 0 <= i < done.len() && done[i] == x;
        if i < a.len() {
            assert(a[i] == x);
        } else if i > a.len() {
            assert(b[i - a.len() - 1] == x);
        }
    }
}

/// What stands in order in `a` or in `b` stands so in `a`, then `n`, then
/// `b`.
proof fn lemma_order_in_join(
    a: Seq<Seq<char>>,
    n: Seq<char>,
    b: Seq<Seq<char>>,
    names: Seq<Seq<char>>,
)
    requires
        keeps_order(names, a) || keeps_order(names, b),
    ensures
        keeps_order(names, a.push(n) + b),
{
    let done = a.push(n) + b;
    assert forall|x: int, y: int| 0 <= x < y < names.len() implies precedes(
        done,
        #[trigger] names[x],
        #[trigger] names[y],
    ) by {
        if keeps_order(names, a) {
            assert(precedes(a, names[x], names[y]));
            let (i, j) = choose|i: int, j: int|
                0 <= i < j < a.len() && #[trigger] a[i] == names[x] && #[trigger] a[j] == names[y];
            assert(done[i] == names[x] && done[j] == names[y]);
        } else {
            assert(precedes(b, names[x], names[y]));
            let (i, j) = choose|i: int, j: int|
                0 <= i < j < b.len() && #[trigger] b[i] == names[x] && #[trigger] b[j] == names[y];
            let m = a.len() as int + 1;
            assert(done[m + i] == names[x] && done[m + j] == names[y]);
        }
    }
}

/// A walk through what `n` uses, then `n`, then a walk through the rest,
/// is a walk through `n` and the rest.
proof fn lemma_join_walks(
    profiles: Map<Seq<char>, ProfileDeclView>,
    n: Seq<char>,
    rest: Seq<Seq<char>>,
    seen: Set<Seq<char>>,
    a: Seq<Seq<char>>,
    b: Seq<Seq<char>>,
)
    requires
        profiles.contains_key(n),
        !seen.contains(n),
        walked_well(profiles, profiles[n].uses, seen.insert(n), a),
        walked_well(profiles, rest, seen.insert(n).union(a.to_set()), b),
    ensures
        walked_well(profiles, seq![n] + rest, seen, a.push(n) + b),
{
    let names = seq![n] + rest;
    let done = a.push(n) + b;
    let uses = profiles[n].uses;
    let m = a.len() as int;
    // Where each of `done` comes from.
    assert forall|i: int| 0 <= i < m implies #[trigger] done[i] == a[i] by {}
    assert(done[m] == n);
    assert forall|i: int| m < i < done.len() implies #[trigger] done[i] == b[i - m - 1] by {}
    assert forall|i: int| 0 <= i < a.len() implies !b.contains(#[trigger] a[i]) && a[i] != n by {
        assert(a.to_set().contains(a[i]));
        if b.contains(a[i]) {
            let j = choose|j: int| 0 <= j < b.len() && b[j] == a[i];
            assert(!seen.insert(n).union(a.to_set()).contains(b[j]));
        }
    }
    assert forall|j: int| 0 <= j < b.len() implies b[j] != n by {
        assert(!seen.insert(n).union(a.to_set()).contains(b[j]));
    }
    assert(done.no_duplicates()) by {
        assert forall|i: int, j: int| 0 <= i < done.len() && 0 <= j < done.len() && i != j implies done[i]
            != done[j] by {
            if i < m && j > m {
                assert(!b.contains(a[i]));
                assert(b.contains(b[j - m - 1]));
            }
            if j < m && i > m {
                assert(!b.contains(a[j]));
                assert(b.contains(b[i - m - 1]));
            }
        }
    }
    assert forall|i: int| 0 <= i < done.len() implies profiles.contains_key(#[trigger] done[i])
        && !seen.contains(done[i]) by {
        if i < m {
            assert(!seen.insert(n).contains(a[i]));
        } else if i > m {
            assert(!seen.insert(n).union(a.to_set()).contains(b[i - m - 1]));
        }
    }
    assert forall|i: int| 0 <= i < names.len() implies done.contains(#[trigger] names[i]) by {
        lemma_in_join(a, n, b, names[i]);
        if i > 0 {
            assert(names[i] == rest[i - 1]);
        }
    }
    assert(names.no_duplicates()) by {
        assert forall|i: int, j: int|
            0 <= i < names.len() && 0 <= j < names.len() && i != j implies names[i] != names[j] by {
            if i > 0 {
                assert(names[i] == rest[i - 1]);
                assert(b.contains(rest[i - 1]));
            }
            if j > 0 {
                assert(names[j] == rest[j - 1]);
                assert(b.contains(rest[j - 1]));
            }
        }
    }
    assert(keeps_order(names, done)) by {
        lemma_order_in_join(a, n, b, rest);
        assert forall|x: int, y: int| 0 <= x < y < names.len() implies precedes(
            done,
            #[trigger] names[x],
            #[trigger] names[y],
        ) by {
            assert(names[y] == rest[y - 1]);
            if x > 0 {
                assert(names[x] == rest[x - 1]);
            } else {
                assert(b.contains(rest[y - 1]));
                let k = choose|k: int| 0 <= k < b.len() && b[k] == rest[y - 1];
                assert(done[m] == names[x] && done[m + 1 + k] == names[y]);
            }
        }
    }
    assert forall|i: int| 0 <= i < done.len() implies keeps_order(
        (#[trigger] profiles[done[i]]).uses,
        done,
    ) by {
        if i < m {
            assert(keeps_order(profiles[a[i]].uses, a));
        } else if i > m {
            assert(keeps_order(profiles[b[i - m - 1]].uses, b));
        }
        lemma_order_in_join(a, n, b, profiles[done[i]].uses);
    }
    // Whoever uses `d`, `d` belongs to the same part.
    assert forall|i: int, d: Seq<char>|
        0 <= i < done.len() && #[trigger] profiles[done[i]].uses.contains(d) implies stands_before(
        done,
        i,
        d,
    ) && (i <= m ==> a.contains(d)) && (i > m ==> b.contains(d)) by {
        if i < m {
            assert(profiles[a[i]].uses.contains(d));
            assert(stands_before(a, i, d));
            let j = choose|j: int| 0 <= j < i && j < a.len() && #[trigger] a[j] == d;
            assert(done[j] == d);
        } else if i == m {
            let k = choose|k: int| 0 <= k < uses.len() && uses[k] == d;
            assert(a.contains(uses[k]));
            let j = choose|j: int| 0 <= j < a.len() && a[j] == d;
            assert(done[j] == d);
        } else {
            assert(profiles[b[i - m - 1]].uses.contains(d));
            assert(stands_before(b, i - m - 1, d));
            let j = choose|j: int| 0 <= j < i - m - 1 && j < b.len() && #[trigger] b[j] == d;
            assert(done[m + 1 + j] == d);
        }
    }
    assert forall|i: int, j: int, d: Seq<char>|
        0 <= i < done.len() && 0 <= j < done.len() && i != j
            && #[trigger] profiles[done[i]].uses.contains(d) implies !(
    #[trigger] profiles[done[j]].uses.contains(d)) by {
        if profiles[done[j]].uses.contains(d) {
            if i <= m && j > m || j <= m && i > m {
                assert(a.contains(d) && b.contains(d));
                let k = choose|k: int| 0 <= k < a.len() && a[k] == d;
                assert(!b.contains(a[k]));
            } else if i < m && j < m {
                assert(profiles[a[i]].uses.contains(d) && profiles[a[j]].uses.contains(d));
            } else if i < m && j == m {
                assert(profiles[a[i]].uses.contains(d));
                assert(uses.contains(d));
            } else if i == m && j < m {
                assert(profiles[a[j]].uses.contains(d));
                assert(uses.contains(d));
            } else {
                assert(profiles[b[i - m - 1]].uses.contains(d) && profiles[b[j - m
                    - 1]].uses.contains(d));
            }
        }
    }
    assert forall|i: int, d: Seq<char>|
        0 <= i < done.len() && #[trigger] profiles[done[i]].uses.contains(d) implies !names.contains(
        d,
    ) by {
        if names.contains(d) {
            let k = choose|k: int| 0 <= k < names.len() && names[k] == d;
            if k == 0 {
                if i <= m {
                    let j = choose|j: int| 0 <= j < a.len() && a[j] == d;
                    assert(a[j] != n);
                } else {
                    let j = choose|j: int| 0 <= j < b.len() && b[j] == d;
                    assert(b[j] != n);
                }
            } else {
                assert(rest[k - 1] == d);
                assert(b.contains(d));
                if i <= m {
                    let j = choose|j: int| 0 <= j < a.len() && a[j] == d;
                    assert(!b.contains(a[j]));
                } else {
                    assert(profiles[b[i - m - 1]].uses.contains(d));
                    assert(rest.contains(d));
                }
            }
        }
    }
    assert forall|i: int| 0 <= i < done.len() implies names.contains(#[trigger] done[i])
        || used_by_one(profiles, done, done[i]) by {
        if i < m {
            if uses.contains(a[i]) {
                assert(profiles[done[m]].uses.contains(done[i]));
            } else {
                let k = choose|k: int|
                    0 <= k < a.len() && #[trigger] profiles[a[k]].uses.contains(a[i]);
                assert(profiles[done[k]].uses.contains(done[i]));
            }
        } else if i == m {
            assert(names[0] == n);
        } else {
            let x = b[i - m - 1];
            if rest.contains(x) {
                let k = choose|k: int| 0 <= k < rest.len() && rest[k] == x;
                assert(names[k + 1] == x);
            } else {
                let k = choose|k: int|
                    0 <= k < b.len() && #[trigger] profiles[b[k]].uses.contains(x);
                assert(profiles[done[m + 1 + k]].uses.contains(done[i]));
            }
        }
    }
}

// ---------------------------------------------------------------------
// Walking
// ---------------------------------------------------------------------
/// Is `name` among `names`?
fn has_name(names: &Vec<String>, name: &str) -> (r: bool)
    ensures
        r == views(names@).contains(name@),
{
    let mut i: usize = 0;
    while i < names.len()
        invariant
            i <= names@.len(),
            forall|j: int| 0 <= j < i ==> views(names@)[j] != name@,
        decreases names.len() - i,
    {
        assert(views(names@)[i as int] == names@[i as int]@);
        if str_eq(names[i].as_str(), name) {
            return true;
        }
        i = i + 1;
    }
    false
}

/// How far the walk has come.
pub open spec fn walk_at(seen: Seq<String>, order: Seq<String>) -> Walk {
    Walk { seen: views(seen).to_set(), order: views(order) }
}

/// Walk through `names` and what they use.
fn walk_names(
    profiles: &NameMap<ProfileDecl>,
    names: &Vec<String>,
    seen: &mut Vec<String>,
    order: &mut Vec<String>,
    config_path: &[u8],
) -> (r: Result<()>)
    ensures
        match walk(profiles@, views(names@), walk_at(old(seen)@, old(order)@), config_path@) {
            Ok(end) => r is Ok && walk_at(final(seen)@, final(order)@) == end,
            Err(e) => r matches Err(f) && f@ == e,
        },
    decreases profiles@.dom().difference(views(old(seen)@).to_set()).len(),
{
    let ghost all = views(names@);
    let ghost start = walk_at(seen@, order@);
    let mut i: usize = 0;
    proof {
        profiles.lemma_finite();
        assert(all.skip(0) =~= all);
    }
    while i < names.len()
        invariant
            i <= names@.len(),
            all == views(names@),
            profiles@.dom().finite(),
            start == walk_at(old(seen)@, old(order)@),
            start.seen.subset_of(views(seen@).to_set()),
            walk(profiles@, all.skip(i as int), walk_at(seen@, order@), config_path@) == walk(
                profiles@,
                all,
                start,
                config_path@,
            ),
        decreases names.len() - i,
    {
        let ghost at = walk_at(seen@, order@);
        let name = names[i].as_str();
        proof {
            assert(all.skip(i as int)[0] == name@);
            assert(all.skip(i as int).skip(1) =~= all.skip(i + 1));
        }
        match profiles.get(name) {
            None => {
                return Err(Error::unknown_profile(name, copy_bytes(config_path)));
            },
            Some(profile) => {
                if has_name(seen, name) {
                    return Err(Error::repeated_profile(name, copy_bytes(config_path)));
                }
                let ghost before = seen@;
                seen.push(name.to_owned());
                proof {
                    assert(views(seen@) =~= views(before).push(name@));
                    lemma_push_to_set(views(before), name@);
                    lemma_fewer_unseen(
                        profiles@.dom(),
                        start.seen,
                        views(seen@).to_set(),
                        name@,
                    );
                    lemma_walk_grows(
                        profiles@,
                        profile@.uses,
                        walk_at(seen@, order@),
                        config_path@,
                    );
                }
                let ghost entered = walk_at(seen@, order@);
                match walk_names(profiles, &profile.uses, seen, order, config_path) {
                    Ok(_) => {},
                    Err(e) => {
                        return Err(e);
                    },
                }
                let ghost inner = walk_at(seen@, order@);
                order.push(name.to_owned());
                proof {
                    assert(views(order@) =~= inner.order.push(name@));
                    assert(entered.seen.union(inner.seen) =~= inner.seen);
                }
            },
        }
        i = i + 1;
    }
    Ok(())
}

/// Appending a name adds it to the names.
proof fn lemma_push_to_set(s: Seq<Seq<char>>, x: Seq<char>)
    ensures
        s.push(x).to_set() == s.to_set().insert(x),
{
    assert forall|y: Seq<char>| s.push(x).to_set().contains(y) == s.to_set().insert(x).contains(
        y,
    ) by {
        if s.contains(y) {
            let i = choose|i: int| 0 <= i < s.len() && s[i] == y;
            assert(s.push(x)[i] == y);
        }
        assert(s.push(x)[s.len() as int] == x);
    }
    assert(s.push(x).to_set() =~= s.to_set().insert(x));
}

/// The names of all profiles to apply, in order: what `requested` asks
/// for, and all that they use.
pub fn walk_all(
    profiles: &NameMap<ProfileDecl>,
    requested: &Vec<String>,
    config_path: &[u8],
) -> (r: Result<Vec<String>>)
    ensures
        profiles@.dom().finite(),
        match walk(profiles@, views(requested@), walk_start(), config_path@) {
            Ok(end) => r matches Ok(v) && views(v@) == end.order,
            Err(e) => r matches Err(f) && f@ == e,
        },
{
    let mut seen: Vec<String> = Vec::new();
    let mut order: Vec<String> = Vec::new();
    proof {
        profiles.lemma_finite();
        assert(walk_at(seen@, order@) =~= walk_start()) by {
            assert(views(seen@).to_set() =~= Set::<Seq<char>>::empty());
            assert(views(order@) =~= Seq::<Seq<char>>::empty());
        }
    }
    match walk_names(profiles, requested, &mut seen, &mut order, config_path) {
        Ok(_) => Ok(order),
        Err(e) => Err(e),
    }
}

// ---------------------------------------------------------------------
// Laws
// ---------------------------------------------------------------------
/// What applies is exactly what was asked for and what that uses: every
/// profile once, what it uses before it, and nothing else. What was asked
/// for applies from left to right, and so does what a profile uses.
pub proof fn law_application_order(
    profiles: Map<Seq<char>, ProfileDeclView>,
    requested: Seq<Seq<char>>,
    config_path: Seq<u8>,
)
    requires
        profiles.dom().finite(),
    ensures
        walk(profiles, requested, walk_start(), config_path) matches Ok(end) ==> {
            let order = end.order;
            &&& order.no_duplicates()
            &&& forall|i: int| 0 <= i < requested.len() ==> order.contains(#[trigger] requested[i])
            &&& forall|i: int|
                0 <= i < order.len() ==> profiles.contains_key(#[trigger] order[i]) && (
                requested.contains(order[i]) || used_by_one(profiles, order, order[i]))
            &&& forall|i: int, d: Seq<char>|
                0 <= i < order.len() && #[trigger] profiles[order[i]].uses.contains(d)
                    ==> stands_before(order, i, d)
            &&& keeps_order(requested, order)
            &&& forall|i: int|
                0 <= i < order.len() ==> keeps_order((#[trigger] profiles[order[i]]).uses, order)
        },
{
    lemma_walks_well(profiles, requested, walk_start(), config_path);
    match walk(profiles, requested, walk_start(), config_path) {
        Ok(end) => {
            assert(added(walk_start(), end) =~= end.order);
        },
        Err(_) => {},
    }
}

/// No profile is ever pulled in twice: one that is asked for twice, that
/// the applying profiles use twice, or that is both asked for and used,
/// makes the walk fail.
pub proof fn law_repeats_are_rejected(
    profiles: Map<Seq<char>, ProfileDeclView>,
    requested: Seq<Seq<char>>,
    config_path: Seq<u8>,
)
    requires
        profiles.dom().finite(),
    ensures
        walk(profiles, requested, walk_start(), config_path) matches Ok(end) ==> {
            let order = end.order;
            &&& requested.no_duplicates()
            &&& forall|i: int|
                0 <= i < order.len() ==> (#[trigger] profiles[order[i]]).uses.no_duplicates()
            &&& forall|i: int, j: int, d: Seq<char>|
                0 <= i < order.len() && 0 <= j < order.len() && i != j
                    && #[trigger] profiles[order[i]].uses.contains(d)
                    ==> !(#[trigger] profiles[order[j]].uses.contains(d))
            &&& forall|i: int, d: Seq<char>|
                0 <= i < order.len() && #[trigger] profiles[order[i]].uses.contains(d)
                    ==> !requested.contains(d)
        },
{
    lemma_walks_well(profiles, requested, walk_start(), config_path);
    match walk(profiles, requested, walk_start(), config_path) {
        Ok(end) => {
            assert(added(walk_start(), end) =~= end.order);
        },
        Err(_) => {},
    }
}

/// Does everything that is asked for, or used by one of `all`, lie within
/// `all`, where each profile is defined and comes up at most once?
pub open spec fn comes_up_once(
    profiles: Map<Seq<char>, ProfileDeclView>,
    requested: Seq<Seq<char>>,
    all: Set<Seq<char>>,
) -> bool {
    // Each is defined, and nothing leads out.
    &&& forall|n: Seq<char>| #[trigger] all.contains(n) ==> profiles.contains_key(n)
    &&& forall|i: int| 0 <= i < requested.len() ==> all.contains(#[trigger] requested[i])
    &&& forall|n: Seq<char>, d: Seq<char>|
        all.contains(n) && #[trigger] profiles[n].uses.contains(d) ==> all.contains(d)
    // Nothing is asked for twice, nor used twice, nor both.
    &&& requested.no_duplicates()
    &&& forall|n: Seq<char>| all.contains(n) ==> (#[trigger] profiles[n]).uses.no_duplicates()
    &&& forall|n: Seq<char>, m: Seq<char>, d: Seq<char>|
        all.contains(n) && all.contains(m) && n != m && #[trigger] profiles[n].uses.contains(d)
            ==> !(#[trigger] profiles[m].uses.contains(d))
    &&& forall|n: Seq<char>, d: Seq<char>|
        all.contains(n) && #[trigger] profiles[n].uses.contains(d) ==> !requested.contains(d)
}

/// Is `d` asked for, or used by one of `seen`?
spec fn is_due(
    profiles: Map<Seq<char>, ProfileDeclView>,
    requested: Seq<Seq<char>>,
    seen: Set<Seq<char>>,
    d: Seq<char>,
) -> bool {
    requested.contains(d) || exists|o: Seq<char>|
        seen.contains(o) && #[trigger] profiles[o].uses.contains(d)
}

/// What is due once cannot be used by a profile that has not come up.
proof fn lemma_due_once(
    profiles: Map<Seq<char>, ProfileDeclView>,
    requested: Seq<Seq<char>>,
    all: Set<Seq<char>>,
    seen: Set<Seq<char>>,
    d: Seq<char>,
    n: Seq<char>,
)
    requires
        comes_up_once(profiles, requested, all),
        seen.subset_of(all),
        is_due(profiles, requested, seen, d),
        all.contains(n),
        !seen.contains(n),
    ensures
        !profiles[n].uses.contains(d),
{
    if profiles[n].uses.contains(d) {
        assert(!requested.contains(d));
        let o = choose|o: Seq<char>| seen.contains(o) && #[trigger] profiles[o].uses.contains(d);
        assert(all.contains(o) && o != n);
    }
}

/// A walk through names that are due and have not come up succeeds. What
/// it lets come up was among the names, or is used by what it let come up.
proof fn lemma_walk_succeeds(
    profiles: Map<Seq<char>, ProfileDeclView>,
    requested: Seq<Seq<char>>,
    all: Set<Seq<char>>,
    names: Seq<Seq<char>>,
    at: Walk,
    config_path: Seq<u8>,
)
    requires
        profiles.dom().finite(),
        comes_up_once(profiles, requested, all),
        at.seen.subset_of(all),
        names.no_duplicates(),
        forall|i: int|
            0 <= i < names.len() ==> all.contains(#[trigger] names[i]) && !at.seen.contains(names[i])
                && is_due(profiles, requested, at.seen, names[i]),
        forall|d: Seq<char>| #[trigger]
            at.seen.contains(d) ==> is_due(profiles, requested, at.seen, d),
    ensures
        walk(profiles, names, at, config_path) matches Ok(end) && at.seen.subset_of(end.seen)
            && end.seen.subset_of(all) && (forall|d: Seq<char>| #[trigger]
            end.seen.contains(d) && !at.seen.contains(d) ==> names.contains(d) || exists|
                o: Seq<char>,
            |
                end.seen.contains(o) && !at.seen.contains(o)
                    && #[trigger] profiles[o].uses.contains(d)),
    decreases profiles.dom().difference(at.seen).len(),
{
    if names.len() > 0 {
        let n = names[0];
        let rest = names.skip(1);
        let uses = profiles[n].uses;
        let entered = Walk { seen: at.seen.insert(n), order: at.order };
        assert(all.contains(n));
        lemma_fewer_unseen(profiles.dom(), at.seen, entered.seen, n);
        assert forall|d: Seq<char>| #[trigger] entered.seen.contains(d) implies is_due(
            profiles,
            requested,
            entered.seen,
            d,
        ) by {
            lemma_due_stays(profiles, requested, at.seen, entered.seen, d);
        }
        assert forall|i: int| 0 <= i < uses.len() implies all.contains(#[trigger] uses[i])
            && !entered.seen.contains(uses[i]) && is_due(
            profiles,
            requested,
            entered.seen,
            uses[i],
        ) by {
            let d = uses[i];
            assert(profiles[n].uses.contains(d));
            if at.seen.contains(d) || d == n {
                lemma_due_once(profiles, requested, all, at.seen, d, n);
            }
            assert(entered.seen.contains(n));
        }
        assert(profiles[n].uses.no_duplicates());
        lemma_walk_succeeds(profiles, requested, all, uses, entered, config_path);
        let inner = walk(profiles, uses, entered, config_path)->Ok_0;
        let next = Walk { seen: entered.seen.union(inner.seen), order: inner.order.push(n) };
        assert(next.seen =~= inner.seen);
        lemma_fewer_unseen(profiles.dom(), at.seen, next.seen, n);
        assert forall|d: Seq<char>| #[trigger] next.seen.contains(d) implies is_due(
            profiles,
            requested,
            next.seen,
            d,
        ) by {
            if entered.seen.contains(d) {
                lemma_due_stays(profiles, requested, entered.seen, next.seen, d);
            } else if uses.contains(d) {
                assert(next.seen.contains(n));
            } else {
                let o = choose|o: Seq<char>|
                    inner.seen.contains(o) && !entered.seen.contains(o)
                        && #[trigger] profiles[o].uses.contains(d);
                assert(next.seen.contains(o));
            }
        }
        assert forall|i: int| 0 <= i < rest.len() implies all.contains(#[trigger] rest[i])
            && !next.seen.contains(rest[i]) && is_due(
            profiles,
            requested,
            next.seen,
            rest[i],
        ) by {
            let d = rest[i];
            assert(d == names[i + 1]);
            assert(d != n);
            lemma_due_stays(profiles, requested, at.seen, next.seen, d);
            if next.seen.contains(d) {
                if uses.contains(d) {
                    lemma_due_once(profiles, requested, all, at.seen, d, n);
                } else {
                    let o = choose|o: Seq<char>|
                        inner.seen.contains(o) && !entered.seen.contains(o)
                            && #[trigger] profiles[o].uses.contains(d);
                    lemma_due_once(profiles, requested, all, at.seen, d, o);
                }
            }
        }
        assert forall|i: int, j: int| 0 <= i < rest.len() && 0 <= j < rest.len() && i
            != j implies rest[i] != rest[j] by {
            assert(rest[i] == names[i + 1] && rest[j] == names[j + 1]);
        }
        lemma_walk_succeeds(profiles, requested, all, rest, next, config_path);
        let end = walk(profiles, rest, next, config_path)->Ok_0;
        assert forall|d: Seq<char>| #[trigger]
            end.seen.contains(d) && !at.seen.contains(d) implies names.contains(d) || exists|
            o: Seq<char>,
        |
            end.seen.contains(o) && !at.seen.contains(o) && #[trigger] profiles[o].uses.contains(
                d,
            ) by {
            if d == n {
                assert(names.contains(names[0]));
            } else if next.seen.contains(d) {
                if uses.contains(d) {
                    assert(end.seen.contains(n) && !at.seen.contains(n));
                } else {
                    let o = choose|o: Seq<char>|
                        inner.seen.contains(o) && !entered.seen.contains(o)
                            && #[trigger] profiles[o].uses.contains(d);
                    assert(end.seen.contains(o) && !at.seen.contains(o));
                }
            } else if rest.contains(d) {
                let i = choose|i: int| 0 <= i < rest.len() && rest[i] == d;
                assert(names[i + 1] == d);
            } else {
                let o = choose|o: Seq<char>|
                    end.seen.contains(o) && !next.seen.contains(o)
                        && #[trigger] profiles[o].uses.contains(d);
                assert(!at.seen.contains(o));
            }
        }
    }
}

/// What is due stays due.
proof fn lemma_due_stays(
    profiles: Map<Seq<char>, ProfileDeclView>,
    requested: Seq<Seq<char>>,
    before: Set<Seq<char>>,
    after: Set<Seq<char>>,
    d: Seq<char>,
)
    requires
        before.subset_of(after),
        is_due(profiles, requested, before, d),
    ensures
        is_due(profiles, requested, after, d),
{
    if !requested.contains(d) {
        let o = choose|o: Seq<char>| before.contains(o) && #[trigger] profiles[o].uses.contains(d);
        assert(after.contains(o));
    }
}

/// A walk succeeds wherever it may: if everything that is asked for or
/// used is defined, and nothing comes up twice, the profiles apply.
pub proof fn law_success_is_owed(
    profiles: Map<Seq<char>, ProfileDeclView>,
    requested: Seq<Seq<char>>,
    all: Set<Seq<char>>,
    config_path: Seq<u8>,
)
    requires
        profiles.dom().finite(),
        comes_up_once(profiles, requested, all),
    ensures
        walk(profiles, requested, walk_start(), config_path) is Ok,
{
    assert forall|i: int| 0 <= i < requested.len() implies is_due(
        profiles,
        requested,
        Set::empty(),
        #[trigger] requested[i],
    ) by {
        assert(requested.contains(requested[i]));
    }
    lemma_walk_succeeds(profiles, requested, all, requested, walk_start(), config_path);
}

/// A walk that fails names the culprit: a profile that is not defined, or
/// one that is defined and came up before.
pub proof fn law_failure_names_culprit(
    profiles: Map<Seq<char>, ProfileDeclView>,
    names: Seq<Seq<char>>,
    at: Walk,
    config_path: Seq<u8>,
)
    requires
        profiles.dom().finite(),
    ensures
        walk(profiles, names, at, config_path) matches Err(e) ==> {
            ||| e matches ErrorView::UnknownProfile { name, config_path: p } && p == config_path
                && !profiles.contains_key(name)
            ||| e matches ErrorView::RepeatedProfile { name, config_path: p } && p == config_path
                && profiles.contains_key(name)
        },
    decreases profiles.dom().difference(at.seen).len(),
{
    if names.len() > 0 && profiles.contains_key(names[0]) && !at.seen.contains(names[0]) {
        let entered = Walk { seen: at.seen.insert(names[0]), order: at.order };
        let uses = profiles[names[0]].uses;
        lemma_fewer_unseen(profiles.dom(), at.seen, entered.seen, names[0]);
        law_failure_names_culprit(profiles, uses, entered, config_path);
        match walk(profiles, uses, entered, config_path) {
            Err(_) => {},
            Ok(inner) => {
                let next = Walk {
                    seen: entered.seen.union(inner.seen),
                    order: inner.order.push(names[0]),
                };
                lemma_fewer_unseen(profiles.dom(), at.seen, next.seen, names[0]);
                law_failure_names_culprit(profiles, names.skip(1), next, config_path);
            },
        }
    }
}

// ---------------------------------------------------------------------
// Where profiles come up
// ---------------------------------------------------------------------
/// The names that are asked for, or those that a profile uses.
pub open spec fn listed(
    profiles: Map<Seq<char>, ProfileDeclView>,
    requested: Seq<Seq<char>>,
    owner: Option<Seq<char>>,
) -> Seq<Seq<char>> {
    match owner {
        None => requested,
        Some(o) => profiles[o].uses,
    }
}

/// Does `name` come up in this place: at this index of those that are asked
/// for, or of those that this profile uses?
pub open spec fn comes_up_at(
    profiles: Map<Seq<char>, ProfileDeclView>,
    requested: Seq<Seq<char>>,
    place: (Option<Seq<char>>, int),
    name: Seq<char>,
) -> bool {
    &&& place.0 matches Some(o) ==> profiles.contains_key(o)
    &&& 0 <= place.1 < listed(profiles, requested, place.0).len()
    &&& listed(profiles, requested, place.0)[place.1] == name
}

/// Does `name` come up anywhere?
pub open spec fn comes_up(
    profiles: Map<Seq<char>, ProfileDeclView>,
    requested: Seq<Seq<char>>,
    name: Seq<char>,
) -> bool {
    exists|p: (Option<Seq<char>>, int)| #[trigger] comes_up_at(profiles, requested, p, name)
}

/// Does `name` come up in two places?
pub open spec fn comes_up_twice(
    profiles: Map<Seq<char>, ProfileDeclView>,
    requested: Seq<Seq<char>>,
    name: Seq<char>,
) -> bool {
    exists|p: (Option<Seq<char>>, int), q: (Option<Seq<char>>, int)|
        p != q && #[trigger] comes_up_at(profiles, requested, p, name)
            && #[trigger] comes_up_at(profiles, requested, q, name)
}

/// Did each that has come up do so in one of these places?
spec fn accounted_for(
    profiles: Map<Seq<char>, ProfileDeclView>,
    requested: Seq<Seq<char>>,
    seen: Set<Seq<char>>,
    done: Set<(Option<Seq<char>>, int)>,
) -> bool {
    &&& forall|s: Seq<char>| #[trigger]
        seen.contains(s) ==> exists|p: (Option<Seq<char>>, int)|
            done.contains(p) && #[trigger] comes_up_at(profiles, requested, p, s)
    &&& forall|o: Seq<char>, j: int|
        !seen.contains(o) ==> !#[trigger] done.contains((Some(o), j))
}

/// Is this what a walk through a list may come to, given the places that it
/// had been to before and after?
spec fn placed_well(
    profiles: Map<Seq<char>, ProfileDeclView>,
    requested: Seq<Seq<char>>,
    owner: Option<Seq<char>>,
    at: Walk,
    done: Set<(Option<Seq<char>>, int)>,
    after: Set<(Option<Seq<char>>, int)>,
    r: Result<Walk, ErrorView>,
) -> bool {
    match r {
        Ok(end) => {
            &&& accounted_for(profiles, requested, end.seen, after)
            &&& forall|o: Option<Seq<char>>, j: int|
                o != owner && (o matches Some(n) ==> at.seen.contains(n))
                    && #[trigger] after.contains((o, j)) ==> done.contains((o, j))
        },
        Err(ErrorView::RepeatedProfile { name, .. }) => comes_up_twice(profiles, requested, name),
        Err(ErrorView::UnknownProfile { name, .. }) => comes_up(profiles, requested, name),
        Err(_) => true,
    }
}

/// A walk goes to each place once: what it finds to have come up before did
/// so in another place.
proof fn lemma_walk_places(
    profiles: Map<Seq<char>, ProfileDeclView>,
    requested: Seq<Seq<char>>,
    owner: Option<Seq<char>>,
    k: int,
    at: Walk,
    done: Set<(Option<Seq<char>>, int)>,
    config_path: Seq<u8>,
) -> (after: Set<(Option<Seq<char>>, int)>)
    requires
        profiles.dom().finite(),
        owner matches Some(o) ==> profiles.contains_key(o) && at.seen.contains(o),
        0 <= k <= listed(profiles, requested, owner).len(),
        accounted_for(profiles, requested, at.seen, done),
        forall|j: int| k <= j ==> !#[trigger] done.contains((owner, j)),
    ensures
        placed_well(
            profiles,
            requested,
            owner,
            at,
            done,
            after,
            walk(profiles, listed(profiles, requested, owner).skip(k), at, config_path),
        ),
    decreases profiles.dom().difference(at.seen).len(),
{
    let list = listed(profiles, requested, owner);
    let names = list.skip(k);
    if names.len() == 0 {
        done
    } else {
        let n = names[0];
        let here = (owner, k);
        assert(comes_up_at(profiles, requested, here, n));
        if !profiles.contains_key(n) {
            let e = ErrorView::UnknownProfile { name: n, config_path };
            assert(comes_up_at(profiles, requested, here, n));
            assert(comes_up(profiles, requested, n));
            assert(walk(profiles, names, at, config_path) == Err::<Walk, ErrorView>(e));
            assert(placed_well(profiles, requested, owner, at, done, done, Err(e)));
            done
        } else if at.seen.contains(n) {
            let p = choose|p: (Option<Seq<char>>, int)|
                done.contains(p) && #[trigger] comes_up_at(profiles, requested, p, n);
            assert(!done.contains((owner, k)));
            assert(p != here);
            assert(comes_up_twice(profiles, requested, n));
            let e = ErrorView::RepeatedProfile { name: n, config_path };
            assert(walk(profiles, names, at, config_path) == Err::<Walk, ErrorView>(e));
            assert(placed_well(profiles, requested, owner, at, done, done, Err(e)));
            done
        } else {
            let entered = Walk { seen: at.seen.insert(n), order: at.order };
            let uses = profiles[n].uses;
            let done1 = done.insert(here);
            assert(uses.skip(0) =~= uses);
            assert(accounted_for(profiles, requested, entered.seen, done1)) by {
                assert forall|s: Seq<char>| #[trigger] entered.seen.contains(s) implies exists|
                    p: (Option<Seq<char>>, int),
                |
                    done1.contains(p) && #[trigger] comes_up_at(profiles, requested, p, s) by {
                    if s == n {
                        assert(done1.contains(here));
                    } else {
                        assert(at.seen.contains(s));
                        let p = choose|p: (Option<Seq<char>>, int)|
                            done.contains(p) && #[trigger] comes_up_at(profiles, requested, p, s);
                        assert(done1.contains(p));
                    }
                }
            }
            lemma_fewer_unseen(profiles.dom(), at.seen, entered.seen, n);
            let done2 = lemma_walk_places(
                profiles,
                requested,
                Some(n),
                0,
                entered,
                done1,
                config_path,
            );
            assert(listed(profiles, requested, Some(n)).skip(0) == uses);
            match walk(profiles, uses, entered, config_path) {
                Err(e) => {
                    assert(walk(profiles, names, at, config_path) == Err::<Walk, ErrorView>(e));
                    assert(placed_well(profiles, requested, Some(n), entered, done1, done2, Err(e)));
                    assert(placed_well(profiles, requested, owner, at, done, done2, Err(e)));
                    done2
                },
                Ok(inner) => {
                    lemma_walk_grows(profiles, uses, entered, config_path);
                    let next = Walk {
                        seen: entered.seen.union(inner.seen),
                        order: inner.order.push(n),
                    };
                    assert(next.seen =~= inner.seen);
                    assert(walk(profiles, names, at, config_path) == walk(
                        profiles,
                        names.skip(1),
                        next,
                        config_path,
                    ));
                    lemma_fewer_unseen(profiles.dom(), at.seen, next.seen, n);
                    assert(names.skip(1) =~= list.skip(k + 1));
                    assert forall|j: int| k + 1 <= j implies !#[trigger] done2.contains(
                        (owner, j),
                    ) by {
                        if done2.contains((owner, j)) {
                            assert(done1.contains((owner, j)));
                            assert(!done.contains((owner, j)));
                        }
                    }
                    let done3 = lemma_walk_places(
                        profiles,
                        requested,
                        owner,
                        k + 1,
                        next,
                        done2,
                        config_path,
                    );
                    let r = walk(profiles, names.skip(1), next, config_path);
                    assert(placed_well(profiles, requested, owner, next, done2, done3, r));
                    if r is Ok {
                        assert forall|o: Option<Seq<char>>, j: int|
                            o != owner && (o matches Some(m) ==> at.seen.contains(m))
                                && #[trigger] done3.contains((o, j)) implies done.contains(
                            (o, j),
                        ) by {
                            assert(done2.contains((o, j)));
                            assert(done1.contains((o, j)));
                        }
                    }
                    assert(placed_well(profiles, requested, owner, at, done, done3, r));
                    done3
                },
            }
        }
    }
}

/// A walk that fails names what came up: a profile that is not defined was
/// asked for or is used, and one that is called repeated comes up in two
/// places.
pub proof fn law_culprits_came_up(
    profiles: Map<Seq<char>, ProfileDeclView>,
    requested: Seq<Seq<char>>,
    config_path: Seq<u8>,
)
    requires
        profiles.dom().finite(),
    ensures
        walk(profiles, requested, walk_start(), config_path) matches Err(
            ErrorView::RepeatedProfile { name, .. },
        ) ==> comes_up_twice(profiles, requested, name),
        walk(profiles, requested, walk_start(), config_path) matches Err(
            ErrorView::UnknownProfile { name, .. },
        ) ==> comes_up(profiles, requested, name),
{
    assert(requested.skip(0) =~= requested);
    let after = lemma_walk_places(
        profiles,
        requested,
        None,
        0,
        walk_start(),
        Set::empty(),
        config_path,
    );
}

} // verus!
