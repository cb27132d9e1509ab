//! Configuration files and command-line arguments.
//!
//! Configuration is resolved in two phases:
//!
//! 1. A [`Decl`] is validated and resolved: what the user wrote becomes
//!    what a sandbox can be built from.
//! 2. Resolved values are merged with their like ([`Merge`]), right-biased (the
//!    right-hand side wins), and laid over the baseline of their domain
//!    ([`Finalize`]): system mounts, canonical `PATH`, and so on.

use crate::errors::{outcome, same_error, same_outcome, unit_outcome, Error, ErrorView, Result};
use crate::host::{Host, HostView};
use crate::paths::{absolute, beneath, is_absolute, path_beneath, SLASH, TILDE};
use crate::text::copy_bytes;
use crate::values::views;
use vstd::prelude::*;
use vstd::string::*;

pub mod config_file;
pub mod env_var;
pub mod env_vars;
pub mod forward;
pub mod forwards;
pub mod load;
pub mod mount;
pub mod mounts;
pub mod profile;
pub mod proxies;
pub mod proxy;
pub mod resolve_context;
pub mod secret;
pub mod spanned;
pub mod template;
pub mod uses;

use resolve_context::{ContextView, ResolveContext};

verus! {

// ---------------------------------------------------------------------
// Declarations
// ---------------------------------------------------------------------
/// Configuration as the user declared it.
pub trait Decl: View + Sized {
    /// What it resolves to.
    type Resolved: View;

    /// What [`Decl::validate`] answers.
    spec fn validated(me: <Self as View>::V, host: HostView) -> Result<(), ErrorView>;

    /// What [`Decl::resolve`] answers. Of a template that does not render
    /// it says only that it does not.
    spec fn resolved(me: <Self as View>::V, ctx: ContextView) -> Result<
        <Self::Resolved as View>::V,
        ErrorView,
    >;

    /// Find as much as possible of what is wrong with the declaration,
    /// where a later failure would be harder to understand.
    fn validate(&self, host: &Host) -> (r: Result<()>)
        ensures
            unit_outcome(r) == Self::validated(self@, host@),
    ;

    /// Turn the declaration into what it stands for, reading the host's
    /// environment and the secrets from `ctx`.
    fn resolve(&self, ctx: &ResolveContext) -> (r: Result<Self::Resolved>)
        ensures
            same_outcome(outcome(r), Self::resolved(self@, ctx@)),
    ;
}

/// A list of declarations is valid where each is; the first complaint
/// counts.
pub open spec fn validated_all<T: Decl>(v: Seq<<T as View>::V>, host: HostView) -> Result<
    (),
    ErrorView,
>
    decreases v.len(),
{
    if v.len() == 0 {
        Ok(())
    } else {
        match T::validated(v[0], host) {
            Err(e) => Err(e),
            Ok(_) => validated_all::<T>(v.skip(1), host),
        }
    }
}

/// What a list of declarations resolves to, one for one; the first
/// complaint counts.
pub open spec fn resolved_all<T: Decl>(v: Seq<<T as View>::V>, ctx: ContextView) -> Result<
    Seq<<T::Resolved as View>::V>,
    ErrorView,
>
    decreases v.len(),
{
    if v.len() == 0 {
        Ok(Seq::empty())
    } else {
        match T::resolved(v[0], ctx) {
            Err(e) => Err(e),
            Ok(first) => match resolved_all::<T>(v.skip(1), ctx) {
                Err(e) => Err(e),
                Ok(rest) => Ok(seq![first] + rest),
            },
        }
    }
}

/// Validate every declaration of a list.
pub fn validate_all<T: Decl>(v: &Vec<T>, host: &Host) -> (r: Result<()>)
    ensures
        unit_outcome(r) == validated_all::<T>(views(v@), host@),
{
    let ghost all = views(v@);
    let mut i: usize = 0;
    assert(all.skip(0) =~= all);
    while i < v.len()
        invariant
            i <= v@.len(),
            all == views(v@),
            validated_all::<T>(all.skip(i as int), host@) == validated_all::<T>(all, host@),
        decreases v.len() - i,
    {
        assert(all.skip(i as int)[0] == v@[i as int]@);
        match v[i].validate(host) {
            Ok(_) => {},
            Err(e) => {
                return Err(e);
            },
        }
        assert(all.skip(i as int).skip(1) =~= all.skip(i + 1));
        i = i + 1;
    }
    Ok(())
}

/// Resolve every declaration of a list.
pub fn resolve_all<T: Decl>(v: &Vec<T>, ctx: &ResolveContext) -> (r: Result<Vec<T::Resolved>>)
    ensures
        match resolved_all::<T>(views(v@), ctx@) {
            Ok(s) => r matches Ok(w) && views(w@) == s,
            Err(e) => r matches Err(f) && same_error(f@, e),
        },
{
    let ghost all = views(v@);
    let ghost whole = resolved_all::<T>(all, ctx@);
    let mut out: Vec<T::Resolved> = Vec::new();
    let mut i: usize = 0;
    proof {
        assert(all.skip(0) =~= all);
        assert(forall|s: Seq<<T::Resolved as View>::V>| views(out@) + s =~= s);
    }
    while i < v.len()
        invariant
            i <= v@.len(),
            all == views(v@),
            whole == resolved_all::<T>(all, ctx@),
            whole == (match resolved_all::<T>(all.skip(i as int), ctx@) {
                Ok(rest) => Ok(views(out@) + rest),
                Err(e) => Err(e),
            }),
        decreases v.len() - i,
    {
        assert(all.skip(i as int)[0] == v@[i as int]@);
        assert(all.skip(i as int).skip(1) =~= all.skip(i + 1));
        match v[i].resolve(ctx) {
            Ok(x) => {
                let ghost before = views(out@);
                out.push(x);
                proof {
                    assert(views(out@) =~= before.push(x@));
                    assert(forall|s: Seq<<T::Resolved as View>::V>|
                        before + (seq![x@] + s) =~= views(out@) + s);
                }
            },
            Err(e) => {
                return Err(e);
            },
        }
        i = i + 1;
    }
    assert(views(out@) + Seq::<<T::Resolved as View>::V>::empty() =~= views(out@));
    Ok(out)
}

// ---------------------------------------------------------------------
// Finalization
// ---------------------------------------------------------------------
/// Resolved configuration that is merged from several sources.
pub trait Merge: View + Sized {
    /// The value that contributes nothing.
    spec fn neutral_view() -> <Self as View>::V;

    /// What merging `a` and `b` gives.
    spec fn merged(a: <Self as View>::V, b: <Self as View>::V) -> <Self as View>::V;

    /// Merging with the neutral value, on either side, changes nothing.
    proof fn law_neutral(a: <Self as View>::V)
        ensures
            Self::merged(Self::neutral_view(), a) == a,
            Self::merged(a, Self::neutral_view()) == a,
    ;

    /// How a chain of merges is bracketed does not matter.
    proof fn law_associative(a: <Self as View>::V, b: <Self as View>::V, c: <Self as View>::V)
        ensures
            Self::merged(Self::merged(a, b), c) == Self::merged(a, Self::merged(b, c)),
    ;

    /// The value that contributes nothing.
    fn neutral() -> (r: Self)
        ensures
            r@ == Self::neutral_view(),
    ;

    /// Combine two values, preferring `other`.
    fn merge_right_biased(&self, other: &Self) -> (r: Self)
        ensures
            r@ == Self::merged(self@, other@),
    ;
}

/// All values merged from the left.
pub open spec fn merged_all<T: Merge>(values: Seq<<T as View>::V>) -> <T as View>::V
    decreases values.len(),
{
    if values.len() == 0 {
        T::neutral_view()
    } else {
        T::merged(merged_all::<T>(values.drop_last()), values.last())
    }
}

/// Resolved configuration that is merged and then laid over a baseline.
pub trait Finalize: Merge {
    /// The baseline for `me` on `host`.
    spec fn base(me: <Self as View>::V, host: HostView) -> <Self as View>::V;

    /// `me` without the fields that only shape the baseline.
    spec fn cleared(me: <Self as View>::V) -> <Self as View>::V;

    /// Combine all values, a later one winning over an earlier one.
    fn merge_all_right_biased(values: &Vec<Self>) -> (r: Self)
        ensures
            r@ == merged_all::<Self>(views(values@)),
    {
        let ghost all = views(values@);
        let mut acc = Self::neutral();
        let mut i: usize = 0;
        assert(all.take(0) =~= Seq::<<Self as View>::V>::empty());
        while i < values.len()
            invariant
                i <= values@.len(),
                all == views(values@),
                acc@ == merged_all::<Self>(all.take(i as int)),
            decreases values.len() - i,
        {
            acc = acc.merge_right_biased(&values[i]);
            assert(all.take(i + 1).drop_last() =~= all.take(i as int));
            assert(all.take(i + 1).last() == values@[i as int]@);
            i = i + 1;
        }
        assert(all.take(all.len() as int) =~= all);
        acc
    }

    /// The baseline, which is there even where the user configured
    /// nothing. The user's own options may shape it.
    fn base_config(&self, host: &Host) -> (r: Self)
        ensures
            r@ == Self::base(self@, host@),
    ;

    /// Drop the fields that only shape the baseline.
    fn clear_extra_fields(&mut self)
        ensures
            final(self)@ == Self::cleared(old(self)@),
    ;

    /// Lay the configuration over its baseline.
    fn finalize(self, host: &Host) -> (r: Self)
        ensures
            r@ == Self::merged(Self::base(self@, host@), Self::cleared(self@)),
    {
        let mut rest = self;
        let base = rest.base_config(host);
        rest.clear_extra_fields();
        base.merge_right_biased(&rest)
    }
}

/// A configuration laid over its baseline.
pub open spec fn finalized<T: Finalize>(me: <T as View>::V, host: HostView) -> <T as View>::V {
    T::merged(T::base(me, host), T::cleared(me))
}

/// Merging a list may be done in two parts: what layers were merged
/// beforehand makes no difference.
pub proof fn law_merge_in_parts<T: Merge>(a: Seq<<T as View>::V>, b: Seq<<T as View>::V>)
    ensures
        merged_all::<T>(a + b) == T::merged(merged_all::<T>(a), merged_all::<T>(b)),
    decreases b.len(),
{
    if b.len() == 0 {
        assert(a + b =~= a);
        T::law_neutral(merged_all::<T>(a));
    } else {
        law_merge_in_parts::<T>(a, b.drop_last());
        assert((a + b).drop_last() =~= a + b.drop_last());
        assert((a + b).last() == b.last());
        T::law_associative(merged_all::<T>(a), merged_all::<T>(b.drop_last()), b.last());
    }
}

// ---------------------------------------------------------------------
// Paths
// ---------------------------------------------------------------------
/// What a path of the configuration stands for.
///
/// - bare `~`: `home`
/// - leading `~/`: what follows, beneath `home`
/// - any other leading `~`: not supported
/// - leading `/`: unchanged
/// - anything else: not supported
pub open spec fn expanded(p: Seq<u8>, home: Seq<u8>) -> Result<Seq<u8>, ErrorView> {
    if p.len() == 1 && p[0] == TILDE {
        Ok(home)
    } else if p.len() >= 2 && p[0] == TILDE && p[1] == SLASH {
        Ok(beneath(home, p.skip(2)))
    } else if p.len() > 0 && p[0] == TILDE {
        Err(
            ErrorView::ConfigInvalidPath {
                path: p,
                reason: "only `~/` is supported (no `~user/`, `~+`, etc.)"@,
            },
        )
    } else if is_absolute(p) {
        Ok(p)
    } else {
        Err(
            ErrorView::ConfigInvalidPath {
                path: p,
                reason: "relative paths are not supported; use `~/...` or an absolute path"@,
            },
        )
    }
}

/// Expand `~` and `~/` against `home`; reject every path that is not
/// absolute otherwise. The bytes of the path are never decoded.
pub fn expand_tilde(p: &[u8], home: &[u8]) -> (r: Result<Vec<u8>>)
    ensures
        outcome(r) == expanded(p@, home@),
{
    if p.len() == 1 && p[0] == TILDE {
        return Ok(copy_bytes(home));
    }
    if p.len() >= 2 && p[0] == TILDE && p[1] == SLASH {
        let rest = vstd::slice::slice_subrange(p, 2, p.len());
        assert(rest@ =~= p@.skip(2));
        return Ok(path_beneath(home, rest));
    }
    if p.len() > 0 && p[0] == TILDE {
        return Err(
            Error::config_invalid_path(
                copy_bytes(p),
                "only `~/` is supported (no `~user/`, `~+`, etc.)",
            ),
        );
    }
    if absolute(p) {
        return Ok(copy_bytes(p));
    }
    Err(
        Error::config_invalid_path(
            copy_bytes(p),
            "relative paths are not supported; use `~/...` or an absolute path",
        ),
    )
}

/// With an absolute home every path that is accepted becomes absolute,
/// and expanding it a second time changes nothing.
pub proof fn law_expansion_is_absolute(p: Seq<u8>, home: Seq<u8>)
    requires
        is_absolute(home),
    ensures
        expanded(p, home) matches Ok(q) ==> is_absolute(q) && expanded(q, home) == Ok::<
            Seq<u8>,
            ErrorView,
        >(q),
{
}

/// A path beneath `~/` stays beneath the home directory, whatever
/// follows the `~/`.
pub proof fn law_tilde_stays_in_home(p: Seq<u8>, home: Seq<u8>)
    requires
        p.len() >= 2,
        p[0] == TILDE,
        p[1] == SLASH,
    ensures
        expanded(p, home) matches Ok(q) && home.is_prefix_of(q),
{
    crate::paths::law_beneath_stays_beneath(home, p.skip(2));
}

/// A declaration in which paths of the configuration file can stand.
///
/// Only what came from the file is normalized. What came from the
/// command line was expanded by the shell already, and expanding it again
/// would change what the user meant.
pub trait NormalizeConfigPaths: View + Sized {
    /// The declaration with every path expanded against `home`, or the
    /// first complaint.
    spec fn normalized(me: <Self as View>::V, home: Seq<u8>) -> Result<<Self as View>::V, ErrorView>;

    /// Expand every path against `home`. After an error the declaration
    /// may be normalized in part, and is not to be used.
    fn normalize_config_paths(&mut self, home: &[u8]) -> (r: Result<()>)
        ensures
            match Self::normalized(old(self)@, home@) {
                Ok(after) => r is Ok && final(self)@ == after,
                Err(e) => r matches Err(f) && f@ == e,
            },
    ;
}

/// A list with the paths of every declaration expanded; the first
/// complaint counts.
pub open spec fn normalized_all<T: NormalizeConfigPaths>(
    v: Seq<<T as View>::V>,
    home: Seq<u8>,
) -> Result<Seq<<T as View>::V>, ErrorView>
    decreases v.len(),
{
    if v.len() == 0 {
        Ok(Seq::empty())
    } else {
        match T::normalized(v[0], home) {
            Err(e) => Err(e),
            Ok(first) => match normalized_all::<T>(v.skip(1), home) {
                Err(e) => Err(e),
                Ok(rest) => Ok(seq![first] + rest),
            },
        }
    }
}

/// Expand the paths of every declaration of a list.
pub fn normalize_all<T: NormalizeConfigPaths>(v: &mut Vec<T>, home: &[u8]) -> (r: Result<()>)
    ensures
        match normalized_all::<T>(views(old(v)@), home@) {
            Ok(after) => r is Ok && views(final(v)@) == after,
            Err(e) => r matches Err(f) && f@ == e,
        },
{
    let ghost all = views(v@);
    let ghost whole = normalized_all::<T>(all, home@);
    let mut i: usize = 0;
    let n = v.len();
    proof {
        assert(all.skip(0) =~= all);
        assert(forall|s: Seq<<T as View>::V>| views(v@).take(0) + s =~= s);
    }
    while i < n
        invariant
            i <= n,
            n == v@.len(),
            all.len() == n,
            views(v@).skip(i as int) == all.skip(i as int),
            whole == normalized_all::<T>(all, home@),
            all == views(old(v)@),
            whole == (match normalized_all::<T>(all.skip(i as int), home@) {
                Ok(rest) => Ok(views(v@).take(i as int) + rest),
                Err(e) => Err(e),
            }),
        decreases n - i,
    {
        let ghost before = views(v@);
        proof {
            assert(all.skip(i as int)[0] == before.skip(i as int)[0]);
            assert(before.skip(i as int)[0] == v@[i as int]@);
            assert(all.skip(i as int).skip(1) =~= all.skip(i + 1));
        }
        match v[i].normalize_config_paths(home) {
            Ok(_) => {},
            Err(e) => {
                return Err(e);
            },
        }
        proof {
            let x = v@[i as int]@;
            assert(views(v@) =~= before.update(i as int, x));
            assert(views(v@).skip(i + 1) =~= all.skip(i + 1)) by {
                assert forall|j: int| i + 1 <= j < n implies views(v@)[j] == all[j] by {
                    assert(before.skip(i as int)[j - i] == all.skip(i as int)[j - i]);
                }
            }
            assert(views(v@).take(i + 1) =~= before.take(i as int).push(x));
            assert(forall|s: Seq<<T as View>::V>|
                before.take(i as int) + (seq![x] + s) =~= views(v@).take(i + 1) + s);
        }
        i = i + 1;
    }
    proof {
        assert(views(v@).take(n as int) + Seq::<<T as View>::V>::empty() =~= views(v@));
    }
    Ok(())
}

// ---------------------------------------------------------------------
// Laws
// ---------------------------------------------------------------------
/// What a path of the configuration stands for, shape by shape: `~` is the
/// home directory, `~/` puts what follows beneath it, a path that starts
/// with `/` is taken as it is, and everything else is refused with the
/// path that was written.
pub proof fn law_expansion_spelled_out(p: Seq<u8>, rest: Seq<u8>, home: Seq<u8>)
    ensures
        expanded(seq![0x7eu8], home) == Ok::<Seq<u8>, ErrorView>(home),
        home.len() > 0 && home.last() != 0x2fu8 ==> expanded(seq![0x7eu8, 0x2fu8] + rest, home)
            == Ok::<Seq<u8>, ErrorView>(home + seq![0x2fu8] + rest),
        home.len() > 0 && home.last() == 0x2fu8 ==> expanded(seq![0x7eu8, 0x2fu8] + rest, home)
            == Ok::<Seq<u8>, ErrorView>(home + rest),
        rest.len() > 0 && rest[0] != 0x2fu8 ==> expanded(seq![0x7eu8] + rest, home) == Err::<
            Seq<u8>,
            ErrorView,
        >(
            ErrorView::ConfigInvalidPath {
                path: seq![0x7eu8] + rest,
                reason: "only `~/` is supported (no `~user/`, `~+`, etc.)"@,
            },
        ),
        p.len() > 0 && p[0] == 0x2fu8 ==> expanded(p, home) == Ok::<Seq<u8>, ErrorView>(p),
        p.len() == 0 || (p[0] != 0x2fu8 && p[0] != 0x7eu8) ==> expanded(p, home) == Err::<
            Seq<u8>,
            ErrorView,
        >(
            ErrorView::ConfigInvalidPath {
                path: p,
                reason: "relative paths are not supported; use `~/...` or an absolute path"@,
            },
        ),
{
    let under = seq![0x7eu8, 0x2fu8] + rest;
    assert(under.skip(2) =~= rest);
    assert(home.push(0x2fu8) =~= home + seq![0x2fu8]);
    let tilde = seq![0x7eu8] + rest;
    if rest.len() > 0 {
        assert(tilde[0] == 0x7eu8 && tilde[1] == rest[0]);
    }
}

/// A list of declarations is accepted where each of them is, and where it
/// is not the complaint is that of the first that is not.
pub proof fn law_lists_are_validated<T: Decl>(v: Seq<<T as View>::V>, host: HostView, i: int)
    ensures
        validated_all::<T>(v, host) is Ok <==> forall|j: int|
            0 <= j < v.len() ==> T::validated(#[trigger] v[j], host) is Ok,
        0 <= i < v.len() && T::validated(v[i], host) is Err && (forall|j: int|
            0 <= j < i ==> T::validated(#[trigger] v[j], host) is Ok) ==> validated_all::<T>(v, host)
            == T::validated(v[i], host),
    decreases v.len(),
{
    if v.len() > 0 {
        let rest = v.skip(1);
        law_lists_are_validated::<T>(rest, host, i - 1);
        if validated_all::<T>(v, host) is Ok {
            assert forall|j: int| 0 <= j < v.len() implies T::validated(
                #[trigger] v[j],
                host,
            ) is Ok by {
                if j > 0 {
                    assert(rest[j - 1] == v[j]);
                }
            }
        }
        if forall|j: int| 0 <= j < v.len() ==> T::validated(#[trigger] v[j], host) is Ok {
            assert(T::validated(v[0], host) is Ok);
            assert forall|j: int| 0 <= j < rest.len() implies T::validated(
                #[trigger] rest[j],
                host,
            ) is Ok by {
                assert(rest[j] == v[j + 1]);
            }
        }
        if 0 < i < v.len() && T::validated(v[i], host) is Err && (forall|j: int|
            0 <= j < i ==> T::validated(#[trigger] v[j], host) is Ok) {
            assert(T::validated(v[0], host) is Ok);
            assert(rest[i - 1] == v[i]);
            assert forall|j: int| 0 <= j < i - 1 implies T::validated(
                #[trigger] rest[j],
                host,
            ) is Ok by {
                assert(rest[j] == v[j + 1]);
            }
        }
    }
}

/// A list of declarations resolves where each of them does: to one value
/// for each, in order.
pub proof fn law_lists_are_resolved<T: Decl>(v: Seq<<T as View>::V>, ctx: ContextView)
    ensures
        resolved_all::<T>(v, ctx) is Ok <==> forall|j: int|
            0 <= j < v.len() ==> T::resolved(#[trigger] v[j], ctx) is Ok,
        resolved_all::<T>(v, ctx) matches Ok(w) ==> {
            &&& w.len() == v.len()
            &&& forall|j: int|
                0 <= j < v.len() ==> T::resolved(#[trigger] v[j], ctx) == Ok::<
                    <T::Resolved as View>::V,
                    ErrorView,
                >(w[j])
        },
    decreases v.len(),
{
    if v.len() > 0 {
        let rest = v.skip(1);
        law_lists_are_resolved::<T>(rest, ctx);
        if resolved_all::<T>(v, ctx) is Ok {
            let w = resolved_all::<T>(v, ctx)->Ok_0;
            let more = resolved_all::<T>(rest, ctx)->Ok_0;
            assert forall|j: int| 0 <= j < v.len() implies T::resolved(#[trigger] v[j], ctx) == Ok::<
                <T::Resolved as View>::V,
                ErrorView,
            >(w[j]) by {
                if j > 0 {
                    assert(rest[j - 1] == v[j]);
                    assert(w[j] == more[j - 1]);
                }
            }
        }
        if forall|j: int| 0 <= j < v.len() ==> T::resolved(#[trigger] v[j], ctx) is Ok {
            assert(T::resolved(v[0], ctx) is Ok);
            assert forall|j: int| 0 <= j < rest.len() implies T::resolved(
                #[trigger] rest[j],
                ctx,
            ) is Ok by {
                assert(rest[j] == v[j + 1]);
            }
        }
    }
}

/// The paths of a list are expanded where those of each declaration can
/// be: in place, one for one.
pub proof fn law_lists_are_normalized<T: NormalizeConfigPaths>(
    v: Seq<<T as View>::V>,
    home: Seq<u8>,
)
    ensures
        normalized_all::<T>(v, home) is Ok <==> forall|j: int|
            0 <= j < v.len() ==> T::normalized(#[trigger] v[j], home) is Ok,
        normalized_all::<T>(v, home) matches Ok(w) ==> {
            &&& w.len() == v.len()
            &&& forall|j: int|
                0 <= j < v.len() ==> T::normalized(#[trigger] v[j], home) == Ok::<
                    <T as View>::V,
                    ErrorView,
                >(w[j])
        },
    decreases v.len(),
{
    if v.len() > 0 {
        let rest = v.skip(1);
        law_lists_are_normalized::<T>(rest, home);
        if normalized_all::<T>(v, home) is Ok {
            let w = normalized_all::<T>(v, home)->Ok_0;
            let more = normalized_all::<T>(rest, home)->Ok_0;
            assert forall|j: int| 0 <= j < v.len() implies T::normalized(#[trigger] v[j], home)
                == Ok::<<T as View>::V, ErrorView>(w[j]) by {
                if j > 0 {
                    assert(rest[j - 1] == v[j]);
                    assert(w[j] == more[j - 1]);
                }
            }
        }
        if forall|j: int| 0 <= j < v.len() ==> T::normalized(#[trigger] v[j], home) is Ok {
            assert(T::normalized(v[0], home) is Ok);
            assert forall|j: int| 0 <= j < rest.len() implies T::normalized(
                #[trigger] rest[j],
                home,
            ) is Ok by {
                assert(rest[j] == v[j + 1]);
            }
        }
    }
}

/// One layer by itself is what it is, and no layer is nothing: merging adds
/// nothing of its own.
pub proof fn law_one_layer_is_itself<T: Merge>(a: <T as View>::V)
    ensures
        merged_all::<T>(seq![a]) == a,
        merged_all::<T>(Seq::<<T as View>::V>::empty()) == T::neutral_view(),
{
    reveal_with_fuel(merged_all, 2);
    assert(seq![a].drop_last() =~= Seq::<<T as View>::V>::empty());
    assert(seq![a].last() == a);
    T::law_neutral(a);
}

} // verus!
