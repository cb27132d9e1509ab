//! Profiles: everything that a `[profile.NAME]` block or a command line
//! can say about a sandbox.
//!
//! A block and a command line are declared in the same terms
//! ([`ProfileDecl`]) and resolve to the same thing ([`Profile`]). Each of
//! the parts has its own rules for merging and its own baseline; the
//! whole has none of its own.

use crate::config::env_var::EnvVarDecl;
use crate::config::env_vars::{EnvVarDecls, EnvVarDeclsView, EnvVars, EnvVarsView};
use crate::config::forward::ForwardDecl;
use crate::config::forwards::{ForwardDecls, ForwardDeclsView, Forwards, ForwardsView};
use crate::config::mount::{MountDecl, MountDeclView};
use crate::config::mounts::{MountDecls, MountDeclsView, Mounts, MountsView};
use crate::config::proxies::{Proxies, ProxiesView, ProxyDecls, ProxyDeclsView};
use crate::config::proxy::{ProxyAction, ProxyDecl};
use crate::config::resolve_context::{ContextView, ResolveContext};
use crate::config::{finalized, Decl, Finalize, Merge, NormalizeConfigPaths};
use crate::errors::{ErrorView, Result};
use crate::host::{Host, HostView};
use crate::text::{bytes_of, utf8};
use crate::values::{duplicate_all, opt_view, views, Duplicate};
use vstd::prelude::*;
use vstd::string::*;

verus! {

// ---------------------------------------------------------------------
// Declarations
// ---------------------------------------------------------------------
/// A declared profile.
#[derive(Debug)]
pub struct ProfileDecl {
    /// The profiles that this one pulls in. No profile may be pulled in
    /// twice.
    pub uses: Vec<String>,
    /// The mounts.
    pub mount_decls: MountDecls,
    /// The forwards.
    pub forward_decls: ForwardDecls,
    /// The environment variables.
    pub env_decls: EnvVarDecls,
    /// The destinations of the proxy.
    pub proxy_decls: ProxyDecls,
}

/// What a [`ProfileDecl`] says.
#[verifier::ext_equal]
pub struct ProfileDeclView {
    pub uses: Seq<Seq<char>>,
    pub mount_decls: MountDeclsView,
    pub forward_decls: ForwardDeclsView,
    pub env_decls: EnvVarDeclsView,
    pub proxy_decls: ProxyDeclsView,
}

impl View for ProfileDecl {
    type V = ProfileDeclView;

    open spec fn view(&self) -> ProfileDeclView {
        ProfileDeclView {
            uses: views(self.uses@),
            mount_decls: self.mount_decls@,
            forward_decls: self.forward_decls@,
            env_decls: self.env_decls@,
            proxy_decls: self.proxy_decls@,
        }
    }
}

impl Duplicate for ProfileDecl {
    fn duplicate(&self) -> (r: ProfileDecl) {
        ProfileDecl {
            uses: duplicate_all(&self.uses),
            mount_decls: self.mount_decls.duplicate(),
            forward_decls: self.forward_decls.duplicate(),
            env_decls: self.env_decls.duplicate(),
            proxy_decls: self.proxy_decls.duplicate(),
        }
    }
}

/// A profile that declares nothing.
pub open spec fn empty_decl() -> ProfileDeclView {
    ProfileDeclView {
        uses: seq![],
        mount_decls: MountDeclsView { mounts: seq![], readonly: None },
        forward_decls: ForwardDeclsView { forwards: seq![] },
        env_decls: EnvVarDeclsView { env: seq![], path: None, path_add: seq![] },
        proxy_decls: ProxyDeclsView { public_web: None, proxies: seq![] },
    }
}

impl Default for ProfileDecl {
    /// A profile that declares nothing.
    fn default() -> (r: ProfileDecl)
        ensures
            r@ == empty_decl(),
    {
        let r = ProfileDecl {
            uses: Vec::new(),
            mount_decls: MountDecls::default(),
            forward_decls: ForwardDecls::default(),
            env_decls: EnvVarDecls::default(),
            proxy_decls: ProxyDecls::default(),
        };
        assert(r@.uses =~= Seq::<Seq<char>>::empty());
        r
    }
}

/// The keys of a `[profile.NAME]` block, side by side as the file has
/// them. The file is UTF-8, so its paths are strings.
pub struct ProfileBlock {
    /// `uses`
    pub uses: Vec<String>,
    /// `mounts`
    pub mounts: Vec<MountDecl>,
    /// `readonly`
    pub readonly: Option<bool>,
    /// `forwards`
    pub forwards: Vec<ForwardDecl>,
    /// `env`
    pub env: Vec<EnvVarDecl>,
    /// `path`
    pub path: Option<String>,
    /// `path_add`
    pub path_add: Vec<String>,
    /// `public_web`
    pub public_web: Option<ProxyAction>,
    /// `proxies`
    pub proxies: Vec<ProxyDecl>,
}

/// The host paths of mounts, in order.
pub open spec fn hosts_of(mounts: Seq<MountDeclView>) -> Seq<Seq<u8>> {
    mounts.map_values(|m: MountDeclView| m.host.value)
}

/// The profile that a block declares.
pub open spec fn declared_by(block: ProfileBlock) -> ProfileDeclView {
    ProfileDeclView {
        uses: views(block.uses@),
        mount_decls: MountDeclsView { mounts: views(block.mounts@), readonly: block.readonly },
        forward_decls: ForwardDeclsView { forwards: views(block.forwards@) },
        env_decls: EnvVarDeclsView {
            env: views(block.env@),
            path: match opt_view(block.path) {
                Some(p) => Some(utf8(p)),
                None => None,
            },
            path_add: views(block.path_add@).map_values(|p: Seq<char>| utf8(p)),
        },
        proxy_decls: ProxyDeclsView {
            public_web: block.public_web,
            proxies: views(block.proxies@),
        },
    }
}

impl ProfileDecl {
    /// The profile that a block declares: its keys sorted into the parts
    /// that own them, and its paths as bytes.
    pub fn from_block(block: ProfileBlock) -> (r: ProfileDecl)
        ensures
            r@ == declared_by(block),
    {
        let path = match &block.path {
            Some(p) => Some(bytes_of(p.as_str())),
            None => None,
        };
        let mut path_add: Vec<Vec<u8>> = Vec::new();
        let mut i: usize = 0;
        while i < block.path_add.len()
            invariant
                i <= block.path_add@.len(),
                path_add@.len() == i,
                forall|j: int|
                    0 <= j < i ==> (#[trigger] path_add@[j])@ == utf8(block.path_add@[j]@),
            decreases block.path_add.len() - i,
        {
            path_add.push(bytes_of(block.path_add[i].as_str()));
            i = i + 1;
        }
        assert(views(path_add@) =~= views(block.path_add@).map_values(|p: Seq<char>| utf8(p)));
        ProfileDecl {
            uses: block.uses,
            mount_decls: MountDecls { mounts: block.mounts, readonly: block.readonly },
            forward_decls: ForwardDecls { forwards: block.forwards },
            env_decls: EnvVarDecls { env: block.env, path, path_add },
            proxy_decls: ProxyDecls { public_web: block.public_web, proxies: block.proxies },
        }
    }

    /// The host paths that the profile mounts, in order.
    pub fn mount_hosts(&self) -> (r: Vec<Vec<u8>>)
        ensures
            views(r@) == hosts_of(self@.mount_decls.mounts),
    {
        let mut out: Vec<Vec<u8>> = Vec::new();
        let mut i: usize = 0;
        while i < self.mount_decls.mounts.len()
            invariant
                i <= self.mount_decls.mounts@.len(),
                out@.len() == i,
                forall|j: int|
                    0 <= j < i ==> (#[trigger] out@[j])@
                        == self@.mount_decls.mounts[j].host.value,
            decreases self.mount_decls.mounts.len() - i,
        {
            out.push(self.mount_decls.mounts[i].host.value.duplicate());
            i = i + 1;
        }
        assert(views(out@) =~= self@.mount_decls.mounts.map_values(
            |m: MountDeclView| m.host.value,
        ));
        out
    }
}

impl NormalizeConfigPaths for ProfileDecl {
    open spec fn normalized(me: ProfileDeclView, home: Seq<u8>) -> Result<
        ProfileDeclView,
        ErrorView,
    > {
        match MountDecls::normalized(me.mount_decls, home) {
            Err(e) => Err(e),
            Ok(mount_decls) => match EnvVarDecls::normalized(me.env_decls, home) {
                Err(e) => Err(e),
                Ok(env_decls) => Ok(ProfileDeclView { mount_decls, env_decls, ..me }),
            },
        }
    }

    fn normalize_config_paths(&mut self, home: &[u8]) -> (r: Result<()>) {
        match self.mount_decls.normalize_config_paths(home) {
            Ok(_) => {},
            Err(e) => {
                return Err(e);
            },
        }
        self.env_decls.normalize_config_paths(home)
    }
}

impl Decl for ProfileDecl {
    type Resolved = Profile;

    /// Mounts first, then forwards, variables and destinations.
    open spec fn validated(me: ProfileDeclView, host: HostView) -> Result<(), ErrorView> {
        match MountDecls::validated(me.mount_decls, host) {
            Err(e) => Err(e),
            Ok(_) => match ForwardDecls::validated(me.forward_decls, host) {
                Err(e) => Err(e),
                Ok(_) => match EnvVarDecls::validated(me.env_decls, host) {
                    Err(e) => Err(e),
                    Ok(_) => ProxyDecls::validated(me.proxy_decls, host),
                },
            },
        }
    }

    open spec fn resolved(me: ProfileDeclView, ctx: ContextView) -> Result<ProfileView, ErrorView> {
        match MountDecls::resolved(me.mount_decls, ctx) {
            Err(e) => Err(e),
            Ok(mounts) => match ForwardDecls::resolved(me.forward_decls, ctx) {
                Err(e) => Err(e),
                Ok(forwards) => match EnvVarDecls::resolved(me.env_decls, ctx) {
                    Err(e) => Err(e),
                    Ok(env) => match ProxyDecls::resolved(me.proxy_decls, ctx) {
                        Err(e) => Err(e),
                        Ok(proxies) => Ok(ProfileView { mounts, forwards, env, proxies }),
                    },
                },
            },
        }
    }

    fn validate(&self, host: &Host) -> (r: Result<()>) {
        match self.mount_decls.validate(host) {
            Ok(_) => {},
            Err(e) => {
                return Err(e);
            },
        }
        match self.forward_decls.validate(host) {
            Ok(_) => {},
            Err(e) => {
                return Err(e);
            },
        }
        match self.env_decls.validate(host) {
            Ok(_) => {},
            Err(e) => {
                return Err(e);
            },
        }
        self.proxy_decls.validate(host)
    }

    fn resolve(&self, ctx: &ResolveContext) -> (r: Result<Profile>) {
        let mounts = match self.mount_decls.resolve(ctx) {
            Ok(m) => m,
            Err(e) => {
                return Err(e);
            },
        };
        let forwards = match self.forward_decls.resolve(ctx) {
            Ok(f) => f,
            Err(e) => {
                return Err(e);
            },
        };
        let env = match self.env_decls.resolve(ctx) {
            Ok(v) => v,
            Err(e) => {
                return Err(e);
            },
        };
        match self.proxy_decls.resolve(ctx) {
            Ok(proxies) => Ok(Profile { mounts, forwards, env, proxies }),
            Err(e) => Err(e),
        }
    }
}

// ---------------------------------------------------------------------
// Profiles
// ---------------------------------------------------------------------
/// A resolved profile.
pub struct Profile {
    /// The mounts.
    pub mounts: Mounts,
    /// The forwards.
    pub forwards: Forwards,
    /// The environment variables.
    pub env: EnvVars,
    /// The destinations of the proxy.
    pub proxies: Proxies,
}

/// What a [`Profile`] says.
#[verifier::ext_equal]
pub struct ProfileView {
    pub mounts: MountsView,
    pub forwards: ForwardsView,
    pub env: EnvVarsView,
    pub proxies: ProxiesView,
}

impl View for Profile {
    type V = ProfileView;

    open spec fn view(&self) -> ProfileView {
        ProfileView {
            mounts: self.mounts@,
            forwards: self.forwards@,
            env: self.env@,
            proxies: self.proxies@,
        }
    }
}

impl Default for Profile {
    /// A profile that contributes nothing.
    fn default() -> (r: Profile)
        ensures
            r@ == Profile::neutral_view(),
    {
        Profile::neutral()
    }
}

impl Merge for Profile {
    open spec fn neutral_view() -> ProfileView {
        ProfileView {
            mounts: Mounts::neutral_view(),
            forwards: Forwards::neutral_view(),
            env: EnvVars::neutral_view(),
            proxies: Proxies::neutral_view(),
        }
    }

    /// Each part by its own rule.
    open spec fn merged(a: ProfileView, b: ProfileView) -> ProfileView {
        ProfileView {
            mounts: Mounts::merged(a.mounts, b.mounts),
            forwards: Forwards::merged(a.forwards, b.forwards),
            env: EnvVars::merged(a.env, b.env),
            proxies: Proxies::merged(a.proxies, b.proxies),
        }
    }

    proof fn law_neutral(a: ProfileView) {
        Mounts::law_neutral(a.mounts);
        Forwards::law_neutral(a.forwards);
        EnvVars::law_neutral(a.env);
        Proxies::law_neutral(a.proxies);
    }

    proof fn law_associative(a: ProfileView, b: ProfileView, c: ProfileView) {
        Mounts::law_associative(a.mounts, b.mounts, c.mounts);
        Forwards::law_associative(a.forwards, b.forwards, c.forwards);
        EnvVars::law_associative(a.env, b.env, c.env);
        Proxies::law_associative(a.proxies, b.proxies, c.proxies);
    }

    fn neutral() -> (r: Profile) {
        Profile {
            mounts: Mounts::neutral(),
            forwards: Forwards::neutral(),
            env: EnvVars::neutral(),
            proxies: Proxies::neutral(),
        }
    }

    fn merge_right_biased(&self, other: &Profile) -> (r: Profile) {
        Profile {
            mounts: self.mounts.merge_right_biased(&other.mounts),
            forwards: self.forwards.merge_right_biased(&other.forwards),
            env: self.env.merge_right_biased(&other.env),
            proxies: self.proxies.merge_right_biased(&other.proxies),
        }
    }
}

impl Finalize for Profile {
    open spec fn base(me: ProfileView, host: HostView) -> ProfileView {
        ProfileView {
            mounts: Mounts::base(me.mounts, host),
            forwards: Forwards::base(me.forwards, host),
            env: EnvVars::base(me.env, host),
            proxies: Proxies::base(me.proxies, host),
        }
    }

    open spec fn cleared(me: ProfileView) -> ProfileView {
        ProfileView {
            mounts: Mounts::cleared(me.mounts),
            forwards: Forwards::cleared(me.forwards),
            env: EnvVars::cleared(me.env),
            proxies: Proxies::cleared(me.proxies),
        }
    }

    fn base_config(&self, host: &Host) -> (r: Profile) {
        Profile {
            mounts: self.mounts.base_config(host),
            forwards: self.forwards.base_config(host),
            env: self.env.base_config(host),
            proxies: self.proxies.base_config(host),
        }
    }

    fn clear_extra_fields(&mut self) {
        self.mounts.clear_extra_fields();
        self.forwards.clear_extra_fields();
        self.env.clear_extra_fields();
        self.proxies.clear_extra_fields();
    }
}

/// Finalizing a profile finalizes each of its parts, independently of the
/// others.
pub proof fn law_profile_finalizes_by_parts(me: ProfileView, host: HostView)
    ensures
        finalized::<Profile>(me, host) == (ProfileView {
            mounts: finalized::<Mounts>(me.mounts, host),
            forwards: finalized::<Forwards>(me.forwards, host),
            env: finalized::<EnvVars>(me.env, host),
            proxies: finalized::<Proxies>(me.proxies, host),
        }),
{
}

/// Nothing of a block is lost, and each key goes to the part that owns it,
/// in the order of the file: what it uses, its mounts and whether the
/// working directory is read-only, its forwards, its variables and search
/// path, and its destinations and the rule for the others.
pub proof fn law_block_is_kept(block: ProfileBlock)
    ensures
        ({
            let d = declared_by(block);
            &&& d.uses.len() == block.uses@.len()
            &&& forall|i: int| 0 <= i < d.uses.len() ==> #[trigger] d.uses[i] == block.uses@[i]@
            &&& d.mount_decls.mounts.len() == block.mounts@.len()
            &&& forall|i: int|
                0 <= i < block.mounts@.len() ==> #[trigger] d.mount_decls.mounts[i]
                    == block.mounts@[i]@
            &&& d.mount_decls.readonly == block.readonly
            &&& d.forward_decls.forwards.len() == block.forwards@.len()
            &&& forall|i: int|
                0 <= i < block.forwards@.len() ==> #[trigger] d.forward_decls.forwards[i]
                    == block.forwards@[i]@
            &&& d.env_decls.env.len() == block.env@.len()
            &&& forall|i: int|
                0 <= i < block.env@.len() ==> #[trigger] d.env_decls.env[i] == block.env@[i]@
            &&& d.env_decls.path is Some <==> block.path is Some
            &&& block.path matches Some(p) ==> d.env_decls.path == Some(utf8(p@))
            &&& d.env_decls.path_add.len() == block.path_add@.len()
            &&& forall|i: int|
                0 <= i < block.path_add@.len() ==> #[trigger] d.env_decls.path_add[i] == utf8(
                    block.path_add@[i]@,
                )
            &&& d.proxy_decls.public_web == block.public_web
            &&& d.proxy_decls.proxies.len() == block.proxies@.len()
            &&& forall|i: int|
                0 <= i < block.proxies@.len() ==> #[trigger] d.proxy_decls.proxies[i]
                    == block.proxies@[i]@
        }),
{
}

/// A profile is valid, resolves and merges part by part: what one part
/// says changes nothing of the others.
pub proof fn law_profile_goes_by_parts(
    me: ProfileDeclView,
    host: HostView,
    ctx: ContextView,
    home: Seq<u8>,
)
    ensures
        ProfileDecl::validated(me, host) is Ok <==> MountDecls::validated(me.mount_decls, host)
            is Ok && ForwardDecls::validated(me.forward_decls, host) is Ok
            && EnvVarDecls::validated(me.env_decls, host) is Ok && ProxyDecls::validated(
            me.proxy_decls,
            host,
        ) is Ok,
        ProfileDecl::resolved(me, ctx) matches Ok(p) ==> {
            &&& MountDecls::resolved(me.mount_decls, ctx) == Ok::<_, ErrorView>(p.mounts)
            &&& ForwardDecls::resolved(me.forward_decls, ctx) == Ok::<_, ErrorView>(p.forwards)
            &&& EnvVarDecls::resolved(me.env_decls, ctx) == Ok::<_, ErrorView>(p.env)
            &&& ProxyDecls::resolved(me.proxy_decls, ctx) == Ok::<_, ErrorView>(p.proxies)
        },
        ProfileDecl::normalized(me, home) matches Ok(d) ==> {
            &&& MountDecls::normalized(me.mount_decls, home) == Ok::<_, ErrorView>(d.mount_decls)
            &&& EnvVarDecls::normalized(me.env_decls, home) == Ok::<_, ErrorView>(d.env_decls)
            &&& d.uses == me.uses
            &&& d.forward_decls == me.forward_decls
            &&& d.proxy_decls == me.proxy_decls
        },
{
}

/// There is one host path for each mount, in order: that of the mount.
pub proof fn law_host_paths_one_for_one(mounts: Seq<MountDeclView>)
    ensures
        hosts_of(mounts).len() == mounts.len(),
        forall|i: int|
            0 <= i < mounts.len() ==> hosts_of(mounts)[i] == (#[trigger] mounts[i]).host.value,
{
}

/// A profile that declares nothing contributes nothing: it is valid, it
/// uses no other, and it resolves to what changes nothing in a merge.
pub proof fn law_empty_profile_contributes_nothing(
    host: HostView,
    ctx: ContextView,
    other: ProfileView,
)
    ensures
        empty_decl().uses.len() == 0,
        ProfileDecl::validated(empty_decl(), host) is Ok,
        ProfileDecl::resolved(empty_decl(), ctx) matches Ok(p) && Profile::merged(other, p) == other
            && Profile::merged(p, other) == other,
{
    let p = ProfileDecl::resolved(empty_decl(), ctx)->Ok_0;
    assert(p =~= Profile::neutral_view());
    Profile::law_neutral(other);
}

} // verus!
