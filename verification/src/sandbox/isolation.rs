//! What a sandbox lets in, from the declarations to the command line.
//!
//! Whatever the layers of declarations say, the sandbox that they come to
//! shows of the host's environment, files and ports no more than they
//! declare, the baseline that every sandbox has, and the proxy.

use crate::config::config_file::laid_over;
use crate::config::env_var::EnvVarDeclView;
use crate::config::env_vars::{
    is_locale_name, law_last_declaration_counts, passthrough_names, resolved_vars,
};
use crate::config::forward::{ForwardDecl, ForwardDeclView, ForwardView};
use crate::config::mount::{MountAccess, MountDecl, MountDeclView, MountKindView, MountView};
use crate::config::mounts::{cwd_bind, home_blank, system_baseline};
use crate::config::profile::{Profile, ProfileDecl, ProfileDeclView, ProfileView};
use crate::config::proxies::{by_host, law_by_host_keys, law_last_of_a_host_counts};
use crate::config::proxy::{law_templates_render_in_place, ProxyDecl, ProxyView};
use crate::config::resolve_context::ContextView;
use crate::config::{merged_all, resolved_all, validated_all, Decl, Merge};
use crate::host::HostView;
use crate::sandbox::proxy::{proxy_contribution, proxy_vars};
use crate::text::{lowercase, utf8};
use vstd::prelude::*;
use vstd::string::*;

verus! {

// ---------------------------------------------------------------------
// What the layers declare
// ---------------------------------------------------------------------
/// Does one of these declarations set a variable of this name, or pass it
/// through?
pub open spec fn names_var(decls: Seq<EnvVarDeclView>, name: Seq<char>) -> bool {
    exists|j: int| 0 <= j < decls.len() && (#[trigger] decls[j]).name.value == name
}

/// Does a layer set a variable of this name, or pass it through?
pub open spec fn declares_var(layers: Seq<ProfileDeclView>, name: Seq<char>) -> bool {
    exists|i: int| 0 <= i < layers.len() && names_var((#[trigger] layers[i]).env_decls.env, name)
}

/// Is this one of the mounts that these declarations stand for?
pub open spec fn stands_for_mount(decls: Seq<MountDeclView>, m: MountView) -> bool {
    exists|j: int| 0 <= j < decls.len() && (#[trigger] decls[j]).mount() == m
}

/// Does a layer declare this mount?
pub open spec fn declares_mount(layers: Seq<ProfileDeclView>, m: MountView) -> bool {
    exists|i: int|
        0 <= i < layers.len() && stands_for_mount((#[trigger] layers[i]).mount_decls.mounts, m)
}

/// Is this one of the forwards that these declarations stand for?
pub open spec fn stands_for_forward(decls: Seq<ForwardDeclView>, f: ForwardView) -> bool {
    exists|j: int|
        0 <= j < decls.len() && f == (ForwardView {
            host_port: (#[trigger] decls[j]).host_port.value,
            sandbox_port: decls[j].inside(),
        })
}

/// Does a layer declare this forward?
pub open spec fn declares_forward(layers: Seq<ProfileDeclView>, f: ForwardView) -> bool {
    exists|i: int|
        0 <= i < layers.len() && stands_for_forward(
            (#[trigger] layers[i]).forward_decls.forwards,
            f,
        )
}

/// The sandbox that the layers come to, with the proxy on `port`.
pub open spec fn sandboxed(layers: Seq<ProfileDeclView>, ctx: ContextView, port: u16) -> Option<
    ProfileView,
> {
    match laid_over(layers, ctx) {
        Ok(profile) => Some(Profile::merged(profile, proxy_contribution(port))),
        Err(_) => None,
    }
}

// ---------------------------------------------------------------------
// From declarations to what they come to
// ---------------------------------------------------------------------
/// A list resolves one for one.
proof fn lemma_resolved_one_for_one<T: Decl>(v: Seq<<T as View>::V>, ctx: ContextView)
    ensures
        resolved_all::<T>(v, ctx) matches Ok(w) ==> w.len() == v.len() && forall|i: int|
            0 <= i < v.len() ==> T::resolved(#[trigger] v[i], ctx) == Ok::<
                <T::Resolved as View>::V,
                crate::errors::ErrorView,
            >(w[i]),
    decreases v.len(),
{
    if v.len() > 0 {
        lemma_resolved_one_for_one::<T>(v.skip(1), ctx);
        match resolved_all::<T>(v, ctx) {
            Ok(w) => {
                let rest = resolved_all::<T>(v.skip(1), ctx)->Ok_0;
                assert forall|i: int| 0 <= i < v.len() implies T::resolved(#[trigger] v[i], ctx)
                    == Ok::<<T::Resolved as View>::V, crate::errors::ErrorView>(w[i]) by {
                    if i > 0 {
                        assert(v[i] == v.skip(1)[i - 1]);
                        assert(w[i] == rest[i - 1]);
                    }
                }
            },
            Err(_) => {},
        }
    }
}

/// A variable that declarations resolve to is declared.
proof fn lemma_resolved_var(decls: Seq<EnvVarDeclView>, host: HostView, name: Seq<char>)
    ensures
        resolved_vars(decls, host).contains_key(name) ==> names_var(decls, name),
    decreases decls.len(),
{
    if decls.len() > 0 {
        let rest = decls.drop_last();
        lemma_resolved_var(rest, host, name);
        if resolved_vars(decls, host).contains_key(name) {
            if resolved_vars(rest, host).contains_key(name) {
                let j = choose|j: int|
                    0 <= j < rest.len() && (#[trigger] rest[j]).name.value == name;
                assert(decls[j].name.value == name);
            } else {
                assert(decls[decls.len() - 1].name.value == name);
            }
        }
    }
}

/// What is in a merged profile is in one of those that were merged.
proof fn lemma_merged_from(profiles: Seq<ProfileView>)
    ensures
        forall|name: Seq<char>| #[trigger]
            merged_all::<Profile>(profiles).env.vars.contains_key(name) ==> exists|i: int|
                0 <= i < profiles.len() && (#[trigger] profiles[i]).env.vars.contains_key(name),
        forall|m: MountView| #[trigger]
            merged_all::<Profile>(profiles).mounts.mounts.contains(m) ==> exists|i: int|
                0 <= i < profiles.len() && (#[trigger] profiles[i]).mounts.mounts.contains(m),
        forall|f: ForwardView| #[trigger]
            merged_all::<Profile>(profiles).forwards.forwards.contains(f) ==> exists|i: int|
                0 <= i < profiles.len() && (#[trigger] profiles[i]).forwards.forwards.contains(f),
    decreases profiles.len(),
{
    let all = merged_all::<Profile>(profiles);
    if profiles.len() > 0 {
        let rest = profiles.drop_last();
        let last = profiles.last();
        let before = merged_all::<Profile>(rest);
        lemma_merged_from(rest);
        assert(profiles[profiles.len() - 1] == last);
        assert(forall|i: int| 0 <= i < rest.len() ==> rest[i] == profiles[i]);
        assert forall|name: Seq<char>| #[trigger] all.env.vars.contains_key(name) implies exists|
            i: int,
        |
            0 <= i < profiles.len() && (#[trigger] profiles[i]).env.vars.contains_key(name) by {
            if !last.env.vars.contains_key(name) {
                assert(before.env.vars.contains_key(name));
                let i = choose|i: int|
                    0 <= i < rest.len() && (#[trigger] rest[i]).env.vars.contains_key(name);
                assert(profiles[i].env.vars.contains_key(name));
            }
        }
        assert forall|m: MountView| #[trigger] all.mounts.mounts.contains(m) implies exists|i: int|
            0 <= i < profiles.len() && (#[trigger] profiles[i]).mounts.mounts.contains(m) by {
            if !last.mounts.mounts.contains(m) {
                lemma_in_either(before.mounts.mounts, last.mounts.mounts, m);
                let i = choose|i: int|
                    0 <= i < rest.len() && (#[trigger] rest[i]).mounts.mounts.contains(m);
                assert(profiles[i].mounts.mounts.contains(m));
            }
        }
        assert forall|f: ForwardView| #[trigger] all.forwards.forwards.contains(f) implies exists|
            i: int,
        |
            0 <= i < profiles.len() && (#[trigger] profiles[i]).forwards.forwards.contains(f) by {
            if !last.forwards.forwards.contains(f) {
                lemma_in_either(before.forwards.forwards, last.forwards.forwards, f);
                let i = choose|i: int|
                    0 <= i < rest.len() && (#[trigger] rest[i]).forwards.forwards.contains(f);
                assert(profiles[i].forwards.forwards.contains(f));
            }
        }
    }
}

/// What is in a concatenation is in one of its parts.
proof fn lemma_in_either<T>(a: Seq<T>, b: Seq<T>, x: T)
    requires
        (a + b).contains(x),
    ensures
        a.contains(x) || b.contains(x),
{
    let k = choose|k: int| 0 <= k < (a + b).len() && (a + b)[k] == x;
    if k < a.len() {
        assert(a[k] == x);
    } else {
        assert(b[k - a.len()] == x);
    }
}

/// What the layers resolve to, before the baseline.
spec fn resolved_layers(layers: Seq<ProfileDeclView>, ctx: ContextView) -> Seq<ProfileView> {
    resolved_all::<ProfileDecl>(layers, ctx)->Ok_0
}

// ---------------------------------------------------------------------
// Laws
// ---------------------------------------------------------------------
/// No variable of the host gets in unnoticed: each variable of the sandbox
/// is declared by a layer, or is `PATH`, or one of the few that every
/// sandbox passes through, or belongs to the proxy.
pub proof fn law_environment_is_closed(
    layers: Seq<ProfileDeclView>,
    ctx: ContextView,
    port: u16,
    name: Seq<char>,
)
    requires
        sandboxed(layers, ctx, port) matches Some(p) && p.env.vars.contains_key(name),
    ensures
        declares_var(layers, name) || name == "PATH"@ || name == "HOME"@
            || passthrough_names().contains(name) || is_locale_name(name)
            || proxy_vars(port).contains_key(name),
{
    let profiles = resolved_layers(layers, ctx);
    lemma_resolved_one_for_one::<ProfileDecl>(layers, ctx);
    lemma_merged_from(profiles);
    let merged = merged_all::<Profile>(profiles);
    if merged.env.vars.contains_key(name) {
        let i = choose|i: int|
            0 <= i < profiles.len() && (#[trigger] profiles[i]).env.vars.contains_key(name);
        assert(ProfileDecl::resolved(layers[i], ctx)->Ok_0 == profiles[i]);
        lemma_resolved_var(layers[i].env_decls.env, ctx.host, name);
        assert(names_var(layers[i].env_decls.env, name));
    }
}

/// No file of the host gets in unnoticed: each bind mount of the sandbox is
/// declared by a layer, or binds the working directory, or is one of the
/// two read-only ones that every sandbox has.
pub proof fn law_files_are_closed(
    layers: Seq<ProfileDeclView>,
    ctx: ContextView,
    port: u16,
    m: MountView,
)
    requires
        sandboxed(layers, ctx, port) matches Some(p) && p.mounts.mounts.contains(m),
        m.kind is Mount,
    ensures
        declares_mount(layers, m) || (m.kind matches MountKindView::Mount { host, access } && {
            ||| ctx.host.cwd == Some(host) && m.sandbox == host
            ||| access == MountAccess::Ro && m.sandbox == host && (host == utf8("/usr"@) || host
                == utf8("/etc"@))
        }),
{
    let profiles = resolved_layers(layers, ctx);
    lemma_resolved_one_for_one::<ProfileDecl>(layers, ctx);
    lemma_merged_from(profiles);
    let merged = merged_all::<Profile>(profiles);
    let base = system_baseline() + home_blank(ctx.host.home);
    let cwd = cwd_bind(ctx.host.cwd, MountAccess::of_readonly(merged.mounts.readonly));
    let none = Seq::<MountView>::empty();
    lemma_in_either(base + cwd + merged.mounts.mounts, none, m);
    lemma_in_either(base + cwd, merged.mounts.mounts, m);
    if merged.mounts.mounts.contains(m) {
        let i = choose|i: int|
            0 <= i < profiles.len() && (#[trigger] profiles[i]).mounts.mounts.contains(m);
        assert(ProfileDecl::resolved(layers[i], ctx)->Ok_0 == profiles[i]);
        let decls = layers[i].mount_decls.mounts;
        let mounts = profiles[i].mounts.mounts;
        lemma_resolved_one_for_one::<MountDecl>(decls, ctx);
        let j = choose|j: int| 0 <= j < mounts.len() && mounts[j] == m;
        assert(MountDecl::resolved(decls[j], ctx)->Ok_0 == mounts[j]);
        assert(decls[j].mount() == m);
        assert(stands_for_mount(layers[i].mount_decls.mounts, m));
    } else {
        lemma_in_either(base, cwd, m);
        if base.contains(m) {
            lemma_in_either(system_baseline(), home_blank(ctx.host.home), m);
            if system_baseline().contains(m) {
                let k = choose|k: int|
                    0 <= k < system_baseline().len() && system_baseline()[k] == m;
                assert(k == 0 || k == 5);
            }
        }
    }
}

/// No port of the host gets in unnoticed: each forward of the sandbox is
/// declared by a layer, with ports that are not 0, or is the proxy's.
pub proof fn law_network_is_closed(
    layers: Seq<ProfileDeclView>,
    ctx: ContextView,
    port: u16,
    f: ForwardView,
)
    requires
        sandboxed(layers, ctx, port) matches Some(p) && p.forwards.forwards.contains(f),
    ensures
        (declares_forward(layers, f) && f.host_port != 0 && f.sandbox_port != 0) || f
            == (ForwardView { host_port: port, sandbox_port: port }),
{
    let profiles = resolved_layers(layers, ctx);
    lemma_resolved_one_for_one::<ProfileDecl>(layers, ctx);
    lemma_merged_from(profiles);
    let merged = merged_all::<Profile>(profiles);
    let own = proxy_contribution(port).forwards.forwards;
    let none = Seq::<ForwardView>::empty();
    lemma_in_either(none + merged.forwards.forwards, own, f);
    if own.contains(f) {
        assert(f == own[0]);
    } else {
        lemma_in_either(none, merged.forwards.forwards, f);
        let i = choose|i: int|
            0 <= i < profiles.len() && (#[trigger] profiles[i]).forwards.forwards.contains(f);
        assert(ProfileDecl::resolved(layers[i], ctx)->Ok_0 == profiles[i]);
        let decls = layers[i].forward_decls.forwards;
        let forwards = profiles[i].forwards.forwards;
        lemma_resolved_one_for_one::<ForwardDecl>(decls, ctx);
        let j = choose|j: int| 0 <= j < forwards.len() && forwards[j] == f;
        assert(ForwardDecl::resolved(decls[j], ctx)->Ok_0 == forwards[j]);
        assert(decls[j].host_port.value == f.host_port);
        assert(stands_for_forward(layers[i].forward_decls.forwards, f));
        lemma_all_valid::<ProfileDecl>(layers, ctx.host, i);
        lemma_all_valid::<ForwardDecl>(decls, ctx.host, j);
    }
}

/// Where a list is valid, each of it is.
proof fn lemma_all_valid<T: Decl>(v: Seq<<T as View>::V>, host: HostView, i: int)
    requires
        validated_all::<T>(v, host) is Ok,
        0 <= i < v.len(),
    ensures
        T::validated(v[i], host) is Ok,
    decreases v.len(),
{
    if i > 0 {
        assert(v[i] == v.skip(1)[i - 1]);
        lemma_all_valid::<T>(v.skip(1), host, i - 1);
    }
}

// ---------------------------------------------------------------------
// What is declared gets in
// ---------------------------------------------------------------------
/// What is in one of the profiles is in the merged one.
proof fn lemma_merged_keeps(profiles: Seq<ProfileView>, i: int)
    requires
        0 <= i < profiles.len(),
    ensures
        forall|m: MountView| #[trigger]
            profiles[i].mounts.mounts.contains(m) ==> merged_all::<Profile>(
                profiles,
            ).mounts.mounts.contains(m),
        forall|f: ForwardView| #[trigger]
            profiles[i].forwards.forwards.contains(f) ==> merged_all::<Profile>(
                profiles,
            ).forwards.forwards.contains(f),
    decreases profiles.len(),
{
    let rest = profiles.drop_last();
    let last = profiles.last();
    let before = merged_all::<Profile>(rest);
    let all = merged_all::<Profile>(profiles);
    if i < rest.len() {
        lemma_merged_keeps(rest, i);
        assert(rest[i] == profiles[i]);
    }
    assert forall|m: MountView| #[trigger]
        profiles[i].mounts.mounts.contains(m) implies all.mounts.mounts.contains(m) by {
        lemma_in_both(before.mounts.mounts, last.mounts.mounts, m);
    }
    assert forall|f: ForwardView| #[trigger]
        profiles[i].forwards.forwards.contains(f) implies all.forwards.forwards.contains(f) by {
        lemma_in_both(before.forwards.forwards, last.forwards.forwards, f);
    }
}

/// What is in a part is in the concatenation.
proof fn lemma_in_both<T>(a: Seq<T>, b: Seq<T>, x: T)
    ensures
        a.contains(x) || b.contains(x) ==> (a + b).contains(x),
{
    if a.contains(x) {
        let k = choose|k: int| 0 <= k < a.len() && a[k] == x;
        assert((a + b)[k] == x);
    }
    if b.contains(x) {
        let k = choose|k: int| 0 <= k < b.len() && b[k] == x;
        assert((a + b)[a.len() + k] == x);
    }
}

/// Every mount that a layer declares is made: at its path inside the
/// sandbox, with its path on the host and its access.
pub proof fn law_declared_mounts_are_made(
    layers: Seq<ProfileDeclView>,
    ctx: ContextView,
    port: u16,
    i: int,
    j: int,
)
    requires
        sandboxed(layers, ctx, port) is Some,
        0 <= i < layers.len(),
        0 <= j < layers[i].mount_decls.mounts.len(),
    ensures
        ({
            let d = layers[i].mount_decls.mounts[j];
            sandboxed(layers, ctx, port)->0.mounts.mounts.contains(
                MountView {
                    sandbox: match d.sandbox {
                        Some(s) => s.value,
                        None => d.host.value,
                    },
                    kind: MountKindView::Mount {
                        host: d.host.value,
                        access: match d.access {
                            Some(a) => a,
                            None => MountAccess::Ro,
                        },
                    },
                },
            )
        }),
{
    let profiles = resolved_layers(layers, ctx);
    lemma_resolved_one_for_one::<ProfileDecl>(layers, ctx);
    lemma_merged_keeps(profiles, i);
    assert(ProfileDecl::resolved(layers[i], ctx)->Ok_0 == profiles[i]);
    let decls = layers[i].mount_decls.mounts;
    let mounts = profiles[i].mounts.mounts;
    lemma_resolved_one_for_one::<MountDecl>(decls, ctx);
    assert(MountDecl::resolved(decls[j], ctx)->Ok_0 == mounts[j]);
    let m = decls[j].mount();
    assert(mounts.contains(m));
    let merged = merged_all::<Profile>(profiles);
    let base = system_baseline() + home_blank(ctx.host.home) + cwd_bind(
        ctx.host.cwd,
        MountAccess::of_readonly(merged.mounts.readonly),
    );
    let none = Seq::<MountView>::empty();
    lemma_in_both(base, merged.mounts.mounts, m);
    lemma_in_both(base + merged.mounts.mounts, none, m);
}

/// Every forward that a layer declares is made, with its ports, and so is
/// the proxy's.
pub proof fn law_declared_forwards_are_made(
    layers: Seq<ProfileDeclView>,
    ctx: ContextView,
    port: u16,
    i: int,
    j: int,
)
    requires
        sandboxed(layers, ctx, port) is Some,
        0 <= i < layers.len(),
        0 <= j < layers[i].forward_decls.forwards.len(),
    ensures
        ({
            let d = layers[i].forward_decls.forwards[j];
            let end = sandboxed(layers, ctx, port)->0.forwards.forwards;
            &&& end.contains(
                ForwardView {
                    host_port: d.host_port.value,
                    sandbox_port: match d.sandbox_port {
                        Some(p) => p.value,
                        None => d.host_port.value,
                    },
                },
            )
            &&& end.contains(ForwardView { host_port: port, sandbox_port: port })
        }),
{
    let profiles = resolved_layers(layers, ctx);
    lemma_resolved_one_for_one::<ProfileDecl>(layers, ctx);
    lemma_merged_keeps(profiles, i);
    assert(ProfileDecl::resolved(layers[i], ctx)->Ok_0 == profiles[i]);
    let decls = layers[i].forward_decls.forwards;
    let forwards = profiles[i].forwards.forwards;
    lemma_resolved_one_for_one::<ForwardDecl>(decls, ctx);
    assert(ForwardDecl::resolved(decls[j], ctx)->Ok_0 == forwards[j]);
    assert(forwards.contains(forwards[j]));
    let merged = merged_all::<Profile>(profiles).forwards.forwards;
    let own = proxy_contribution(port).forwards.forwards;
    let none = Seq::<ForwardView>::empty();
    lemma_in_both(none, merged, forwards[j]);
    lemma_in_both(none + merged, own, forwards[j]);
    let proxy = ForwardView { host_port: port, sandbox_port: port };
    assert(own[0] == proxy);
    assert(own.contains(proxy));
    lemma_in_both(none + merged, own, proxy);
}

/// A variable that a layer gives a value has that value in the sandbox,
/// unless the same layer or a later one declares it again, or it is one by
/// which programs find the proxy.
pub proof fn law_declared_variables_are_set(
    layers: Seq<ProfileDeclView>,
    ctx: ContextView,
    port: u16,
    i: int,
    j: int,
)
    requires
        sandboxed(layers, ctx, port) is Some,
        0 <= i < layers.len(),
        0 <= j < layers[i].env_decls.env.len(),
        layers[i].env_decls.env[j].value is Some,
        forall|k: int|
            j < k < layers[i].env_decls.env.len() ==> (
            #[trigger] layers[i].env_decls.env[k]).name.value
                != layers[i].env_decls.env[j].name.value,
        forall|k: int|
            i < k < layers.len() ==> !names_var(
                (#[trigger] layers[k]).env_decls.env,
                layers[i].env_decls.env[j].name.value,
            ),
        !proxy_vars(port).contains_key(layers[i].env_decls.env[j].name.value),
    ensures
        ({
            let d = layers[i].env_decls.env[j];
            let end = sandboxed(layers, ctx, port)->0.env.vars;
            &&& end.contains_key(d.name.value)
            &&& end[d.name.value] == utf8(d.value->0)
        }),
{
    let profiles = resolved_layers(layers, ctx);
    let decls = layers[i].env_decls.env;
    let name = decls[j].name.value;
    lemma_resolved_one_for_one::<ProfileDecl>(layers, ctx);
    assert(ProfileDecl::resolved(layers[i], ctx)->Ok_0 == profiles[i]);
    law_last_declaration_counts(decls, ctx.host, name, j);
    assert forall|k: int| i < k < profiles.len() implies !(
    #[trigger] profiles[k]).env.vars.contains_key(name) by {
        assert(ProfileDecl::resolved(layers[k], ctx)->Ok_0 == profiles[k]);
        lemma_resolved_var(layers[k].env_decls.env, ctx.host, name);
    }
    lemma_merged_var(profiles, i, name);
}

/// The last of the profiles that has a variable decides about it.
proof fn lemma_merged_var(profiles: Seq<ProfileView>, i: int, name: Seq<char>)
    requires
        0 <= i < profiles.len(),
        profiles[i].env.vars.contains_key(name),
        forall|k: int|
            i < k < profiles.len() ==> !(#[trigger] profiles[k]).env.vars.contains_key(name),
    ensures
        merged_all::<Profile>(profiles).env.vars.contains_key(name),
        merged_all::<Profile>(profiles).env.vars[name] == profiles[i].env.vars[name],
    decreases profiles.len(),
{
    let n = profiles.len() - 1;
    if i < n {
        let rest = profiles.drop_last();
        assert(!profiles[n].env.vars.contains_key(name));
        assert forall|k: int| i < k < rest.len() implies !(
        #[trigger] rest[k]).env.vars.contains_key(name) by {
            assert(rest[k] == profiles[k]);
        }
        lemma_merged_var(rest, i, name);
    }
}

/// A destination that a layer declares is treated as declared there, unless
/// the same layer or a later one declares its host again: under the host in
/// lower case, with its port and its action, and with the texts that its
/// templates render to.
pub proof fn law_declared_destinations_count(
    layers: Seq<ProfileDeclView>,
    ctx: ContextView,
    port: u16,
    i: int,
    j: int,
)
    requires
        sandboxed(layers, ctx, port) is Some,
        0 <= i < layers.len(),
        0 <= j < layers[i].proxy_decls.proxies.len(),
        forall|k: int|
            j < k < layers[i].proxy_decls.proxies.len() ==> lowercase(
                (#[trigger] layers[i].proxy_decls.proxies[k]).host,
            ) != lowercase(layers[i].proxy_decls.proxies[j].host),
        forall|k: int, l: int|
            i < k < layers.len() && 0 <= l < layers[k].proxy_decls.proxies.len() ==> lowercase(
                (#[trigger] layers[k].proxy_decls.proxies[l]).host,
            ) != lowercase(layers[i].proxy_decls.proxies[j].host),
    ensures
        ({
            let d = layers[i].proxy_decls.proxies[j];
            let end = sandboxed(layers, ctx, port)->0.proxies.proxies;
            &&& end.contains_key(lowercase(d.host))
            &&& ProxyDecl::resolved(d, ctx) == Ok::<ProxyView, crate::errors::ErrorView>(
                end[lowercase(d.host)],
            )
        }),
{
    let profiles = resolved_layers(layers, ctx);
    lemma_resolved_one_for_one::<ProfileDecl>(layers, ctx);
    let key = lowercase(layers[i].proxy_decls.proxies[j].host);
    let decls = layers[i].proxy_decls.proxies;
    assert(ProfileDecl::resolved(layers[i], ctx)->Ok_0 == profiles[i]);
    lemma_resolved_one_for_one::<ProxyDecl>(decls, ctx);
    let here = resolved_all::<ProxyDecl>(decls, ctx)->Ok_0;
    assert forall|k: int| 0 <= k < decls.len() implies (#[trigger] here[k]).host == lowercase(
        decls[k].host,
    ) by {
        assert(ProxyDecl::resolved(decls[k], ctx) == Ok::<ProxyView, crate::errors::ErrorView>(
            here[k],
        ));
        law_templates_render_in_place(decls[k], ctx);
    }
    assert forall|k: int| j < k < here.len() implies (#[trigger] here[k]).host != here[j].host by {
        assert(lowercase(decls[k].host) != lowercase(decls[j].host));
    }
    assert(ProxyDecl::resolved(decls[j], ctx) == Ok::<ProxyView, crate::errors::ErrorView>(here[j]));
    law_last_of_a_host_counts(here, j);
    assert forall|k: int| i < k < profiles.len() implies !(
    #[trigger] profiles[k]).proxies.proxies.contains_key(key) by {
        assert(ProfileDecl::resolved(layers[k], ctx)->Ok_0 == profiles[k]);
        let others = layers[k].proxy_decls.proxies;
        lemma_resolved_one_for_one::<ProxyDecl>(others, ctx);
        let there = resolved_all::<ProxyDecl>(others, ctx)->Ok_0;
        if by_host(there).contains_key(key) {
            law_by_host_keys(there, key);
            let l = choose|l: int| 0 <= l < there.len() && there[l] == by_host(there)[key];
            assert(ProxyDecl::resolved(others[l], ctx) == Ok::<
                ProxyView,
                crate::errors::ErrorView,
            >(there[l]));
            law_templates_render_in_place(others[l], ctx);
            assert(lowercase(layers[k].proxy_decls.proxies[l].host) != key);
        }
    }
    lemma_merged_destination(profiles, i, key);
}

/// The last of the profiles that has a destination decides about it.
proof fn lemma_merged_destination(profiles: Seq<ProfileView>, i: int, host: Seq<char>)
    requires
        0 <= i < profiles.len(),
        profiles[i].proxies.proxies.contains_key(host),
        forall|k: int|
            i < k < profiles.len() ==> !(#[trigger] profiles[k]).proxies.proxies.contains_key(host),
    ensures
        merged_all::<Profile>(profiles).proxies.proxies.contains_key(host),
        merged_all::<Profile>(profiles).proxies.proxies[host] == profiles[i].proxies.proxies[host],
    decreases profiles.len(),
{
    let n = profiles.len() - 1;
    if i < n {
        let rest = profiles.drop_last();
        assert(!profiles[n].proxies.proxies.contains_key(host));
        assert forall|k: int| i < k < rest.len() implies !(
        #[trigger] rest[k]).proxies.proxies.contains_key(host) by {
            assert(rest[k] == profiles[k]);
        }
        lemma_merged_destination(rest, i, host);
    }
}

} // verus!
