//! The configuration file, and what becomes of it.
//!
//! From the file to a sandbox: the paths of every profile are expanded,
//! the profiles that the command line asks for are put in order together
//! with all that they use, the command line itself comes last, each is
//! validated and resolved, and the results are merged and laid over the
//! baseline.

use crate::config::load::{load_or_init, load_step, LoadEvent, LoadStep, UserFile};
use crate::config::mounts::{cwd_bind, home_blank, system_baseline};
use crate::config::mount::MountAccess;
use crate::config::profile::{Profile, ProfileDecl, ProfileDeclView, ProfileView};
use crate::config::resolve_context::{ContextView, ResolveContext};
use crate::config::uses::{added, lemma_walks_well, walk, walk_all, walk_start};
use crate::config::{
    finalized, law_lists_are_normalized, law_lists_are_resolved, law_lists_are_validated,
    merged_all, normalize_all, normalized_all, resolve_all, resolved_all, validate_all,
    validated_all, Decl, Finalize, Merge, NormalizeConfigPaths,
};
use crate::dirs::home_dir;
use crate::errors::{outcome, same_outcome, ErrorView, Result};
use crate::host::HostView;
use crate::name_map::{lemma_map_of_finite, map_of, with_values, NameMap};
use crate::values::{views, Duplicate};
use vstd::prelude::*;
use vstd::string::*;

verus! {

/// The configuration file: profiles by name.
pub struct ConfigFile {
    /// The `[profile.NAME]` blocks.
    pub profile_decls: NameMap<ProfileDecl>,
}

impl View for ConfigFile {
    type V = Seq<(Seq<char>, ProfileDeclView)>;

    open spec fn view(&self) -> Seq<(Seq<char>, ProfileDeclView)> {
        self.profile_decls.entries()
    }
}

impl Default for ConfigFile {
    /// No profiles.
    fn default() -> (r: ConfigFile)
        ensures
            r@ == Seq::<(Seq<char>, ProfileDeclView)>::empty(),
    {
        let r = ConfigFile { profile_decls: NameMap::new() };
        assert(r@ =~= Seq::<(Seq<char>, ProfileDeclView)>::empty());
        r
    }
}

impl NormalizeConfigPaths for ConfigFile {
    /// Every profile with its paths expanded, whether it is going to be
    /// used or not.
    open spec fn normalized(me: Seq<(Seq<char>, ProfileDeclView)>, home: Seq<u8>) -> Result<
        Seq<(Seq<char>, ProfileDeclView)>,
        ErrorView,
    > {
        match normalized_all::<ProfileDecl>(
            me.map_values(|p: (Seq<char>, ProfileDeclView)| p.1),
            home,
        ) {
            Ok(decls) => Ok(with_values(me, decls)),
            Err(e) => Err(e),
        }
    }

    fn normalize_config_paths(&mut self, home: &[u8]) -> (r: Result<()>) {
        let n = self.profile_decls.len();
        let ghost e = self.profile_decls.entries();
        let ghost values = e.map_values(|p: (Seq<char>, ProfileDeclView)| p.1);
        let mut decls: Vec<ProfileDecl> = Vec::new();
        let mut i: usize = 0;
        while i < n
            invariant
                i <= n,
                e == self.profile_decls.entries(),
                n == e.len(),
                decls@.len() == i,
                forall|j: int| 0 <= j < i ==> (#[trigger] decls@[j])@ == e[j].1,
            decreases n - i,
        {
            decls.push(self.profile_decls.value_at(i).duplicate());
            i = i + 1;
        }
        assert(views(decls@) =~= values);
        proof {
            lemma_normalized_all_len::<ProfileDecl>(values, home@);
        }
        match normalize_all(&mut decls, home) {
            Ok(_) => {
                assert(views(decls@).len() == n);
                self.profile_decls = self.profile_decls.with_values(decls);
                Ok(())
            },
            Err(e) => Err(e),
        }
    }
}

/// Normalizing a list keeps its length.
proof fn lemma_normalized_all_len<T: NormalizeConfigPaths>(v: Seq<<T as View>::V>, home: Seq<u8>)
    ensures
        normalized_all::<T>(v, home) matches Ok(w) ==> w.len() == v.len(),
    decreases v.len(),
{
    if v.len() > 0 {
        lemma_normalized_all_len::<T>(v.skip(1), home);
    }
}

/// What a list of named profiles means.
pub open spec fn named_views(v: Seq<(String, &ProfileDecl)>) -> Seq<(Seq<char>, ProfileDeclView)> {
    v.map_values(|p: (String, &ProfileDecl)| (p.0@, p.1@))
}

/// Each name with its profile.
pub open spec fn with_profiles(
    names: Seq<Seq<char>>,
    profiles: Map<Seq<char>, ProfileDeclView>,
) -> Seq<(Seq<char>, ProfileDeclView)> {
    names.map_values(|n: Seq<char>| (n, profiles[n]))
}

/// The profiles to apply, in order: what `requested` asks for, and all
/// that they use. A profile comes after what it uses.
pub fn resolve_uses<'a>(
    config: &'a ConfigFile,
    requested: &Vec<String>,
    config_path: &[u8],
) -> (r: Result<Vec<(String, &'a ProfileDecl)>>)
    ensures
        match walk(map_of(config@), views(requested@), walk_start(), config_path@) {
            Ok(end) => r matches Ok(v) && named_views(v@) == with_profiles(
                end.order,
                map_of(config@),
            ),
            Err(e) => r matches Err(f) && f@ == e,
        },
{
    let ghost profiles = map_of(config@);
    let names = match walk_all(&config.profile_decls, requested, config_path) {
        Ok(names) => names,
        Err(e) => {
            return Err(e);
        },
    };
    let ghost order = views(names@);
    proof {
        lemma_walks_well(profiles, views(requested@), walk_start(), config_path@);
        let end = walk(profiles, views(requested@), walk_start(), config_path@)->Ok_0;
        assert(added(walk_start(), end) =~= order);
    }
    let mut out: Vec<(String, &'a ProfileDecl)> = Vec::new();
    let mut i: usize = 0;
    while i < names.len()
        invariant
            i <= names@.len(),
            order == views(names@),
            profiles == map_of(config@),
            profiles == config.profile_decls@,
            forall|j: int| 0 <= j < order.len() ==> profiles.contains_key(#[trigger] order[j]),
            out@.len() == i,
            forall|j: int|
                0 <= j < i ==> ((#[trigger] out@[j]).0@, out@[j].1@) == (
                    order[j],
                    profiles[order[j]],
                ),
        decreases names.len() - i,
    {
        assert(order[i as int] == names@[i as int]@);
        match config.profile_decls.get(names[i].as_str()) {
            Some(profile) => out.push((names[i].clone(), profile)),
            None => {},
        }
        i = i + 1;
    }
    assert(named_views(out@) =~= with_profiles(order, profiles));
    Ok(out)
}

// ---------------------------------------------------------------------
// From the file to a sandbox
// ---------------------------------------------------------------------
/// The declarations that make up a sandbox, in the order in which they
/// apply: the profiles of the file, then the command line.
pub open spec fn layers(
    config: Seq<(Seq<char>, ProfileDeclView)>,
    cli: ProfileDeclView,
    home: Seq<u8>,
    config_path: Seq<u8>,
) -> Result<Seq<ProfileDeclView>, ErrorView> {
    match ConfigFile::normalized(config, home) {
        Err(e) => Err(e),
        Ok(config) => match walk(map_of(config), cli.uses, walk_start(), config_path) {
            Err(e) => Err(e),
            Ok(end) => Ok(
                end.order.map_values(|n: Seq<char>| map_of(config)[n]).push(cli),
            ),
        },
    }
}

/// What layers of declarations come to: each is validated, each is
/// resolved, a later one wins over an earlier one, and the baseline lies
/// beneath them all.
pub open spec fn laid_over(decls: Seq<ProfileDeclView>, ctx: ContextView) -> Result<
    ProfileView,
    ErrorView,
> {
    match validated_all::<ProfileDecl>(decls, ctx.host) {
        Err(e) => Err(e),
        Ok(_) => match resolved_all::<ProfileDecl>(decls, ctx) {
            Err(e) => Err(e),
            Ok(profiles) => Ok(finalized::<Profile>(merged_all::<Profile>(profiles), ctx.host)),
        },
    }
}

/// What the file and the command line come to.
pub open spec fn finalized_config(
    config: Seq<(Seq<char>, ProfileDeclView)>,
    cli: ProfileDeclView,
    config_path: Seq<u8>,
    ctx: ContextView,
) -> Result<ProfileView, ErrorView> {
    match ctx.host.home_dir() {
        Err(e) => Err(e),
        Ok(home) => match layers(config, cli, home, config_path) {
            Err(e) => Err(e),
            Ok(decls) => laid_over(decls, ctx),
        },
    }
}

impl ConfigFile {
    /// What follows from what has become known about the configuration
    /// file. Once there is text to parse, [`Error::config_parse`] says what
    /// is wrong with it, if anything is.
    pub fn load_or_init(path: &[u8], event: LoadEvent) -> (r: LoadStep)
        ensures
            r@ == load_step(UserFile::Config, path@, event@),
    {
        load_or_init(UserFile::Config, path, event)
    }

    /// The declarations that make up a sandbox, in the order in which
    /// they apply. Paths of the file are expanded; those of the command
    /// line are not.
    pub fn layers(self, cli: &ProfileDecl, home: &[u8], config_path: &[u8]) -> (r: Result<
        Vec<ProfileDecl>,
    >)
        ensures
            match layers(self@, cli@, home@, config_path@) {
                Ok(decls) => r matches Ok(v) && views(v@) == decls,
                Err(e) => r matches Err(f) && f@ == e,
            },
    {
        let mut config = self;
        match config.normalize_config_paths(home) {
            Ok(_) => {},
            Err(e) => {
                return Err(e);
            },
        }
        let resolved = match resolve_uses(&config, &cli.uses, config_path) {
            Ok(v) => v,
            Err(e) => {
                return Err(e);
            },
        };
        let ghost named = named_views(resolved@);
        let mut out: Vec<ProfileDecl> = Vec::new();
        let mut i: usize = 0;
        while i < resolved.len()
            invariant
                i <= resolved@.len(),
                named == named_views(resolved@),
                out@.len() == i,
                forall|j: int| 0 <= j < i ==> (#[trigger] out@[j])@ == named[j].1,
            decreases resolved.len() - i,
        {
            assert(named[i as int].1 == resolved@[i as int].1@);
            out.push(resolved[i].1.duplicate());
            i = i + 1;
        }
        out.push(cli.duplicate());
        proof {
            let profiles = map_of(config@);
            let end = walk(profiles, cli@.uses, walk_start(), config_path@)->Ok_0;
            assert(named == with_profiles(end.order, profiles));
            assert(views(out@) =~= end.order.map_values(|n: Seq<char>| profiles[n]).push(cli@));
        }
        Ok(out)
    }

    /// What layers of declarations come to. All are validated before any
    /// is resolved.
    pub fn lay_over(decls: &Vec<ProfileDecl>, ctx: &ResolveContext) -> (r: Result<Profile>)
        ensures
            same_outcome(outcome(r), laid_over(views(decls@), ctx@)),
    {
        match validate_all(decls, &ctx.host) {
            Ok(_) => {},
            Err(e) => {
                return Err(e);
            },
        }
        match resolve_all(decls, ctx) {
            Ok(profiles) => Ok(Profile::merge_all_right_biased(&profiles).finalize(&ctx.host)),
            Err(e) => Err(e),
        }
    }

    /// What the file and the command line come to: the sandbox that `run`
    /// starts and `show` prints.
    pub fn finalize_config_with_cli(
        self,
        cli: &ProfileDecl,
        config_path: &[u8],
        ctx: &ResolveContext,
    ) -> (r: Result<Profile>)
        ensures
            same_outcome(outcome(r), finalized_config(self@, cli@, config_path@, ctx@)),
    {
        let home = match home_dir(&ctx.host) {
            Ok(home) => home,
            Err(e) => {
                return Err(e);
            },
        };
        match self.layers(cli, home.as_slice(), config_path) {
            Ok(decls) => ConfigFile::lay_over(&decls, ctx),
            Err(e) => Err(e),
        }
    }
}

// ---------------------------------------------------------------------
// Laws
// ---------------------------------------------------------------------
/// The command line, which is the last layer, has the last word: on every
/// variable that it sets, on every destination that it declares, and on
/// whether the public web may be reached and the working directory
/// written to. Its mounts and forwards come after those of the profiles.
pub proof fn law_last_layer_wins(earlier: Seq<ProfileView>, last: ProfileView, host: HostView)
    ensures
        ({
            let before = merged_all::<Profile>(earlier);
            let end = finalized::<Profile>(merged_all::<Profile>(earlier.push(last)), host);
            &&& forall|name: Seq<char>| #[trigger]
                last.env.vars.contains_key(name) ==> end.env.vars.contains_key(name)
                    && end.env.vars[name] == last.env.vars[name]
            &&& forall|name: Seq<char>| #[trigger]
                last.proxies.proxies.contains_key(name) ==> end.proxies.proxies.contains_key(name)
                    && end.proxies.proxies[name] == last.proxies.proxies[name]
            &&& last.proxies.public_web is Some ==> end.proxies.public_web
                == last.proxies.public_web
            &&& last.mounts.readonly is Some ==> end.mounts.mounts == system_baseline()
                + home_blank(host.home) + cwd_bind(
                host.cwd,
                MountAccess::of_readonly(last.mounts.readonly),
            ) + before.mounts.mounts + last.mounts.mounts
            &&& end.forwards.forwards == before.forwards.forwards + last.forwards.forwards
        }),
{
    let all = earlier.push(last);
    assert(all.drop_last() =~= earlier);
    let before = merged_all::<Profile>(earlier);
    let end = finalized::<Profile>(merged_all::<Profile>(all), host);
    assert(end.forwards.forwards =~= before.forwards.forwards + last.forwards.forwards);
    if last.mounts.readonly is Some {
        assert(end.mounts.mounts =~= system_baseline() + home_blank(host.home) + cwd_bind(
            host.cwd,
            MountAccess::of_readonly(last.mounts.readonly),
        ) + before.mounts.mounts + last.mounts.mounts);
    }
}

/// What the command line declares is taken as it is: its paths are not
/// expanded, and it is always the last layer.
pub proof fn law_command_line_is_verbatim(
    config: Seq<(Seq<char>, ProfileDeclView)>,
    cli: ProfileDeclView,
    home: Seq<u8>,
    config_path: Seq<u8>,
)
    ensures
        layers(config, cli, home, config_path) matches Ok(decls) ==> decls.len() > 0
            && decls.last() == cli,
{
}

/// A command line that asks for no profile applies alone.
pub proof fn law_no_profiles_asked_for(
    config: Seq<(Seq<char>, ProfileDeclView)>,
    cli: ProfileDeclView,
    home: Seq<u8>,
    config_path: Seq<u8>,
)
    requires
        cli.uses.len() == 0,
        ConfigFile::normalized(config, home) is Ok,
    ensures
        layers(config, cli, home, config_path) == Ok::<Seq<ProfileDeclView>, ErrorView>(seq![cli]),
{
    match ConfigFile::normalized(config, home) {
        Ok(c) => {
            lemma_map_of_finite(c);
            let end = walk(map_of(c), cli.uses, walk_start(), config_path)->Ok_0;
            assert(end.order.map_values(|n: Seq<char>| map_of(c)[n]).push(cli) =~= seq![cli]);
        },
        Err(_) => {},
    }
}

/// Every profile of the file is looked at, whether it is used or not: one
/// with a path that cannot be expanded spoils the file.
pub proof fn law_every_profile_is_checked(
    config: Seq<(Seq<char>, ProfileDeclView)>,
    cli: ProfileDeclView,
    home: Seq<u8>,
    config_path: Seq<u8>,
    i: int,
)
    requires
        0 <= i < config.len(),
        ProfileDecl::normalized(config[i].1, home) is Err,
    ensures
        layers(config, cli, home, config_path) is Err,
{
    let values = config.map_values(|p: (Seq<char>, ProfileDeclView)| p.1);
    law_lists_are_normalized::<ProfileDecl>(values, home);
    assert(values[i] == config[i].1);
}

/// Paths are expanded in place: a profile keeps its name, and what it says
/// becomes what it says with its own paths expanded.
pub proof fn law_profiles_keep_their_names(
    config: Seq<(Seq<char>, ProfileDeclView)>,
    home: Seq<u8>,
)
    ensures
        ConfigFile::normalized(config, home) matches Ok(after) ==> {
            &&& after.len() == config.len()
            &&& forall|i: int|
                0 <= i < config.len() ==> after[i].0 == (#[trigger] config[i]).0
                    && ProfileDecl::normalized(config[i].1, home) == Ok::<
                    ProfileDeclView,
                    ErrorView,
                >(after[i].1)
        },
{
    let values = config.map_values(|p: (Seq<char>, ProfileDeclView)| p.1);
    law_lists_are_normalized::<ProfileDecl>(values, home);
    if let Ok(after) = ConfigFile::normalized(config, home) {
        assert forall|i: int| 0 <= i < config.len() implies after[i].0 == (#[trigger] config[i]).0
            && ProfileDecl::normalized(config[i].1, home) == Ok::<ProfileDeclView, ErrorView>(
            after[i].1,
        ) by {
            assert(values[i] == config[i].1);
        }
    }
}

/// Every layer counts: one that is not valid, or does not resolve, leaves
/// no sandbox; and where each is and does, there is one.
pub proof fn law_every_layer_counts(decls: Seq<ProfileDeclView>, ctx: ContextView)
    ensures
        laid_over(decls, ctx) is Ok <==> forall|i: int|
            0 <= i < decls.len() ==> ProfileDecl::validated(#[trigger] decls[i], ctx.host) is Ok
                && ProfileDecl::resolved(decls[i], ctx) is Ok,
{
    law_lists_are_validated::<ProfileDecl>(decls, ctx.host, 0);
    law_lists_are_resolved::<ProfileDecl>(decls, ctx);
    if laid_over(decls, ctx) is Ok {
        assert forall|i: int| 0 <= i < decls.len() implies ProfileDecl::validated(
            #[trigger] decls[i],
            ctx.host,
        ) is Ok && ProfileDecl::resolved(decls[i], ctx) is Ok by {}
    }
    if forall|i: int|
        0 <= i < decls.len() ==> ProfileDecl::validated(#[trigger] decls[i], ctx.host) is Ok
            && ProfileDecl::resolved(decls[i], ctx) is Ok {
        assert forall|i: int| 0 <= i < decls.len() implies ProfileDecl::validated(
            #[trigger] decls[i],
            ctx.host,
        ) is Ok by {}
        assert forall|i: int| 0 <= i < decls.len() implies ProfileDecl::resolved(
            #[trigger] decls[i],
            ctx,
        ) is Ok by {}
    }
}

/// From the file to a sandbox: the paths of the file are expanded against
/// `$HOME`, without which there is no sandbox; what goes wrong with the
/// layers is what is wrong with the whole; and otherwise the whole is what
/// the layers come to.
pub proof fn law_file_and_command_line_make_the_sandbox(
    config: Seq<(Seq<char>, ProfileDeclView)>,
    cli: ProfileDeclView,
    config_path: Seq<u8>,
    ctx: ContextView,
    home: Seq<u8>,
)
    ensures
        ctx.host.var("HOME"@) is None ==> finalized_config(config, cli, config_path, ctx) == Err::<
            ProfileView,
            ErrorView,
        >(ErrorView::MissingEnvVar { name: "HOME"@ }),
        ctx.host.var("HOME"@) == Some(home) ==> match layers(config, cli, home, config_path) {
            Err(e) => finalized_config(config, cli, config_path, ctx) == Err::<
                ProfileView,
                ErrorView,
            >(e),
            Ok(decls) => finalized_config(config, cli, config_path, ctx) == laid_over(decls, ctx),
        },
{
}

/// The layers are the profiles in the order in which they apply, each as
/// the file declares it with its paths expanded, and the command line.
pub proof fn law_layers_are_the_profiles(
    config: Seq<(Seq<char>, ProfileDeclView)>,
    after: Seq<(Seq<char>, ProfileDeclView)>,
    cli: ProfileDeclView,
    home: Seq<u8>,
    config_path: Seq<u8>,
    order: Seq<Seq<char>>,
)
    requires
        ConfigFile::normalized(config, home) == Ok::<
            Seq<(Seq<char>, ProfileDeclView)>,
            ErrorView,
        >(after),
        walk(map_of(after), cli.uses, walk_start(), config_path) matches Ok(end) && end.order
            == order,
    ensures
        layers(config, cli, home, config_path) matches Ok(decls) && decls.len() == order.len() + 1
            && decls.last() == cli && forall|i: int|
            0 <= i < order.len() ==> decls[i] == map_of(after)[#[trigger] order[i]],
        with_profiles(order, map_of(after)).len() == order.len(),
        forall|i: int|
            0 <= i < order.len() ==> with_profiles(order, map_of(after))[i] == (
                #[trigger] order[i],
                map_of(after)[order[i]],
            ),
{
}

/// Where every layer is valid, the sandbox is what the layers resolve to,
/// one for one and merged in order, laid over the baseline.
pub proof fn law_layers_merge_in_order(
    decls: Seq<ProfileDeclView>,
    profiles: Seq<ProfileView>,
    ctx: ContextView,
)
    requires
        decls.len() == profiles.len(),
        forall|i: int|
            0 <= i < decls.len() ==> ProfileDecl::validated(#[trigger] decls[i], ctx.host) is Ok
                && ProfileDecl::resolved(decls[i], ctx) == Ok::<ProfileView, ErrorView>(
                profiles[i],
            ),
    ensures
        laid_over(decls, ctx) == Ok::<ProfileView, ErrorView>(
            finalized::<Profile>(merged_all::<Profile>(profiles), ctx.host),
        ),
{
    law_every_layer_counts(decls, ctx);
    law_lists_are_resolved::<ProfileDecl>(decls, ctx);
    law_lists_are_validated::<ProfileDecl>(decls, ctx.host, 0);
    assert forall|i: int| 0 <= i < decls.len() implies ProfileDecl::validated(
        #[trigger] decls[i],
        ctx.host,
    ) is Ok && ProfileDecl::resolved(decls[i], ctx) is Ok by {}
    let w = resolved_all::<ProfileDecl>(decls, ctx)->Ok_0;
    assert(laid_over(decls, ctx) is Ok);
    assert forall|i: int| 0 <= i < decls.len() implies w[i] == profiles[i] by {
        assert(ProfileDecl::resolved(decls[i], ctx) == Ok::<ProfileView, ErrorView>(w[i]));
    }
    assert(w =~= profiles);
}

} // verus!
