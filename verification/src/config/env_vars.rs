//! The environment variables that the sandboxed process sees.
//!
//! The sandbox starts from an empty environment, and every variable in it
//! comes from this inventory. First and foremost that keeps credentials
//! out: of the host's environment only the variables named here pass
//! through, plus those that the user asks for. It also keeps out
//! variables that point at things which do not exist inside.
//!
//! Variables to be passed through are looked up when they are resolved,
//! so that an inventory which is shown and one which is run are the same.

use crate::config::env_var::{EnvVar, EnvVarDecl, EnvVarDeclView, EnvVarView};
use crate::config::resolve_context::{ContextView, ResolveContext};
use crate::config::{
    expand_tilde, expanded, finalized, validate_all, validated_all, Decl, Finalize, Merge,
    NormalizeConfigPaths,
};
use crate::errors::{outcome, ErrorView, Result};
use crate::host::{last_value, law_first_value, law_last_value, Host, HostView};
use crate::name_map::{ascending, lemma_walk_of, map_of, walk_of, NameMap};
use crate::text::{
    bytes_of, copy_bytes, join_bytes, joined, lemma_split_first, push_bytes, split_at_each,
    split_bytes, starts_with_str, utf8, utf8_text,
};
use crate::values::{duplicate_all, duplicate_opt, opt_view, push_duplicates, views, Duplicate};
use vstd::prelude::*;
use vstd::string::*;
use vstd::utf8::*;

verus! {

/// The `PATH` of the sandbox, unless the user overrides it. The host's is
/// not passed through: it names directories that do not exist inside.
pub const CANONICAL_PATH: &'static str =
    "/usr/local/sbin:/usr/local/bin:/usr/sbin:/usr/bin:/sbin:/bin";

/// The separator of search path entries.
pub const COLON: u8 = 0x3a;

// ---------------------------------------------------------------------
// Declarations
// ---------------------------------------------------------------------
/// The declared variables, of one profile or of the command line.
#[derive(Debug)]
pub struct EnvVarDecls {
    /// The variables, in the order in which they were declared.
    pub env: Vec<EnvVarDecl>,
    /// What to use in place of the canonical `PATH`.
    pub path: Option<Vec<u8>>,
    /// Directories to put in front of `PATH`. The last one comes first,
    /// as with repeated `export PATH=$DIR:$PATH`.
    pub path_add: Vec<Vec<u8>>,
}

/// What [`EnvVarDecls`] say.
#[verifier::ext_equal]
pub struct EnvVarDeclsView {
    pub env: Seq<EnvVarDeclView>,
    pub path: Option<Seq<u8>>,
    pub path_add: Seq<Seq<u8>>,
}

impl View for EnvVarDecls {
    type V = EnvVarDeclsView;

    open spec fn view(&self) -> EnvVarDeclsView {
        EnvVarDeclsView {
            env: views(self.env@),
            path: opt_view(self.path),
            path_add: views(self.path_add@),
        }
    }
}

impl Duplicate for EnvVarDecls {
    fn duplicate(&self) -> (r: EnvVarDecls) {
        EnvVarDecls {
            env: duplicate_all(&self.env),
            path: duplicate_opt(&self.path),
            path_add: duplicate_all(&self.path_add),
        }
    }
}

impl Default for EnvVarDecls {
    /// No variables.
    fn default() -> (r: EnvVarDecls)
        ensures
            r@ == (EnvVarDeclsView { env: seq![], path: None, path_add: seq![] }),
    {
        let r = EnvVarDecls { env: Vec::new(), path: None, path_add: Vec::new() };
        assert(r@.env =~= Seq::<EnvVarDeclView>::empty());
        assert(r@.path_add =~= Seq::<Seq<u8>>::empty());
        r
    }
}

/// Every path of a list expanded; the first complaint counts.
pub open spec fn expanded_each(paths: Seq<Seq<u8>>, home: Seq<u8>) -> Result<
    Seq<Seq<u8>>,
    ErrorView,
>
    decreases paths.len(),
{
    if paths.len() == 0 {
        Ok(Seq::empty())
    } else {
        match expanded(paths[0], home) {
            Err(e) => Err(e),
            Ok(first) => match expanded_each(paths.skip(1), home) {
                Err(e) => Err(e),
                Ok(rest) => Ok(seq![first] + rest),
            },
        }
    }
}

/// A search path with each of its entries expanded.
pub open spec fn expanded_list(p: Seq<u8>, home: Seq<u8>) -> Result<Seq<u8>, ErrorView> {
    match expanded_each(split_at_each(p, COLON), home) {
        Ok(entries) => Ok(joined(entries, seq![COLON])),
        Err(e) => Err(e),
    }
}

/// Expand every path of a list.
fn expand_each(paths: &Vec<Vec<u8>>, home: &[u8]) -> (r: Result<Vec<Vec<u8>>>)
    ensures
        match expanded_each(views(paths@), home@) {
            Ok(s) => r matches Ok(v) && views(v@) == s,
            Err(e) => r matches Err(f) && f@ == e,
        },
{
    let ghost all = views(paths@);
    let ghost whole = expanded_each(all, home@);
    let mut out: Vec<Vec<u8>> = Vec::new();
    let mut i: usize = 0;
    proof {
        assert(all.skip(0) =~= all);
        assert(forall|s: Seq<Seq<u8>>| views(out@) + s =~= s);
    }
    while i < paths.len()
        invariant
            i <= paths@.len(),
            all == views(paths@),
            whole == expanded_each(all, home@),
            whole == (match expanded_each(all.skip(i as int), home@) {
                Ok(rest) => Ok(views(out@) + rest),
                Err(e) => Err(e),
            }),
        decreases paths.len() - i,
    {
        assert(all.skip(i as int)[0] == paths@[i as int]@);
        assert(all.skip(i as int).skip(1) =~= all.skip(i + 1));
        match expand_tilde(paths[i].as_slice(), home) {
            Ok(x) => {
                let ghost before = views(out@);
                out.push(x);
                proof {
                    assert(views(out@) =~= before.push(x@));
                    assert(forall|s: Seq<Seq<u8>>| before + (seq![x@] + s) =~= views(out@) + s);
                }
            },
            Err(e) => {
                return Err(e);
            },
        }
        i = i + 1;
    }
    assert(views(out@) + Seq::<Seq<u8>>::empty() =~= views(out@));
    Ok(out)
}

/// Expand each entry of a search path. Entries are told apart by bytes,
/// so those that are not UTF-8 survive.
pub fn expand_path_list(p: &[u8], home: &[u8]) -> (r: Result<Vec<u8>>)
    ensures
        outcome(r) == expanded_list(p@, home@),
{
    let entries = split_bytes(p, COLON);
    match expand_each(&entries, home) {
        Ok(v) => {
            let sep: Vec<u8> = vec![COLON];
            assert(sep@ =~= seq![COLON]);
            Ok(join_bytes(&v, sep.as_slice()))
        },
        Err(e) => Err(e),
    }
}

impl NormalizeConfigPaths for EnvVarDecls {
    open spec fn normalized(me: EnvVarDeclsView, home: Seq<u8>) -> Result<
        EnvVarDeclsView,
        ErrorView,
    > {
        match (match me.path {
            None => Ok(None),
            Some(p) => match expanded_list(p, home) {
                Ok(q) => Ok(Some(q)),
                Err(e) => Err(e),
            },
        }) {
            Err(e) => Err(e),
            Ok(path) => match expanded_each(me.path_add, home) {
                Err(e) => Err(e),
                Ok(path_add) => Ok(EnvVarDeclsView { path, path_add, ..me }),
            },
        }
    }

    /// The values of variables are not paths in general and stay as they
    /// are.
    fn normalize_config_paths(&mut self, home: &[u8]) -> (r: Result<()>) {
        let mut path: Option<Vec<u8>> = None;
        match &self.path {
            Some(p) => match expand_path_list(p.as_slice(), home) {
                Ok(q) => {
                    path = Some(q);
                },
                Err(e) => {
                    return Err(e);
                },
            },
            None => {},
        }
        match expand_each(&self.path_add, home) {
            Ok(path_add) => {
                self.path = path;
                self.path_add = path_add;
                Ok(())
            },
            Err(e) => Err(e),
        }
    }
}

/// What the declarations resolve to: a later one of a name replaces an
/// earlier one, and what resolves to nothing changes nothing.
pub open spec fn resolved_vars(decls: Seq<EnvVarDeclView>, host: HostView) -> Map<
    Seq<char>,
    Seq<u8>,
>
    decreases decls.len(),
{
    if decls.len() == 0 {
        Map::empty()
    } else {
        let before = resolved_vars(decls.drop_last(), host);
        match decls.last().var(host) {
            Some(v) => before.insert(v.name, v.value),
            None => before,
        }
    }
}

impl Decl for EnvVarDecls {
    type Resolved = EnvVars;

    open spec fn validated(me: EnvVarDeclsView, host: HostView) -> Result<(), ErrorView> {
        validated_all::<EnvVarDecl>(me.env, host)
    }

    open spec fn resolved(me: EnvVarDeclsView, ctx: ContextView) -> Result<
        EnvVarsView,
        ErrorView,
    > {
        Ok(
            EnvVarsView {
                vars: resolved_vars(me.env, ctx.host),
                path: me.path,
                path_add: me.path_add,
            },
        )
    }

    fn validate(&self, host: &Host) -> (r: Result<()>) {
        validate_all(&self.env, host)
    }

    fn resolve(&self, ctx: &ResolveContext) -> (r: Result<EnvVars>) {
        let ghost all = views(self.env@);
        let mut vars: NameMap<Vec<u8>> = NameMap::new();
        let mut i: usize = 0;
        while i < self.env.len()
            invariant
                i <= self.env@.len(),
                all == views(self.env@),
                vars@ == resolved_vars(all.take(i as int), ctx@.host),
            decreases self.env.len() - i,
        {
            proof {
                assert(all.take(i + 1).drop_last() =~= all.take(i as int));
                assert(all.take(i + 1).last() == self.env@[i as int]@);
            }
            match self.env[i].resolve(ctx) {
                Ok(resolved) => match resolved.var {
                    Some(v) => {
                        assert(resolved@ == all[i as int].var(ctx@.host));
                        vars.set(v.name, v.value);
                    },
                    None => {
                        assert(resolved@ == all[i as int].var(ctx@.host));
                    },
                },
                Err(e) => {
                    return Err(e);
                },
            }
            i = i + 1;
        }
        assert(all.take(all.len() as int) =~= all);
        Ok(
            EnvVars {
                vars,
                path: duplicate_opt(&self.path),
                path_add: duplicate_all(&self.path_add),
            },
        )
    }
}

// ---------------------------------------------------------------------
// Variables
// ---------------------------------------------------------------------
/// The variables of the sandbox. A name has one value, and names are
/// walked in alphabetical order.
#[derive(Debug)]
pub struct EnvVars {
    /// The variables.
    pub vars: NameMap<Vec<u8>>,
    /// What to use in place of the canonical `PATH`. It shapes the
    /// baseline and is gone once that is built.
    pub path: Option<Vec<u8>>,
    /// Directories to put in front of `PATH`, the last one first. They
    /// shape the baseline and are gone once that is built.
    pub path_add: Vec<Vec<u8>>,
}

/// What [`EnvVars`] say.
#[verifier::ext_equal]
pub struct EnvVarsView {
    pub vars: Map<Seq<char>, Seq<u8>>,
    pub path: Option<Seq<u8>>,
    pub path_add: Seq<Seq<u8>>,
}

impl View for EnvVars {
    type V = EnvVarsView;

    open spec fn view(&self) -> EnvVarsView {
        EnvVarsView {
            vars: self.vars@,
            path: opt_view(self.path),
            path_add: views(self.path_add@),
        }
    }
}

impl Duplicate for EnvVars {
    fn duplicate(&self) -> (r: EnvVars) {
        EnvVars {
            vars: self.vars.duplicate(),
            path: duplicate_opt(&self.path),
            path_add: duplicate_all(&self.path_add),
        }
    }
}

impl Default for EnvVars {
    /// No variables.
    fn default() -> (r: EnvVars)
        ensures
            r@ == EnvVars::neutral_view(),
    {
        EnvVars::neutral()
    }
}

/// The variables that entries spell.
pub open spec fn vars_of(e: Seq<(Seq<char>, Seq<u8>)>) -> Seq<EnvVarView> {
    e.map_values(|p: (Seq<char>, Seq<u8>)| EnvVarView { name: p.0, value: p.1 })
}

impl EnvVars {
    /// The entries, in the order in which they are walked.
    pub open spec fn entries(&self) -> Seq<(Seq<char>, Seq<u8>)> {
        self.vars.entries()
    }

    /// Let `name` have `value`, whatever it had before.
    pub fn set(&mut self, name: &str, value: Vec<u8>)
        ensures
            final(self)@ == (EnvVarsView {
                vars: old(self)@.vars.insert(name@, value@),
                ..old(self)@
            }),
    {
        self.vars.set(name.to_owned(), value);
    }

    /// The variables, each name once, in alphabetical order.
    pub fn iter(&self) -> (r: Vec<EnvVar>)
        ensures
            views(r@) == vars_of(walk_of(self@.vars)),
    {
        let n = self.vars.len();
        let mut out: Vec<EnvVar> = Vec::new();
        let mut i: usize = 0;
        while i < n
            invariant
                i <= n,
                n == self.entries().len(),
                out@.len() == i,
                forall|j: int| 0 <= j < i ==> (#[trigger] out@[j])@ == vars_of(self.entries())[j],
            decreases n - i,
        {
            let name = self.vars.name_at(i).clone();
            let value = self.vars.value_at(i).duplicate();
            out.push(EnvVar { name, value });
            i = i + 1;
        }
        assert(views(out@) =~= vars_of(self.entries()));
        proof {
            lemma_walk_of(self.entries());
        }
        out
    }

    /// The number of variables.
    pub fn len(&self) -> (n: usize)
        ensures
            n == walk_of(self@.vars).len(),
    {
        let n = self.vars.len();
        proof {
            lemma_walk_of(self.entries());
        }
        n
    }
}

impl Merge for EnvVars {
    open spec fn neutral_view() -> EnvVarsView {
        EnvVarsView { vars: Map::empty(), path: None, path_add: seq![] }
    }

    /// Where both have a name, `b` decides; likewise for the override of
    /// `PATH`. The directories of `a` come before those of `b`.
    open spec fn merged(a: EnvVarsView, b: EnvVarsView) -> EnvVarsView {
        EnvVarsView {
            vars: a.vars.union_prefer_right(b.vars),
            path: if b.path is Some {
                b.path
            } else {
                a.path
            },
            path_add: a.path_add + b.path_add,
        }
    }

    proof fn law_neutral(a: EnvVarsView) {
        assert(Map::<Seq<char>, Seq<u8>>::empty().union_prefer_right(a.vars) =~= a.vars);
        assert(a.vars.union_prefer_right(Map::empty()) =~= a.vars);
        assert(Seq::<Seq<u8>>::empty() + a.path_add =~= a.path_add);
        assert(a.path_add + Seq::<Seq<u8>>::empty() =~= a.path_add);
    }

    proof fn law_associative(a: EnvVarsView, b: EnvVarsView, c: EnvVarsView) {
        assert(a.vars.union_prefer_right(b.vars).union_prefer_right(c.vars)
            =~= a.vars.union_prefer_right(b.vars.union_prefer_right(c.vars)));
        assert(a.path_add + b.path_add + c.path_add =~= a.path_add + (b.path_add + c.path_add));
    }

    fn neutral() -> (r: EnvVars) {
        let r = EnvVars { vars: NameMap::new(), path: None, path_add: Vec::new() };
        assert(r@.path_add =~= Seq::<Seq<u8>>::empty());
        r
    }

    fn merge_right_biased(&self, other: &EnvVars) -> (r: EnvVars) {
        let mut vars = self.vars.duplicate();
        vars.set_all(&other.vars);
        let path = if other.path.is_some() {
            duplicate_opt(&other.path)
        } else {
            duplicate_opt(&self.path)
        };
        let mut path_add = duplicate_all(&self.path_add);
        push_duplicates(&mut path_add, &other.path_add);
        EnvVars { vars, path, path_add }
    }
}

// ---------------------------------------------------------------------
// The baseline
// ---------------------------------------------------------------------
/// The variables of the host that pass through by default: identity, what
/// terminal programs need to draw properly, the language, and a few
/// preferences. `HOME` passes through as well; `PATH` does not.
pub open spec fn passthrough_names() -> Seq<Seq<char>> {
    seq![
        "USER"@,
        "LOGNAME"@,
        "SHELL"@,
        "TERM"@,
        "COLORTERM"@,
        "NO_COLOR"@,
        "FORCE_COLOR"@,
        "CLICOLOR"@,
        "CLICOLOR_FORCE"@,
        "TERMINFO"@,
        "TERMINFO_DIRS"@,
        "COLUMNS"@,
        "LINES"@,
        "TERM_PROGRAM"@,
        "TERM_PROGRAM_VERSION"@,
        "LANG"@,
        "TZ"@,
        "EDITOR"@,
        "VISUAL"@,
        "PAGER"@,
    ]
}

/// Is this one of the open-ended family of `LC_*` names?
pub open spec fn is_locale_name(name: Seq<char>) -> bool {
    "LC_"@.is_prefix_of(name)
}

/// `base` with the directories in front of it, the last one first.
pub open spec fn search_path(adds: Seq<Seq<u8>>, base: Seq<u8>) -> Seq<u8>
    decreases adds.len(),
{
    if adds.len() == 0 {
        base
    } else {
        adds.last() + seq![COLON] + search_path(adds.drop_last(), base)
    }
}

/// The `PATH` that the user's options ask for.
pub open spec fn path_value(me: EnvVarsView) -> Seq<u8> {
    search_path(
        me.path_add,
        match me.path {
            Some(p) => p,
            None => utf8(CANONICAL_PATH@),
        },
    )
}

/// Those of the host's variables that pass through, and `PATH`: of the
/// plain names in `names`, and of the locale names among `scanned`.
pub open spec fn allowed_vars(
    host: HostView,
    names: Seq<Seq<char>>,
    scanned: Seq<(Seq<u8>, Seq<u8>)>,
    path: Seq<u8>,
) -> Map<Seq<char>, Seq<u8>> {
    Map::new(
        |n: Seq<char>|
            {
                ||| n == "PATH"@
                ||| (n == "HOME"@ || names.contains(n)) && host.var(n) is Some
                ||| is_locale_name(n) && last_value(scanned, utf8(n)) is Some
            },
        |n: Seq<char>|
            if n == "PATH"@ {
                path
            } else if is_locale_name(n) {
                last_value(scanned, utf8(n))->0
            } else {
                host.var(n)->0
            },
    )
}

/// One more plain name adds the host's variable of that name, if it has
/// one, and nothing else.
proof fn lemma_one_more_name(
    host: HostView,
    names: Seq<Seq<char>>,
    name: Seq<char>,
    scanned: Seq<(Seq<u8>, Seq<u8>)>,
    path: Seq<u8>,
)
    requires
        name != "PATH"@,
        !is_locale_name(name),
    ensures
        allowed_vars(host, names.push(name), scanned, path) == (match host.var(name) {
            Some(value) => allowed_vars(host, names, scanned, path).insert(name, value),
            None => allowed_vars(host, names, scanned, path),
        }),
{
    let before = allowed_vars(host, names, scanned, path);
    let after = allowed_vars(host, names.push(name), scanned, path);
    let stated = match host.var(name) {
        Some(value) => before.insert(name, value),
        None => before,
    };
    assert forall|n: Seq<char>| #[trigger]
        after.contains_key(n) == stated.contains_key(n) by {
        assert(names.push(name).contains(n) == (names.contains(n) || n == name)) by {
            if names.contains(n) {
                let j = choose|j: int| 0 <= j < names.len() && names[j] == n;
                assert(names.push(name)[j] == n);
            }
            assert(names.push(name)[names.len() as int] == name);
        }
    }
    assert forall|n: Seq<char>| #[trigger] after.contains_key(n) implies after[n]
        == stated[n] by {
        if n != name {
            assert(before.contains_key(n));
        }
    }
    assert(after =~= stated);
}

/// The names that pass through are neither `PATH` nor locale names.
proof fn lemma_plain_names(n: Seq<char>)
    requires
        n == "HOME"@ || passthrough_names().contains(n),
    ensures
        n != "PATH"@,
        !is_locale_name(n),
{
    reveal_strlit("PATH");
    reveal_strlit("LC_");
    reveal_strlit("HOME");
    reveal_strlit("USER");
    reveal_strlit("LOGNAME");
    reveal_strlit("SHELL");
    reveal_strlit("TERM");
    reveal_strlit("COLORTERM");
    reveal_strlit("NO_COLOR");
    reveal_strlit("FORCE_COLOR");
    reveal_strlit("CLICOLOR");
    reveal_strlit("CLICOLOR_FORCE");
    reveal_strlit("TERMINFO");
    reveal_strlit("TERMINFO_DIRS");
    reveal_strlit("COLUMNS");
    reveal_strlit("LINES");
    reveal_strlit("TERM_PROGRAM");
    reveal_strlit("TERM_PROGRAM_VERSION");
    reveal_strlit("LANG");
    reveal_strlit("TZ");
    reveal_strlit("EDITOR");
    reveal_strlit("VISUAL");
    reveal_strlit("PAGER");
    assert("PATH"@[0] == 'P' && "PATH"@.len() == 4 && "PATH"@[2] == 'T');
    assert("LC_"@[0] == 'L' && "LC_"@[1] == 'C');
    if is_locale_name(n) {
        assert(n.subrange(0, 3)[0] == 'L' && n.subrange(0, 3)[1] == 'C');
        assert(n[0] == 'L' && n[1] == 'C');
    }
    if n != "HOME"@ {
        let i = choose|i: int| 0 <= i < passthrough_names().len() && passthrough_names()[i] == n;
        assert(0 <= i < 20 && passthrough_names()[i] == n);
    }
}

/// The names that pass through by default.
pub(crate) fn passthrough_list() -> (r: Vec<&'static str>)
    ensures
        views(r@) == passthrough_names(),
{
    let r: Vec<&'static str> = vec![
        "USER",
        "LOGNAME",
        "SHELL",
        "TERM",
        "COLORTERM",
        "NO_COLOR",
        "FORCE_COLOR",
        "CLICOLOR",
        "CLICOLOR_FORCE",
        "TERMINFO",
        "TERMINFO_DIRS",
        "COLUMNS",
        "LINES",
        "TERM_PROGRAM",
        "TERM_PROGRAM_VERSION",
        "LANG",
        "TZ",
        "EDITOR",
        "VISUAL",
        "PAGER",
    ];
    assert(views(r@) =~= passthrough_names());
    r
}

/// The value of `PATH` that the options ask for.
fn build_path(path: &Option<Vec<u8>>, path_add: &Vec<Vec<u8>>) -> (r: Vec<u8>)
    ensures
        r@ == search_path(
            views(path_add@),
            match opt_view(*path) {
                Some(p) => p,
                None => utf8(CANONICAL_PATH@),
            },
        ),
{
    let base = match path {
        Some(p) => copy_bytes(p.as_slice()),
        None => bytes_of(CANONICAL_PATH),
    };
    let ghost all = views(path_add@);
    let mut out: Vec<u8> = Vec::new();
    let mut i: usize = path_add.len();
    proof {
        assert(all.take(i as int) =~= all);
        assert(out@ + search_path(all, base@) =~= search_path(all, base@));
    }
    while i > 0
        invariant
            i <= path_add@.len(),
            all == views(path_add@),
            out@ + search_path(all.take(i as int), base@) == search_path(all, base@),
        decreases i,
    {
        let ghost before = out@;
        let ghost rest = search_path(all.take(i - 1), base@);
        proof {
            assert(all.take(i as int).drop_last() =~= all.take(i - 1));
            assert(all.take(i as int).last() == path_add@[i - 1]@);
        }
        push_bytes(&mut out, path_add[i - 1].as_slice());
        out.push(COLON);
        proof {
            assert(before + (path_add@[i - 1]@ + seq![COLON] + rest) =~= out@ + rest);
        }
        i = i - 1;
    }
    let ghost before = out@;
    push_bytes(&mut out, base.as_slice());
    out
}

impl Finalize for EnvVars {
    /// The environment of a sandbox for which the user asked nothing:
    /// `PATH`, and of the host's variables those that pass through.
    open spec fn base(me: EnvVarsView, host: HostView) -> EnvVarsView {
        EnvVarsView {
            vars: allowed_vars(host, passthrough_names(), host.vars, path_value(me)),
            path: None,
            path_add: seq![],
        }
    }

    open spec fn cleared(me: EnvVarsView) -> EnvVarsView {
        EnvVarsView { path: None, path_add: seq![], ..me }
    }

    fn base_config(&self, host: &Host) -> (r: EnvVars) {
        let mut base = EnvVars::neutral();
        let ghost none = Seq::<(Seq<u8>, Seq<u8>)>::empty();
        let ghost path = path_value(self@);
        match host.var_os("HOME") {
            Some(home) => base.set("HOME", home),
            None => {},
        }
        base.set("PATH", build_path(&self.path, &self.path_add));
        let names = passthrough_list();
        let ghost all = views(names@);
        proof {
            lemma_plain_names("HOME"@);
            assert(base@.vars =~= allowed_vars(host@, all.take(0), none, path));
        }
        let mut i: usize = 0;
        while i < names.len()
            invariant
                i <= names@.len(),
                all == views(names@),
                all == passthrough_names(),
                none.len() == 0,
                path == path_value(self@),
                base@ == (EnvVarsView {
                    vars: allowed_vars(host@, all.take(i as int), none, path),
                    path: None,
                    path_add: seq![],
                }),
            decreases names.len() - i,
        {
            let ghost name = names@[i as int]@;
            proof {
                assert(all[i as int] == name);
                lemma_plain_names(name);
                assert(all.take(i + 1) =~= all.take(i as int).push(name));
            }
            match host.var_os(names[i]) {
                Some(value) => base.set(names[i], value),
                None => {},
            }
            proof {
                lemma_one_more_name(host@, all.take(i as int), name, none, path);
                assert(base@.vars =~= allowed_vars(host@, all.take(i + 1), none, path));
            }
            i = i + 1;
        }
        proof {
            assert(all.take(all.len() as int) =~= all);
            assert(host@.vars.take(0) =~= none);
        }
        let mut j: usize = 0;
        while j < host.vars.len()
            invariant
                j <= host.vars@.len(),
                path == path_value(self@),
                base@ == (EnvVarsView {
                    vars: allowed_vars(
                        host@,
                        passthrough_names(),
                        host@.vars.take(j as int),
                        path,
                    ),
                    path: None,
                    path_add: seq![],
                }),
            decreases host.vars.len() - j,
        {
            let ghost before = base@.vars;
            let ghost key = host.vars@[j as int].name@;
            let ghost value = host.vars@[j as int].value@;
            let ghost seen = host@.vars.take(j as int);
            let ghost next = host@.vars.take(j + 1);
            proof {
                assert(next.drop_last() =~= seen);
                assert(next.last() == (key, value));
            }
            match utf8_text(host.vars[j].name.as_slice()) {
                Some(name) => {
                    proof {
                        decode_utf8_encode_utf8(key);
                    }
                    if starts_with_str(name.as_str(), "LC_") {
                        base.set(name.as_str(), copy_bytes(host.vars[j].value.as_slice()));
                    }
                },
                None => {},
            }
            proof {
                let after = allowed_vars(host@, passthrough_names(), next, path);
                reveal_strlit("PATH");
                reveal_strlit("LC_");
                assert(!is_locale_name("PATH"@)) by {
                    if is_locale_name("PATH"@) {
                        assert("PATH"@.subrange(0, 3)[0] == 'P');
                        assert("LC_"@[0] == 'L');
                    }
                }
                assert forall|n: Seq<char>|
                    is_locale_name(n) && utf8(n) == key implies valid_utf8(key) && decode_utf8(key)
                    == n by {
                    encode_utf8_valid_utf8(n);
                    encode_utf8_decode_utf8(n);
                }
                assert forall|n: Seq<char>| is_locale_name(n) implies n != "HOME"@
                    && !passthrough_names().contains(n) by {
                    if n == "HOME"@ || passthrough_names().contains(n) {
                        lemma_plain_names(n);
                    }
                }
                assert(base@.vars =~= after);
            }
            j = j + 1;
        }
        assert(host@.vars.take(host@.vars.len() as int) =~= host@.vars);
        base
    }

    fn clear_extra_fields(&mut self) {
        self.path = None;
        self.path_add = Vec::new();
        assert(self@.path_add =~= Seq::<Seq<u8>>::empty());
    }
}

// ---------------------------------------------------------------------
// Laws
// ---------------------------------------------------------------------
/// No credentials leak: a variable of the finalized environment is one
/// that the user set or asked for, or `PATH`, or one of the few that pass
/// through. Everything else that the host has stays outside.
pub proof fn law_environment_is_allowlisted(me: EnvVarsView, host: HostView, name: Seq<char>)
    requires
        finalized::<EnvVars>(me, host).vars.contains_key(name),
    ensures
        me.vars.contains_key(name) || name == "PATH"@ || name == "HOME"@
            || passthrough_names().contains(name) || is_locale_name(name),
{
}

/// The user wins over the baseline.
pub proof fn law_user_variables_win(me: EnvVarsView, host: HostView, name: Seq<char>)
    requires
        me.vars.contains_key(name),
    ensures
        finalized::<EnvVars>(me, host).vars.contains_key(name),
        finalized::<EnvVars>(me, host).vars[name] == me.vars[name],
{
}

/// Unless the user sets `PATH` itself, it is the one that the path
/// options ask for; the host's own is never used.
pub proof fn law_path_is_built(me: EnvVarsView, host: HostView)
    requires
        !me.vars.contains_key("PATH"@),
    ensures
        finalized::<EnvVars>(me, host).vars.contains_key("PATH"@),
        finalized::<EnvVars>(me, host).vars["PATH"@] == path_value(me),
{
}

/// A finalized environment holds no path options any more.
pub proof fn law_finalized_has_no_path_options(me: EnvVarsView, host: HostView)
    ensures
        finalized::<EnvVars>(me, host).path is None,
        finalized::<EnvVars>(me, host).path_add.len() == 0,
{
}

/// The variables that pass through by default, spelled out: each that the
/// host has is in the finalized environment with the host's value, unless
/// the user sets it.
pub proof fn law_default_names_pass_through(
    me: EnvVarsView,
    host: HostView,
    name: Seq<char>,
    i: int,
)
    requires
        ({
            ||| name == "HOME"@
            ||| name == "USER"@
            ||| name == "LOGNAME"@
            ||| name == "SHELL"@
            ||| name == "TERM"@
            ||| name == "COLORTERM"@
            ||| name == "NO_COLOR"@
            ||| name == "FORCE_COLOR"@
            ||| name == "CLICOLOR"@
            ||| name == "CLICOLOR_FORCE"@
            ||| name == "TERMINFO"@
            ||| name == "TERMINFO_DIRS"@
            ||| name == "COLUMNS"@
            ||| name == "LINES"@
            ||| name == "TERM_PROGRAM"@
            ||| name == "TERM_PROGRAM_VERSION"@
            ||| name == "LANG"@
            ||| name == "TZ"@
            ||| name == "EDITOR"@
            ||| name == "VISUAL"@
            ||| name == "PAGER"@
        }),
        0 <= i < host.vars.len(),
        host.vars[i].0 == utf8(name),
        forall|j: int| 0 <= j < i ==> (#[trigger] host.vars[j]).0 != utf8(name),
        !me.vars.contains_key(name),
    ensures
        finalized::<EnvVars>(me, host).vars.contains_key(name),
        finalized::<EnvVars>(me, host).vars[name] == host.vars[i].1,
{
    law_first_value(host.vars, utf8(name));
    if name != "HOME"@ {
        law_default_names_spelled_out(name);
    }
    lemma_plain_names(name);
}

/// Nothing else passes through: what is in the finalized environment, and
/// was not set or asked for by the user, is `PATH`, or one of the names
/// that pass through by default, or starts with `LC_`; and the host has it.
pub proof fn law_only_default_names_pass_through(
    me: EnvVarsView,
    host: HostView,
    name: Seq<char>,
)
    requires
        finalized::<EnvVars>(me, host).vars.contains_key(name),
        !me.vars.contains_key(name),
        name != "PATH"@,
    ensures
        ({
            ||| name == "HOME"@
            ||| name == "USER"@
            ||| name == "LOGNAME"@
            ||| name == "SHELL"@
            ||| name == "TERM"@
            ||| name == "COLORTERM"@
            ||| name == "NO_COLOR"@
            ||| name == "FORCE_COLOR"@
            ||| name == "CLICOLOR"@
            ||| name == "CLICOLOR_FORCE"@
            ||| name == "TERMINFO"@
            ||| name == "TERMINFO_DIRS"@
            ||| name == "COLUMNS"@
            ||| name == "LINES"@
            ||| name == "TERM_PROGRAM"@
            ||| name == "TERM_PROGRAM_VERSION"@
            ||| name == "LANG"@
            ||| name == "TZ"@
            ||| name == "EDITOR"@
            ||| name == "VISUAL"@
            ||| name == "PAGER"@
            ||| name.len() >= 3 && name[0] == 'L' && name[1] == 'C' && name[2] == '_'
        }),
        exists|i: int| 0 <= i < host.vars.len() && (#[trigger] host.vars[i]).0 == utf8(name),
{
    let base = EnvVars::base(me, host).vars;
    assert(base.contains_key(name));
    if is_locale_name(name) {
        lemma_locale_spelled(name);
    } else if name != "HOME"@ {
        law_default_names_spelled_out(name);
    }
    assert(exists|i: int| 0 <= i < host.vars.len() && (#[trigger] host.vars[i]).0 == utf8(name))
        by {
        law_first_value(host.vars, utf8(name));
        law_last_value(host.vars, utf8(name));
    }
}

/// The names that pass through, one by one.
pub proof fn law_default_names_spelled_out(name: Seq<char>)
    ensures
        passthrough_names().contains(name) <==> ({
            ||| name == "USER"@
            ||| name == "LOGNAME"@
            ||| name == "SHELL"@
            ||| name == "TERM"@
            ||| name == "COLORTERM"@
            ||| name == "NO_COLOR"@
            ||| name == "FORCE_COLOR"@
            ||| name == "CLICOLOR"@
            ||| name == "CLICOLOR_FORCE"@
            ||| name == "TERMINFO"@
            ||| name == "TERMINFO_DIRS"@
            ||| name == "COLUMNS"@
            ||| name == "LINES"@
            ||| name == "TERM_PROGRAM"@
            ||| name == "TERM_PROGRAM_VERSION"@
            ||| name == "LANG"@
            ||| name == "TZ"@
            ||| name == "EDITOR"@
            ||| name == "VISUAL"@
            ||| name == "PAGER"@
        }),
{
    let names = passthrough_names();
    if names.contains(name) {
        let k = choose|k: int| 0 <= k < names.len() && names[k] == name;
        assert(0 <= k < 20 && names[k] == name);
    }
    if name == "USER"@ {
        assert(names[0] == name);
    }
    if name == "LOGNAME"@ {
        assert(names[1] == name);
    }
    if name == "SHELL"@ {
        assert(names[2] == name);
    }
    if name == "TERM"@ {
        assert(names[3] == name);
    }
    if name == "COLORTERM"@ {
        assert(names[4] == name);
    }
    if name == "NO_COLOR"@ {
        assert(names[5] == name);
    }
    if name == "FORCE_COLOR"@ {
        assert(names[6] == name);
    }
    if name == "CLICOLOR"@ {
        assert(names[7] == name);
    }
    if name == "CLICOLOR_FORCE"@ {
        assert(names[8] == name);
    }
    if name == "TERMINFO"@ {
        assert(names[9] == name);
    }
    if name == "TERMINFO_DIRS"@ {
        assert(names[10] == name);
    }
    if name == "COLUMNS"@ {
        assert(names[11] == name);
    }
    if name == "LINES"@ {
        assert(names[12] == name);
    }
    if name == "TERM_PROGRAM"@ {
        assert(names[13] == name);
    }
    if name == "TERM_PROGRAM_VERSION"@ {
        assert(names[14] == name);
    }
    if name == "LANG"@ {
        assert(names[15] == name);
    }
    if name == "TZ"@ {
        assert(names[16] == name);
    }
    if name == "EDITOR"@ {
        assert(names[17] == name);
    }
    if name == "VISUAL"@ {
        assert(names[18] == name);
    }
    if name == "PAGER"@ {
        assert(names[19] == name);
    }
}

/// How a locale name starts.
proof fn lemma_locale_spelled(name: Seq<char>)
    requires
        is_locale_name(name),
    ensures
        name.len() >= 3 && name[0] == 'L' && name[1] == 'C' && name[2] == '_',
{
    reveal_strlit("LC_");
    let head = name.subrange(0, 3);
    assert(head[0] == name[0] && head[1] == name[1] && head[2] == name[2]);
}

/// A variable of the host whose name starts with `LC_` passes through,
/// unless the user sets it; the last one of a name counts.
pub proof fn law_locale_passes_through(me: EnvVarsView, host: HostView, name: Seq<char>, i: int)
    requires
        name.len() >= 3 && name[0] == 'L' && name[1] == 'C' && name[2] == '_',
        0 <= i < host.vars.len(),
        host.vars[i].0 == utf8(name),
        forall|j: int| i < j < host.vars.len() ==> (#[trigger] host.vars[j]).0 != utf8(name),
        !me.vars.contains_key(name),
    ensures
        finalized::<EnvVars>(me, host).vars.contains_key(name),
        finalized::<EnvVars>(me, host).vars[name] == host.vars[i].1,
{
    law_last_value(host.vars, utf8(name));
    reveal_strlit("LC_");
    reveal_strlit("PATH");
    assert("LC_"@ =~= name.subrange(0, 3));
    assert("PATH"@[0] == 'P');
}

/// Taking a search path apart gives the directories, from the last to the
/// first, and then the entries of the base.
proof fn lemma_search_path_entries(adds: Seq<Seq<u8>>, base: Seq<u8>)
    requires
        forall|i: int| 0 <= i < adds.len() ==> !(#[trigger] adds[i]).contains(COLON),
    ensures
        split_at_each(search_path(adds, base), COLON) == adds.reverse() + split_at_each(
            base,
            COLON,
        ),
    decreases adds.len(),
{
    if adds.len() == 0 {
        assert(adds.reverse() + split_at_each(base, COLON) =~= split_at_each(base, COLON));
    } else {
        let rest = adds.drop_last();
        assert forall|i: int| 0 <= i < rest.len() implies !(#[trigger] rest[i]).contains(COLON) by {
            assert(rest[i] == adds[i]);
        }
        lemma_search_path_entries(rest, base);
        assert(adds.last() == adds[adds.len() - 1]);
        lemma_split_first(adds.last(), COLON, search_path(rest, base));
        assert(adds.reverse() =~= seq![adds.last()] + rest.reverse());
        assert(seq![adds.last()] + (rest.reverse() + split_at_each(base, COLON))
            =~= adds.reverse() + split_at_each(base, COLON));
    }
}

/// Unless the user sets `PATH` itself, taken apart at the colons it is
/// every added directory, each once and from the last to the first,
/// followed by the entries of the override, or of the canonical path.
pub proof fn law_path_entries(me: EnvVarsView, host: HostView)
    requires
        !me.vars.contains_key("PATH"@),
        forall|i: int| 0 <= i < me.path_add.len() ==> !(#[trigger] me.path_add[i]).contains(0x3au8),
    ensures
        ({
            let path = finalized::<EnvVars>(me, host).vars["PATH"@];
            let base = match me.path {
                Some(p) => p,
                None => utf8("/usr/local/sbin:/usr/local/bin:/usr/sbin:/usr/bin:/sbin:/bin"@),
            };
            let n = me.path_add.len();
            let entries = split_at_each(path, 0x3au8);
            &&& finalized::<EnvVars>(me, host).vars.contains_key("PATH"@)
            &&& entries.len() == n + split_at_each(base, 0x3au8).len()
            &&& forall|i: int| 0 <= i < n ==> #[trigger] entries[i] == me.path_add[n - 1 - i]
            &&& entries.skip(n as int) == split_at_each(base, 0x3au8)
        }),
{
    let base = match me.path {
        Some(p) => p,
        None => utf8("/usr/local/sbin:/usr/local/bin:/usr/sbin:/usr/bin:/sbin:/bin"@),
    };
    lemma_search_path_entries(me.path_add, base);
    let entries = me.path_add.reverse() + split_at_each(base, COLON);
    assert(entries.skip(me.path_add.len() as int) =~= split_at_each(base, COLON));
}

/// Where two layers meet, the directories of the later one come before
/// those of the earlier one, and its override is the one that counts.
pub proof fn law_later_directories_come_first(a: EnvVarsView, b: EnvVarsView, host: HostView)
    requires
        !a.vars.contains_key("PATH"@),
        !b.vars.contains_key("PATH"@),
        forall|i: int| 0 <= i < a.path_add.len() ==> !(#[trigger] a.path_add[i]).contains(0x3au8),
        forall|i: int| 0 <= i < b.path_add.len() ==> !(#[trigger] b.path_add[i]).contains(0x3au8),
    ensures
        ({
            let end = finalized::<EnvVars>(EnvVars::merged(a, b), host);
            let entries = split_at_each(end.vars["PATH"@], 0x3au8);
            let na = a.path_add.len();
            let nb = b.path_add.len();
            &&& end.vars.contains_key("PATH"@)
            &&& forall|i: int| 0 <= i < nb ==> #[trigger] entries[i] == b.path_add[nb - 1 - i]
            &&& forall|i: int|
                nb <= i < nb + na ==> #[trigger] entries[i] == a.path_add[na - 1 - (i - nb)]
            &&& b.path matches Some(p) ==> entries.skip((na + nb) as int) == split_at_each(
                p,
                0x3au8,
            )
            &&& b.path is None && a.path is Some ==> entries.skip((na + nb) as int)
                == split_at_each(a.path->0, 0x3au8)
        }),
{
    let me = EnvVars::merged(a, b);
    assert forall|i: int| 0 <= i < me.path_add.len() implies !(#[trigger] me.path_add[i]).contains(
        0x3au8,
    ) by {
        if i < a.path_add.len() {
            assert(me.path_add[i] == a.path_add[i]);
        } else {
            assert(me.path_add[i] == b.path_add[i - a.path_add.len()]);
        }
    }
    law_path_entries(me, host);
}

/// Of the declarations of one variable the last that comes to a value
/// decides: a literal always does, and one that passes the host's through
/// does where the host has it. A variable of which none does is not there.
pub proof fn law_last_declaration_counts(
    decls: Seq<EnvVarDeclView>,
    host: HostView,
    name: Seq<char>,
    i: int,
)
    ensures
        0 <= i < decls.len() && decls[i].name.value == name && (decls[i].value is Some || host.var(
            name,
        ) is Some) && (forall|j: int|
            i < j < decls.len() ==> (#[trigger] decls[j]).name.value != name || (decls[j].value
                is None && host.var(name) is None)) ==> {
            &&& resolved_vars(decls, host).contains_key(name)
            &&& decls[i].value matches Some(literal) ==> resolved_vars(decls, host)[name] == utf8(
                literal,
            )
            &&& decls[i].value is None ==> Some(resolved_vars(decls, host)[name]) == host.var(name)
        },
        (forall|j: int|
            0 <= j < decls.len() ==> (#[trigger] decls[j]).name.value != name || (decls[j].value
                is None && host.var(name) is None)) ==> !resolved_vars(decls, host).contains_key(
            name,
        ),
    decreases decls.len(),
{
    if decls.len() > 0 {
        let fewer = decls.drop_last();
        let n = decls.len() - 1;
        assert(decls.last() == decls[n]);
        law_last_declaration_counts(fewer, host, name, i);
        assert(forall|j: int| 0 <= j < n ==> #[trigger] fewer[j] == decls[j]);
        if 0 <= i < n && (forall|j: int|
            i < j < decls.len() ==> (#[trigger] decls[j]).name.value != name || (decls[j].value
                is None && host.var(name) is None)) {
            assert(decls[n].name.value != name || (decls[n].value is None && host.var(
                name,
            ) is None));
            assert(fewer[i] == decls[i]);
            assert forall|j: int| i < j < fewer.len() implies (#[trigger] fewer[j]).name.value
                != name || (fewer[j].value is None && host.var(name) is None) by {
                assert(fewer[j] == decls[j]);
            }
        }
        if forall|j: int|
            0 <= j < decls.len() ==> (#[trigger] decls[j]).name.value != name || (decls[j].value
                is None && host.var(name) is None) {
            assert(decls[n].name.value != name || (decls[n].value is None && host.var(
                name,
            ) is None));
            assert forall|j: int| 0 <= j < fewer.len() implies (#[trigger] fewer[j]).name.value
                != name || (fewer[j].value is None && host.var(name) is None) by {
                assert(fewer[j] == decls[j]);
            }
        }
    }
}

/// Paths are expanded one for one and in order, where every one of them
/// can be.
pub proof fn law_paths_expand_one_for_one(paths: Seq<Seq<u8>>, home: Seq<u8>)
    ensures
        expanded_each(paths, home) is Ok <==> forall|j: int|
            0 <= j < paths.len() ==> expanded(#[trigger] paths[j], home) is Ok,
        expanded_each(paths, home) matches Ok(w) ==> {
            &&& w.len() == paths.len()
            &&& forall|j: int|
                0 <= j < paths.len() ==> expanded(#[trigger] paths[j], home) == Ok::<
                    Seq<u8>,
                    ErrorView,
                >(w[j])
        },
    decreases paths.len(),
{
    if paths.len() > 0 {
        let rest = paths.skip(1);
        law_paths_expand_one_for_one(rest, home);
        if expanded_each(paths, home) is Ok {
            let w = expanded_each(paths, home)->Ok_0;
            let more = expanded_each(rest, home)->Ok_0;
            assert forall|j: int| 0 <= j < paths.len() implies expanded(#[trigger] paths[j], home)
                == Ok::<Seq<u8>, ErrorView>(w[j]) by {
                if j > 0 {
                    assert(rest[j - 1] == paths[j]);
                    assert(w[j] == more[j - 1]);
                }
            }
        }
        if forall|j: int| 0 <= j < paths.len() ==> expanded(#[trigger] paths[j], home) is Ok {
            assert(expanded(paths[0], home) is Ok);
            assert forall|j: int| 0 <= j < rest.len() implies expanded(
                #[trigger] rest[j],
                home,
            ) is Ok by {
                assert(rest[j] == paths[j + 1]);
            }
        }
    }
}

/// A search path is expanded entry by entry: its entries are what stands
/// between the colons, each is expanded by itself, and the colons stay
/// where they are.
pub proof fn law_search_path_expands_by_entry(p: Seq<u8>, home: Seq<u8>, entries: Seq<Seq<u8>>)
    requires
        entries.len() == split_at_each(p, 0x3au8).len(),
        forall|j: int|
            0 <= j < entries.len() ==> expanded(#[trigger] split_at_each(p, 0x3au8)[j], home)
                == Ok::<Seq<u8>, ErrorView>(entries[j]),
    ensures
        expanded_list(p, home) == Ok::<Seq<u8>, ErrorView>(joined(entries, seq![0x3au8])),
{
    let parts = split_at_each(p, 0x3au8);
    law_paths_expand_one_for_one(parts, home);
    let w = expanded_each(parts, home)->Ok_0;
    assert forall|j: int| 0 <= j < entries.len() implies w[j] == entries[j] by {
        assert(expanded(parts[j], home) == Ok::<Seq<u8>, ErrorView>(entries[j]));
    }
    assert(w =~= entries);
}

/// Where two layers meet, a variable that the later one sets has the value
/// that it gives, and any other the value that the earlier one gives.
pub proof fn law_later_variables_win(a: EnvVarsView, b: EnvVarsView, name: Seq<char>)
    ensures
        ({
            let both = EnvVars::merged(a, b);
            &&& b.vars.contains_key(name) ==> both.vars.contains_key(name) && both.vars[name]
                == b.vars[name]
            &&& !b.vars.contains_key(name) && a.vars.contains_key(name) ==> both.vars.contains_key(
                name,
            ) && both.vars[name] == a.vars[name]
            &&& !b.vars.contains_key(name) && !a.vars.contains_key(name)
                ==> !both.vars.contains_key(name)
        }),
{
}

/// The variables are walked in the order of their names, each once, with
/// its own value.
pub proof fn law_variables_are_walked_in_order(e: Seq<(Seq<char>, Seq<u8>)>)
    requires
        ascending(e),
    ensures
        vars_of(walk_of(map_of(e))).len() == e.len(),
        forall|i: int|
            0 <= i < e.len() ==> vars_of(walk_of(map_of(e)))[i] == (EnvVarView {
                name: (#[trigger] e[i]).0,
                value: e[i].1,
            }),
{
    lemma_walk_of(e);
}

} // verus!
