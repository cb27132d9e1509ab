//! The list of file system mounts that make up the sandbox.
//!
//! This is the security-critical inventory of every place inside the
//! sandbox where data is exposed to or from the host.
//!
//! Order is load-bearing: mounts are made in list order and a later mount
//! overlays an earlier one. The baseline puts an empty file system over
//! `$HOME` before it binds the working directory, so that the project
//! shows through; mounts of the user come after both and show through
//! them too.

use crate::config::mount::{
    Mount, MountAccess, MountDecl, MountDeclView, MountKind, MountKindView, MountView,
};
use crate::config::resolve_context::{ContextView, ResolveContext};
use crate::config::{
    finalized, normalize_all, normalized_all, resolve_all, resolved_all, validate_all,
    validated_all, Decl, Finalize, Merge, NormalizeConfigPaths,
};
use crate::errors::{ErrorView, Result};
use crate::host::{Host, HostView};
use crate::text::{bytes_of, copy_bytes, lemma_utf8_concat, lemma_utf8_injective, utf8};
use crate::values::{duplicate_all, push_duplicates, views, Duplicate};
use vstd::prelude::*;
use vstd::std_specs::iter::IteratorSpec;
use vstd::string::*;

verus! {

// ---------------------------------------------------------------------
// Declarations
// ---------------------------------------------------------------------
/// The declared mounts, of one profile or of the command line.
#[derive(Debug)]
pub struct MountDecls {
    /// The bind mounts, in the order in which they were declared.
    pub mounts: Vec<MountDecl>,
    /// Whether the working directory is to be read-only. Absent, an
    /// earlier layer decides.
    pub readonly: Option<bool>,
}

/// What [`MountDecls`] say.
#[verifier::ext_equal]
pub struct MountDeclsView {
    pub mounts: Seq<MountDeclView>,
    pub readonly: Option<bool>,
}

impl View for MountDecls {
    type V = MountDeclsView;

    open spec fn view(&self) -> MountDeclsView {
        MountDeclsView { mounts: views(self.mounts@), readonly: self.readonly }
    }
}

impl Duplicate for MountDecls {
    fn duplicate(&self) -> (r: MountDecls) {
        MountDecls { mounts: duplicate_all(&self.mounts), readonly: self.readonly }
    }
}

impl Default for MountDecls {
    /// No mounts.
    fn default() -> (r: MountDecls)
        ensures
            r@ == (MountDeclsView { mounts: seq![], readonly: None }),
    {
        let r = MountDecls { mounts: Vec::new(), readonly: None };
        assert(r@.mounts =~= Seq::<MountDeclView>::empty());
        r
    }
}

impl NormalizeConfigPaths for MountDecls {
    open spec fn normalized(me: MountDeclsView, home: Seq<u8>) -> Result<
        MountDeclsView,
        ErrorView,
    > {
        match normalized_all::<MountDecl>(me.mounts, home) {
            Ok(mounts) => Ok(MountDeclsView { mounts, ..me }),
            Err(e) => Err(e),
        }
    }

    fn normalize_config_paths(&mut self, home: &[u8]) -> (r: Result<()>) {
        normalize_all(&mut self.mounts, home)
    }
}

impl Decl for MountDecls {
    type Resolved = Mounts;

    open spec fn validated(me: MountDeclsView, host: HostView) -> Result<(), ErrorView> {
        validated_all::<MountDecl>(me.mounts, host)
    }

    open spec fn resolved(me: MountDeclsView, ctx: ContextView) -> Result<MountsView, ErrorView> {
        match resolved_all::<MountDecl>(me.mounts, ctx) {
            Ok(mounts) => Ok(MountsView { mounts, readonly: me.readonly }),
            Err(e) => Err(e),
        }
    }

    fn validate(&self, host: &Host) -> (r: Result<()>) {
        validate_all(&self.mounts, host)
    }

    fn resolve(&self, ctx: &ResolveContext) -> (r: Result<Mounts>) {
        match resolve_all(&self.mounts, ctx) {
            Ok(mounts) => Ok(Mounts { mounts, readonly: self.readonly }),
            Err(e) => Err(e),
        }
    }
}

// ---------------------------------------------------------------------
// Mounts
// ---------------------------------------------------------------------
/// The mounts of the sandbox, in the order in which they are made.
#[derive(Debug)]
pub struct Mounts {
    /// The mounts.
    pub mounts: Vec<Mount>,
    /// The toggle that decides the access to the working directory. It
    /// shapes the baseline and is gone once that is built.
    pub readonly: Option<bool>,
}

/// What [`Mounts`] say.
#[verifier::ext_equal]
pub struct MountsView {
    pub mounts: Seq<MountView>,
    pub readonly: Option<bool>,
}

impl View for Mounts {
    type V = MountsView;

    open spec fn view(&self) -> MountsView {
        MountsView { mounts: views(self.mounts@), readonly: self.readonly }
    }
}

impl Duplicate for Mounts {
    fn duplicate(&self) -> (r: Mounts) {
        Mounts { mounts: duplicate_all(&self.mounts), readonly: self.readonly }
    }
}

impl Default for Mounts {
    /// No mounts.
    fn default() -> (r: Mounts)
        ensures
            r@ == Mounts::neutral_view(),
    {
        Mounts::neutral()
    }
}

/// A bind mount.
pub open spec fn bind(sandbox: Seq<u8>, host: Seq<u8>, access: MountAccess) -> MountView {
    MountView { sandbox, kind: MountKindView::Mount { host, access } }
}

/// A symbolic link.
pub open spec fn link(sandbox: Seq<u8>, target: Seq<char>) -> MountView {
    MountView { sandbox, kind: MountKindView::Symlink { target } }
}

/// An empty file system in memory.
pub open spec fn blank(sandbox: Seq<u8>) -> MountView {
    MountView { sandbox, kind: MountKindView::Tmpfs }
}

/// What every sandbox starts from: the binaries and libraries of the host
/// beneath `/usr`, read-only, with the traditional top-level directories
/// linked into it; `/etc`, read-only; devices, processes and scratch space
/// of its own.
pub open spec fn system_baseline() -> Seq<MountView> {
    seq![
        bind(utf8("/usr"@), utf8("/usr"@), MountAccess::Ro),
        link(utf8("/bin"@), "usr/bin"@),
        link(utf8("/sbin"@), "usr/sbin"@),
        link(utf8("/lib"@), "usr/lib"@),
        link(utf8("/lib64"@), "usr/lib64"@),
        bind(utf8("/etc"@), utf8("/etc"@), MountAccess::Ro),
        MountView { sandbox: utf8("/dev"@), kind: MountKindView::Dev },
        MountView { sandbox: utf8("/proc"@), kind: MountKindView::Proc },
        blank(utf8("/tmp"@)),
    ]
}

/// The home directory blanked out, where it is known.
pub open spec fn home_blank(home: Option<Seq<u8>>) -> Seq<MountView> {
    match home {
        Some(h) => seq![blank(h)],
        None => seq![],
    }
}

/// The working directory bound at its own path, where it is known.
pub open spec fn cwd_bind(cwd: Option<Seq<u8>>, access: MountAccess) -> Seq<MountView> {
    match cwd {
        Some(d) => seq![bind(d, d, access)],
        None => seq![],
    }
}

impl Mounts {
    /// The mounts, in order.
    pub fn iter(&self) -> (r: std::slice::Iter<'_, Mount>)
        ensures
            r.remaining() == self.mounts@.as_ref(),
    {
        self.mounts.as_slice().iter()
    }

    /// The number of mounts.
    pub fn len(&self) -> (n: usize)
        ensures
            n == self@.mounts.len(),
    {
        self.mounts.len()
    }

    /// Append a mount.
    fn push(&mut self, m: Mount)
        ensures
            final(self)@ == (MountsView { mounts: old(self)@.mounts.push(m@), ..old(self)@ }),
    {
        let ghost before = self.mounts@;
        self.mounts.push(m);
        assert(views(self.mounts@) =~= views(before).push(m@));
    }

    /// Append a bind mount.
    pub fn mount(&mut self, sandbox: Vec<u8>, host: Vec<u8>, access: MountAccess)
        ensures
            final(self)@ == (MountsView {
                mounts: old(self)@.mounts.push(bind(sandbox@, host@, access)),
                ..old(self)@
            }),
    {
        self.push(Mount { sandbox, kind: MountKind::Mount { host, access } });
    }

    /// Append a symbolic link.
    pub fn symlink(&mut self, sandbox: Vec<u8>, target: String)
        ensures
            final(self)@ == (MountsView {
                mounts: old(self)@.mounts.push(link(sandbox@, target@)),
                ..old(self)@
            }),
    {
        self.push(Mount { sandbox, kind: MountKind::Symlink { target } });
    }

    /// Append an empty file system in memory.
    pub fn tmpfs(&mut self, sandbox: Vec<u8>)
        ensures
            final(self)@ == (MountsView {
                mounts: old(self)@.mounts.push(blank(sandbox@)),
                ..old(self)@
            }),
    {
        self.push(Mount { sandbox, kind: MountKind::Tmpfs });
    }

    /// Append a minimal set of devices.
    pub fn dev(&mut self, sandbox: Vec<u8>)
        ensures
            final(self)@ == (MountsView {
                mounts: old(self)@.mounts.push(
                    (MountView { sandbox: sandbox@, kind: MountKindView::Dev }),
                ),
                ..old(self)@
            }),
    {
        self.push(Mount { sandbox, kind: MountKind::Dev });
    }

    /// Append a fresh procfs.
    pub fn proc(&mut self, sandbox: Vec<u8>)
        ensures
            final(self)@ == (MountsView {
                mounts: old(self)@.mounts.push(
                    (MountView { sandbox: sandbox@, kind: MountKindView::Proc }),
                ),
                ..old(self)@
            }),
    {
        self.push(Mount { sandbox, kind: MountKind::Proc });
    }
}

/// Append what every sandbox starts from.
fn push_system_baseline(list: &mut Mounts)
    ensures
        final(list)@ == (MountsView {
            mounts: old(list)@.mounts + system_baseline(),
            ..old(list)@
        }),
{
    list.mount(bytes_of("/usr"), bytes_of("/usr"), MountAccess::Ro);
    list.symlink(bytes_of("/bin"), "usr/bin".to_owned());
    list.symlink(bytes_of("/sbin"), "usr/sbin".to_owned());
    list.symlink(bytes_of("/lib"), "usr/lib".to_owned());
    list.symlink(bytes_of("/lib64"), "usr/lib64".to_owned());
    list.mount(bytes_of("/etc"), bytes_of("/etc"), MountAccess::Ro);
    list.dev(bytes_of("/dev"));
    list.proc(bytes_of("/proc"));
    list.tmpfs(bytes_of("/tmp"));
    assert(list@.mounts =~= old(list)@.mounts + system_baseline());
}

impl Merge for Mounts {
    open spec fn neutral_view() -> MountsView {
        MountsView { mounts: seq![], readonly: None }
    }

    /// The mounts of `a`, then those of `b`; the toggle of `b` where it
    /// has one.
    open spec fn merged(a: MountsView, b: MountsView) -> MountsView {
        MountsView {
            mounts: a.mounts + b.mounts,
            readonly: if b.readonly is Some {
                b.readonly
            } else {
                a.readonly
            },
        }
    }

    proof fn law_neutral(a: MountsView) {
        assert(Seq::<MountView>::empty() + a.mounts =~= a.mounts);
        assert(a.mounts + Seq::<MountView>::empty() =~= a.mounts);
    }

    proof fn law_associative(a: MountsView, b: MountsView, c: MountsView) {
        assert(a.mounts + b.mounts + c.mounts =~= a.mounts + (b.mounts + c.mounts));
    }

    fn neutral() -> (r: Mounts) {
        let r = Mounts { mounts: Vec::new(), readonly: None };
        assert(r@.mounts =~= Seq::<MountView>::empty());
        r
    }

    fn merge_right_biased(&self, other: &Mounts) -> (r: Mounts) {
        let mut mounts = duplicate_all(&self.mounts);
        push_duplicates(&mut mounts, &other.mounts);
        let readonly = if other.readonly.is_some() {
            other.readonly
        } else {
            self.readonly
        };
        Mounts { mounts, readonly }
    }
}

impl Finalize for Mounts {
    open spec fn base(me: MountsView, host: HostView) -> MountsView {
        MountsView {
            mounts: system_baseline() + home_blank(host.home) + cwd_bind(
                host.cwd,
                MountAccess::of_readonly(me.readonly),
            ),
            readonly: None,
        }
    }

    open spec fn cleared(me: MountsView) -> MountsView {
        MountsView { readonly: None, ..me }
    }

    fn base_config(&self, host: &Host) -> (r: Mounts) {
        let mut base = Mounts::neutral();
        push_system_baseline(&mut base);
        assert(base@.mounts =~= system_baseline());
        // The blank must come before the bind, so that the working
        // directory shows through where it lies beneath the home
        // directory.
        match &host.home {
            Some(home) => base.tmpfs(copy_bytes(home.as_slice())),
            None => {},
        }
        assert(base@.mounts =~= system_baseline() + home_blank(host@.home));
        match &host.cwd {
            Some(cwd) => base.mount(
                copy_bytes(cwd.as_slice()),
                copy_bytes(cwd.as_slice()),
                MountAccess::from_readonly(self.readonly),
            ),
            None => {},
        }
        assert(base@.mounts =~= Mounts::base(self@, host@).mounts);
        base
    }

    fn clear_extra_fields(&mut self) {
        self.readonly = None;
    }
}

// ---------------------------------------------------------------------
// Laws
// ---------------------------------------------------------------------
/// Every host path that the baseline exposes for writing is the working
/// directory; everything else of the host is read-only.
pub proof fn law_baseline_writes_only_cwd(me: MountsView, host: HostView, i: int)
    requires
        0 <= i < Mounts::base(me, host).mounts.len(),
    ensures
        Mounts::base(me, host).mounts[i].kind matches MountKindView::Mount { host: h, access }
            ==> access == MountAccess::Rw ==> host.cwd == Some(h) && me.readonly != Some(true),
{
}

/// Where the home directory and the working directory are known, the
/// home directory is blanked out before the working directory is bound,
/// and every mount of the user comes after both.
pub proof fn law_user_mounts_come_last(me: MountsView, host: HostView, i: int)
    requires
        0 <= i < me.mounts.len(),
    ensures
        ({
            let base = Mounts::base(me, host).mounts;
            let all = finalized::<Mounts>(me, host).mounts;
            let n = base.len();
            &&& all.take(n as int) == base
            &&& all[n + i] == me.mounts[i]
            &&& host.home is Some && host.cwd is Some ==> n >= 2 && all[n - 2] == blank(
                host.home->0,
            ) && all[n - 1] == bind(
                host.cwd->0,
                host.cwd->0,
                MountAccess::of_readonly(me.readonly),
            )
        }),
{
    let base = Mounts::base(me, host).mounts;
    assert((base + me.mounts).take(base.len() as int) =~= base);
}

/// A finalized inventory holds no toggle any more.
pub proof fn law_finalized_has_no_toggle(me: MountsView, host: HostView)
    ensures
        finalized::<Mounts>(me, host).readonly is None,
{
}

/// Is there exactly one link at this path?
pub open spec fn linked_once(mounts: Seq<MountView>, sandbox: Seq<u8>) -> bool {
    exists|i: int|
        0 <= i < mounts.len() && (#[trigger] mounts[i]).sandbox == sandbox && mounts[i].kind
            is Symlink && forall|j: int|
            0 <= j < mounts.len() && (#[trigger] mounts[j]).sandbox == sandbox ==> j == i
}

/// Every link of the baseline leads to the directory of the same name
/// beneath `/usr`, whatever the host and the options are; and there is one
/// each for `/bin`, `/sbin`, `/lib` and `/lib64`, unless the home or the
/// working directory is there.
pub proof fn law_links_lead_beneath_usr(me: MountsView, host: HostView)
    ensures
        forall|i: int|
            0 <= i < Mounts::base(me, host).mounts.len() ==> ((#[trigger] Mounts::base(
                me,
                host,
            ).mounts[i]).kind matches MountKindView::Symlink { target } ==> utf8(target) == utf8(
                "usr"@,
            ) + Mounts::base(me, host).mounts[i].sandbox),
        forall|name: Seq<char>|
            (name == "/bin"@ || name == "/sbin"@ || name == "/lib"@ || name == "/lib64"@)
                && host.home != Some(utf8(name)) && host.cwd != Some(utf8(name))
                ==> #[trigger] linked_once(Mounts::base(me, host).mounts, utf8(name)),
{
    let base = Mounts::base(me, host).mounts;
    lemma_baseline_names();
    lemma_utf8_concat("usr"@, "/bin"@);
    lemma_utf8_concat("usr"@, "/sbin"@);
    lemma_utf8_concat("usr"@, "/lib"@);
    lemma_utf8_concat("usr"@, "/lib64"@);
    reveal_strlit("usr");
    reveal_strlit("usr/bin");
    reveal_strlit("usr/sbin");
    reveal_strlit("usr/lib");
    reveal_strlit("usr/lib64");
    reveal_strlit("/bin");
    reveal_strlit("/sbin");
    reveal_strlit("/lib");
    reveal_strlit("/lib64");
    assert("usr/bin"@ =~= "usr"@ + "/bin"@);
    assert("usr/sbin"@ =~= "usr"@ + "/sbin"@);
    assert("usr/lib"@ =~= "usr"@ + "/lib"@);
    assert("usr/lib64"@ =~= "usr"@ + "/lib64"@);
    assert forall|name: Seq<char>|
        (name == "/bin"@ || name == "/sbin"@ || name == "/lib"@ || name == "/lib64"@) && host.home
            != Some(utf8(name)) && host.cwd != Some(utf8(name)) implies #[trigger] linked_once(
        base,
        utf8(name),
    ) by {
        let i: int = if name == "/bin"@ {
            1
        } else if name == "/sbin"@ {
            2
        } else if name == "/lib"@ {
            3
        } else {
            4
        };
        assert(base[i].sandbox == utf8(name) && base[i].kind is Symlink);
        assert forall|j: int|
            0 <= j < base.len() && (#[trigger] base[j]).sandbox == utf8(name) implies j == i by {
            if j < 9 {
                assert(base[j] == system_baseline()[j]);
            }
        }
    }
}

/// The paths of the baseline are all different.
proof fn lemma_baseline_names()
    ensures
        forall|i: int, j: int|
            0 <= i < 9 && 0 <= j < 9 && i != j ==> (#[trigger] system_baseline()[i]).sandbox != (
            #[trigger] system_baseline()[j]).sandbox,
{
    let names = seq![
        "/usr"@,
        "/bin"@,
        "/sbin"@,
        "/lib"@,
        "/lib64"@,
        "/etc"@,
        "/dev"@,
        "/proc"@,
        "/tmp"@,
    ];
    reveal_strlit("/usr");
    reveal_strlit("/bin");
    reveal_strlit("/sbin");
    reveal_strlit("/lib");
    reveal_strlit("/lib64");
    reveal_strlit("/etc");
    reveal_strlit("/dev");
    reveal_strlit("/proc");
    reveal_strlit("/tmp");
    assert forall|i: int, j: int| 0 <= i < 9 && 0 <= j < 9 && i != j implies (
    #[trigger] system_baseline()[i]).sandbox != (#[trigger] system_baseline()[j]).sandbox by {
        assert(system_baseline()[i].sandbox == utf8(names[i]));
        assert(system_baseline()[j].sandbox == utf8(names[j]));
        if utf8(names[i]) == utf8(names[j]) {
            lemma_utf8_injective(names[i], names[j]);
            assert(names[i].len() == names[j].len());
            assert(names[i][1] == names[j][1]);
        }
    }
}

/// What the baseline shows, path by path: `/usr` and `/etc` of the host,
/// read-only and where they are; devices and processes of its own; and
/// blank directories. Nothing else stands in it but links, the blanked-out
/// home directory and the working directory.
pub proof fn law_baseline_spelled_out(me: MountsView, host: HostView)
    ensures
        ({
            let base = Mounts::base(me, host).mounts;
            &&& base.contains(
                MountView {
                    sandbox: utf8("/usr"@),
                    kind: MountKindView::Mount { host: utf8("/usr"@), access: MountAccess::Ro },
                },
            )
            &&& base.contains(
                MountView {
                    sandbox: utf8("/etc"@),
                    kind: MountKindView::Mount { host: utf8("/etc"@), access: MountAccess::Ro },
                },
            )
            &&& base.contains(MountView { sandbox: utf8("/dev"@), kind: MountKindView::Dev })
            &&& base.contains(MountView { sandbox: utf8("/proc"@), kind: MountKindView::Proc })
            &&& base.contains(MountView { sandbox: utf8("/tmp"@), kind: MountKindView::Tmpfs })
            &&& host.home matches Some(home) ==> base[if host.cwd is Some {
                base.len() - 2
            } else {
                base.len() - 1
            }] == (MountView { sandbox: home, kind: MountKindView::Tmpfs })
            &&& host.cwd matches Some(cwd) ==> base.last() == (MountView {
                sandbox: cwd,
                kind: MountKindView::Mount {
                    host: cwd,
                    access: if me.readonly == Some(true) {
                        MountAccess::Ro
                    } else {
                        MountAccess::Rw
                    },
                },
            })
            &&& forall|i: int|
                0 <= i < base.len() ==> match (#[trigger] base[i]).kind {
                    MountKindView::Mount { host: h, access } => base[i].sandbox == h && (h == utf8(
                        "/usr"@,
                    ) || h == utf8("/etc"@) || host.cwd == Some(h)),
                    MountKindView::Tmpfs => base[i].sandbox == utf8("/tmp"@) || host.home == Some(
                        base[i].sandbox,
                    ),
                    MountKindView::Dev => base[i].sandbox == utf8("/dev"@),
                    MountKindView::Proc => base[i].sandbox == utf8("/proc"@),
                    MountKindView::Symlink { .. } => true,
                }
            &&& base.len() == 9 + (if host.home is Some {
                1int
            } else {
                0int
            }) + (if host.cwd is Some {
                1int
            } else {
                0int
            })
        }),
{
    let base = Mounts::base(me, host).mounts;
    let sys = system_baseline();
    assert(base[0] == sys[0]);
    assert(base[5] == sys[5]);
    assert(base[6] == sys[6]);
    assert(base[7] == sys[7]);
    assert(base[8] == sys[8]);
    if host.home is Some {
        assert(base[9] == blank(host.home->0));
    }
    assert forall|i: int| 0 <= i < base.len() implies match (#[trigger] base[i]).kind {
        MountKindView::Mount { host: h, access } => base[i].sandbox == h && (h == utf8("/usr"@)
            || h == utf8("/etc"@) || host.cwd == Some(h)),
        MountKindView::Tmpfs => base[i].sandbox == utf8("/tmp"@) || host.home == Some(
            base[i].sandbox,
        ),
        MountKindView::Dev => base[i].sandbox == utf8("/dev"@),
        MountKindView::Proc => base[i].sandbox == utf8("/proc"@),
        MountKindView::Symlink { .. } => true,
    } by {
        if i < 9 {
            assert(base[i] == sys[i]);
        }
    }
}

} // verus!
