//! Mounts as the command line alone describes them, without profiles.
//!
//! The `mounts` command prints this list. Each mount remembers where it
//! came from. As everywhere, order is load-bearing: a later mount overlays
//! an earlier one.

pub use crate::config::mount::{MountAccess, MountKind, MountKindView};
use crate::errors::{outcome, unit_outcome, Error, ErrorView, Result};
use crate::host::{Host, HostView};
use crate::text::{
    bytes_of, cat3, copy_bytes, lemma_split_first, lemma_split_nonempty, lemma_split_plain,
    lemma_utf8_concat, quoted, quoted_text, split_at_each, split_str, starts_with_char, str_eq,
    utf8,
};
use crate::values::{views, Duplicate};
use vstd::prelude::*;
use vstd::std_specs::iter::IteratorSpec;
use vstd::string::*;

pub use crate::dirs::home_dir;

verus! {

/// Where a mount came from.
#[derive(Debug, Clone, Copy, PartialEq, Eq, Structural)]
pub enum MountSource {
    /// Every sandbox has it.
    Default,
    /// It is the working directory.
    Cwd,
    /// The command line asked for it.
    Cli,
}

/// A mount inside the sandbox.
#[derive(Debug)]
pub struct Mount {
    /// Where it appears.
    pub sandbox: Vec<u8>,
    /// What it is.
    pub kind: MountKind,
    /// Where it came from.
    pub source: MountSource,
}

/// What a [`Mount`] says.
#[verifier::ext_equal]
pub struct MountView {
    pub sandbox: Seq<u8>,
    pub kind: MountKindView,
    pub source: MountSource,
}

impl View for Mount {
    type V = MountView;

    open spec fn view(&self) -> MountView {
        MountView { sandbox: self.sandbox@, kind: self.kind@, source: self.source }
    }
}

/// The mounts of the sandbox, in the order in which they are made.
#[derive(Debug)]
pub struct MountList(pub Vec<Mount>);

impl View for MountList {
    type V = Seq<MountView>;

    open spec fn view(&self) -> Seq<MountView> {
        views(self.0@)
    }
}

impl Default for MountList {
    /// No mounts.
    fn default() -> (r: MountList)
        ensures
            r@ == Seq::<MountView>::empty(),
    {
        MountList::new()
    }
}

/// A bind mount.
pub open spec fn bind(
    sandbox: Seq<u8>,
    host: Seq<u8>,
    access: MountAccess,
    source: MountSource,
) -> MountView {
    MountView { sandbox, kind: MountKindView::Mount { host, access }, source }
}

/// What every sandbox starts from: the binaries and libraries of the host,
/// read-only; devices, processes and scratch space of its own; the home
/// directory blanked out; and then the working directory, which shows
/// through where it lies beneath the home directory. Nothing of `/etc` is
/// exposed.
pub open spec fn baseline(home: Seq<u8>, cwd: Seq<u8>, cwd_access: MountAccess) -> Seq<MountView> {
    let own = MountSource::Default;
    seq![
        bind(utf8("/usr"@), utf8("/usr"@), MountAccess::Ro, own),
        MountView {
            sandbox: utf8("/bin"@),
            kind: MountKindView::Symlink { target: "usr/bin"@ },
            source: own,
        },
        MountView {
            sandbox: utf8("/sbin"@),
            kind: MountKindView::Symlink { target: "usr/sbin"@ },
            source: own,
        },
        MountView {
            sandbox: utf8("/lib"@),
            kind: MountKindView::Symlink { target: "usr/lib"@ },
            source: own,
        },
        MountView {
            sandbox: utf8("/lib64"@),
            kind: MountKindView::Symlink { target: "usr/lib64"@ },
            source: own,
        },
        MountView { sandbox: utf8("/dev"@), kind: MountKindView::Dev, source: own },
        MountView { sandbox: utf8("/proc"@), kind: MountKindView::Proc, source: own },
        MountView { sandbox: utf8("/tmp"@), kind: MountKindView::Tmpfs, source: own },
        MountView { sandbox: home, kind: MountKindView::Tmpfs, source: own },
        bind(cwd, cwd, cwd_access, MountSource::Cwd),
    ]
}

impl MountList {
    /// A list without mounts.
    pub fn new() -> (r: MountList)
        ensures
            r@ == Seq::<MountView>::empty(),
    {
        let r = MountList(Vec::new());
        assert(r@ =~= Seq::<MountView>::empty());
        r
    }

    /// What every sandbox starts from.
    pub fn default_baseline(home: &[u8], cwd: &[u8], cwd_access: MountAccess) -> (r: MountList)
        ensures
            r@ == baseline(home@, cwd@, cwd_access),
    {
        let own = MountSource::Default;
        let mut list = MountList::new();
        list.mount(bytes_of("/usr"), bytes_of("/usr"), MountAccess::Ro, own);
        list.symlink(bytes_of("/bin"), "usr/bin".to_owned(), own);
        list.symlink(bytes_of("/sbin"), "usr/sbin".to_owned(), own);
        list.symlink(bytes_of("/lib"), "usr/lib".to_owned(), own);
        list.symlink(bytes_of("/lib64"), "usr/lib64".to_owned(), own);
        list.dev(bytes_of("/dev"), own);
        list.proc(bytes_of("/proc"), own);
        list.tmpfs(bytes_of("/tmp"), own);
        list.tmpfs(copy_bytes(home), own);
        list.mount(copy_bytes(cwd), copy_bytes(cwd), cwd_access, MountSource::Cwd);
        assert(list@ =~= baseline(home@, cwd@, cwd_access));
        list
    }

    /// Append a mount.
    fn push(&mut self, m: Mount)
        ensures
            final(self)@ == old(self)@.push(m@),
    {
        let ghost before = self.0@;
        self.0.push(m);
        assert(views(self.0@) =~= views(before).push(m@));
    }

    /// Append a bind mount.
    pub fn mount(
        &mut self,
        sandbox: Vec<u8>,
        host: Vec<u8>,
        access: MountAccess,
        source: MountSource,
    )
        ensures
            final(self)@ == old(self)@.push(bind(sandbox@, host@, access, source)),
    {
        self.push(Mount { sandbox, kind: MountKind::Mount { host, access }, source });
    }

    /// Append a symbolic link.
    pub fn symlink(&mut self, sandbox: Vec<u8>, target: String, source: MountSource)
        ensures
            final(self)@ == old(self)@.push(
                (MountView {
                    sandbox: sandbox@,
                    kind: MountKindView::Symlink { target: target@ },
                    source,
                }),
            ),
    {
        self.push(Mount { sandbox, kind: MountKind::Symlink { target }, source });
    }

    /// Append an empty file system in memory.
    pub fn tmpfs(&mut self, sandbox: Vec<u8>, source: MountSource)
        ensures
            final(self)@ == old(self)@.push(
                (MountView { sandbox: sandbox@, kind: MountKindView::Tmpfs, source }),
            ),
    {
        self.push(Mount { sandbox, kind: MountKind::Tmpfs, source });
    }

    /// Append a minimal set of devices.
    pub fn dev(&mut self, sandbox: Vec<u8>, source: MountSource)
        ensures
            final(self)@ == old(self)@.push(
                (MountView { sandbox: sandbox@, kind: MountKindView::Dev, source }),
            ),
    {
        self.push(Mount { sandbox, kind: MountKind::Dev, source });
    }

    /// Append a fresh procfs.
    pub fn proc(&mut self, sandbox: Vec<u8>, source: MountSource)
        ensures
            final(self)@ == old(self)@.push(
                (MountView { sandbox: sandbox@, kind: MountKindView::Proc, source }),
            ),
    {
        self.push(Mount { sandbox, kind: MountKind::Proc, source });
    }

    /// The mounts, in order.
    pub fn iter(&self) -> (r: std::slice::Iter<'_, Mount>)
        ensures
            r.remaining() == self.0@.as_ref(),
    {
        self.0.as_slice().iter()
    }

    /// The number of mounts.
    pub fn len(&self) -> (n: usize)
        ensures
            n == self@.len(),
    {
        self.0.len()
    }
}

// ---------------------------------------------------------------------
// The command line
// ---------------------------------------------------------------------
/// A bind mount that the command line asks for.
#[derive(Debug)]
pub struct MountSpec {
    /// Path on the host.
    pub host: Vec<u8>,
    /// Path inside the sandbox.
    pub sandbox: Vec<u8>,
    /// Whether it may be written to.
    pub access: MountAccess,
}

/// What a [`MountSpec`] says.
#[verifier::ext_equal]
pub struct MountSpecView {
    pub host: Seq<u8>,
    pub sandbox: Seq<u8>,
    pub access: MountAccess,
}

impl View for MountSpec {
    type V = MountSpecView;

    open spec fn view(&self) -> MountSpecView {
        MountSpecView { host: self.host@, sandbox: self.sandbox@, access: self.access }
    }
}

/// What `HOST_PATH[:SANDBOX_PATH[:rw|:ro]]` asks for.
///
/// Both paths must be absolute and neither may be empty; a fourth part is
/// reserved. The complaints come in this order: too many parts, the
/// access, an empty host path, an empty sandbox path, a relative host path,
/// a relative sandbox path.
pub open spec fn parsed_spec(s: Seq<char>) -> std::result::Result<MountSpecView, Seq<char>> {
    let parts = split_at_each(s, ':');
    let host = parts[0];
    let sandbox = if parts.len() > 1 {
        parts[1]
    } else {
        parts[0]
    };
    if parts.len() > 3 {
        Err(
            "mount spec "@ + quoted(s)
                + " contains more than two `:`; additional colons are reserved for future use"@,
        )
    } else if parts.len() == 3 && parts[2] != "ro"@ && parts[2] != "rw"@ {
        Err("mount access "@ + quoted(parts[2]) + " must be `ro` or `rw`"@)
    } else if host.len() == 0 {
        Err("mount spec "@ + quoted(s) + " has empty host path"@)
    } else if sandbox.len() == 0 {
        Err("mount spec "@ + quoted(s) + " has empty sandbox path"@)
    } else if host[0] != '/' {
        Err("mount host path "@ + quoted(host) + " must be absolute (start with `/`)"@)
    } else if sandbox[0] != '/' {
        Err("mount sandbox path "@ + quoted(sandbox) + " must be absolute (start with `/`)"@)
    } else {
        Ok(
            MountSpecView {
                host: utf8(host),
                sandbox: utf8(sandbox),
                access: if parts.len() == 3 && parts[2] == "rw"@ {
                    MountAccess::Rw
                } else {
                    MountAccess::Ro
                },
            },
        )
    }
}

impl MountSpec {
    /// Parse `HOST_PATH[:SANDBOX_PATH[:rw|:ro]]`.
    pub fn from_str(s: &str) -> (r: std::result::Result<MountSpec, String>)
        ensures
            match parsed_spec(s@) {
                Ok(d) => r matches Ok(m) && m@ == d,
                Err(e) => r matches Err(f) && f@ == e,
            },
    {
        let parts = split_str(s, ':');
        let ghost all = split_at_each(s@, ':');
        proof {
            lemma_split_nonempty(s@, ':');
            assert(all.len() == parts@.len());
            assert(forall|i: int| 0 <= i < all.len() ==> #[trigger] all[i] == parts@[i]@);
            reveal_strlit("ro");
            reveal_strlit("rw");
        }
        if parts.len() > 3 {
            return Err(
                cat3(
                    "mount spec ",
                    quoted_text(s).as_str(),
                    " contains more than two `:`; additional colons are reserved for future use",
                ),
            );
        }
        let mut access = MountAccess::Ro;
        if parts.len() == 3 {
            if str_eq(parts[2].as_str(), "rw") {
                access = MountAccess::Rw;
            } else if !str_eq(parts[2].as_str(), "ro") {
                return Err(
                    cat3(
                        "mount access ",
                        quoted_text(parts[2].as_str()).as_str(),
                        " must be `ro` or `rw`",
                    ),
                );
            }
        }
        let host = parts[0].as_str();
        let sandbox = if parts.len() > 1 {
            parts[1].as_str()
        } else {
            parts[0].as_str()
        };
        if host.is_empty() {
            return Err(cat3("mount spec ", quoted_text(s).as_str(), " has empty host path"));
        }
        if sandbox.is_empty() {
            return Err(cat3("mount spec ", quoted_text(s).as_str(), " has empty sandbox path"));
        }
        if !starts_with_char(host, '/') {
            return Err(
                cat3(
                    "mount host path ",
                    quoted_text(host).as_str(),
                    " must be absolute (start with `/`)",
                ),
            );
        }
        if !starts_with_char(sandbox, '/') {
            return Err(
                cat3(
                    "mount sandbox path ",
                    quoted_text(sandbox).as_str(),
                    " must be absolute (start with `/`)",
                ),
            );
        }
        Ok(MountSpec { host: bytes_of(host), sandbox: bytes_of(sandbox), access })
    }
}

/// What the command line says about mounts.
#[derive(Debug)]
pub struct MountOpts {
    /// The bind mounts, in order.
    pub mount: Vec<MountSpec>,
    /// Whether the working directory is to be read-only.
    pub readonly: bool,
}

impl Default for MountOpts {
    /// Nothing.
    fn default() -> (r: MountOpts)
        ensures
            r.mount@.len() == 0,
            !r.readonly,
    {
        MountOpts { mount: Vec::new(), readonly: false }
    }
}

/// The first of the host paths that is not accessible is the complaint.
pub open spec fn validated_specs(specs: Seq<MountSpecView>, host: HostView) -> Result<
    (),
    ErrorView,
>
    decreases specs.len(),
{
    if specs.len() == 0 {
        Ok(())
    } else {
        match host.stat_error(specs[0].host) {
            Some(source) => Err(ErrorView::MissingMountHost { path: specs[0].host, source }),
            None => validated_specs(specs.skip(1), host),
        }
    }
}

/// The whole list: the baseline, and then the bind mounts in order.
pub open spec fn inventory(
    specs: Seq<MountSpecView>,
    readonly: bool,
    host: HostView,
    cwd: std::result::Result<Seq<u8>, Seq<char>>,
) -> Result<Seq<MountView>, ErrorView> {
    match validated_specs(specs, host) {
        Err(e) => Err(e),
        Ok(_) => match host.home_dir() {
            Err(e) => Err(e),
            Ok(home) => match cwd {
                Err(source) => Err(ErrorView::CouldNotGetCwd { source }),
                Ok(dir) => Ok(
                    baseline(
                        home,
                        dir,
                        if readonly {
                            MountAccess::Ro
                        } else {
                            MountAccess::Rw
                        },
                    ) + specs.map_values(
                        |m: MountSpecView| bind(m.sandbox, m.host, m.access, MountSource::Cli),
                    ),
                ),
            },
        },
    }
}

impl MountOpts {
    /// Every host path must be accessible.
    pub fn validate(&self, host: &Host) -> (r: Result<()>)
        ensures
            unit_outcome(r) == validated_specs(views(self.mount@), host@),
    {
        let ghost all = views(self.mount@);
        let mut i: usize = 0;
        assert(all.skip(0) =~= all);
        while i < self.mount.len()
            invariant
                i <= self.mount@.len(),
                all == views(self.mount@),
                validated_specs(all.skip(i as int), host@) == validated_specs(all, host@),
            decreases self.mount.len() - i,
        {
            assert(all.skip(i as int)[0] == self.mount@[i as int]@);
            match host.stat_error(self.mount[i].host.as_slice()) {
                Some(source) => {
                    return Err(
                        Error::missing_mount_host(
                            self.mount[i].host.duplicate(),
                            source.as_str(),
                        ),
                    );
                },
                None => {},
            }
            assert(all.skip(i as int).skip(1) =~= all.skip(i + 1));
            i = i + 1;
        }
        Ok(())
    }

    /// The access to the working directory.
    pub fn cwd_access(&self) -> (r: MountAccess)
        ensures
            r == (if self.readonly {
                MountAccess::Ro
            } else {
                MountAccess::Rw
            }),
    {
        if self.readonly {
            MountAccess::Ro
        } else {
            MountAccess::Rw
        }
    }

    /// Append the bind mounts to a list, in order.
    pub fn apply(&self, list: &mut MountList)
        ensures
            final(list)@ == old(list)@ + views(self.mount@).map_values(
                |m: MountSpecView| bind(m.sandbox, m.host, m.access, MountSource::Cli),
            ),
    {
        let ghost added = views(self.mount@).map_values(
            |m: MountSpecView| bind(m.sandbox, m.host, m.access, MountSource::Cli),
        );
        let mut i: usize = 0;
        assert(old(list)@ + added.take(0) =~= old(list)@);
        while i < self.mount.len()
            invariant
                i <= self.mount@.len(),
                added == views(self.mount@).map_values(
                    |m: MountSpecView| bind(m.sandbox, m.host, m.access, MountSource::Cli),
                ),
                list@ == old(list)@ + added.take(i as int),
            decreases self.mount.len() - i,
        {
            let m = &self.mount[i];
            list.mount(
                m.sandbox.duplicate(),
                m.host.duplicate(),
                m.access,
                MountSource::Cli,
            );
            proof {
                assert(views(self.mount@)[i as int] == self.mount@[i as int]@);
                assert(added.take(i + 1) =~= added.take(i as int).push(added[i as int]));
                assert(list@ =~= old(list)@ + added.take(i + 1));
            }
            i = i + 1;
        }
        assert(added.take(added.len() as int) =~= added);
    }

    /// The whole list: the baseline, and then the bind mounts in order. A
    /// host path that is not accessible is the first complaint, a home or
    /// working directory that is not known the next.
    pub fn inventory(&self, host: &Host, cwd: &std::result::Result<Vec<u8>, String>) -> (r: Result<
        MountList,
    >)
        ensures
            outcome(r) == inventory(
                views(self.mount@),
                self.readonly,
                host@,
                match cwd {
                    Ok(dir) => Ok(dir@),
                    Err(e) => Err(e@),
                },
            ),
    {
        match self.validate(host) {
            Ok(_) => {},
            Err(e) => {
                return Err(e);
            },
        }
        let home = match home_dir(host) {
            Ok(home) => home,
            Err(e) => {
                return Err(e);
            },
        };
        match cwd {
            Ok(dir) => {
                let mut list = MountList::default_baseline(
                    home.as_slice(),
                    dir.as_slice(),
                    self.cwd_access(),
                );
                self.apply(&mut list);
                Ok(list)
            },
            Err(e) => Err(Error::could_not_get_cwd(e.as_str())),
        }
    }
}

/// In the baseline nothing of the host but the working directory may be
/// written to, and the home directory is blanked out right before the
/// working directory is bound.
pub proof fn law_baseline_order(home: Seq<u8>, cwd: Seq<u8>, cwd_access: MountAccess, i: int)
    requires
        0 <= i < baseline(home, cwd, cwd_access).len(),
    ensures
        baseline(home, cwd, cwd_access)[i].kind matches MountKindView::Mount { host, access }
            ==> access == MountAccess::Rw ==> host == cwd && i == baseline(
            home,
            cwd,
            cwd_access,
        ).len() - 1,
        baseline(home, cwd, cwd_access)[8].sandbox == home,
        baseline(home, cwd, cwd_access)[8].kind == MountKindView::Tmpfs,
        baseline(home, cwd, cwd_access)[9] == bind(cwd, cwd, cwd_access, MountSource::Cwd),
{
}

/// What the baseline shows, path by path and in order: `/usr` of the host,
/// read-only and where it is; the links that lead beneath it; devices,
/// processes and scratch space of its own; the home directory, blank; and
/// last the working directory of the host, where it is. Each says where it
/// came from.
pub proof fn law_baseline_spelled_out(home: Seq<u8>, cwd: Seq<u8>, cwd_access: MountAccess)
    ensures
        ({
            let base = baseline(home, cwd, cwd_access);
            &&& base.len() == 10
            &&& base[0].sandbox == utf8("/usr"@)
            &&& base[0].kind == (MountKindView::Mount {
                host: utf8("/usr"@),
                access: MountAccess::Ro,
            })
            &&& base[1].sandbox == utf8("/bin"@)
            &&& base[2].sandbox == utf8("/sbin"@)
            &&& base[3].sandbox == utf8("/lib"@)
            &&& base[4].sandbox == utf8("/lib64"@)
            &&& forall|i: int|
                1 <= i <= 4 ==> ((#[trigger] base[i]).kind matches MountKindView::Symlink {
                    target,
                } && utf8(target) == utf8("usr"@) + base[i].sandbox)
            &&& base[5].sandbox == utf8("/dev"@) && base[5].kind == MountKindView::Dev
            &&& base[6].sandbox == utf8("/proc"@) && base[6].kind == MountKindView::Proc
            &&& base[7].sandbox == utf8("/tmp"@) && base[7].kind == MountKindView::Tmpfs
            &&& base[8].sandbox == home && base[8].kind == MountKindView::Tmpfs
            &&& base[9].sandbox == cwd
            &&& base[9].kind == (MountKindView::Mount { host: cwd, access: cwd_access })
            &&& base[9].source == MountSource::Cwd
            &&& forall|i: int| 0 <= i < 9 ==> (#[trigger] base[i]).source == MountSource::Default
        }),
{
    lemma_utf8_concat("usr"@, "/bin"@);
    lemma_utf8_concat("usr"@, "/sbin"@);
    lemma_utf8_concat("usr"@, "/lib"@);
    lemma_utf8_concat("usr"@, "/lib64"@);
    reveal_strlit("usr");
    reveal_strlit("usr/bin");
    reveal_strlit("usr/sbin");
    reveal_strlit("usr/lib");
    reveal_strlit("usr/lib64");
    reveal_strlit("/bin");
    reveal_strlit("/sbin");
    reveal_strlit("/lib");
    reveal_strlit("/lib64");
    assert("usr/bin"@ =~= "usr"@ + "/bin"@);
    assert("usr/sbin"@ =~= "usr"@ + "/sbin"@);
    assert("usr/lib"@ =~= "usr"@ + "/lib"@);
    assert("usr/lib64"@ =~= "usr"@ + "/lib64"@);
}

/// `HOST`, `HOST:SANDBOX` and `HOST:SANDBOX:ACCESS` are accepted exactly
/// where every path begins with `/` and the access is `ro` or `rw`. The
/// sandbox path is the host path where none is given, and the access is
/// read-only unless `rw` is. A fourth part is refused.
pub proof fn law_spec_syntax(h: Seq<char>, b: Seq<char>, access: Seq<char>, rest: Seq<char>)
    requires
        !h.contains(':'),
        !b.contains(':'),
        !access.contains(':'),
    ensures
        ({
            let host_ok = h.len() > 0 && h[0] == '/';
            let sandbox_ok = b.len() > 0 && b[0] == '/';
            let one = parsed_spec(h);
            let two = parsed_spec(h + seq![':'] + b);
            let three = parsed_spec(h + seq![':'] + (b + seq![':'] + access));
            &&& one is Ok <==> host_ok
            &&& one matches Ok(m) ==> m.host == utf8(h) && m.sandbox == utf8(h) && m.access
                == MountAccess::Ro
            &&& two is Ok <==> host_ok && sandbox_ok
            &&& two matches Ok(m) ==> m.host == utf8(h) && m.sandbox == utf8(b) && m.access
                == MountAccess::Ro
            &&& three is Ok <==> host_ok && sandbox_ok && (access == "ro"@ || access == "rw"@)
            &&& three matches Ok(m) ==> m.host == utf8(h) && m.sandbox == utf8(b) && (m.access
                == MountAccess::Rw <==> access == "rw"@)
            &&& parsed_spec(
                h + seq![':'] + (b + seq![':'] + (access + seq![':'] + rest)),
            ) is Err
        }),
{
    reveal_strlit("ro");
    reveal_strlit("rw");
    assert("ro"@[1] != "rw"@[1]);
    lemma_split_plain(h, ':');
    lemma_split_plain(b, ':');
    lemma_split_plain(access, ':');
    lemma_split_first(h, ':', b);
    lemma_split_first(b, ':', access);
    lemma_split_first(h, ':', b + seq![':'] + access);
    lemma_split_nonempty(rest, ':');
    let more = access + seq![':'] + rest;
    lemma_split_first(access, ':', rest);
    lemma_split_first(b, ':', more);
    lemma_split_first(h, ':', b + seq![':'] + more);
    assert(split_at_each(h + seq![':'] + b, ':') =~= seq![h, b]);
    assert(split_at_each(h + seq![':'] + (b + seq![':'] + access), ':') =~= seq![h, b, access]);
}

/// The list is the baseline and then one bind mount for each that was asked
/// for, in order: at its path inside the sandbox, with its path on the
/// host and its access. There is a list exactly where every one of the
/// host paths is accessible and the two directories are known.
pub proof fn law_asked_mounts_come_last(
    specs: Seq<MountSpecView>,
    readonly: bool,
    host: HostView,
    cwd: std::result::Result<Seq<u8>, Seq<char>>,
)
    ensures
        inventory(specs, readonly, host, cwd) is Ok <==> {
            &&& forall|i: int|
                0 <= i < specs.len() ==> host.stat_error((#[trigger] specs[i]).host) is None
            &&& host.home_dir() is Ok
            &&& cwd is Ok
        },
        inventory(specs, readonly, host, cwd) matches Ok(list) ==> {
            &&& list.len() == 10 + specs.len()
            &&& list.take(10) == baseline(
                host.home_dir()->Ok_0,
                cwd->Ok_0,
                if readonly {
                    MountAccess::Ro
                } else {
                    MountAccess::Rw
                },
            )
            &&& forall|i: int|
                0 <= i < specs.len() ==> {
                    &&& list[10 + i].sandbox == (#[trigger] specs[i]).sandbox
                    &&& list[10 + i].kind == (MountKindView::Mount {
                        host: specs[i].host,
                        access: specs[i].access,
                    })
                    &&& list[10 + i].source == MountSource::Cli
                }
        },
{
    lemma_validated_specs(specs, host);
    if let Ok(list) = inventory(specs, readonly, host, cwd) {
        let base = baseline(
            host.home_dir()->Ok_0,
            cwd->Ok_0,
            if readonly {
                MountAccess::Ro
            } else {
                MountAccess::Rw
            },
        );
        assert(list.take(10) =~= base);
    }
}

/// All host paths are accessible where the check finds nothing, and the
/// path that it complains of is one of them and is not.
proof fn lemma_validated_specs(specs: Seq<MountSpecView>, host: HostView)
    ensures
        validated_specs(specs, host) is Ok <==> forall|i: int|
            0 <= i < specs.len() ==> host.stat_error((#[trigger] specs[i]).host) is None,
    decreases specs.len(),
{
    if specs.len() > 0 {
        let rest = specs.skip(1);
        lemma_validated_specs(rest, host);
        if validated_specs(specs, host) is Ok {
            assert forall|i: int| 0 <= i < specs.len() implies host.stat_error(
                (#[trigger] specs[i]).host,
            ) is None by {
                if i > 0 {
                    assert(rest[i - 1] == specs[i]);
                }
            }
        }
        if forall|i: int|
            0 <= i < specs.len() ==> host.stat_error((#[trigger] specs[i]).host) is None {
            assert(host.stat_error(specs[0].host) is None);
            assert forall|i: int| 0 <= i < rest.len() implies host.stat_error(
                (#[trigger] rest[i]).host,
            ) is None by {
                assert(rest[i] == specs[i + 1]);
            }
        }
    }
}

/// Each refusal says what is wrong, and quotes it. Too many parts
/// come first, then the access, paths that are empty and paths that are
/// relative.
pub proof fn law_refusals_spelled_out(
    h: Seq<char>,
    b: Seq<char>,
    access: Seq<char>,
    rest: Seq<char>,
)
    requires
        !h.contains(':'),
        !b.contains(':'),
        !access.contains(':'),
    ensures
        ({
            let two = h + seq![':'] + b;
            let three = h + seq![':'] + (b + seq![':'] + access);
            let four = h + seq![':'] + (b + seq![':'] + (access + seq![':'] + rest));
            let known = access == "ro"@ || access == "rw"@;
            &&& parsed_spec(four) == Err::<MountSpecView, Seq<char>>(
                "mount spec "@ + quoted(four)
                    + " contains more than two `:`; additional colons are reserved for future use"@,
            )
            &&& !known ==> parsed_spec(three) == Err::<MountSpecView, Seq<char>>(
                "mount access "@ + quoted(access) + " must be `ro` or `rw`"@,
            )
            &&& h.len() == 0 ==> parsed_spec(h) == Err::<MountSpecView, Seq<char>>(
                "mount spec "@ + quoted(h) + " has empty host path"@,
            )
            &&& h.len() == 0 ==> parsed_spec(two) == Err::<MountSpecView, Seq<char>>(
                "mount spec "@ + quoted(two) + " has empty host path"@,
            )
            &&& known && h.len() == 0 ==> parsed_spec(three) == Err::<MountSpecView, Seq<char>>(
                "mount spec "@ + quoted(three) + " has empty host path"@,
            )
            &&& h.len() > 0 && h[0] != '/' ==> parsed_spec(h) == Err::<MountSpecView, Seq<char>>(
                "mount host path "@ + quoted(h) + " must be absolute (start with `/`)"@,
            )
            &&& h.len() > 0 && b.len() == 0 ==> parsed_spec(two) == Err::<MountSpecView, Seq<char>>(
                "mount spec "@ + quoted(two) + " has empty sandbox path"@,
            )
            &&& h.len() > 0 && h[0] != '/' && b.len() > 0 ==> parsed_spec(two) == Err::<MountSpecView, Seq<char>>(
                "mount host path "@ + quoted(h) + " must be absolute (start with `/`)"@,
            )
            &&& h.len() > 0 && h[0] == '/' && b.len() > 0 && b[0] != '/' ==> parsed_spec(two) == Err::<
                MountSpecView,
                Seq<char>,
            >("mount sandbox path "@ + quoted(b) + " must be absolute (start with `/`)"@)
        }),
{
    reveal_strlit("ro");
    reveal_strlit("rw");
    lemma_split_plain(h, ':');
    lemma_split_plain(b, ':');
    lemma_split_plain(access, ':');
    lemma_split_first(h, ':', b);
    lemma_split_first(b, ':', access);
    lemma_split_first(h, ':', b + seq![':'] + access);
    lemma_split_nonempty(rest, ':');
    let more = access + seq![':'] + rest;
    lemma_split_first(access, ':', rest);
    lemma_split_first(b, ':', more);
    lemma_split_first(h, ':', b + seq![':'] + more);
    assert(split_at_each(h + seq![':'] + b, ':') =~= seq![h, b]);
    assert(split_at_each(h + seq![':'] + (b + seq![':'] + access), ':') =~= seq![h, b, access]);
}

} // verus!
