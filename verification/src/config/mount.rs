//! A single file system mount inside the sandbox.
//!
//! A [`MountDecl`] is what the user wrote, on the command line or in a
//! profile; it resolves to a [`Mount`], which records what is exposed and
//! how. The lists of both live in [`crate::config::mounts`].

use crate::config::resolve_context::{ContextView, ResolveContext};
use crate::config::spanned::{unplaced, Spanned, SpannedView};
use crate::config::{expand_tilde, expanded, Decl, NormalizeConfigPaths};
use crate::errors::{Error, ErrorView, Result};
use crate::host::{law_first_value, Host, HostView};
use crate::paths::is_absolute;
use crate::text::{
    bytes_of, cat3, copy_bytes, lemma_split_first, lemma_split_nonempty, lemma_split_plain,
    lemma_utf8_first, quoted, quoted_text, split_at_each, split_str, starts_with_char, str_eq,
    utf8,
};
use crate::values::{duplicate_opt, opt_view, Duplicate};
use vstd::prelude::*;
use vstd::string::*;

verus! {

// ---------------------------------------------------------------------
// Access
// ---------------------------------------------------------------------
/// Whether a bind mount exposes the host path read-only or read-write.
#[derive(Debug, Clone, Copy, PartialEq, Eq, Structural)]
pub enum MountAccess {
    /// Read-only, the default of a declared mount.
    Ro,
    /// Read-write. A writeable mount is a hole in the sandbox by design.
    Rw,
}

impl MountAccess {
    /// The access to the working directory, given the merged `readonly`
    /// toggle: read-only where it is on, read-write where it is off or
    /// was never given.
    pub open spec fn of_readonly(readonly: Option<bool>) -> MountAccess {
        if readonly == Some(true) {
            MountAccess::Ro
        } else {
            MountAccess::Rw
        }
    }

    /// The access to the working directory, given the merged `readonly`
    /// toggle.
    pub fn from_readonly(readonly: Option<bool>) -> (r: MountAccess)
        ensures
            r == MountAccess::of_readonly(readonly),
    {
        match readonly {
            Some(true) => MountAccess::Ro,
            _ => MountAccess::Rw,
        }
    }
}

// ---------------------------------------------------------------------
// Declarations
// ---------------------------------------------------------------------
/// A declared bind mount: a host path, the sandbox path it should appear
/// at, and whether it may be written to.
#[derive(Debug)]
pub struct MountDecl {
    /// Path on the host.
    pub host: Spanned<Vec<u8>>,
    /// Path inside the sandbox; absent, it is the host path.
    pub sandbox: Option<Spanned<Vec<u8>>>,
    /// Access; absent, it is read-only.
    pub access: Option<MountAccess>,
}

/// What a [`MountDecl`] says.
#[verifier::ext_equal]
pub struct MountDeclView {
    pub host: SpannedView<Seq<u8>>,
    pub sandbox: Option<SpannedView<Seq<u8>>>,
    pub access: Option<MountAccess>,
}

impl View for MountDecl {
    type V = MountDeclView;

    open spec fn view(&self) -> MountDeclView {
        MountDeclView {
            host: self.host@,
            sandbox: opt_view(self.sandbox),
            access: self.access,
        }
    }
}

impl Duplicate for MountDecl {
    fn duplicate(&self) -> (r: MountDecl) {
        MountDecl {
            host: self.host.duplicate(),
            sandbox: duplicate_opt(&self.sandbox),
            access: self.access,
        }
    }
}

impl MountDeclView {
    /// The path inside the sandbox.
    pub open spec fn sandbox_path(self) -> Seq<u8> {
        match self.sandbox {
            Some(s) => s.value,
            None => self.host.value,
        }
    }

    /// The access.
    pub open spec fn access_mode(self) -> MountAccess {
        match self.access {
            Some(a) => a,
            None => MountAccess::Ro,
        }
    }

    /// The mount it stands for.
    pub open spec fn mount(self) -> MountView {
        MountView {
            sandbox: self.sandbox_path(),
            kind: MountKindView::Mount { host: self.host.value, access: self.access_mode() },
        }
    }
}

/// What `HOST_PATH[:SANDBOX_PATH[:rw|:ro]]` declares.
///
/// Both paths must be absolute and neither may be empty; a fourth part is
/// reserved. The complaints come in this order: too many parts, the
/// access, the host path, the sandbox path.
pub open spec fn parsed_mount(s: Seq<char>) -> std::result::Result<MountDeclView, Seq<char>> {
    let parts = split_at_each(s, ':');
    if parts.len() > 3 {
        Err(
            "mount spec "@ + quoted(s)
                + " contains more than two `:`; additional colons are reserved for future use"@,
        )
    } else if parts.len() == 3 && parts[2] != "ro"@ && parts[2] != "rw"@ {
        Err("mount access "@ + quoted(parts[2]) + " must be `ro` or `rw`"@)
    } else if parts[0].len() == 0 {
        Err("mount spec "@ + quoted(s) + " has empty host path"@)
    } else if parts[0][0] != '/' {
        Err("mount host path "@ + quoted(parts[0]) + " must be absolute (start with `/`)"@)
    } else if parts.len() > 1 && parts[1].len() == 0 {
        Err("mount spec "@ + quoted(s) + " has empty sandbox path"@)
    } else if parts.len() > 1 && parts[1][0] != '/' {
        Err("mount sandbox path "@ + quoted(parts[1]) + " must be absolute (start with `/`)"@)
    } else {
        Ok(
            MountDeclView {
                host: unplaced(utf8(parts[0])),
                sandbox: if parts.len() > 1 {
                    Some(unplaced(utf8(parts[1])))
                } else {
                    None
                },
                access: if parts.len() < 3 {
                    None
                } else if parts[2] == "ro"@ {
                    Some(MountAccess::Ro)
                } else {
                    Some(MountAccess::Rw)
                },
            },
        )
    }
}

impl MountDecl {
    /// The path inside the sandbox: the host path, unless another was
    /// given.
    pub fn sandbox_path(&self) -> (r: &[u8])
        ensures
            r@ == self@.sandbox_path(),
    {
        match &self.sandbox {
            Some(s) => s.value.as_slice(),
            None => self.host.value.as_slice(),
        }
    }

    /// The access: read-only, unless another was given.
    pub fn access_mode(&self) -> (r: MountAccess)
        ensures
            r == self@.access_mode(),
    {
        match self.access {
            Some(a) => a,
            None => MountAccess::Ro,
        }
    }

    /// Parse `HOST_PATH[:SANDBOX_PATH[:rw|:ro]]`.
    pub fn from_str(s: &str) -> (r: std::result::Result<MountDecl, String>)
        ensures
            match parsed_mount(s@) {
                Ok(d) => r matches Ok(m) && m@ == d,
                Err(e) => r matches Err(f) && f@ == e,
            },
    {
        let parts = split_str(s, ':');
        let ghost all = split_at_each(s@, ':');
        proof {
            lemma_split_nonempty(s@, ':');
            assert(all.len() == parts@.len());
            assert(forall|i: int| 0 <= i < all.len() ==> #[trigger] all[i] == parts@[i]@);
        }
        if parts.len() > 3 {
            return Err(
                cat3(
                    "mount spec ",
                    quoted_text(s).as_str(),
                    " contains more than two `:`; additional colons are reserved for future use",
                ),
            );
        }
        let mut access: Option<MountAccess> = None;
        if parts.len() == 3 {
            if str_eq(parts[2].as_str(), "ro") {
                access = Some(MountAccess::Ro);
            } else if str_eq(parts[2].as_str(), "rw") {
                access = Some(MountAccess::Rw);
            } else {
                return Err(
                    cat3(
                        "mount access ",
                        quoted_text(parts[2].as_str()).as_str(),
                        " must be `ro` or `rw`",
                    ),
                );
            }
        }
        let host = parts[0].as_str();
        if host.is_empty() {
            return Err(cat3("mount spec ", quoted_text(s).as_str(), " has empty host path"));
        }
        if !starts_with_char(host, '/') {
            return Err(
                cat3(
                    "mount host path ",
                    quoted_text(host).as_str(),
                    " must be absolute (start with `/`)",
                ),
            );
        }
        let mut sandbox: Option<Spanned<Vec<u8>>> = None;
        if parts.len() > 1 {
            let sb = parts[1].as_str();
            if sb.is_empty() {
                return Err(
                    cat3("mount spec ", quoted_text(s).as_str(), " has empty sandbox path"),
                );
            }
            if !starts_with_char(sb, '/') {
                return Err(
                    cat3(
                        "mount sandbox path ",
                        quoted_text(sb).as_str(),
                        " must be absolute (start with `/`)",
                    ),
                );
            }
            sandbox = Some(Spanned::new(0, 0, bytes_of(sb)));
        }
        proof {
            reveal_strlit("ro");
            reveal_strlit("rw");
        }
        Ok(MountDecl { host: Spanned::new(0, 0, bytes_of(host)), sandbox, access })
    }
}

impl NormalizeConfigPaths for MountDecl {
    open spec fn normalized(me: MountDeclView, home: Seq<u8>) -> Result<MountDeclView, ErrorView> {
        match expanded(me.host.value, home) {
            Err(e) => Err(e),
            Ok(host) => {
                let host = SpannedView { value: host, ..me.host };
                match me.sandbox {
                    None => Ok(MountDeclView { host, ..me }),
                    Some(s) => match expanded(s.value, home) {
                        Err(e) => Err(e),
                        Ok(sandbox) => Ok(
                            MountDeclView {
                                host,
                                sandbox: Some(SpannedView { value: sandbox, ..s }),
                                ..me
                            },
                        ),
                    },
                }
            },
        }
    }

    /// Expand both paths in place; the places in the file stay.
    fn normalize_config_paths(&mut self, home: &[u8]) -> (r: Result<()>) {
        match expand_tilde(self.host.value.as_slice(), home) {
            Ok(host) => {
                self.host.value = host;
            },
            Err(e) => {
                return Err(e);
            },
        }
        let mut after: Option<Spanned<Vec<u8>>> = None;
        match &self.sandbox {
            Some(s) => match expand_tilde(s.value.as_slice(), home) {
                Ok(value) => {
                    after = Some(Spanned::new(s.start, s.end, value));
                },
                Err(e) => {
                    return Err(e);
                },
            },
            None => {},
        }
        self.sandbox = after;
        Ok(())
    }
}

impl Decl for MountDecl {
    type Resolved = Mount;

    /// The host path must be accessible.
    open spec fn validated(me: MountDeclView, host: HostView) -> Result<(), ErrorView> {
        match host.stat_error(me.host.value) {
            Some(source) => Err(ErrorView::MissingMountHost { path: me.host.value, source }),
            None => Ok(()),
        }
    }

    open spec fn resolved(me: MountDeclView, ctx: ContextView) -> Result<MountView, ErrorView> {
        Ok(me.mount())
    }

    fn validate(&self, host: &Host) -> (r: Result<()>) {
        match host.stat_error(self.host.value.as_slice()) {
            Some(source) => Err(
                Error::missing_mount_host(
                    copy_bytes(self.host.value.as_slice()),
                    source.as_str(),
                ),
            ),
            None => Ok(()),
        }
    }

    fn resolve(&self, ctx: &ResolveContext) -> (r: Result<Mount>) {
        Ok(
            Mount {
                sandbox: copy_bytes(self.sandbox_path()),
                kind: MountKind::Mount {
                    host: copy_bytes(self.host.value.as_slice()),
                    access: self.access_mode(),
                },
            },
        )
    }
}

// ---------------------------------------------------------------------
// Mounts
// ---------------------------------------------------------------------
/// A mount inside the sandbox.
#[derive(Debug)]
pub struct Mount {
    /// Where it appears.
    pub sandbox: Vec<u8>,
    /// What it is.
    pub kind: MountKind,
}

/// The kinds of mounts that the sandbox is made of.
#[derive(Debug)]
pub enum MountKind {
    /// A path of the host.
    Mount {
        /// The path.
        host: Vec<u8>,
        /// Whether it may be written to.
        access: MountAccess,
    },
    /// A symbolic link.
    Symlink {
        /// What it points at.
        target: String,
    },
    /// A fresh, empty file system in memory.
    Tmpfs,
    /// A minimal set of devices.
    Dev,
    /// A fresh procfs.
    Proc,
}

/// What a [`Mount`] says.
#[verifier::ext_equal]
pub struct MountView {
    pub sandbox: Seq<u8>,
    pub kind: MountKindView,
}

/// What a [`MountKind`] says.
#[verifier::ext_equal]
pub enum MountKindView {
    Mount { host: Seq<u8>, access: MountAccess },
    Symlink { target: Seq<char> },
    Tmpfs,
    Dev,
    Proc,
}

impl View for MountKind {
    type V = MountKindView;

    open spec fn view(&self) -> MountKindView {
        match self {
            MountKind::Mount { host, access } => MountKindView::Mount {
                host: host@,
                access: *access,
            },
            MountKind::Symlink { target } => MountKindView::Symlink { target: target@ },
            MountKind::Tmpfs => MountKindView::Tmpfs,
            MountKind::Dev => MountKindView::Dev,
            MountKind::Proc => MountKindView::Proc,
        }
    }
}

impl View for Mount {
    type V = MountView;

    open spec fn view(&self) -> MountView {
        MountView { sandbox: self.sandbox@, kind: self.kind@ }
    }
}

impl Duplicate for MountKind {
    fn duplicate(&self) -> (r: MountKind) {
        match self {
            MountKind::Mount { host, access } => MountKind::Mount {
                host: host.duplicate(),
                access: *access,
            },
            MountKind::Symlink { target } => MountKind::Symlink { target: target.duplicate() },
            MountKind::Tmpfs => MountKind::Tmpfs,
            MountKind::Dev => MountKind::Dev,
            MountKind::Proc => MountKind::Proc,
        }
    }
}

impl Duplicate for Mount {
    fn duplicate(&self) -> (r: Mount) {
        Mount { sandbox: self.sandbox.duplicate(), kind: self.kind.duplicate() }
    }
}

/// What the command line declares has absolute paths, on both sides.
pub proof fn law_declared_paths_are_absolute(s: Seq<char>)
    ensures
        parsed_mount(s) matches Ok(d) ==> is_absolute(d.host.value) && is_absolute(
            d.sandbox_path(),
        ),
{
    let parts = split_at_each(s, ':');
    lemma_split_nonempty(s, ':');
    if parsed_mount(s) is Ok {
        lemma_utf8_first(parts[0]);
        if parts.len() > 1 {
            lemma_utf8_first(parts[1]);
        }
    }
}

/// `HOST`, `HOST:SANDBOX` and `HOST:SANDBOX:ACCESS` are accepted exactly
/// where every path begins with `/` and the access is `ro` or `rw`. The
/// sandbox path is the host path where none is given, and the access is
/// read-only unless `rw` is. A fourth part is refused.
pub proof fn law_mount_syntax(h: Seq<char>, b: Seq<char>, access: Seq<char>, rest: Seq<char>)
    requires
        !h.contains(':'),
        !b.contains(':'),
        !access.contains(':'),
    ensures
        ({
            let host_ok = h.len() > 0 && h[0] == '/';
            let sandbox_ok = b.len() > 0 && b[0] == '/';
            let one = parsed_mount(h);
            let two = parsed_mount(h + seq![':'] + b);
            let three = parsed_mount(h + seq![':'] + (b + seq![':'] + access));
            &&& one is Ok <==> host_ok
            &&& one matches Ok(d) ==> d.mount() == (MountView {
                sandbox: utf8(h),
                kind: MountKindView::Mount { host: utf8(h), access: MountAccess::Ro },
            })
            &&& two is Ok <==> host_ok && sandbox_ok
            &&& two matches Ok(d) ==> d.mount() == (MountView {
                sandbox: utf8(b),
                kind: MountKindView::Mount { host: utf8(h), access: MountAccess::Ro },
            })
            &&& three is Ok <==> host_ok && sandbox_ok && (access == "ro"@ || access == "rw"@)
            &&& three matches Ok(d) ==> d.mount() == (MountView {
                sandbox: utf8(b),
                kind: MountKindView::Mount {
                    host: utf8(h),
                    access: if access == "rw"@ {
                        MountAccess::Rw
                    } else {
                        MountAccess::Ro
                    },
                },
            })
            &&& parsed_mount(
                h + seq![':'] + (b + seq![':'] + (access + seq![':'] + rest)),
            ) is Err
        }),
{
    reveal_strlit("ro");
    reveal_strlit("rw");
    assert("ro"@[1] != "rw"@[1]);
    lemma_split_plain(h, ':');
    lemma_split_plain(b, ':');
    lemma_split_plain(access, ':');
    lemma_split_first(h, ':', b);
    lemma_split_first(b, ':', access);
    lemma_split_first(h, ':', b + seq![':'] + access);
    lemma_split_nonempty(rest, ':');
    let more = access + seq![':'] + rest;
    lemma_split_first(access, ':', rest);
    lemma_split_first(b, ':', more);
    lemma_split_first(h, ':', b + seq![':'] + more);
    assert(split_at_each(h + seq![':'] + b, ':') =~= seq![h, b]);
    assert(split_at_each(h + seq![':'] + (b + seq![':'] + access), ':') =~= seq![h, b, access]);
}

/// A declared mount becomes that bind mount, and only a host path that is
/// accessible may be declared. Both of its paths are expanded where the
/// configuration file declares it; the access stays.
pub proof fn law_declared_mounts_resolve(
    me: MountDeclView,
    host: HostView,
    ctx: ContextView,
    home: Seq<u8>,
)
    ensures
        MountDecl::resolved(me, ctx) matches Ok(m) && m.sandbox == (match me.sandbox {
            Some(s) => s.value,
            None => me.host.value,
        }) && m.kind == (MountKindView::Mount {
            host: me.host.value,
            access: match me.access {
                Some(a) => a,
                None => MountAccess::Ro,
            },
        }),
        MountDecl::validated(me, host) is Ok <==> forall|i: int|
            0 <= i < host.unreadable.len() ==> (#[trigger] host.unreadable[i]).0 != me.host.value,
        MountDecl::normalized(me, home) is Ok <==> expanded(me.host.value, home) is Ok && (
        me.sandbox is Some ==> expanded(me.sandbox->0.value, home) is Ok),
        MountDecl::normalized(me, home) matches Ok(d) ==> {
            &&& expanded(me.host.value, home) == Ok::<Seq<u8>, ErrorView>(d.host.value)
            &&& d.sandbox is Some <==> me.sandbox is Some
            &&& me.sandbox matches Some(s) ==> expanded(s.value, home) == Ok::<Seq<u8>, ErrorView>(
                d.sandbox->0.value,
            )
            &&& d.access == me.access
        },
{
    law_first_value(host.unreadable, me.host.value);
}

/// The working directory may be written to unless it was asked to be
/// read-only.
pub proof fn law_readonly_is_asked_for(readonly: Option<bool>)
    ensures
        MountAccess::of_readonly(readonly) == MountAccess::Ro <==> readonly == Some(true),
{
}

/// Each refusal says what is wrong, and quotes it. Too many parts
/// come first, then the access, the host path and the sandbox path.
pub proof fn law_refusals_spelled_out(
    h: Seq<char>,
    b: Seq<char>,
    access: Seq<char>,
    rest: Seq<char>,
)
    requires
        !h.contains(':'),
        !b.contains(':'),
        !access.contains(':'),
    ensures
        ({
            let two = h + seq![':'] + b;
            let three = h + seq![':'] + (b + seq![':'] + access);
            let four = h + seq![':'] + (b + seq![':'] + (access + seq![':'] + rest));
            let known = access == "ro"@ || access == "rw"@;
            &&& parsed_mount(four) == Err::<MountDeclView, Seq<char>>(
                "mount spec "@ + quoted(four)
                    + " contains more than two `:`; additional colons are reserved for future use"@,
            )
            &&& !known ==> parsed_mount(three) == Err::<MountDeclView, Seq<char>>(
                "mount access "@ + quoted(access) + " must be `ro` or `rw`"@,
            )
            &&& h.len() == 0 ==> parsed_mount(h) == Err::<MountDeclView, Seq<char>>(
                "mount spec "@ + quoted(h) + " has empty host path"@,
            )
            &&& h.len() == 0 ==> parsed_mount(two) == Err::<MountDeclView, Seq<char>>(
                "mount spec "@ + quoted(two) + " has empty host path"@,
            )
            &&& known && h.len() == 0 ==> parsed_mount(three) == Err::<MountDeclView, Seq<char>>(
                "mount spec "@ + quoted(three) + " has empty host path"@,
            )
            &&& h.len() > 0 && h[0] != '/' ==> parsed_mount(h) == Err::<MountDeclView, Seq<char>>(
                "mount host path "@ + quoted(h) + " must be absolute (start with `/`)"@,
            )
            &&& h.len() > 0 && h[0] != '/' ==> parsed_mount(two) == Err::<MountDeclView, Seq<char>>(
                "mount host path "@ + quoted(h) + " must be absolute (start with `/`)"@,
            )
            &&& h.len() > 0 && h[0] == '/' && b.len() == 0 ==> parsed_mount(two) == Err::<MountDeclView, Seq<char>>(
                "mount spec "@ + quoted(two) + " has empty sandbox path"@,
            )
            &&& h.len() > 0 && h[0] == '/' && b.len() > 0 && b[0] != '/' ==> parsed_mount(two) == Err::<
                MountDeclView,
                Seq<char>,
            >("mount sandbox path "@ + quoted(b) + " must be absolute (start with `/`)"@)
        }),
{
    reveal_strlit("ro");
    reveal_strlit("rw");
    lemma_split_plain(h, ':');
    lemma_split_plain(b, ':');
    lemma_split_plain(access, ':');
    lemma_split_first(h, ':', b);
    lemma_split_first(b, ':', access);
    lemma_split_first(h, ':', b + seq![':'] + access);
    lemma_split_nonempty(rest, ':');
    let more = access + seq![':'] + rest;
    lemma_split_first(access, ':', rest);
    lemma_split_first(b, ':', more);
    lemma_split_first(h, ':', b + seq![':'] + more);
    assert(split_at_each(h + seq![':'] + b, ':') =~= seq![h, b]);
    assert(split_at_each(h + seq![':'] + (b + seq![':'] + access), ':') =~= seq![h, b, access]);
}

} // verus!
