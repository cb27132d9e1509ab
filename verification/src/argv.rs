//! Command lines, token by token.
//!
//! A token is a byte string: paths and arguments reach the child process
//! as they are, whether they are UTF-8 or not.

use crate::config::mount::{MountAccess, MountKind, MountKindView};
use crate::text::{bytes_of, copy_bytes, utf8};
use crate::values::{views, Duplicate};
use vstd::prelude::*;
use vstd::string::*;

verus! {

/// A command line under construction.
pub struct ArgvBuilder {
    argv: Vec<Vec<u8>>,
}

impl View for ArgvBuilder {
    type V = Seq<Seq<u8>>;

    closed spec fn view(&self) -> Seq<Seq<u8>> {
        views(self.argv@)
    }
}

impl Default for ArgvBuilder {
    /// No tokens.
    fn default() -> (r: ArgvBuilder)
        ensures
            r@ == Seq::<Seq<u8>>::empty(),
    {
        let r = ArgvBuilder { argv: Vec::new() };
        assert(r@ =~= Seq::<Seq<u8>>::empty());
        r
    }
}

/// All pieces, one after the other.
pub open spec fn chained<T>(pieces: Seq<Seq<T>>) -> Seq<T>
    decreases pieces.len(),
{
    if pieces.len() == 0 {
        Seq::empty()
    } else {
        chained(pieces.drop_last()) + pieces.last()
    }
}

impl ArgvBuilder {
    /// Append a token.
    fn push(&mut self, token: Vec<u8>)
        ensures
            final(self)@ == old(self)@.push(token@),
    {
        let ghost before = self.argv@;
        self.argv.push(token);
        assert(views(self.argv@) =~= views(before).push(token@));
    }

    /// Append a flag, such as `--unshare-all`.
    pub fn flag(&mut self, s: &str)
        ensures
            final(self)@ == old(self)@ + seq![utf8(s@)],
    {
        self.push(bytes_of(s));
        assert(self@ =~= old(self)@ + seq![utf8(s@)]);
    }

    /// Append a flag and a path, such as `--tmpfs /tmp`.
    pub fn single_path(&mut self, flag: &str, p: &[u8])
        ensures
            final(self)@ == old(self)@ + seq![utf8(flag@), p@],
    {
        self.push(bytes_of(flag));
        self.push(copy_bytes(p));
        assert(self@ =~= old(self)@ + seq![utf8(flag@), p@]);
    }

    /// Append a flag and two paths, such as `--ro-bind HOST SANDBOX`.
    pub fn pair_path(&mut self, flag: &str, a: &[u8], b: &[u8])
        ensures
            final(self)@ == old(self)@ + seq![utf8(flag@), a@, b@],
    {
        self.push(bytes_of(flag));
        self.push(copy_bytes(a));
        self.push(copy_bytes(b));
        assert(self@ =~= old(self)@ + seq![utf8(flag@), a@, b@]);
    }

    /// Append a flag, a string and a path, such as
    /// `--symlink usr/bin /bin`.
    pub fn pair_str_path(&mut self, flag: &str, a: &str, b: &[u8])
        ensures
            final(self)@ == old(self)@ + seq![utf8(flag@), utf8(a@), b@],
    {
        self.push(bytes_of(flag));
        self.push(bytes_of(a));
        self.push(copy_bytes(b));
        assert(self@ =~= old(self)@ + seq![utf8(flag@), utf8(a@), b@]);
    }

    /// Append a flag and a string, such as `-T 8080,8081`.
    pub fn pair_str(&mut self, flag: &str, value: &str)
        ensures
            final(self)@ == old(self)@ + seq![utf8(flag@), utf8(value@)],
    {
        self.push(bytes_of(flag));
        self.push(bytes_of(value));
        assert(self@ =~= old(self)@ + seq![utf8(flag@), utf8(value@)]);
    }

    /// Append a flag and two strings, such as `--setenv PATH /usr/bin`.
    pub fn triple_str(&mut self, flag: &str, a: &str, b: &str)
        ensures
            final(self)@ == old(self)@ + seq![utf8(flag@), utf8(a@), utf8(b@)],
    {
        self.push(bytes_of(flag));
        self.push(bytes_of(a));
        self.push(bytes_of(b));
        assert(self@ =~= old(self)@ + seq![utf8(flag@), utf8(a@), utf8(b@)]);
    }

    /// Append tokens as they are.
    pub fn extend_os(&mut self, tokens: Vec<Vec<u8>>)
        ensures
            final(self)@ == old(self)@ + views(tokens@),
    {
        let ghost all = views(tokens@);
        let mut i: usize = 0;
        assert(old(self)@ + all.take(0) =~= old(self)@);
        while i < tokens.len()
            invariant
                i <= tokens@.len(),
                all == views(tokens@),
                self@ == old(self)@ + all.take(i as int),
            decreases tokens.len() - i,
        {
            self.push(tokens[i].duplicate());
            assert(all.take(i + 1) =~= all.take(i as int).push(tokens@[i as int]@));
            assert(self@ =~= old(self)@ + all.take(i + 1));
            i = i + 1;
        }
        assert(all.take(all.len() as int) =~= all);
    }

    /// Append strings as they are.
    pub fn extend_args(&mut self, args: &Vec<String>)
        ensures
            final(self)@ == old(self)@ + views(args@).map_values(|a: Seq<char>| utf8(a)),
    {
        let ghost all = views(args@).map_values(|a: Seq<char>| utf8(a));
        let mut i: usize = 0;
        assert(old(self)@ + all.take(0) =~= old(self)@);
        while i < args.len()
            invariant
                i <= args@.len(),
                all == views(args@).map_values(|a: Seq<char>| utf8(a)),
                self@ == old(self)@ + all.take(i as int),
            decreases args.len() - i,
        {
            self.push(bytes_of(args[i].as_str()));
            assert(all.take(i + 1) =~= all.take(i as int).push(utf8(args@[i as int]@)));
            assert(self@ =~= old(self)@ + all.take(i + 1));
            i = i + 1;
        }
        assert(all.take(all.len() as int) =~= all);
    }

    /// The tokens.
    pub fn into_vec(self) -> (r: Vec<Vec<u8>>)
        ensures
            views(r@) == self@,
    {
        self.argv
    }
}

// ---------------------------------------------------------------------
// What every bwrap command line is made of
// ---------------------------------------------------------------------
/// The namespaces and the hardening that every sandbox has: every
/// namespace is its own except the network's, which the caller has
/// prepared; the sandbox dies with its parent; and it gets a session of
/// its own, so that it cannot type into the terminal it was started from.
pub open spec fn isolation_flags() -> Seq<Seq<u8>> {
    seq![
        utf8("--unshare-all"@),
        utf8("--share-net"@),
        utf8("--die-with-parent"@),
        utf8("--new-session"@),
    ]
}

/// The tokens that make a mount.
pub open spec fn mount_tokens(sandbox: Seq<u8>, kind: MountKindView) -> Seq<Seq<u8>> {
    match kind {
        MountKindView::Mount { host, access } => match access {
            MountAccess::Ro => seq![utf8("--ro-bind"@), host, sandbox],
            MountAccess::Rw => seq![utf8("--bind"@), host, sandbox],
        },
        MountKindView::Symlink { target } => seq![utf8("--symlink"@), utf8(target), sandbox],
        MountKindView::Tmpfs => seq![utf8("--tmpfs"@), sandbox],
        MountKindView::Dev => seq![utf8("--dev"@), sandbox],
        MountKindView::Proc => seq![utf8("--proc"@), sandbox],
    }
}

/// The tokens that set a variable.
pub open spec fn setenv_tokens(name: Seq<char>, value: Seq<u8>) -> Seq<Seq<u8>> {
    seq![utf8("--setenv"@), utf8(name), value]
}

/// The tokens that start the command in its directory.
pub open spec fn command_tokens(cwd: Seq<u8>, command: Seq<u8>, args: Seq<Seq<u8>>) -> Seq<
    Seq<u8>,
> {
    seq![utf8("--chdir"@), cwd, utf8("--"@), command] + args
}

impl ArgvBuilder {
    /// Append the isolation flags.
    pub fn isolation(&mut self)
        ensures
            final(self)@ == old(self)@ + isolation_flags(),
    {
        self.flag("--unshare-all");
        self.flag("--share-net");
        self.flag("--die-with-parent");
        self.flag("--new-session");
        assert(self@ =~= old(self)@ + isolation_flags());
    }

    /// Append the tokens that make a mount.
    pub fn mount(&mut self, sandbox: &[u8], kind: &MountKind)
        ensures
            final(self)@ == old(self)@ + mount_tokens(sandbox@, kind@),
    {
        match kind {
            MountKind::Mount { host, access } => match access {
                MountAccess::Ro => self.pair_path("--ro-bind", host.as_slice(), sandbox),
                MountAccess::Rw => self.pair_path("--bind", host.as_slice(), sandbox),
            },
            MountKind::Symlink { target } => self.pair_str_path(
                "--symlink",
                target.as_str(),
                sandbox,
            ),
            MountKind::Tmpfs => self.single_path("--tmpfs", sandbox),
            MountKind::Dev => self.single_path("--dev", sandbox),
            MountKind::Proc => self.single_path("--proc", sandbox),
        }
    }

    /// Append the tokens that set a variable.
    pub fn setenv(&mut self, name: &str, value: &[u8])
        ensures
            final(self)@ == old(self)@ + setenv_tokens(name@, value@),
    {
        self.pair_str_path("--setenv", name, value);
    }

    /// Append the directory, the separator and the command.
    pub fn start(&mut self, cwd: &[u8], command: &[u8])
        ensures
            final(self)@ == old(self)@ + command_tokens(cwd@, command@, seq![]),
    {
        self.single_path("--chdir", cwd);
        self.flag("--");
        self.push(copy_bytes(command));
        assert(self@ =~= old(self)@ + command_tokens(cwd@, command@, seq![]));
    }
}

// ---------------------------------------------------------------------
// Laws
// ---------------------------------------------------------------------
/// Chaining loses nothing, adds nothing and keeps the order: what two runs
/// of pieces give together is what each gives, one after the other, and a
/// piece by itself stays as it is.
pub proof fn law_chained_in_parts<T>(a: Seq<Seq<T>>, b: Seq<Seq<T>>, piece: Seq<T>)
    ensures
        chained(a + b) == chained(a) + chained(b),
        chained(seq![piece]) == piece,
        chained(Seq::<Seq<T>>::empty()) == Seq::<T>::empty(),
    decreases b.len(),
{
    reveal_with_fuel(chained, 2);
    assert(seq![piece].drop_last() =~= Seq::<Seq<T>>::empty());
    assert(chained(seq![piece]) =~= piece);
    if b.len() == 0 {
        assert(a + b =~= a);
        assert(chained(a) + chained(b) =~= chained(a));
    } else {
        law_chained_in_parts(a, b.drop_last(), piece);
        assert((a + b).drop_last() =~= a + b.drop_last());
        assert((a + b).last() == b.last());
        assert(chained(a) + chained(b.drop_last()) + b.last() =~= chained(a) + (chained(
            b.drop_last(),
        ) + b.last()));
    }
}

/// Each kind of mount has its own flag, and the path inside the sandbox
/// comes last: a directory that may be written to is bound with `--bind`,
/// one that may not with `--ro-bind`, behind its path on the host; a link
/// is `--symlink` and its target; the others are `--tmpfs`, `--dev` and
/// `--proc`.
pub proof fn law_mounts_spelled_out(
    sandbox: Seq<u8>,
    host: Seq<u8>,
    target: Seq<char>,
    kind: MountKindView,
)
    ensures
        mount_tokens(sandbox, MountKindView::Mount { host, access: MountAccess::Ro }) == seq![
            utf8("--ro-bind"@),
            host,
            sandbox,
        ],
        mount_tokens(sandbox, MountKindView::Mount { host, access: MountAccess::Rw }) == seq![
            utf8("--bind"@),
            host,
            sandbox,
        ],
        mount_tokens(sandbox, MountKindView::Symlink { target }) == seq![
            utf8("--symlink"@),
            utf8(target),
            sandbox,
        ],
        mount_tokens(sandbox, MountKindView::Tmpfs) == seq![utf8("--tmpfs"@), sandbox],
        mount_tokens(sandbox, MountKindView::Dev) == seq![utf8("--dev"@), sandbox],
        mount_tokens(sandbox, MountKindView::Proc) == seq![utf8("--proc"@), sandbox],
        mount_tokens(sandbox, kind).last() == sandbox,
{
}

} // verus!
