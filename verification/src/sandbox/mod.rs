//! Building the sandbox: `redoubtful` starts `pasta`, which starts
//! `bwrap`, which starts the command.

use crate::argv::{command_tokens, isolation_flags, ArgvBuilder};
use crate::bwrap::{inventory_tokens, push_command, push_mounts, string_tokens};
use crate::mounts::{Mount, MountView};
use crate::text::utf8;
use crate::values::views;
use vstd::prelude::*;

pub mod bwrap;
pub mod ca;
pub mod ca_bundle;
pub mod isolation;
pub mod launch;
pub mod pasta;
pub mod proxy;
pub mod rewrite;
pub mod roots;

verus! {

/// The command line of `bwrap`, without the name of the binary, for a
/// sandbox that keeps the environment it is started with.
pub open spec fn bwrap_tokens(
    mounts: Seq<MountView>,
    cwd: Seq<u8>,
    command: Seq<char>,
    args: Seq<Seq<char>>,
) -> Seq<Seq<u8>> {
    isolation_flags() + inventory_tokens(mounts) + command_tokens(
        cwd,
        utf8(command),
        string_tokens(args),
    )
}

/// Build the command line of `bwrap`, without the name of the binary, for
/// a sandbox that keeps the environment it is started with.
pub fn bwrap_argv(mounts: &Vec<Mount>, cwd: &[u8], command: &str, args: &Vec<String>) -> (r: Vec<
    Vec<u8>,
>)
    ensures
        views(r@) == bwrap_tokens(views(mounts@), cwd@, command@, views(args@)),
{
    let mut a = ArgvBuilder::default();
    a.isolation();
    assert(a@ =~= isolation_flags());
    push_mounts(&mut a, mounts);
    push_command(&mut a, cwd, command, args);
    a.into_vec()
}

/// The command line from end to end: every namespace is its own but the
/// network's, the sandbox dies with its parent and has a session of its
/// own, and behind that stand the mounts and the command in its directory.
pub proof fn law_command_line_spelled_out(
    mounts: Seq<MountView>,
    cwd: Seq<u8>,
    command: Seq<char>,
    args: Seq<Seq<char>>,
)
    ensures
        bwrap_tokens(mounts, cwd, command, args) == seq![
            utf8("--unshare-all"@),
            utf8("--share-net"@),
            utf8("--die-with-parent"@),
            utf8("--new-session"@),
        ] + inventory_tokens(mounts) + seq![utf8("--chdir"@), cwd, utf8("--"@), utf8(command)]
            + Seq::new(args.len(), |i: int| utf8(args[i])),
{
    assert(bwrap_tokens(mounts, cwd, command, args) =~= seq![
        utf8("--unshare-all"@),
        utf8("--share-net"@),
        utf8("--die-with-parent"@),
        utf8("--new-session"@),
    ] + inventory_tokens(mounts) + seq![utf8("--chdir"@), cwd, utf8("--"@), utf8(command)]
        + Seq::new(args.len(), |i: int| utf8(args[i])));
}

} // verus!
