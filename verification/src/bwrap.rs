//! The command line of `bwrap` for a sandbox that the command line alone
//! describes.

use crate::argv::{
    chained, command_tokens, isolation_flags, law_chained_in_parts, mount_tokens, setenv_tokens,
    ArgvBuilder,
};
use crate::env::{EntryView, EnvList};
use crate::mounts::{MountList, MountView};
use crate::text::{bytes_of, utf8};
use crate::values::views;
use vstd::prelude::*;
use vstd::string::*;

verus! {

/// The tokens that set the variables.
pub open spec fn environment_tokens(vars: Seq<EntryView>) -> Seq<Seq<u8>> {
    chained(vars.map_values(|v: EntryView| setenv_tokens(v.name, utf8(v.value))))
}

/// The tokens that make the mounts.
pub open spec fn inventory_tokens(mounts: Seq<MountView>) -> Seq<Seq<u8>> {
    chained(mounts.map_values(|m: MountView| mount_tokens(m.sandbox, m.kind)))
}

/// Strings as tokens.
pub open spec fn string_tokens(args: Seq<Seq<char>>) -> Seq<Seq<u8>> {
    args.map_values(|a: Seq<char>| utf8(a))
}

/// Append the tokens that make the mounts.
pub(crate) fn push_mounts(a: &mut ArgvBuilder, mounts: &Vec<crate::mounts::Mount>)
    ensures
        final(a)@ == old(a)@ + inventory_tokens(views(mounts@)),
{
    let ghost list = views(mounts@);
    let ghost makes = list.map_values(|m: MountView| mount_tokens(m.sandbox, m.kind));
    let mut j: usize = 0;
    assert(old(a)@ + chained(makes.take(0)) =~= old(a)@);
    while j < mounts.len()
        invariant
            j <= mounts@.len(),
            list == views(mounts@),
            makes == list.map_values(|m: MountView| mount_tokens(m.sandbox, m.kind)),
            a@ == old(a)@ + chained(makes.take(j as int)),
        decreases mounts.len() - j,
    {
        a.mount(mounts[j].sandbox.as_slice(), &mounts[j].kind);
        proof {
            assert(list[j as int] == mounts@[j as int]@);
            assert(makes.take(j + 1).drop_last() =~= makes.take(j as int));
            assert(makes.take(j + 1).last() == makes[j as int]);
            assert(a@ =~= old(a)@ + chained(makes.take(j + 1)));
        }
        j = j + 1;
    }
    assert(makes.take(makes.len() as int) =~= makes);
}

/// Append the directory, the command and its arguments.
pub(crate) fn push_command(a: &mut ArgvBuilder, cwd: &[u8], command: &str, args: &Vec<String>)
    ensures
        final(a)@ == old(a)@ + command_tokens(
            cwd@,
            utf8(command@),
            string_tokens(views(args@)),
        ),
{
    a.start(cwd, bytes_of(command).as_slice());
    a.extend_args(args);
    assert(a@ =~= old(a)@ + command_tokens(cwd@, utf8(command@), string_tokens(views(args@))));
}

/// The command line, without the name of the binary. The environment is
/// emptied before anything is set, the mounts are made in order, and the
/// command comes after `--`.
pub open spec fn bwrap_tokens(
    mounts: Seq<MountView>,
    vars: Seq<EntryView>,
    cwd: Seq<u8>,
    command: Seq<char>,
    args: Seq<Seq<char>>,
) -> Seq<Seq<u8>> {
    isolation_flags() + seq![utf8("--clearenv"@)] + environment_tokens(vars) + inventory_tokens(
        mounts,
    ) + command_tokens(cwd, utf8(command), string_tokens(args))
}

/// Build the command line of `bwrap`, without the name of the binary. The
/// environment is emptied before anything is set, the mounts are made in
/// order, and the command comes after `--`.
pub fn bwrap_argv(
    mounts: &MountList,
    env: &EnvList,
    cwd: &[u8],
    command: &str,
    args: &Vec<String>,
) -> (r: Vec<Vec<u8>>)
    ensures
        views(r@) == bwrap_tokens(mounts@, env@, cwd@, command@, views(args@)),
{
    let mut a = ArgvBuilder::default();
    a.isolation();
    a.flag("--clearenv");
    let ghost head = a@;
    assert(head =~= isolation_flags() + seq![utf8("--clearenv"@)]);
    let ghost sets = env@.map_values(|v: EntryView| setenv_tokens(v.name, utf8(v.value)));
    let mut i: usize = 0;
    assert(head + chained(sets.take(0)) =~= head);
    while i < env.0.len()
        invariant
            i <= env.0@.len(),
            sets == env@.map_values(|v: EntryView| setenv_tokens(v.name, utf8(v.value))),
            a@ == head + chained(sets.take(i as int)),
        decreases env.0.len() - i,
    {
        a.triple_str("--setenv", env.0[i].name.as_str(), env.0[i].value.as_str());
        proof {
            assert(env@[i as int] == env.0@[i as int]@);
            assert(sets.take(i + 1).drop_last() =~= sets.take(i as int));
            assert(sets.take(i + 1).last() == sets[i as int]);
            assert(a@ =~= head + chained(sets.take(i + 1)));
        }
        i = i + 1;
    }
    assert(sets.take(sets.len() as int) =~= sets);
    push_mounts(&mut a, &mounts.0);
    push_command(&mut a, cwd, command, args);
    a.into_vec()
}

// ---------------------------------------------------------------------
// Laws
// ---------------------------------------------------------------------
/// The command line from end to end: every namespace is its own but the
/// network's, the sandbox dies with its parent and has a session of its
/// own, the environment is emptied, and behind that stand the variables,
/// the mounts, and the command in its directory with its arguments.
pub proof fn law_command_line_spelled_out(
    mounts: Seq<MountView>,
    vars: Seq<EntryView>,
    cwd: Seq<u8>,
    command: Seq<char>,
    args: Seq<Seq<char>>,
)
    ensures
        bwrap_tokens(mounts, vars, cwd, command, args) == seq![
            utf8("--unshare-all"@),
            utf8("--share-net"@),
            utf8("--die-with-parent"@),
            utf8("--new-session"@),
            utf8("--clearenv"@),
        ] + environment_tokens(vars) + inventory_tokens(mounts) + seq![
            utf8("--chdir"@),
            cwd,
            utf8("--"@),
            utf8(command),
        ] + Seq::new(args.len(), |i: int| utf8(args[i])),
{
    assert(bwrap_tokens(mounts, vars, cwd, command, args) =~= seq![
        utf8("--unshare-all"@),
        utf8("--share-net"@),
        utf8("--die-with-parent"@),
        utf8("--new-session"@),
        utf8("--clearenv"@),
    ] + environment_tokens(vars) + inventory_tokens(mounts) + seq![
        utf8("--chdir"@),
        cwd,
        utf8("--"@),
        utf8(command),
    ] + Seq::new(args.len(), |i: int| utf8(args[i])));
}

/// Every variable is set, each by the three tokens `--setenv`, name and
/// value, one after the other in the order of the list, and no token comes
/// besides.
pub proof fn law_every_variable_is_set(vars: Seq<EntryView>)
    ensures
        environment_tokens(vars).len() == 3 * vars.len(),
        forall|i: int|
            0 <= i < vars.len() ==> environment_tokens(vars).subrange(3 * i, 3 * i + 3) == seq![
                utf8("--setenv"@),
                utf8((#[trigger] vars[i]).name),
                utf8(vars[i].value),
            ],
    decreases vars.len(),
{
    let sets = |v: EntryView| setenv_tokens(v.name, utf8(v.value));
    if vars.len() > 0 {
        let rest = vars.drop_last();
        law_every_variable_is_set(rest);
        assert(vars.map_values(sets).drop_last() =~= rest.map_values(sets));
        let tokens = environment_tokens(vars);
        assert(tokens == environment_tokens(rest) + sets(vars.last()));
        assert forall|i: int| 0 <= i < vars.len() implies tokens.subrange(3 * i, 3 * i + 3)
            == seq![
            utf8("--setenv"@),
            utf8((#[trigger] vars[i]).name),
            utf8(vars[i].value),
        ] by {
            if i < rest.len() {
                assert(rest[i] == vars[i]);
                assert(tokens.subrange(3 * i, 3 * i + 3) =~= environment_tokens(rest).subrange(
                    3 * i,
                    3 * i + 3,
                ));
            } else {
                assert(tokens.subrange(3 * i, 3 * i + 3) =~= sets(vars[i]));
            }
        }
    }
}

/// Every mount is made, in the order of the list: a list in two parts gives
/// the tokens of the first part and then those of the second, and a mount
/// by itself gives its own.
pub proof fn law_every_mount_is_made(a: Seq<MountView>, b: Seq<MountView>, m: MountView)
    ensures
        inventory_tokens(a + b) == inventory_tokens(a) + inventory_tokens(b),
        inventory_tokens(seq![m]) == mount_tokens(m.sandbox, m.kind),
        inventory_tokens(Seq::<MountView>::empty()) == Seq::<Seq<u8>>::empty(),
{
    let makes = |m: MountView| mount_tokens(m.sandbox, m.kind);
    law_chained_in_parts(a.map_values(makes), b.map_values(makes), makes(m));
    assert((a + b).map_values(makes) =~= a.map_values(makes) + b.map_values(makes));
    assert(seq![m].map_values(makes) =~= seq![makes(m)]);
    assert(Seq::<MountView>::empty().map_values(makes) =~= Seq::<Seq<Seq<u8>>>::empty());
}

} // verus!
