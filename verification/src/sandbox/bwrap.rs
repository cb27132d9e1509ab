//! The command line of `bwrap`, which makes the mounts and the namespaces
//! of the sandbox.

use crate::argv::{
    chained, command_tokens, isolation_flags, law_chained_in_parts, mount_tokens, setenv_tokens,
    ArgvBuilder,
};
use crate::config::env_vars::EnvVars;
use crate::config::mount::MountView;
use crate::config::mounts::Mounts;
use crate::name_map::walk_of;
use crate::text::{lemma_utf8_injective, utf8};
use crate::values::{duplicate_all, views};
use vstd::prelude::*;
use vstd::string::*;

verus! {

/// The tokens that set the variables.
pub open spec fn environment_tokens(vars: Seq<(Seq<char>, Seq<u8>)>) -> Seq<Seq<u8>> {
    chained(vars.map_values(|v: (Seq<char>, Seq<u8>)| setenv_tokens(v.0, v.1)))
}

/// The tokens that make the mounts.
pub open spec fn inventory_tokens(mounts: Seq<MountView>) -> Seq<Seq<u8>> {
    chained(mounts.map_values(|m: MountView| mount_tokens(m.sandbox, m.kind)))
}

/// The command line, without the name of the binary. The environment is
/// emptied before anything is set, the mounts are made in order, and the
/// command comes after `--`, so that none of its arguments is taken for a
/// flag.
pub open spec fn bwrap_tokens(
    mounts: Seq<MountView>,
    vars: Seq<(Seq<char>, Seq<u8>)>,
    cwd: Seq<u8>,
    command: Seq<u8>,
    args: Seq<Seq<u8>>,
) -> Seq<Seq<u8>> {
    isolation_flags() + seq![utf8("--clearenv"@)] + environment_tokens(vars) + inventory_tokens(
        mounts,
    ) + command_tokens(cwd, command, args)
}

/// Build the command line of `bwrap`, without the name of the binary. The
/// variables are set in alphabetical order, each name once.
pub fn bwrap_argv(
    mounts: &Mounts,
    env: &EnvVars,
    cwd: &[u8],
    command: &[u8],
    args: &Vec<Vec<u8>>,
) -> (r: Vec<Vec<u8>>)
    ensures
        views(r@) == bwrap_tokens(
            mounts@.mounts,
            walk_of(env@.vars),
            cwd@,
            command@,
            views(args@),
        ),
{
    let mut a = ArgvBuilder::default();
    a.isolation();
    a.flag("--clearenv");
    let ghost head = a@;
    assert(head =~= isolation_flags() + seq![utf8("--clearenv"@)]);

    let vars = env.iter();
    let ghost entries = walk_of(env@.vars);
    let ghost sets = entries.map_values(
        |v: (Seq<char>, Seq<u8>)| setenv_tokens(v.0, v.1),
    );
    assert(views(vars@).len() == entries.len());
    let mut i: usize = 0;
    assert(head + chained(sets.take(0)) =~= head);
    while i < vars.len()
        invariant
            i <= vars@.len(),
            vars@.len() == entries.len(),
            views(vars@) == crate::config::env_vars::vars_of(entries),
            sets == entries.map_values(|v: (Seq<char>, Seq<u8>)| setenv_tokens(v.0, v.1)),
            a@ == head + chained(sets.take(i as int)),
        decreases vars.len() - i,
    {
        let ghost before = a@;
        a.setenv(vars[i].name.as_str(), vars[i].value.as_slice());
        proof {
            assert(views(vars@)[i as int] == vars@[i as int]@);
            assert(sets.take(i + 1).drop_last() =~= sets.take(i as int));
            assert(sets.take(i + 1).last() == sets[i as int]);
            assert(a@ =~= head + chained(sets.take(i + 1)));
        }
        i = i + 1;
    }
    assert(sets.take(sets.len() as int) =~= sets);
    let ghost middle = a@;

    let ghost list = mounts@.mounts;
    let ghost makes = list.map_values(|m: MountView| mount_tokens(m.sandbox, m.kind));
    let mut j: usize = 0;
    assert(middle + chained(makes.take(0)) =~= middle);
    while j < mounts.mounts.len()
        invariant
            j <= mounts.mounts@.len(),
            list == mounts@.mounts,
            makes == list.map_values(|m: MountView| mount_tokens(m.sandbox, m.kind)),
            a@ == middle + chained(makes.take(j as int)),
        decreases mounts.mounts.len() - j,
    {
        a.mount(mounts.mounts[j].sandbox.as_slice(), &mounts.mounts[j].kind);
        proof {
            assert(list[j as int] == mounts.mounts@[j as int]@);
            assert(makes.take(j + 1).drop_last() =~= makes.take(j as int));
            assert(makes.take(j + 1).last() == makes[j as int]);
            assert(a@ =~= middle + chained(makes.take(j + 1)));
        }
        j = j + 1;
    }
    assert(makes.take(makes.len() as int) =~= makes);
    let ghost body = a@;

    a.start(cwd, command);
    a.extend_os(duplicate_all(args));
    proof {
        assert(body + command_tokens(cwd@, command@, seq![]) + views(args@) =~= body
            + command_tokens(cwd@, command@, views(args@)));
    }
    a.into_vec()
}

// ---------------------------------------------------------------------
// Laws
// ---------------------------------------------------------------------
/// Nothing of the environment that `bwrap` is started with survives: it is
/// emptied before the first variable is set.
pub proof fn law_environment_is_emptied_first(
    mounts: Seq<MountView>,
    vars: Seq<(Seq<char>, Seq<u8>)>,
    cwd: Seq<u8>,
    command: Seq<u8>,
    args: Seq<Seq<u8>>,
)
    ensures
        ({
            let tokens = bwrap_tokens(mounts, vars, cwd, command, args);
            &&& tokens.len() > 4
            &&& tokens[4] == utf8("--clearenv"@)
            &&& forall|i: int| 0 <= i <= 4 ==> #[trigger] tokens[i] != utf8("--setenv"@)
        }),
{
    let tokens = bwrap_tokens(mounts, vars, cwd, command, args);
    reveal_strlit("--setenv");
    reveal_strlit("--clearenv");
    reveal_strlit("--unshare-all");
    reveal_strlit("--share-net");
    reveal_strlit("--die-with-parent");
    reveal_strlit("--new-session");
    assert("--setenv"@.len() == 8);
    assert(tokens[0] == utf8("--unshare-all"@));
    assert(tokens[1] == utf8("--share-net"@));
    assert(tokens[2] == utf8("--die-with-parent"@));
    assert(tokens[3] == utf8("--new-session"@));
    assert(tokens[4] == utf8("--clearenv"@));
    assert forall|i: int| 0 <= i <= 4 implies #[trigger] tokens[i] != utf8("--setenv"@) by {
        if tokens[i] == utf8("--setenv"@) {
            if i == 0 {
                lemma_utf8_injective("--unshare-all"@, "--setenv"@);
            } else if i == 1 {
                lemma_utf8_injective("--share-net"@, "--setenv"@);
            } else if i == 2 {
                lemma_utf8_injective("--die-with-parent"@, "--setenv"@);
            } else if i == 3 {
                lemma_utf8_injective("--new-session"@, "--setenv"@);
            } else {
                lemma_utf8_injective("--clearenv"@, "--setenv"@);
            }
        }
    }
}

/// The command and its arguments come last, byte for byte, behind the `--`
/// that ends the flags.
pub proof fn law_command_comes_last(
    mounts: Seq<MountView>,
    vars: Seq<(Seq<char>, Seq<u8>)>,
    cwd: Seq<u8>,
    command: Seq<u8>,
    args: Seq<Seq<u8>>,
)
    ensures
        ({
            let tokens = bwrap_tokens(mounts, vars, cwd, command, args);
            let at = tokens.len() - args.len() - 2;
            &&& at >= 0
            &&& tokens.skip(at) == seq![utf8("--"@), command] + args
        }),
{
    let tokens = bwrap_tokens(mounts, vars, cwd, command, args);
    let at = tokens.len() - args.len() - 2;
    assert(tokens.skip(at) =~= seq![utf8("--"@), command] + args);
}

/// The command line from end to end: every namespace is its own but the
/// network's, the sandbox dies with its parent and has a session of its
/// own, the environment is emptied, and behind that stand the variables,
/// the mounts, and the command in its directory.
pub proof fn law_command_line_spelled_out(
    mounts: Seq<MountView>,
    vars: Seq<(Seq<char>, Seq<u8>)>,
    cwd: Seq<u8>,
    command: Seq<u8>,
    args: Seq<Seq<u8>>,
)
    ensures
        bwrap_tokens(mounts, vars, cwd, command, args) == seq![
            utf8("--unshare-all"@),
            utf8("--share-net"@),
            utf8("--die-with-parent"@),
            utf8("--new-session"@),
            utf8("--clearenv"@),
        ] + environment_tokens(vars) + inventory_tokens(mounts) + seq![
            utf8("--chdir"@),
            cwd,
            utf8("--"@),
            command,
        ] + args,
{
    assert(bwrap_tokens(mounts, vars, cwd, command, args) =~= seq![
        utf8("--unshare-all"@),
        utf8("--share-net"@),
        utf8("--die-with-parent"@),
        utf8("--new-session"@),
        utf8("--clearenv"@),
    ] + environment_tokens(vars) + inventory_tokens(mounts) + seq![
        utf8("--chdir"@),
        cwd,
        utf8("--"@),
        command,
    ] + args);
}

/// Every variable is set, each by the three tokens `--setenv`, name and
/// value, one after the other in the order of the list, and no token comes
/// besides.
pub proof fn law_every_variable_is_set(vars: Seq<(Seq<char>, Seq<u8>)>)
    ensures
        environment_tokens(vars).len() == 3 * vars.len(),
        forall|i: int|
            0 <= i < vars.len() ==> environment_tokens(vars).subrange(3 * i, 3 * i + 3) == seq![
                utf8("--setenv"@),
                utf8((#[trigger] vars[i]).0),
                vars[i].1,
            ],
    decreases vars.len(),
{
    let sets = |v: (Seq<char>, Seq<u8>)| setenv_tokens(v.0, v.1);
    if vars.len() > 0 {
        let rest = vars.drop_last();
        law_every_variable_is_set(rest);
        assert(vars.map_values(sets).drop_last() =~= rest.map_values(sets));
        let tokens = environment_tokens(vars);
        assert(tokens == environment_tokens(rest) + setenv_tokens(vars.last().0, vars.last().1));
        assert forall|i: int| 0 <= i < vars.len() implies tokens.subrange(3 * i, 3 * i + 3)
            == seq![utf8("--setenv"@), utf8((#[trigger] vars[i]).0), vars[i].1] by {
            if i < rest.len() {
                assert(rest[i] == vars[i]);
                assert(tokens.subrange(3 * i, 3 * i + 3) =~= environment_tokens(rest).subrange(
                    3 * i,
                    3 * i + 3,
                ));
            } else {
                assert(tokens.subrange(3 * i, 3 * i + 3) =~= setenv_tokens(
                    vars[i].0,
                    vars[i].1,
                ));
            }
        }
    }
}

/// Every mount is made, in the order of the list: a list in two parts gives
/// the tokens of the first part and then those of the second, and a mount
/// by itself gives its own.
pub proof fn law_every_mount_is_made(a: Seq<MountView>, b: Seq<MountView>, m: MountView)
    ensures
        inventory_tokens(a + b) == inventory_tokens(a) + inventory_tokens(b),
        inventory_tokens(seq![m]) == mount_tokens(m.sandbox, m.kind),
        inventory_tokens(Seq::<MountView>::empty()) == Seq::<Seq<u8>>::empty(),
{
    let makes = |m: MountView| mount_tokens(m.sandbox, m.kind);
    law_chained_in_parts(a.map_values(makes), b.map_values(makes), makes(m));
    assert((a + b).map_values(makes) =~= a.map_values(makes) + b.map_values(makes));
    assert(seq![m].map_values(makes) =~= seq![makes(m)]);
    assert(Seq::<MountView>::empty().map_values(makes) =~= Seq::<Seq<Seq<u8>>>::empty());
}

} // verus!
