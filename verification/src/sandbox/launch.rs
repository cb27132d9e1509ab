//! Starting the sandbox, and what its end means.

use crate::config::profile::{Profile, ProfileView};
use crate::config::Merge;
use crate::errors::{unit_outcome, Error, ErrorView, Result};
use crate::name_map::walk_of;
use crate::sandbox::bwrap::{bwrap_argv, bwrap_tokens, law_command_comes_last};
use crate::sandbox::pasta::{pasta_argv, pasta_tokens};
use crate::sandbox::proxy::{proxy_contribution, proxy_profile};
use crate::text::{bytes_of, lossy_text, utf8, utf8_lossy};
use crate::values::{push_duplicates, views};
use vstd::prelude::*;
use vstd::string::*;

verus! {

/// The command line of `pasta`, without the name of the binary, that runs
/// `command` in the sandbox that `profile` describes.
pub open spec fn launch_tokens(
    profile: ProfileView,
    cwd: Seq<u8>,
    command: Seq<u8>,
    args: Seq<Seq<u8>>,
) -> Seq<Seq<u8>> {
    pasta_tokens(
        profile.forwards,
        seq![utf8("bwrap"@)] + bwrap_tokens(
            profile.mounts.mounts,
            walk_of(profile.env.vars),
            cwd,
            command,
            args,
        ),
    )
}

/// Build the command line of `pasta`, without the name of the binary, that
/// runs `command` in the sandbox that `profile` describes and lets it find
/// the proxy on `port`.
pub fn launch_argv(
    profile: &Profile,
    port: u16,
    cwd: &[u8],
    command: &[u8],
    args: &Vec<Vec<u8>>,
) -> (r: Vec<Vec<u8>>)
    ensures
        views(r@) == launch_tokens(
            Profile::merged(profile@, proxy_contribution(port)),
            cwd@,
            command@,
            views(args@),
        ),
{
    let all = profile.merge_right_biased(&proxy_profile(port));
    let bwrap_args = bwrap_argv(&all.mounts, &all.env, cwd, command, args);
    let mut child: Vec<Vec<u8>> = Vec::new();
    child.push(bytes_of("bwrap"));
    assert(views(child@) =~= seq![utf8("bwrap"@)]);
    push_duplicates(&mut child, &bwrap_args);
    pasta_argv(&all.forwards, child)
}

/// What the end of the sandbox means, given its exit code or the signal
/// that ended it: success where the code is 0, and otherwise an error that
/// names the command. Where neither is known, it counts as code 1.
pub open spec fn run_result(command: Seq<u8>, code: Option<i32>, signal: Option<i32>) -> Result<
    (),
    ErrorView,
> {
    let summary = "pasta bwrap "@ + utf8_lossy(command);
    match code {
        Some(c) => if c == 0 {
            Ok(())
        } else {
            Err(ErrorView::Exit { command: summary, code: c })
        },
        None => match signal {
            Some(s) => Err(ErrorView::Signal { command: summary, signal: s }),
            None => Err(ErrorView::Exit { command: summary, code: 1 }),
        },
    }
}

/// What the end of the sandbox means, given its exit code or the signal
/// that ended it.
pub fn run_outcome(command: &[u8], code: Option<i32>, signal: Option<i32>) -> (r: Result<()>)
    ensures
        unit_outcome(r) == run_result(command@, code, signal),
{
    let mut summary = "pasta bwrap ".to_owned();
    summary.append(lossy_text(command).as_str());
    match code {
        Some(c) => if c == 0 {
            Ok(())
        } else {
            Err(Error::exit(summary.as_str(), c))
        },
        None => match signal {
            Some(s) => Err(Error::signal(summary.as_str(), s)),
            None => Err(Error::exit(summary.as_str(), 1)),
        },
    }
}

/// The exit code of a command that ended with an error.
pub open spec fn exit_status(e: ErrorView) -> i32 {
    match e {
        ErrorView::Exit { code, .. } => code,
        _ => 1,
    }
}

/// The exit code of a command that ended with an error: its own where it
/// ran, and 1 otherwise.
pub fn exit_code(e: &Error) -> (r: i32)
    ensures
        r == exit_status(e@),
{
    match e {
        Error::Exit { code, .. } => *code,
        _ => 1,
    }
}

/// The exit code of the command is passed on as it is.
pub proof fn law_exit_code_propagates(command: Seq<u8>, code: i32, signal: Option<i32>)
    ensures
        run_result(command, Some(code), signal) is Ok <==> code == 0,
        run_result(command, Some(code), signal) matches Err(e) ==> (e matches ErrorView::Exit {
            code: c,
            ..
        } && c == code),
{
}

/// A command that a signal ended is an error that tells the signal, one of
/// which nothing is known counts as code 1, and either way the error names
/// the command behind the two programs that ran it.
pub proof fn law_other_ends_are_errors(command: Seq<u8>, signal: i32)
    ensures
        run_result(command, None, Some(signal)) matches Err(
            ErrorView::Signal { command: c, signal: s },
        ) && c == "pasta bwrap "@ + utf8_lossy(command) && s == signal,
        run_result(command, None, None) matches Err(
            ErrorView::Exit { command: c, code },
        ) && c == "pasta bwrap "@ + utf8_lossy(command) && code == 1,
        forall|code: i32|
            #![trigger run_result(command, Some(code), None)]
            code != 0 ==> (run_result(command, Some(code), None) matches Err(
                ErrorView::Exit { command: c, code: n },
            ) && c == "pasta bwrap "@ + utf8_lossy(command) && n == code),
{
}

/// `pasta` runs `bwrap`, and `bwrap` runs the command: behind the flags of
/// `pasta`, which forward the ports of the profile, stand the name of
/// `bwrap` and its command line, which makes the mounts and sets the
/// variables of the profile and ends with the command and its arguments.
pub proof fn law_programs_are_nested(
    profile: ProfileView,
    cwd: Seq<u8>,
    command: Seq<u8>,
    args: Seq<Seq<u8>>,
)
    ensures
        ({
            let tokens = launch_tokens(profile, cwd, command, args);
            &&& tokens.take(11) == pasta_tokens(profile.forwards, Seq::empty())
            &&& tokens.len() > 11 && tokens[11] == utf8("bwrap"@)
            &&& tokens.skip(12) == bwrap_tokens(
                profile.mounts.mounts,
                walk_of(profile.env.vars),
                cwd,
                command,
                args,
            )
            &&& tokens.skip(tokens.len() - args.len()) == args
            &&& tokens[tokens.len() - args.len() - 1] == command
        }),
{
    let tokens = launch_tokens(profile, cwd, command, args);
    let inner = bwrap_tokens(profile.mounts.mounts, walk_of(profile.env.vars), cwd, command, args);
    assert(tokens.take(11) =~= pasta_tokens(profile.forwards, Seq::empty()));
    assert(tokens.skip(12) =~= inner);
    law_command_comes_last(
        profile.mounts.mounts,
        walk_of(profile.env.vars),
        cwd,
        command,
        args,
    );
    let at = inner.len() - args.len() - 2;
    let end = inner.skip(at);
    assert(end[1] == command);
    assert(tokens[tokens.len() - args.len() - 1] == tokens.skip(12)[at + 1]);
    assert(inner.skip(at)[1] == inner[at + 1]);
    assert(tokens.skip(tokens.len() - args.len()) =~= args) by {
        assert forall|k: int| 0 <= k < args.len() implies tokens[tokens.len() - args.len() + k]
            == args[k] by {
            assert(tokens[tokens.len() - args.len() + k] == tokens.skip(12)[at + 2 + k]);
            assert(inner[at + 2 + k] == end[2 + k]);
        }
    }
}

/// We exit as the command did: with its code where it has one, and with 1
/// where a signal ended it, where nothing is known of it, or where
/// something else went wrong.
pub proof fn law_exit_status_is_the_commands(
    command: Seq<u8>,
    code: Option<i32>,
    signal: Option<i32>,
    e: ErrorView,
)
    ensures
        run_result(command, code, signal) matches Err(f) ==> exit_status(f) == (match code {
            Some(c) => c,
            None => 1i32,
        }),
        !(e is Exit) ==> exit_status(e) == 1,
{
}

} // verus!
