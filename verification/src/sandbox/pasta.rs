//! The command line of `pasta`, which gives the sandbox a network of its
//! own with nothing in it but the forwarded ports.

use crate::argv::ArgvBuilder;
use crate::config::forwards::{Forwards, ForwardsView};
use crate::text::utf8;
use crate::values::views;
use vstd::prelude::*;
use vstd::string::*;

verus! {

/// What `pasta` is asked to forward into the sandbox. `none` is said
/// aloud: left out, every port that is open on the host would be
/// forwarded.
pub open spec fn tcp_ns(forwards: ForwardsView) -> Seq<char> {
    if forwards.forwards.len() == 0 {
        "none"@
    } else {
        forwards.text()
    }
}

/// The command line, without the name of the binary. No way to the host
/// or the outside is configured, nothing that listens in the sandbox is
/// forwarded out, and of the host only what was asked for is forwarded
/// in.
pub open spec fn pasta_tokens(forwards: ForwardsView, child: Seq<Seq<u8>>) -> Seq<Seq<u8>> {
    seq![
        utf8("--config-net"@),
        utf8("--no-map-gw"@),
        utf8("--no-dhcp"@),
        utf8("--no-dhcpv6"@),
        utf8("--no-ra"@),
        utf8("--foreground"@),
        utf8("-t"@),
        utf8("none"@),
        utf8("-T"@),
        utf8(tcp_ns(forwards)),
        utf8("--"@),
    ] + child
}

/// Build the command line of `pasta`, without the name of the binary.
pub fn pasta_argv(forwards: &Forwards, child_argv: Vec<Vec<u8>>) -> (r: Vec<Vec<u8>>)
    ensures
        views(r@) == pasta_tokens(forwards@, views(child_argv@)),
{
    let mut a = ArgvBuilder::default();
    a.flag("--config-net");
    a.flag("--no-map-gw");
    a.flag("--no-dhcp");
    a.flag("--no-dhcpv6");
    a.flag("--no-ra");
    // It must stay our child, or its exit status would be lost.
    a.flag("--foreground");
    a.pair_str("-t", "none");
    let tcp_ns = if forwards.is_empty() {
        "none".to_owned()
    } else {
        forwards.format_for_pasta()
    };
    a.pair_str("-T", tcp_ns.as_str());
    a.flag("--");
    a.extend_os(child_argv);
    assert(a@ =~= pasta_tokens(forwards@, views(child_argv@)));
    a.into_vec()
}

/// The command line from end to end. Of the host nothing is forwarded in
/// where nothing was declared, which is said aloud as `none`; of the
/// sandbox nothing is ever forwarded out; and the command that runs inside
/// stands last, behind the `--` that ends the flags.
pub proof fn law_command_line_spelled_out(forwards: ForwardsView, child: Seq<Seq<u8>>)
    ensures
        pasta_tokens(forwards, child) == seq![
            utf8("--config-net"@),
            utf8("--no-map-gw"@),
            utf8("--no-dhcp"@),
            utf8("--no-dhcpv6"@),
            utf8("--no-ra"@),
            utf8("--foreground"@),
            utf8("-t"@),
            utf8("none"@),
            utf8("-T"@),
            pasta_tokens(forwards, child)[9],
            utf8("--"@),
        ] + child,
        forwards.forwards.len() == 0 ==> pasta_tokens(forwards, child)[9] == utf8("none"@),
        forwards.forwards.len() > 0 ==> pasta_tokens(forwards, child)[9] == utf8(
            forwards.text(),
        ),
{
}

} // verus!
