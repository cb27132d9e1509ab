//! The certificate authorities that programs in the sandbox trust: those
//! of the host, and the proxy's own.

use crate::text::push_bytes;
use vstd::prelude::*;

verus! {

/// Where the bundle appears in the sandbox: beneath `/tmp`, which is the
/// sandbox's own, so that a file can be put there.
pub const CA_BUNDLE_SANDBOX_PATH: &'static str = "/tmp/redoubtful-ca-bundle.crt";

/// The byte that ends a line.
pub const NEWLINE: u8 = 0x0a;

/// `b` with a line end after it, unless it has one.
pub open spec fn line_ended(b: Seq<u8>) -> Seq<u8> {
    if b.len() > 0 && b.last() == NEWLINE {
        b
    } else {
        b.push(NEWLINE)
    }
}

/// End the last line of `b`.
fn end_line(b: &mut Vec<u8>)
    ensures
        final(b)@ == line_ended(old(b)@),
{
    if b.len() == 0 || b[b.len() - 1] != NEWLINE {
        b.push(NEWLINE);
    }
}

/// The certificates of the host followed by our own, with a line end after
/// each.
pub open spec fn ca_bundle(system: Seq<u8>, our_ca: Seq<u8>) -> Seq<u8> {
    line_ended(line_ended(system) + our_ca)
}

/// The certificates of the host followed by our own, with a line end after
/// each, so that two PEM blocks never share a line.
pub fn build_sandbox_ca_bundle(system: &[u8], our_ca: &[u8]) -> (r: Vec<u8>)
    ensures
        r@ == ca_bundle(system@, our_ca@),
{
    let mut merged: Vec<u8> = Vec::new();
    push_bytes(&mut merged, system);
    assert(merged@ =~= system@);
    end_line(&mut merged);
    push_bytes(&mut merged, our_ca);
    end_line(&mut merged);
    merged
}

/// The bundle holds both parts, byte for byte, the host's first, and
/// nothing else but a line end behind each part that has none: ours starts
/// on a line of its own, and the last line is ended.
pub proof fn law_bundle_holds_both(system: Seq<u8>, our_ca: Seq<u8>)
    ensures
        ({
            let bundle = ca_bundle(system, our_ca);
            let at: int = if system.len() > 0 && system.last() == 0x0au8 {
                system.len() as int
            } else {
                system.len() as int + 1
            };
            &&& system.is_prefix_of(bundle)
            &&& at > 0 && bundle[at - 1] == 0x0au8
            &&& our_ca.len() > 0 && our_ca.last() == 0x0au8 ==> bundle.skip(at) == our_ca
            &&& our_ca.len() > 0 && our_ca.last() != 0x0au8 ==> bundle.skip(at) == our_ca + seq![
                0x0au8,
            ]
            &&& our_ca.len() == 0 ==> bundle.skip(at) == our_ca
            &&& bundle.last() == 0x0au8
        }),
{
    let bundle = ca_bundle(system, our_ca);
    let at: int = if system.len() > 0 && system.last() == 0x0au8 {
        system.len() as int
    } else {
        system.len() as int + 1
    };
    let both = line_ended(system) + our_ca;
    assert(system =~= bundle.subrange(0, system.len() as int));
    if our_ca.len() > 0 {
        assert(both.last() == our_ca.last());
        if our_ca.last() == 0x0au8 {
            assert(bundle.skip(at) =~= our_ca);
        } else {
            assert(bundle.skip(at) =~= our_ca + seq![0x0au8]);
        }
    } else {
        assert(both =~= line_ended(system));
        assert(bundle.skip(at) =~= our_ca);
    }
}

} // verus!
