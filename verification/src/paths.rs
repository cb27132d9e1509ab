//! Paths as byte strings.
//!
//! A Unix path is a sequence of bytes in which only `/` is special, so
//! that is what the crate computes on: nothing here decodes a name.

use crate::text::{copy_bytes, push_bytes};
use vstd::prelude::*;

verus! {

/// The byte `/`.
pub const SLASH: u8 = 0x2f;

/// The byte `~`.
pub const TILDE: u8 = 0x7e;

/// Does the path start at the root?
pub open spec fn is_absolute(p: Seq<u8>) -> bool {
    p.len() > 0 && p[0] == SLASH
}

/// `p` ready to have a component appended: with a `/` at its end, unless
/// it is empty or has one already.
pub open spec fn with_separator(p: Seq<u8>) -> Seq<u8> {
    if p.len() == 0 || p.last() == SLASH {
        p
    } else {
        p.push(SLASH)
    }
}

/// `rest` beneath `base`. Unlike [`joined_path`], a `rest` that starts
/// with `/` stays beneath `base`.
pub open spec fn beneath(base: Seq<u8>, rest: Seq<u8>) -> Seq<u8> {
    with_separator(base) + rest
}

/// `rest` resolved against `base`: an absolute `rest` stands for itself.
pub open spec fn joined_path(base: Seq<u8>, rest: Seq<u8>) -> Seq<u8> {
    if is_absolute(rest) {
        rest
    } else {
        beneath(base, rest)
    }
}

/// Does the path start at the root?
pub fn absolute(p: &[u8]) -> (r: bool)
    ensures
        r == is_absolute(p@),
{
    p.len() > 0 && p[0] == SLASH
}

/// Put `rest` beneath `base`.
pub fn path_beneath(base: &[u8], rest: &[u8]) -> (r: Vec<u8>)
    ensures
        r@ == beneath(base@, rest@),
{
    let mut out = copy_bytes(base);
    if base.len() > 0 && base[base.len() - 1] != SLASH {
        out.push(SLASH);
    }
    push_bytes(&mut out, rest);
    out
}

/// Resolve `rest` against `base`.
pub fn join_path(base: &[u8], rest: &[u8]) -> (r: Vec<u8>)
    ensures
        r@ == joined_path(base@, rest@),
{
    if absolute(rest) {
        copy_bytes(rest)
    } else {
        path_beneath(base, rest)
    }
}

/// What is put beneath an absolute path is absolute, and starts with
/// that path.
pub proof fn law_beneath_stays_beneath(base: Seq<u8>, rest: Seq<u8>)
    ensures
        base.is_prefix_of(beneath(base, rest)),
        is_absolute(base) ==> is_absolute(beneath(base, rest)),
{
    assert(beneath(base, rest).subrange(0, base.len() as int) =~= base);
}

/// How a relative path is put behind another: with one `/` between the
/// two, unless there is one already or nothing to put it behind. A path
/// that starts with `/` stands for itself.
pub proof fn law_joining_spelled_out(base: Seq<u8>, rest: Seq<u8>)
    ensures
        rest.len() > 0 && rest[0] == 0x2fu8 ==> joined_path(base, rest) == rest,
        rest.len() == 0 || rest[0] != 0x2fu8 ==> {
            &&& base.len() > 0 && base.last() != 0x2fu8 ==> joined_path(base, rest) == base + seq![
                0x2fu8,
            ] + rest
            &&& base.len() > 0 && base.last() == 0x2fu8 ==> joined_path(base, rest) == base + rest
            &&& base.len() == 0 ==> joined_path(base, rest) == rest
        },
        base.len() > 0 && base.last() != 0x2fu8 ==> beneath(base, rest) == base + seq![0x2fu8]
            + rest,
        base.len() > 0 && base.last() == 0x2fu8 ==> beneath(base, rest) == base + rest,
        base.len() == 0 ==> beneath(base, rest) == rest,
{
    assert(base.push(0x2fu8) =~= base + seq![0x2fu8]);
    if base.len() == 0 {
        assert(base + rest =~= rest);
    }
}

} // verus!
