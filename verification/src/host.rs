//! What the host tells the sandbox builder.
//!
//! Nothing in this crate reads the environment or the file system: the
//! caller takes a [`Host`] snapshot once and hands it in, so that the
//! same snapshot always yields the same sandbox.

use crate::text::{bytes_eq, bytes_of, copy_bytes, utf8, utf8_text};
use crate::values::opt_view;
use vstd::prelude::*;
use vstd::string::*;
use vstd::utf8::{
    decode_utf8, decode_utf8_encode_utf8, encode_utf8_decode_utf8, encode_utf8_valid_utf8, valid_utf8,
};

verus! {

/// An environment variable of the host: name and value, byte for byte.
pub struct HostVar {
    /// The name.
    pub name: Vec<u8>,
    /// The value.
    pub value: Vec<u8>,
}

/// A path that could not be looked at.
pub struct Unreadable {
    /// The path.
    pub path: Vec<u8>,
    /// What the operating system answered.
    pub reason: String,
}

/// A snapshot of the host.
pub struct Host {
    /// The environment, in the order in which the process has it.
    pub vars: Vec<HostVar>,
    /// The user's home directory.
    pub home: Option<Vec<u8>>,
    /// The current directory.
    pub cwd: Option<Vec<u8>>,
    /// Those of the paths to be mounted that are not accessible.
    pub unreadable: Vec<Unreadable>,
}

/// What a [`Host`] says.
#[verifier::ext_equal]
pub struct HostView {
    pub vars: Seq<(Seq<u8>, Seq<u8>)>,
    pub home: Option<Seq<u8>>,
    pub cwd: Option<Seq<u8>>,
    pub unreadable: Seq<(Seq<u8>, Seq<char>)>,
}

impl View for Host {
    type V = HostView;

    open spec fn view(&self) -> HostView {
        HostView {
            vars: self.vars@.map_values(|v: HostVar| (v.name@, v.value@)),
            home: opt_view(self.home),
            cwd: opt_view(self.cwd),
            unreadable: self.unreadable@.map_values(|u: Unreadable| (u.path@, u.reason@)),
        }
    }
}

/// The value of the first pair whose first half is `key`.
pub open spec fn first_value<A, B>(pairs: Seq<(A, B)>, key: A) -> Option<B>
    decreases pairs.len(),
{
    if pairs.len() == 0 {
        None
    } else if pairs[0].0 == key {
        Some(pairs[0].1)
    } else {
        first_value(pairs.skip(1), key)
    }
}

/// The value of the last pair whose first half is `key`.
pub open spec fn last_value<A, B>(pairs: Seq<(A, B)>, key: A) -> Option<B>
    decreases pairs.len(),
{
    if pairs.len() == 0 {
        None
    } else if pairs.last().0 == key {
        Some(pairs.last().1)
    } else {
        last_value(pairs.drop_last(), key)
    }
}

impl HostView {
    /// The value of the variable `name`.
    pub open spec fn var(self, name: Seq<char>) -> Option<Seq<u8>> {
        first_value(self.vars, utf8(name))
    }

    /// The value of the variable `name`, where it is UTF-8.
    pub open spec fn var_text(self, name: Seq<char>) -> Option<Seq<char>> {
        match self.var(name) {
            Some(value) => if valid_utf8(value) {
                Some(decode_utf8(value))
            } else {
                None
            },
            None => None,
        }
    }

    /// Why `path` cannot be looked at, if it cannot.
    pub open spec fn stat_error(self, path: Seq<u8>) -> Option<Seq<char>> {
        first_value(self.unreadable, path)
    }
}

impl Host {
    /// A host of which nothing is known: no variables, no directories,
    /// and every path accessible.
    pub fn empty() -> (r: Host)
        ensures
            r@ == (HostView { vars: seq![], home: None, cwd: None, unreadable: seq![] }),
    {
        let r = Host { vars: Vec::new(), home: None, cwd: None, unreadable: Vec::new() };
        assert(r@ =~= (HostView { vars: seq![], home: None, cwd: None, unreadable: seq![] }));
        r
    }

    /// The value of the variable `name`.
    pub fn var_os(&self, name: &str) -> (r: Option<Vec<u8>>)
        ensures
            opt_view(r) == self@.var(name@),
    {
        let key = bytes_of(name);
        let ghost pairs = self@.vars;
        let mut i: usize = 0;
        assert(pairs.skip(0) =~= pairs);
        while i < self.vars.len()
            invariant
                i <= self.vars@.len(),
                pairs == self@.vars,
                key@ == utf8(name@),
                first_value(pairs.skip(i as int), key@) == first_value(pairs, key@),
            decreases self.vars.len() - i,
        {
            assert(pairs.skip(i as int)[0] == (
                self.vars@[i as int].name@,
                self.vars@[i as int].value@,
            ));
            if bytes_eq(self.vars[i].name.as_slice(), key.as_slice()) {
                return Some(copy_bytes(self.vars[i].value.as_slice()));
            }
            assert(pairs.skip(i as int).skip(1) =~= pairs.skip(i + 1));
            i = i + 1;
        }
        None
    }

    /// The value of the variable `name`, where it is UTF-8.
    pub fn var(&self, name: &str) -> (r: Option<String>)
        ensures
            opt_view(r) == self@.var_text(name@),
    {
        match self.var_os(name) {
            Some(value) => utf8_text(value.as_slice()),
            None => None,
        }
    }

    /// Why `path` cannot be looked at, if it cannot.
    pub fn stat_error(&self, path: &[u8]) -> (r: Option<String>)
        ensures
            opt_view(r) == self@.stat_error(path@),
    {
        let ghost pairs = self@.unreadable;
        let mut i: usize = 0;
        assert(pairs.skip(0) =~= pairs);
        while i < self.unreadable.len()
            invariant
                i <= self.unreadable@.len(),
                pairs == self@.unreadable,
                first_value(pairs.skip(i as int), path@) == first_value(pairs, path@),
            decreases self.unreadable.len() - i,
        {
            assert(pairs.skip(i as int)[0] == (
                self.unreadable@[i as int].path@,
                self.unreadable@[i as int].reason@,
            ));
            if bytes_eq(self.unreadable[i].path.as_slice(), path) {
                return Some(self.unreadable[i].reason.clone());
            }
            assert(pairs.skip(i as int).skip(1) =~= pairs.skip(i + 1));
            i = i + 1;
        }
        None
    }
}

// ---------------------------------------------------------------------
// Laws
// ---------------------------------------------------------------------
/// A value is found under its key: the first pair of a key decides, and
/// where there is none nothing is found.
pub proof fn law_first_value<A, B>(pairs: Seq<(A, B)>, key: A)
    ensures
        first_value(pairs, key) is None <==> forall|i: int|
            0 <= i < pairs.len() ==> (#[trigger] pairs[i]).0 != key,
        forall|i: int|
            0 <= i < pairs.len() && (#[trigger] pairs[i]).0 == key && (forall|j: int|
                0 <= j < i ==> (#[trigger] pairs[j]).0 != key) ==> first_value(pairs, key) == Some(
                pairs[i].1,
            ),
    decreases pairs.len(),
{
    if pairs.len() > 0 && pairs[0].0 != key {
        let rest = pairs.skip(1);
        law_first_value(rest, key);
        assert forall|i: int|
            0 <= i < pairs.len() && (#[trigger] pairs[i]).0 == key && (forall|j: int|
                0 <= j < i ==> (#[trigger] pairs[j]).0 != key) implies first_value(pairs, key)
            == Some(pairs[i].1) by {
            assert(rest[i - 1] == pairs[i]);
            assert forall|j: int| 0 <= j < i - 1 implies (#[trigger] rest[j]).0 != key by {
                assert(rest[j] == pairs[j + 1]);
            }
        }
        if first_value(pairs, key) is None {
            assert forall|i: int| 0 <= i < pairs.len() implies (#[trigger] pairs[i]).0 != key by {
                if i > 0 {
                    assert(rest[i - 1] == pairs[i]);
                }
            }
        }
        if forall|i: int| 0 <= i < pairs.len() ==> (#[trigger] pairs[i]).0 != key {
            assert forall|i: int| 0 <= i < rest.len() implies (#[trigger] rest[i]).0 != key by {
                assert(rest[i] == pairs[i + 1]);
            }
        }
    }
}

/// The last pair of a key decides, where that is asked for.
pub proof fn law_last_value<A, B>(pairs: Seq<(A, B)>, key: A)
    ensures
        last_value(pairs, key) is None <==> forall|i: int|
            0 <= i < pairs.len() ==> (#[trigger] pairs[i]).0 != key,
        forall|i: int|
            0 <= i < pairs.len() && (#[trigger] pairs[i]).0 == key && (forall|j: int|
                i < j < pairs.len() ==> (#[trigger] pairs[j]).0 != key) ==> last_value(pairs, key)
                == Some(pairs[i].1),
    decreases pairs.len(),
{
    if pairs.len() > 0 {
        let rest = pairs.drop_last();
        let n = pairs.len() - 1;
        assert(pairs.last() == pairs[n]);
        law_last_value(rest, key);
        assert(forall|i: int| 0 <= i < n ==> #[trigger] rest[i] == pairs[i]);
        assert forall|i: int|
            0 <= i < pairs.len() && (#[trigger] pairs[i]).0 == key && (forall|j: int|
                i < j < pairs.len() ==> (#[trigger] pairs[j]).0 != key) implies last_value(
            pairs,
            key,
        ) == Some(pairs[i].1) by {
            if i < n {
                assert(pairs[n].0 != key);
                assert(rest[i] == pairs[i]);
                assert forall|j: int| i < j < rest.len() implies (#[trigger] rest[j]).0 != key by {
                    assert(rest[j] == pairs[j]);
                }
            }
        }
        if last_value(pairs, key) is None {
            assert forall|i: int| 0 <= i < pairs.len() implies (#[trigger] pairs[i]).0 != key by {
                if i < n {
                    assert(rest[i] == pairs[i]);
                }
            }
        }
    }
}

/// A variable reads as text where its bytes are those of a text, and then
/// as that text; otherwise it counts as one that is not set.
pub proof fn law_text_variables(host: HostView, name: Seq<char>, text: Seq<char>)
    ensures
        host.var_text(name) == Some(text) <==> host.var(name) == Some(utf8(text)),
{
    encode_utf8_valid_utf8(text);
    encode_utf8_decode_utf8(text);
    if let Some(value) = host.var(name) {
        if valid_utf8(value) {
            decode_utf8_encode_utf8(value);
        }
    }
}

} // verus!
