//! Characters, bytes and numbers: the small string vocabulary that the
//! parsers and renderers of this crate share.
//!
//! A `&str` is read as the sequence of its characters, a path or a
//! command-line token as the sequence of its bytes. Paths are never
//! decoded on their way into the sandbox, so that a name which is not
//! UTF-8 survives byte for byte.

use crate::values::views;
use vstd::prelude::*;
use vstd::slice::{slice_subrange, slice_to_vec};
use vstd::string::*;
use vstd::utf8::*;

verus! {

broadcast use vstd::string::group_string_axioms;

// ---------------------------------------------------------------------
// Sequences
// ---------------------------------------------------------------------
/// The index of the first occurrence of `c` in `s`.
pub open spec fn first_index<T>(s: Seq<T>, c: T) -> Option<int>
    decreases s.len(),
{
    if s.len() == 0 {
        None
    } else if s[0] == c {
        Some(0)
    } else {
        match first_index(s.skip(1), c) {
            Some(i) => Some(i + 1),
            None => None,
        }
    }
}

/// `s` cut at every occurrence of `c`; the cuts themselves are dropped.
/// There is always at least one piece.
pub open spec fn split_at_each<T>(s: Seq<T>, c: T) -> Seq<Seq<T>>
    decreases s.len(),
{
    match first_index(s, c) {
        Some(i) => if 0 <= i < s.len() {
            seq![s.take(i)] + split_at_each(s.skip(i + 1), c)
        } else {
            seq![s]
        },
        None => seq![s],
    }
}

/// Characterises [`first_index`] by the two facts that define it.
pub proof fn lemma_first_index<T>(s: Seq<T>, c: T)
    ensures
        first_index(s, c) matches Some(i) ==> 0 <= i < s.len() && s[i] == c && forall|j: int|
            0 <= j < i ==> s[j] != c,
        first_index(s, c) is None ==> !s.contains(c),
    decreases s.len(),
{
    if s.len() > 0 && s[0] != c {
        lemma_first_index(s.skip(1), c);
        assert(forall|j: int| 1 <= j < s.len() ==> s[j] == s.skip(1)[j - 1]);
        if first_index(s.skip(1), c) is None {
            assert forall|j: int| 0 <= j < s.len() implies s[j] != c by {
                if j > 0 {
                    assert(s.skip(1).contains(s.skip(1)[j - 1]));
                }
            }
        }
    }
}

/// An index whose element is `c` and before which `c` does not occur is
/// the first one.
pub proof fn lemma_first_index_is<T>(s: Seq<T>, c: T, i: int)
    requires
        0 <= i < s.len(),
        s[i] == c,
        forall|j: int| 0 <= j < i ==> s[j] != c,
    ensures
        first_index(s, c) == Some(i),
{
    lemma_first_index(s, c);
    match first_index(s, c) {
        Some(k) => {
            if k < i {
                assert(s[k] != c);
            } else if i < k {
                assert(s[i] != c);
            }
        },
        None => {
            assert(s.contains(s[i]));
        },
    }
}

/// A sequence without `c` has no first index of it.
pub proof fn lemma_first_index_none<T>(s: Seq<T>, c: T)
    requires
        forall|j: int| 0 <= j < s.len() ==> s[j] != c,
    ensures
        first_index(s, c) is None,
{
    lemma_first_index(s, c);
}

// ---------------------------------------------------------------------
// Characters
// ---------------------------------------------------------------------
/// The characters of `s`, in order.
pub fn chars_of(s: &str) -> (r: Vec<char>)
    ensures
        r@ == s@,
{
    let mut out: Vec<char> = Vec::new();
    for c in it: s.chars()
        invariant
            it.seq() == s@,
            out@ == s@.take(it.index() as int),
    {
        out.push(c);
        assert(s@.take(it.index() as int + 1) =~= s@.take(it.index() as int).push(c));
    }
    assert(s@.take(s@.len() as int) =~= s@);
    out
}

/// Do the two strings have the same characters?
pub fn str_eq(a: &str, b: &str) -> (r: bool)
    ensures
        r == (a@ == b@),
{
    a.to_owned() == b.to_owned()
}

/// Cut `s` at every `c`.
pub fn split_str(s: &str, c: char) -> (r: Vec<String>)
    ensures
        views(r@) == split_at_each(s@, c),
{
    let cs = chars_of(s);
    let mut out: Vec<String> = Vec::new();
    let mut start: usize = 0;
    let mut i: usize = 0;
    proof {
        assert(s@.skip(0) =~= s@);
        assert(views(out@) + split_at_each(s@.skip(0), c) =~= split_at_each(s@, c));
    }
    while i < cs.len()
        invariant
            cs@ == s@,
            start <= i <= cs@.len(),
            forall|j: int| start <= j < i ==> cs@[j] != c,
            views(out@) + split_at_each(s@.skip(start as int), c) == split_at_each(s@, c),
        decreases cs.len() - i,
    {
        if cs[i] == c {
            let piece = s.substring_char(start, i).to_owned();
            let ghost before = out@;
            out.push(piece);
            proof {
                let rest = s@.skip(start as int);
                assert forall|j: int| 0 <= j < i - start implies rest[j] != c by {
                    assert(rest[j] == cs@[start + j]);
                }
                lemma_first_index_is(rest, c, i - start);
                assert(rest.take(i - start) =~= piece@);
                assert(rest.skip(i - start + 1) =~= s@.skip(i + 1));
                assert(views(out@) =~= views(before) + seq![piece@]);
                assert(views(before) + (seq![piece@] + split_at_each(s@.skip(i + 1), c))
                    =~= views(out@) + split_at_each(s@.skip(i + 1), c));
            }
            start = i + 1;
        }
        i = i + 1;
    }
    let piece = s.substring_char(start, i).to_owned();
    let ghost before = out@;
    out.push(piece);
    proof {
        let rest = s@.skip(start as int);
        assert forall|j: int| 0 <= j < rest.len() implies rest[j] != c by {
            assert(rest[j] == cs@[start + j]);
        }
        lemma_first_index_none(rest, c);
        assert(rest =~= piece@);
        assert(views(out@) =~= views(before) + seq![piece@]);
    }
    out
}

/// Cut `s` at the first `c`, if it occurs.
pub open spec fn split_first<T>(s: Seq<T>, c: T) -> Option<(Seq<T>, Seq<T>)> {
    match first_index(s, c) {
        Some(i) => Some((s.take(i), s.skip(i + 1))),
        None => None,
    }
}

/// The two halves of `s` around its first `c`.
pub fn split_once_str(s: &str, c: char) -> (r: Option<(String, String)>)
    ensures
        (match r {
            Some((a, b)) => Some((a@, b@)),
            None => None,
        }) == split_first(s@, c),
{
    let cs = chars_of(s);
    let mut i: usize = 0;
    while i < cs.len()
        invariant
            cs@ == s@,
            i <= cs@.len(),
            forall|j: int| 0 <= j < i ==> cs@[j] != c,
        decreases cs.len() - i,
    {
        if cs[i] == c {
            let a = s.substring_char(0, i).to_owned();
            let b = s.substring_char(i + 1, cs.len()).to_owned();
            proof {
                lemma_first_index_is(s@, c, i as int);
                assert(a@ =~= s@.take(i as int));
                assert(b@ =~= s@.skip(i + 1));
            }
            return Some((a, b));
        }
        i = i + 1;
    }
    proof {
        lemma_first_index_none(s@, c);
    }
    None
}

/// Does `s` start with the character `c`?
pub fn starts_with_char(s: &str, c: char) -> (r: bool)
    ensures
        r == (s@.len() > 0 && s@[0] == c),
{
    s.unicode_len() > 0 && s.get_char(0) == c
}

/// Does `s` start with `prefix`?
pub fn starts_with_str(s: &str, prefix: &str) -> (r: bool)
    ensures
        r == prefix@.is_prefix_of(s@),
{
    let cs = chars_of(s);
    let ps = chars_of(prefix);
    assert(s@.skip(0) =~= s@);
    stands_at(&cs, 0, &ps)
}

/// Does `s` contain the character `c`?
pub fn contains_char(s: &str, c: char) -> (r: bool)
    ensures
        r == s@.contains(c),
{
    let cs = chars_of(s);
    let mut i: usize = 0;
    while i < cs.len()
        invariant
            cs@ == s@,
            i <= cs@.len(),
            forall|j: int| 0 <= j < i ==> cs@[j] != c,
        decreases cs.len() - i,
    {
        if cs[i] == c {
            return true;
        }
        i = i + 1;
    }
    false
}

/// `a`, then `b`, then `c`.
pub fn cat3(a: &str, b: &str, c: &str) -> (r: String)
    ensures
        r@ == a@ + b@ + c@,
{
    let mut s = a.to_owned();
    s.append(b);
    s.append(c);
    s
}

// ---------------------------------------------------------------------
// Numbers
// ---------------------------------------------------------------------
/// The decimal digit `d`.
pub open spec fn digit_char(d: int) -> char {
    (48 + d) as char
}

/// Is `c` one of `0`..`9`?
pub open spec fn is_digit(c: char) -> bool {
    '0' <= c <= '9'
}

/// `n` in decimal, without leading zeros.
pub open spec fn decimal(n: nat) -> Seq<char>
    decreases n,
{
    if n < 10 {
        seq![digit_char(n as int)]
    } else {
        decimal(n / 10).push(digit_char((n % 10) as int))
    }
}

/// `n` in decimal with a leading `-` where it is negative.
pub open spec fn signed_decimal(n: int) -> Seq<char> {
    if n < 0 {
        seq!['-'] + decimal((-n) as nat)
    } else {
        decimal(n as nat)
    }
}

/// The number that the digits `s` spell, most significant first.
pub open spec fn digits_value(s: Seq<char>) -> nat
    decreases s.len(),
{
    if s.len() == 0 {
        0
    } else {
        digits_value(s.drop_last()) * 10 + ((s.last() as nat) - 48) as nat
    }
}

/// What a decimal `u16` reads as: an optional `+`, then one or more
/// digits whose value fits.
pub open spec fn parsed_u16(s: Seq<char>) -> Option<u16> {
    let d = without_plus(s);
    if d.len() > 0 && all_digits(d) && digits_value(d) <= 0xffff {
        Some(digits_value(d) as u16)
    } else {
        None
    }
}

/// `s` without one leading `+`.
pub open spec fn without_plus(s: Seq<char>) -> Seq<char> {
    if s.len() > 0 && s[0] == '+' {
        s.skip(1)
    } else {
        s
    }
}

/// Are all characters of `s` decimal digits?
pub open spec fn all_digits(s: Seq<char>) -> bool {
    forall|i: int| 0 <= i < s.len() ==> is_digit(#[trigger] s[i])
}

/// The digit `d` as a one-character string.
fn digit_str(d: u64) -> (r: &'static str)
    requires
        d < 10,
    ensures
        r@ == seq![digit_char(d as int)],
{
    proof {
        reveal_strlit("0");
        reveal_strlit("1");
        reveal_strlit("2");
        reveal_strlit("3");
        reveal_strlit("4");
        reveal_strlit("5");
        reveal_strlit("6");
        reveal_strlit("7");
        reveal_strlit("8");
        reveal_strlit("9");
    }
    let r = match d {
        0 => "0",
        1 => "1",
        2 => "2",
        3 => "3",
        4 => "4",
        5 => "5",
        6 => "6",
        7 => "7",
        8 => "8",
        _ => "9",
    };
    assert(r@ =~= seq![digit_char(d as int)]);
    r
}

/// Write `n` in decimal.
pub fn decimal_text(n: u64) -> (r: String)
    ensures
        r@ == decimal(n as nat),
    decreases n,
{
    if n < 10 {
        digit_str(n).to_owned()
    } else {
        let mut s = decimal_text(n / 10);
        s.append(digit_str(n % 10));
        assert(s@ =~= decimal((n / 10) as nat).push(digit_char((n % 10) as int)));
        s
    }
}

/// Write a signed number in decimal.
pub fn signed_text(n: i32) -> (r: String)
    ensures
        r@ == signed_decimal(n as int),
{
    if n < 0 {
        let mut s = "-".to_owned();
        let m: i64 = -(n as i64);
        let d = decimal_text(m as u64);
        s.append(d.as_str());
        proof {
            reveal_strlit("-");
            assert(s@ =~= seq!['-'] + decimal((-n) as nat));
        }
        s
    } else {
        decimal_text(n as u64)
    }
}

/// Every prefix of a digit string spells at most what the whole spells.
proof fn lemma_digits_value_monotone(s: Seq<char>, k: int)
    requires
        0 <= k <= s.len(),
        all_digits(s),
    ensures
        digits_value(s.take(k)) <= digits_value(s),
    decreases s.len() - k,
{
    if k == s.len() {
        assert(s.take(k) =~= s);
    } else {
        lemma_digits_value_monotone(s, k + 1);
        assert(s.take(k + 1).drop_last() =~= s.take(k));
        assert(s.take(k + 1).last() == s[k]);
    }
}

/// Read a decimal `u16`.
pub fn parse_u16(s: &str) -> (r: Option<u16>)
    ensures
        r == parsed_u16(s@),
{
    let cs = chars_of(s);
    let plus = cs.len() > 0 && cs[0] == '+';
    let start: usize = if plus {
        1
    } else {
        0
    };
    let ghost d = s@.skip(start as int);
    proof {
        assert(s@.skip(0) =~= s@);
    }
    if start == cs.len() {
        return None;
    }
    let mut value: u32 = 0;
    let mut i: usize = start;
    proof {
        assert(d.take(0) =~= Seq::<char>::empty());
    }
    while i < cs.len()
        invariant
            cs@ == s@,
            start <= i <= cs@.len(),
            start < cs@.len(),
            d == s@.skip(start as int),
            d == without_plus(s@),
            forall|j: int| 0 <= j < i - start ==> is_digit(#[trigger] d[j]),
            value == digits_value(d.take(i - start)),
            value <= 0xffff,
        decreases cs.len() - i,
    {
        let c = cs[i];
        proof {
            assert(d[i - start] == c);
        }
        if !('0' <= c && c <= '9') {
            assert(!all_digits(d));
            return None;
        }
        value = value * 10 + (c as u32 - 48);
        proof {
            assert(d.take(i - start + 1).drop_last() =~= d.take(i - start));
            assert(d.take(i - start + 1).last() == c);
        }
        if value > 0xffff {
            proof {
                if all_digits(d) {
                    lemma_digits_value_monotone(d, i - start + 1);
                }
            }
            return None;
        }
        i = i + 1;
    }
    proof {
        assert(d.take(d.len() as int) =~= d);
    }
    Some(value as u16)
}

/// A decimal number spells itself.
pub proof fn lemma_decimal_value(n: nat)
    ensures
        digits_value(decimal(n)) == n,
        decimal(n).len() > 0,
        all_digits(decimal(n)),
    decreases n,
{
    if n < 10 {
        assert(decimal(n).drop_last() =~= Seq::<char>::empty());
        assert(digits_value(decimal(n).drop_last()) == 0);
    } else {
        lemma_decimal_value(n / 10);
        assert(decimal(n).drop_last() =~= decimal(n / 10));
        assert(n == (n / 10) * 10 + n % 10);
    }
}

/// Reading back a printed port gives the port.
pub proof fn law_u16_round_trip(n: u16)
    ensures
        parsed_u16(decimal(n as nat)) == Some(n),
{
    lemma_decimal_value(n as nat);
    assert(is_digit(decimal(n as nat)[0]));
}

// ---------------------------------------------------------------------
// Bytes
// ---------------------------------------------------------------------
/// The UTF-8 bytes of a string: the shape in which it stands on a
/// command line.
pub open spec fn utf8(s: Seq<char>) -> Seq<u8> {
    encode_utf8(s)
}

/// The UTF-8 bytes of `s`.
pub fn bytes_of(s: &str) -> (r: Vec<u8>)
    ensures
        r@ == utf8(s@),
{
    slice_to_vec(s.as_bytes())
}

/// A copy of `b`.
pub fn copy_bytes(b: &[u8]) -> (r: Vec<u8>)
    ensures
        r@ == b@,
{
    slice_to_vec(b)
}

/// Do the two byte strings agree?
pub fn bytes_eq(a: &[u8], b: &[u8]) -> (r: bool)
    ensures
        r == (a@ == b@),
{
    if a.len() != b.len() {
        return false;
    }
    let mut i: usize = 0;
    while i < a.len()
        invariant
            a@.len() == b@.len(),
            i <= a@.len(),
            forall|j: int| 0 <= j < i ==> a@[j] == b@[j],
        decreases a.len() - i,
    {
        if a[i] != b[i] {
            return false;
        }
        i = i + 1;
    }
    assert(a@ =~= b@);
    true
}

/// Append `b` to `out`.
pub fn push_bytes(out: &mut Vec<u8>, b: &[u8])
    ensures
        final(out)@ == old(out)@ + b@,
{
    let mut i: usize = 0;
    assert(b@.take(0) =~= Seq::<u8>::empty());
    while i < b.len()
        invariant
            i <= b@.len(),
            out@ == old(out)@ + b@.take(i as int),
        decreases b.len() - i,
    {
        out.push(b[i]);
        assert(b@.take(i + 1) =~= b@.take(i as int).push(b@[i as int]));
        i = i + 1;
    }
    assert(b@.take(b@.len() as int) =~= b@);
}

/// Cut `b` at every `c`.
pub fn split_bytes(b: &[u8], c: u8) -> (r: Vec<Vec<u8>>)
    ensures
        views(r@) == split_at_each(b@, c),
{
    let mut out: Vec<Vec<u8>> = Vec::new();
    let mut start: usize = 0;
    let mut i: usize = 0;
    proof {
        assert(b@.skip(0) =~= b@);
        assert(views(out@) + split_at_each(b@.skip(0), c) =~= split_at_each(b@, c));
    }
    while i < b.len()
        invariant
            start <= i <= b@.len(),
            forall|j: int| start <= j < i ==> b@[j] != c,
            views(out@) + split_at_each(b@.skip(start as int), c) == split_at_each(b@, c),
        decreases b.len() - i,
    {
        if b[i] == c {
            let piece = slice_to_vec(slice_subrange(b, start, i));
            let ghost before = out@;
            out.push(piece);
            proof {
                let rest = b@.skip(start as int);
                assert forall|j: int| 0 <= j < i - start implies rest[j] != c by {
                    assert(rest[j] == b@[start + j]);
                }
                lemma_first_index_is(rest, c, i - start);
                assert(rest.take(i - start) =~= piece@);
                assert(rest.skip(i - start + 1) =~= b@.skip(i + 1));
                assert(views(out@) =~= views(before) + seq![piece@]);
                assert(views(before) + (seq![piece@] + split_at_each(b@.skip(i + 1), c))
                    =~= views(out@) + split_at_each(b@.skip(i + 1), c));
            }
            start = i + 1;
        }
        i = i + 1;
    }
    let piece = slice_to_vec(slice_subrange(b, start, i));
    let ghost before = out@;
    out.push(piece);
    proof {
        let rest = b@.skip(start as int);
        assert forall|j: int| 0 <= j < rest.len() implies rest[j] != c by {
            assert(rest[j] == b@[start + j]);
        }
        lemma_first_index_none(rest, c);
        assert(rest =~= piece@);
        assert(views(out@) =~= views(before) + seq![piece@]);
    }
    out
}

/// Different strings have different bytes.
pub proof fn lemma_utf8_injective(a: Seq<char>, b: Seq<char>)
    requires
        utf8(a) == utf8(b),
    ensures
        a == b,
{
    encode_utf8_decode_utf8(a);
    encode_utf8_decode_utf8(b);
}

/// Text that starts with an ASCII character starts with its byte.
pub proof fn lemma_utf8_first(s: Seq<char>)
    requires
        s.len() > 0,
        '\0' <= s[0] <= '\u{7f}',
    ensures
        utf8(s).len() > 0,
        utf8(s)[0] == s[0] as u8,
{
    let c0 = s[0] as u32;
    assert(c0 as u8 == leading_byte_width_1(c0)) by (bit_vector)
        requires
            has_width_1_encoding(c0),
    ;
}

// ---------------------------------------------------------------------
// Lines and white space
// ---------------------------------------------------------------------
/// Unicode's `White_Space` property.
pub open spec fn is_white_space(c: char) -> bool {
    ||| 0x09 <= c as u32 <= 0x0d
    ||| c as u32 == 0x20
    ||| c as u32 == 0x85
    ||| c as u32 == 0xa0
    ||| c as u32 == 0x1680
    ||| 0x2000 <= c as u32 <= 0x200a
    ||| c as u32 == 0x2028
    ||| c as u32 == 0x2029
    ||| c as u32 == 0x202f
    ||| c as u32 == 0x205f
    ||| c as u32 == 0x3000
}

/// `s` without its leading white space.
pub open spec fn trim_start(s: Seq<char>) -> Seq<char>
    decreases s.len(),
{
    if s.len() > 0 && is_white_space(s[0]) {
        trim_start(s.skip(1))
    } else {
        s
    }
}

/// `s` without its trailing white space.
pub open spec fn trim_end(s: Seq<char>) -> Seq<char>
    decreases s.len(),
{
    if s.len() > 0 && is_white_space(s.last()) {
        trim_end(s.drop_last())
    } else {
        s
    }
}

/// `s` without the white space around it.
pub open spec fn trimmed(s: Seq<char>) -> Seq<char> {
    trim_end(trim_start(s))
}

fn white_space(c: char) -> (r: bool)
    ensures
        r == is_white_space(c),
{
    let n = c as u32;
    (0x09 <= n && n <= 0x0d) || n == 0x20 || n == 0x85 || n == 0xa0 || n == 0x1680 || (0x2000 <= n
        && n <= 0x200a) || n == 0x2028 || n == 0x2029 || n == 0x202f || n == 0x205f || n == 0x3000
}

/// `s` without the white space around it.
pub fn trim_str(s: &str) -> (r: String)
    ensures
        r@ == trimmed(s@),
{
    let cs = chars_of(s);
    let mut a: usize = 0;
    assert(s@.skip(0) =~= s@);
    while a < cs.len() && white_space(cs[a])
        invariant
            cs@ == s@,
            a <= cs@.len(),
            trim_start(s@.skip(a as int)) == trim_start(s@),
        decreases cs.len() - a,
    {
        assert(s@.skip(a as int).skip(1) =~= s@.skip(a + 1));
        a = a + 1;
    }
    let ghost t = s@.skip(a as int);
    assert(trim_start(s@) == t);
    let mut b: usize = cs.len();
    assert(t.take(t.len() as int) =~= t);
    while a < b && white_space(cs[b - 1])
        invariant
            cs@ == s@,
            a <= b <= cs@.len(),
            t == s@.skip(a as int),
            trim_end(t.take(b - a)) == trim_end(t),
        decreases b,
    {
        assert(t.take(b - a).drop_last() =~= t.take(b - a - 1));
        assert(t.take(b - a).last() == cs@[b - 1]);
        b = b - 1;
    }
    let r = s.substring_char(a, b).to_owned();
    proof {
        assert(r@ =~= t.take(b - a));
        if a < b {
            assert(t.take(b - a).last() == cs@[b - 1]);
        }
    }
    r
}

/// `s` without one carriage return at its end.
pub open spec fn without_final_cr(s: Seq<char>) -> Seq<char> {
    if s.len() > 0 && s.last() == '\r' {
        s.drop_last()
    } else {
        s
    }
}

/// The lines among the pieces that lie between line feeds: each piece
/// but the last was ended by a line feed, before which a carriage return
/// does not count; the last one counts only where it holds something.
pub open spec fn lines_of_pieces(pieces: Seq<Seq<char>>) -> Seq<Seq<char>> {
    let ended = pieces.drop_last().map_values(|p: Seq<char>| without_final_cr(p));
    if pieces.last().len() == 0 {
        ended
    } else {
        ended.push(pieces.last())
    }
}

/// The lines of `s`, without their line ends.
pub open spec fn lines(s: Seq<char>) -> Seq<Seq<char>> {
    lines_of_pieces(split_at_each(s, '\n'))
}

/// `s` without one carriage return at its end.
fn strip_final_cr(s: &String) -> (r: String)
    ensures
        r@ == without_final_cr(s@),
{
    let n = s.as_str().unicode_len();
    if n > 0 && s.as_str().get_char(n - 1) == '\r' {
        let r = s.as_str().substring_char(0, n - 1).to_owned();
        assert(r@ =~= s@.drop_last());
        r
    } else {
        s.clone()
    }
}

/// There is always a piece.
pub proof fn lemma_split_nonempty<T>(s: Seq<T>, c: T)
    ensures
        split_at_each(s, c).len() > 0,
{
}

/// The lines of `s`, without their line ends.
pub fn lines_str(s: &str) -> (r: Vec<String>)
    ensures
        views(r@) == lines(s@),
{
    let pieces = split_str(s, '\n');
    let mut out: Vec<String> = Vec::new();
    let mut i: usize = 0;
    let ghost all = views(pieces@);
    proof {
        lemma_split_nonempty(s@, '\n');
    }
    assert(all.len() == pieces@.len());
    while i < pieces.len() - 1
        invariant
            all == views(pieces@),
            0 < pieces@.len(),
            i <= pieces@.len() - 1,
            out@.len() == i,
            forall|j: int|
                0 <= j < i ==> (#[trigger] out@[j])@ == without_final_cr(pieces@[j]@),
        decreases pieces.len() - i,
    {
        out.push(strip_final_cr(&pieces[i]));
        i = i + 1;
    }
    let ghost ended = all.drop_last().map_values(|p: Seq<char>| without_final_cr(p));
    assert(views(out@) =~= ended);
    if !pieces[i].as_str().is_empty() {
        out.push(pieces[i].clone());
        assert(views(out@) =~= ended.push(all.last()));
    }
    out
}

/// The first of the pieces that is not blank, trimmed.
pub open spec fn first_trimmed(pieces: Seq<Seq<char>>) -> Option<Seq<char>>
    decreases pieces.len(),
{
    if pieces.len() == 0 {
        None
    } else if trimmed(pieces[0]).len() > 0 {
        Some(trimmed(pieces[0]))
    } else {
        first_trimmed(pieces.skip(1))
    }
}

/// The first line of `s` that is not blank, trimmed.
pub fn first_nonblank_line(s: &str) -> (r: Option<String>)
    ensures
        (match r {
            Some(t) => Some(t@),
            None => None,
        }) == first_trimmed(lines(s@)),
{
    let ls = lines_str(s);
    let ghost all = views(ls@);
    let mut i: usize = 0;
    assert(all.skip(0) =~= all);
    while i < ls.len()
        invariant
            i <= ls@.len(),
            all == views(ls@),
            all == lines(s@),
            first_trimmed(all.skip(i as int)) == first_trimmed(all),
        decreases ls.len() - i,
    {
        let t = trim_str(ls[i].as_str());
        assert(all.skip(i as int)[0] == ls@[i as int]@);
        if !t.as_str().is_empty() {
            return Some(t);
        }
        assert(all.skip(i as int).skip(1) =~= all.skip(i + 1));
        i = i + 1;
    }
    None
}

// ---------------------------------------------------------------------
// Replacing and joining
// ---------------------------------------------------------------------
/// `s` with every occurrence of `pat`, found from the left and without
/// overlap, replaced by `by`.
pub open spec fn replaced(s: Seq<char>, pat: Seq<char>, by: Seq<char>) -> Seq<char>
    decreases s.len(),
{
    if s.len() == 0 || pat.len() == 0 {
        s
    } else if pat.is_prefix_of(s) {
        by + replaced(s.skip(pat.len() as int), pat, by)
    } else {
        seq![s[0]] + replaced(s.skip(1), pat, by)
    }
}

/// Does `pat` stand in `cs` at index `at`?
fn stands_at(cs: &Vec<char>, at: usize, pat: &Vec<char>) -> (r: bool)
    requires
        at <= cs@.len(),
    ensures
        r == pat@.is_prefix_of(cs@.skip(at as int)),
{
    if pat.len() > cs.len() - at {
        return false;
    }
    let ghost rest = cs@.skip(at as int);
    let n = cs.len();
    let mut i: usize = 0;
    while i < pat.len()
        invariant
            n == cs@.len(),
            at + pat@.len() <= n,
            rest == cs@.skip(at as int),
            i <= pat@.len(),
            forall|j: int| 0 <= j < i ==> pat@[j] == rest[j],
        decreases pat.len() - i,
    {
        if cs[at + i] != pat[i] {
            assert(rest[i as int] == cs@[at + i]);
            assert(rest.subrange(0, pat@.len() as int)[i as int] == rest[i as int]);
            return false;
        }
        assert(rest[i as int] == cs@[at + i]);
        i = i + 1;
    }
    assert(pat@ =~= rest.subrange(0, pat@.len() as int));
    true
}

/// Replace every `pat` in `s` by `by`.
pub fn replace_str(s: &str, pat: &str, by: &str) -> (r: String)
    requires
        pat@.len() > 0,
    ensures
        r@ == replaced(s@, pat@, by@),
{
    let cs = chars_of(s);
    let ps = chars_of(pat);
    let mut out = String::new();
    let mut i: usize = 0;
    assert(s@.skip(0) =~= s@);
    assert(out@ + replaced(s@.skip(0), pat@, by@) =~= replaced(s@, pat@, by@));
    while i < cs.len()
        invariant
            cs@ == s@,
            ps@ == pat@,
            pat@.len() > 0,
            i <= cs@.len(),
            out@ + replaced(s@.skip(i as int), pat@, by@) == replaced(s@, pat@, by@),
        decreases cs.len() - i,
    {
        let ghost rest = s@.skip(i as int);
        let ghost before = out@;
        if stands_at(&cs, i, &ps) {
            out.append(by);
            proof {
                assert(rest.skip(pat@.len() as int) =~= s@.skip(i + pat@.len()));
                assert(before + (by@ + replaced(s@.skip(i + pat@.len()), pat@, by@)) =~= out@
                    + replaced(s@.skip(i + pat@.len()), pat@, by@));
            }
            i = i + ps.len();
        } else {
            out.append(s.substring_char(i, i + 1));
            proof {
                assert(s@.subrange(i as int, i + 1) =~= seq![rest[0]]);
                assert(rest.skip(1) =~= s@.skip(i + 1));
                assert(before + (seq![rest[0]] + replaced(s@.skip(i + 1), pat@, by@)) =~= out@
                    + replaced(s@.skip(i + 1), pat@, by@));
            }
            i = i + 1;
        }
    }
    assert(s@.skip(i as int) =~= Seq::<char>::empty());
    assert(out@ + Seq::<char>::empty() =~= out@);
    out
}

/// The pieces with `sep` between each two.
pub open spec fn joined<T>(pieces: Seq<Seq<T>>, sep: Seq<T>) -> Seq<T>
    decreases pieces.len(),
{
    if pieces.len() == 0 {
        Seq::empty()
    } else if pieces.len() == 1 {
        pieces[0]
    } else {
        joined(pieces.drop_last(), sep) + sep + pieces.last()
    }
}

/// No piece holds the character at which it was cut.
pub proof fn lemma_split_pieces_plain<T>(s: Seq<T>, c: T)
    ensures
        forall|i: int, j: int|
            0 <= i < split_at_each(s, c).len() && 0 <= j < split_at_each(s, c)[i].len()
                ==> #[trigger] split_at_each(s, c)[i][j] != c,
    decreases s.len(),
{
    lemma_first_index(s, c);
    match first_index(s, c) {
        Some(k) => {
            let rest = s.skip(k + 1);
            lemma_split_pieces_plain(rest, c);
            assert forall|i: int, j: int|
                0 <= i < split_at_each(s, c).len() && 0 <= j < split_at_each(s, c)[i].len() implies #[trigger] split_at_each(
            s, c)[i][j] != c by {
                if i == 0 {
                    assert(split_at_each(s, c)[0] == s.take(k));
                } else {
                    assert(split_at_each(s, c)[i] == split_at_each(rest, c)[i - 1]);
                }
            }
        },
        None => {
            assert forall|j: int| 0 <= j < s.len() implies s[j] != c by {
                assert(s.contains(s[j]));
            }
        },
    }
}

/// Cutting what was put after a last cut adds one piece.
proof fn lemma_split_append<T>(a: Seq<T>, c: T, b: Seq<T>)
    requires
        forall|j: int| 0 <= j < b.len() ==> b[j] != c,
    ensures
        split_at_each(a + seq![c] + b, c) == split_at_each(a, c).push(b),
    decreases a.len(),
{
    let s = a + seq![c] + b;
    lemma_first_index(a, c);
    match first_index(a, c) {
        Some(k) => {
            assert forall|j: int| 0 <= j < k implies s[j] != c by {
                assert(s[j] == a[j]);
            }
            assert(s[k] == a[k]);
            lemma_first_index_is(s, c, k);
            assert(s.take(k) =~= a.take(k));
            assert(s.skip(k + 1) =~= a.skip(k + 1) + seq![c] + b);
            lemma_split_append(a.skip(k + 1), c, b);
            assert(split_at_each(s, c) =~= split_at_each(a, c).push(b));
        },
        None => {
            assert forall|j: int| 0 <= j < a.len() implies s[j] != c by {
                assert(a.contains(a[j]));
                assert(s[j] == a[j]);
            }
            assert(s[a.len() as int] == c);
            lemma_first_index_is(s, c, a.len() as int);
            assert(s.take(a.len() as int) =~= a);
            assert(s.skip(a.len() as int + 1) =~= b);
            lemma_first_index_none(b, c);
            assert(split_at_each(b, c) == seq![b]);
            assert(split_at_each(s, c) =~= split_at_each(a, c).push(b));
        },
    }
}

/// Cutting undoes joining, where no piece holds the separator.
pub proof fn lemma_split_joined<T>(pieces: Seq<Seq<T>>, c: T)
    requires
        pieces.len() > 0,
        forall|i: int, j: int|
            0 <= i < pieces.len() && 0 <= j < (#[trigger] pieces[i]).len()
                ==> #[trigger] pieces[i][j] != c,
    ensures
        split_at_each(joined(pieces, seq![c]), c) == pieces,
    decreases pieces.len(),
{
    let last = pieces.last();
    assert(last == pieces[pieces.len() - 1]);
    if pieces.len() == 1 {
        lemma_first_index_none(last, c);
        assert(seq![last] =~= pieces);
    } else {
        let rest = pieces.drop_last();
        lemma_split_joined(rest, c);
        lemma_split_append(joined(rest, seq![c]), c, last);
        assert(rest.push(last) =~= pieces);
    }
}

/// Cutting loses nothing: put together again with the separator in
/// between, the pieces are what was cut, and none of them holds the
/// separator.
pub proof fn law_split_is_lossless<T>(s: Seq<T>, c: T)
    ensures
        split_at_each(s, c).len() > 0,
        joined(split_at_each(s, c), seq![c]) == s,
        forall|i: int|
            0 <= i < split_at_each(s, c).len() ==> !(#[trigger] split_at_each(s, c)[i]).contains(c),
    decreases s.len(),
{
    lemma_split_pieces_plain(s, c);
    let pieces = split_at_each(s, c);
    assert forall|i: int| 0 <= i < pieces.len() implies !(#[trigger] pieces[i]).contains(c) by {
        if pieces[i].contains(c) {
            let j = choose|j: int| 0 <= j < pieces[i].len() && pieces[i][j] == c;
            assert(split_at_each(s, c)[i][j] != c);
        }
    }
    lemma_first_index(s, c);
    match first_index(s, c) {
        Some(k) => {
            let rest = s.skip(k + 1);
            law_split_is_lossless(rest, c);
            let more = split_at_each(rest, c);
            lemma_join_first(s.take(k), more, seq![c]);
            assert(s =~= s.take(k) + seq![c] + rest);
        },
        None => {
            assert(pieces =~= seq![s]);
        },
    }
}

/// Joining with one more piece in front.
pub proof fn lemma_join_first<T>(first: Seq<T>, more: Seq<Seq<T>>, sep: Seq<T>)
    requires
        more.len() > 0,
    ensures
        joined(seq![first] + more, sep) == first + sep + joined(more, sep),
    decreases more.len(),
{
    let all = seq![first] + more;
    if more.len() == 1 {
        assert(all.drop_last() =~= seq![first]);
        assert(all.last() == more[0]);
        assert(joined(seq![first], sep) == first);
    } else {
        assert(all.drop_last() =~= seq![first] + more.drop_last());
        assert(all.last() == more.last());
        lemma_join_first(first, more.drop_last(), sep);
        assert(joined(all, sep) =~= first + sep + joined(more, sep));
    }
}

/// Cutting what has a plain piece in front.
pub proof fn lemma_split_first<T>(first: Seq<T>, c: T, rest: Seq<T>)
    requires
        !first.contains(c),
    ensures
        split_at_each(first + seq![c] + rest, c) == seq![first] + split_at_each(rest, c),
{
    let s = first + seq![c] + rest;
    let k = first.len() as int;
    assert forall|j: int| 0 <= j < k implies s[j] != c by {
        assert(s[j] == first[j]);
        assert(first.contains(first[j]));
    }
    assert(s[k] == c);
    lemma_first_index_is(s, c, k);
    assert(s.take(k) =~= first);
    assert(s.skip(k + 1) =~= rest);
}

/// The bytes of two texts, one after the other.
pub proof fn lemma_utf8_concat(a: Seq<char>, b: Seq<char>)
    ensures
        utf8(a + b) == utf8(a) + utf8(b),
    decreases a.len(),
{
    if a.len() == 0 {
        assert(a + b =~= b);
        assert(utf8(a) + utf8(b) =~= utf8(b));
    } else {
        assert((a + b).drop_first() =~= a.drop_first() + b);
        assert((a + b)[0] == a[0]);
        lemma_utf8_concat(a.drop_first(), b);
        assert(utf8(a + b) =~= utf8(a) + utf8(b));
    }
}

/// Join byte strings.
pub fn join_bytes(pieces: &Vec<Vec<u8>>, sep: &[u8]) -> (r: Vec<u8>)
    ensures
        r@ == joined(views(pieces@), sep@),
{
    let ghost all = views(pieces@);
    let mut out: Vec<u8> = Vec::new();
    let mut i: usize = 0;
    while i < pieces.len()
        invariant
            i <= pieces@.len(),
            all == views(pieces@),
            out@ == joined(all.take(i as int), sep@),
        decreases pieces.len() - i,
    {
        if i > 0 {
            push_bytes(&mut out, sep);
        }
        push_bytes(&mut out, pieces[i].as_slice());
        proof {
            assert(all.take(i + 1).drop_last() =~= all.take(i as int));
            assert(all.take(i + 1).last() == pieces@[i as int]@);
            if i == 0 {
                assert(out@ =~= pieces@[0]@);
            }
        }
        i = i + 1;
    }
    assert(all.take(all.len() as int) =~= all);
    out
}

// ---------------------------------------------------------------------
// What the standard library computes
// ---------------------------------------------------------------------
/// How `s` reads inside a message that quotes it: between double quotes,
/// with its special characters escaped.
pub uninterp spec fn quoted(s: Seq<char>) -> Seq<char>;

/// Calls the `Debug` formatting of `str`, which depends on nothing but
/// the string; [`quoted`] names what it writes.
#[verifier::external_body]
pub(crate) fn quoted_text(s: &str) -> (r: String)
    ensures
        r@ == quoted(s@),
{
    format!("{:?}", s)
}

/// `s` in lower case, by Unicode's tables.
pub uninterp spec fn lowercase(s: Seq<char>) -> Seq<char>;

/// `c` in lower case where it is an ASCII letter, `c` itself otherwise.
pub open spec fn ascii_lower_char(c: char) -> char {
    if 'A' <= c <= 'Z' {
        (c as u32 + 32) as char
    } else {
        c
    }
}

/// `s` with its ASCII letters in lower case.
pub open spec fn ascii_lower(s: Seq<char>) -> Seq<char> {
    s.map_values(|c: char| ascii_lower_char(c))
}

/// Calls `str::to_lowercase`, which depends on nothing but the string;
/// [`lowercase`] names what it returns. On ASCII text that is the text
/// with each letter in lower case, which is in lower case itself. Whether
/// that holds of other text too is left unsaid.
#[verifier::external_body]
pub(crate) fn lowercase_text(s: &str) -> (r: String)
    ensures
        r@ == lowercase(s@),
        is_ascii_chars(s@) ==> r@ == ascii_lower(s@) && lowercase(r@) == r@,
{
    s.to_lowercase()
}

/// `bytes` read as UTF-8, with U+FFFD in place of what is not UTF-8.
pub uninterp spec fn utf8_lossy(bytes: Seq<u8>) -> Seq<char>;

/// Calls `String::from_utf8_lossy`, which depends on nothing but the
/// bytes; [`utf8_lossy`] names what it returns. Valid UTF-8 comes out as
/// the characters it encodes.
#[verifier::external_body]
pub(crate) fn lossy_text(bytes: &[u8]) -> (r: String)
    ensures
        r@ == utf8_lossy(bytes@),
        valid_utf8(bytes@) ==> r@ == decode_utf8(bytes@),
{
    String::from_utf8_lossy(bytes).into_owned()
}

/// Calls `std::str::from_utf8`: the characters that `bytes` encode, or
/// `None` where `bytes` are not valid UTF-8.
#[verifier::external_body]
pub(crate) fn utf8_text(bytes: &[u8]) -> (r: Option<String>)
    ensures
        r is Some <==> valid_utf8(bytes@),
        r matches Some(s) ==> s@ == decode_utf8(bytes@),
{
    std::str::from_utf8(bytes).ok().map(|s| s.to_owned())
}

/// Lower case of ASCII text is a fixed point: lowering it again changes
/// nothing.
pub proof fn law_ascii_lower_idempotent(s: Seq<char>)
    ensures
        ascii_lower(ascii_lower(s)) == ascii_lower(s),
{
    assert forall|i: int| 0 <= i < s.len() implies #[trigger] ascii_lower(ascii_lower(s))[i]
        == ascii_lower(s)[i] by {
        let c = s[i];
        if 'A' <= c <= 'Z' {
            assert(ascii_lower_char(c) == (c as u32 + 32) as char);
            assert(!('A' <= ascii_lower_char(c) <= 'Z'));
        }
    }
    assert(ascii_lower(ascii_lower(s)) =~= ascii_lower(s));
}

/// Lower case is a matter of the 26 letters: each capital becomes the
/// small letter at the same place of the alphabet, and nothing else
/// changes.
pub proof fn law_ascii_lower_spelled_out(s: Seq<char>, i: int)
    requires
        0 <= i < s.len(),
    ensures
        ascii_lower(s).len() == s.len(),
        forall|k: int|
            0 <= k < 26 && s[i] == #[trigger] "ABCDEFGHIJKLMNOPQRSTUVWXYZ"@[k]
                ==> ascii_lower(s)[i] == "abcdefghijklmnopqrstuvwxyz"@[k],
        !"ABCDEFGHIJKLMNOPQRSTUVWXYZ"@.contains(s[i]) ==> ascii_lower(s)[i] == s[i],
{
    let capitals = "ABCDEFGHIJKLMNOPQRSTUVWXYZ"@;
    reveal_strlit("ABCDEFGHIJKLMNOPQRSTUVWXYZ");
    reveal_strlit("abcdefghijklmnopqrstuvwxyz");
    if 'A' <= s[i] <= 'Z' {
        assert(capitals[s[i] as int - 65] == s[i]);
    }
}

// ---------------------------------------------------------------------
// How numbers are written and read
// ---------------------------------------------------------------------
/// Numbers are written in decimal: below ten as the one digit, and from
/// there on by writing one more digit behind the tens; a negative number
/// has a `-` in front.
pub proof fn law_numbers_are_decimal(n: nat, d: nat)
    requires
        d < 10,
    ensures
        decimal(d) == seq!["0123456789"@[d as int]],
        n > 0 ==> decimal(10 * n + d) == decimal(n) + seq!["0123456789"@[d as int]],
        n > 0 ==> signed_decimal(-(n as int)) == seq!['-'] + decimal(n),
        signed_decimal(n as int) == decimal(n),
{
    reveal_strlit("0123456789");
    assert(digit_char(d as int) == "0123456789"@[d as int]);
    if n > 0 {
        assert((10 * n + d) / 10 == n && (10 * n + d) % 10 == d);
        assert(decimal(10 * n + d) =~= decimal(n) + seq!["0123456789"@[d as int]]);
    }
}

/// A zero in front changes nothing of what digits spell.
proof fn lemma_leading_zero(s: Seq<char>)
    requires
        s.len() > 0,
    ensures
        digits_value(seq!['0'] + s) == digits_value(s),
    decreases s.len(),
{
    let t = seq!['0'] + s;
    assert(t.last() == s.last());
    if s.len() == 1 {
        assert(t.drop_last() =~= seq!['0']);
        assert(seq!['0'].drop_last() =~= Seq::<char>::empty());
        reveal_with_fuel(digits_value, 2);
        assert(s.drop_last() =~= Seq::<char>::empty());
    } else {
        assert(t.drop_last() =~= seq!['0'] + s.drop_last());
        lemma_leading_zero(s.drop_last());
    }
}

/// A port is read from decimal digits: a number reads as itself where it
/// is at most 65535 and is refused where it is larger, zeros and one `+`
/// in front change nothing, and what holds anything else, or no digit at
/// all, is refused.
pub proof fn law_ports_are_decimal(n: nat, s: Seq<char>, i: int)
    ensures
        n <= 65535 ==> parsed_u16(decimal(n)) == Some(n as u16),
        n > 65535 ==> parsed_u16(decimal(n)) is None,
        s.len() > 0 && (forall|j: int| 0 <= j < s.len() ==> '0' <= #[trigger] s[j] <= '9') ==> {
            &&& parsed_u16(seq!['0'] + s) == parsed_u16(s)
            &&& parsed_u16(seq!['+'] + s) == parsed_u16(s)
        },
        0 <= i < s.len() && !('0' <= s[i] <= '9') && !(i == 0 && s[0] == '+') ==> parsed_u16(
            s,
        ) is None,
        parsed_u16(Seq::<char>::empty()) is None,
        parsed_u16(seq!['+']) is None,
{
    lemma_decimal_value(n);
    assert(is_digit(decimal(n)[0]));
    assert(seq!['+'].skip(1) =~= Seq::<char>::empty());
    if s.len() > 0 && (forall|j: int| 0 <= j < s.len() ==> '0' <= #[trigger] s[j] <= '9') {
        lemma_leading_zero(s);
        assert(is_digit(s[0]));
        assert(all_digits(s));
        let zero = seq!['0'] + s;
        assert forall|j: int| 0 <= j < zero.len() implies is_digit(#[trigger] zero[j]) by {
            if j > 0 {
                assert(zero[j] == s[j - 1]);
            }
        }
        assert((seq!['+'] + s).skip(1) =~= s);
    }
    if 0 <= i < s.len() && !('0' <= s[i] <= '9') && !(i == 0 && s[0] == '+') {
        if s[0] == '+' {
            assert(s.skip(1)[i - 1] == s[i]);
            assert(!is_digit(s.skip(1)[i - 1]));
        } else {
            assert(!is_digit(s[i]));
        }
    }
}

// ---------------------------------------------------------------------
// How text is cut, trimmed and replaced
// ---------------------------------------------------------------------
/// White space is what Unicode lists as such, character by character.
pub proof fn law_white_space_spelled_out(c: char)
    ensures
        is_white_space(c) <==> {
            ||| c == '\t' || c == '\n' || c == '\u{b}' || c == '\u{c}' || c == '\r' || c == ' '
            ||| c == '\u{85}' || c == '\u{a0}' || c == '\u{1680}'
            ||| c == '\u{2000}' || c == '\u{2001}' || c == '\u{2002}' || c == '\u{2003}'
            ||| c == '\u{2004}' || c == '\u{2005}' || c == '\u{2006}' || c == '\u{2007}'
            ||| c == '\u{2008}' || c == '\u{2009}' || c == '\u{200a}'
            ||| c == '\u{2028}' || c == '\u{2029}' || c == '\u{202f}' || c == '\u{205f}'
            ||| c == '\u{3000}'
        },
{
}

/// White space in front goes.
proof fn lemma_trim_front(white: Seq<char>, s: Seq<char>)
    requires
        forall|i: int| 0 <= i < white.len() ==> is_white_space(#[trigger] white[i]),
    ensures
        trim_start(white + s) == trim_start(s),
    decreases white.len(),
{
    if white.len() == 0 {
        assert(white + s =~= s);
    } else {
        let rest = white.skip(1);
        assert((white + s).skip(1) =~= rest + s);
        assert((white + s)[0] == white[0]);
        assert forall|i: int| 0 <= i < rest.len() implies is_white_space(#[trigger] rest[i]) by {
            assert(rest[i] == white[i + 1]);
        }
        lemma_trim_front(rest, s);
    }
}

/// White space behind goes.
proof fn lemma_trim_back(s: Seq<char>, white: Seq<char>)
    requires
        forall|i: int| 0 <= i < white.len() ==> is_white_space(#[trigger] white[i]),
    ensures
        trim_end(s + white) == trim_end(s),
    decreases white.len(),
{
    if white.len() == 0 {
        assert(s + white =~= s);
    } else {
        let rest = white.drop_last();
        assert((s + white).drop_last() =~= s + rest);
        assert((s + white).last() == white[white.len() - 1]);
        lemma_trim_back(s, rest);
    }
}

/// Trimming takes the white space off both ends and nothing else: white
/// space on its own vanishes, and text between white space that neither
/// begins nor ends with any comes out whole.
pub proof fn law_trimming(before: Seq<char>, s: Seq<char>, after: Seq<char>)
    requires
        forall|i: int| 0 <= i < before.len() ==> is_white_space(#[trigger] before[i]),
        forall|i: int| 0 <= i < after.len() ==> is_white_space(#[trigger] after[i]),
        s.len() > 0 ==> !is_white_space(s[0]) && !is_white_space(s.last()),
    ensures
        trimmed(before + s + after) == s,
{
    lemma_trim_front(before, s + after);
    assert(before + s + after =~= before + (s + after));
    if s.len() > 0 {
        assert((s + after)[0] == s[0]);
        lemma_trim_back(s, after);
    } else {
        assert(s + after =~= after);
        lemma_trim_front(after, s);
        assert(after + s =~= after);
    }
}

/// Text is cut at the first separator, which belongs to neither part, and
/// text without one is not cut.
pub proof fn law_cut_at_the_first<T>(first: Seq<T>, c: T, rest: Seq<T>)
    requires
        !first.contains(c),
    ensures
        split_first(first + seq![c] + rest, c) == Some((first, rest)),
        split_first(first, c) is None,
{
    let s = first + seq![c] + rest;
    let k = first.len() as int;
    assert forall|j: int| 0 <= j < k implies s[j] != c by {
        assert(s[j] == first[j]);
        assert(first.contains(first[j]));
    }
    assert(s[k] == c);
    lemma_first_index_is(s, c, k);
    assert(s.take(k) =~= first);
    assert(s.skip(k + 1) =~= rest);
    lemma_split_plain(first, c);
}

/// Text without the separator is its own only piece.
pub proof fn lemma_split_plain<T>(s: Seq<T>, c: T)
    requires
        !s.contains(c),
    ensures
        split_at_each(s, c) == seq![s],
        first_index(s, c) is None,
{
    assert forall|j: int| 0 <= j < s.len() implies s[j] != c by {
        assert(s.contains(s[j]));
    }
    lemma_first_index_none(s, c);
}

/// A line ends with a line feed, and a carriage return right before it
/// belongs to the line end; text behind the last line feed is a line too,
/// unless it is empty.
pub proof fn law_lines(line: Seq<char>, rest: Seq<char>)
    requires
        !line.contains('\n'),
    ensures
        line.len() == 0 || line.last() != '\r' ==> lines(line + seq!['\n'] + rest) == seq![line]
            + lines(rest),
        lines(line + seq!['\r', '\n'] + rest) == seq![line] + lines(rest),
        line.len() > 0 ==> lines(line) == seq![line],
        lines(Seq::<char>::empty()) == Seq::<Seq<char>>::empty(),
{
    let cut = |p: Seq<char>| without_final_cr(p);
    lemma_split_nonempty(rest, '\n');
    let more = split_at_each(rest, '\n');
    lemma_split_first(line, '\n', rest);
    let all = seq![line] + more;
    assert(all.drop_last() =~= seq![line] + more.drop_last());
    assert(all.last() == more.last());
    assert(all.drop_last().map_values(cut) =~= seq![without_final_cr(line)]
        + more.drop_last().map_values(cut));
    if line.len() == 0 || line.last() != '\r' {
        assert(lines(line + seq!['\n'] + rest) =~= seq![line] + lines(rest));
    }

    let ended = line + seq!['\r'];
    assert(!ended.contains('\n'));
    lemma_split_first(ended, '\n', rest);
    assert(line + seq!['\r', '\n'] + rest =~= ended + seq!['\n'] + rest);
    assert(ended.drop_last() =~= line);
    let both = seq![ended] + more;
    assert(both.drop_last() =~= seq![ended] + more.drop_last());
    assert(both.last() == more.last());
    assert(both.drop_last().map_values(cut) =~= seq![line] + more.drop_last().map_values(cut));
    assert(lines(line + seq!['\r', '\n'] + rest) =~= seq![line] + lines(rest));

    lemma_split_plain(line, '\n');
    assert(seq![line].drop_last().map_values(cut) =~= Seq::<Seq<char>>::empty());
    if line.len() > 0 {
        assert(lines(line) =~= seq![line]);
    }
    let none = Seq::<char>::empty();
    lemma_split_plain(none, '\n');
    assert(seq![none].drop_last().map_values(cut) =~= Seq::<Seq<char>>::empty());
    assert(lines(none) =~= Seq::<Seq<char>>::empty());
}

/// Of the pieces the first that holds more than white space counts, and
/// it counts without the white space around it; where none does, there is
/// nothing.
pub proof fn law_first_that_is_not_blank(pieces: Seq<Seq<char>>, i: int)
    requires
        0 <= i <= pieces.len(),
        forall|j: int| 0 <= j < i ==> trimmed(#[trigger] pieces[j]).len() == 0,
        i < pieces.len() ==> trimmed(pieces[i]).len() > 0,
    ensures
        i < pieces.len() ==> first_trimmed(pieces) == Some(trimmed(pieces[i])),
        i == pieces.len() ==> first_trimmed(pieces) is None,
    decreases i,
{
    if i > 0 {
        let rest = pieces.skip(1);
        assert(trimmed(pieces[0]).len() == 0);
        assert forall|j: int| 0 <= j < i - 1 implies trimmed(#[trigger] rest[j]).len() == 0 by {
            assert(rest[j] == pieces[j + 1]);
        }
        if i < pieces.len() {
            assert(rest[i - 1] == pieces[i]);
        }
        law_first_that_is_not_blank(rest, i - 1);
    }
}

/// Replacing leaves alone what cannot begin an occurrence, and puts the
/// new text in place of each occurrence.
pub proof fn law_replacing(plain: Seq<char>, rest: Seq<char>, pat: Seq<char>, by: Seq<char>)
    requires
        pat.len() > 0,
        !plain.contains(pat[0]),
    ensures
        replaced(plain + rest, pat, by) == plain + replaced(rest, pat, by),
        replaced(pat + rest, pat, by) == by + replaced(rest, pat, by),
        replaced(plain, pat, by) == plain,
    decreases plain.len(),
{
    assert(pat.is_prefix_of(pat + rest)) by {
        assert((pat + rest).subrange(0, pat.len() as int) =~= pat);
    }
    assert((pat + rest).skip(pat.len() as int) =~= rest);
    if plain.len() == 0 {
        assert(plain + rest =~= rest);
        assert(plain + replaced(rest, pat, by) =~= replaced(rest, pat, by));
    } else {
        let less = plain.skip(1);
        assert(plain.contains(plain[0]));
        assert(!less.contains(pat[0])) by {
            if less.contains(pat[0]) {
                let j = choose|j: int| 0 <= j < less.len() && less[j] == pat[0];
                assert(plain[j + 1] == pat[0]);
            }
        }
        law_replacing(less, rest, pat, by);
        let s = plain + rest;
        assert(s[0] == plain[0]);
        assert(!pat.is_prefix_of(s)) by {
            if pat.is_prefix_of(s) {
                assert(s.subrange(0, pat.len() as int)[0] == s[0]);
            }
        }
        assert(!pat.is_prefix_of(plain)) by {
            if pat.is_prefix_of(plain) {
                assert(plain.subrange(0, pat.len() as int)[0] == plain[0]);
            }
        }
        assert(s.skip(1) =~= less + rest);
        assert(replaced(s, pat, by) =~= plain + replaced(rest, pat, by));
        assert(replaced(plain, pat, by) =~= plain);
    }
}

} // verus!
