//! Putting credentials into requests.
//!
//! A [`Rewrite`] is what a destination of the proxy has to inject: headers,
//! query parameters and an `Authorization` header. It is applied to a
//! [`RequestHead`], which holds what a rewrite touches of a request: its
//! URI and its headers.

use crate::config::proxy::{AuthView, Proxy, ProxyAuth};
use crate::config::secret::Secret;
use crate::name_map::{lemma_map_of_domain, map_of, names_entry, NameMap};
use crate::text::{
    ascii_lower, bytes_of, cat3, joined, lemma_split_joined, lemma_split_pieces_plain,
    split_at_each, split_str, str_eq, utf8,
};
use crate::values::{opt_view, views, Duplicate};
use vstd::prelude::*;
use vstd::string::*;

verus! {

// ---------------------------------------------------------------------
// Requests
// ---------------------------------------------------------------------
/// A header of a request: its name in lower case, and its value.
pub struct Header {
    /// The name.
    pub name: String,
    /// The value.
    pub value: Vec<u8>,
}

impl View for Header {
    type V = (Seq<char>, Seq<u8>);

    open spec fn view(&self) -> (Seq<char>, Seq<u8>) {
        (self.name@, self.value@)
    }
}

impl Duplicate for Header {
    fn duplicate(&self) -> (r: Header) {
        Header { name: self.name.clone(), value: self.value.duplicate() }
    }
}

/// What a rewrite touches of a request.
pub struct RequestHead {
    /// The URI: either absolute (`http://host/path?query`), or only a path
    /// and a query.
    pub uri: String,
    /// The headers. A name may occur more than once.
    pub headers: Vec<Header>,
}

/// What a [`RequestHead`] says.
#[verifier::ext_equal]
pub struct HeadView {
    pub uri: Seq<char>,
    pub headers: Seq<(Seq<char>, Seq<u8>)>,
}

impl View for RequestHead {
    type V = HeadView;

    open spec fn view(&self) -> HeadView {
        HeadView { uri: self.uri@, headers: views(self.headers@) }
    }
}

/// The headers without those of this name.
pub open spec fn without_header(hs: Seq<(Seq<char>, Seq<u8>)>, name: Seq<char>) -> Seq<
    (Seq<char>, Seq<u8>),
>
    decreases hs.len(),
{
    if hs.len() == 0 {
        hs
    } else if hs.last().0 == name {
        without_header(hs.drop_last(), name)
    } else {
        without_header(hs.drop_last(), name).push(hs.last())
    }
}

/// The headers where `name` has this value and no other.
pub open spec fn set_header(hs: Seq<(Seq<char>, Seq<u8>)>, name: Seq<char>, value: Seq<u8>) -> Seq<
    (Seq<char>, Seq<u8>),
> {
    without_header(hs, name).push((name, value))
}

/// The headers after all of `sets` were set, in order.
pub open spec fn set_headers(
    hs: Seq<(Seq<char>, Seq<u8>)>,
    sets: Seq<(Seq<char>, Seq<u8>)>,
) -> Seq<(Seq<char>, Seq<u8>)>
    decreases sets.len(),
{
    if sets.len() == 0 {
        hs
    } else {
        set_header(set_headers(hs, sets.drop_last()), sets.last().0, sets.last().1)
    }
}

impl RequestHead {
    /// The first value of the header `name`, in lower case.
    pub fn header(&self, name: &str) -> (r: Option<Vec<u8>>)
        ensures
            opt_view(r) == crate::host::first_value(self@.headers, name@),
    {
        let ghost all = self@.headers;
        let mut i: usize = 0;
        assert(all.skip(0) =~= all);
        while i < self.headers.len()
            invariant
                i <= self.headers@.len(),
                all == self@.headers,
                crate::host::first_value(all.skip(i as int), name@) == crate::host::first_value(
                    all,
                    name@,
                ),
            decreases self.headers.len() - i,
        {
            assert(all.skip(i as int)[0] == self.headers@[i as int]@);
            if str_eq(self.headers[i].name.as_str(), name) {
                return Some(self.headers[i].value.duplicate());
            }
            assert(all.skip(i as int).skip(1) =~= all.skip(i + 1));
            i = i + 1;
        }
        None
    }

    /// Let the header `name` have this value and no other.
    pub fn set_header(&mut self, name: String, value: Vec<u8>)
        ensures
            final(self)@ == (HeadView {
                headers: set_header(old(self)@.headers, name@, value@),
                ..old(self)@
            }),
    {
        let ghost all = self@.headers;
        let mut kept: Vec<Header> = Vec::new();
        let mut i: usize = 0;
        assert(all.take(0) =~= Seq::<(Seq<char>, Seq<u8>)>::empty());
        assert(views(kept@) =~= Seq::<(Seq<char>, Seq<u8>)>::empty());
        while i < self.headers.len()
            invariant
                i <= self.headers@.len(),
                all == self@.headers,
                *self == *old(self),
                views(kept@) == without_header(all.take(i as int), name@),
            decreases self.headers.len() - i,
        {
            let ghost before = views(kept@);
            proof {
                assert(all.take(i + 1).drop_last() =~= all.take(i as int));
                assert(all.take(i + 1).last() == self.headers@[i as int]@);
            }
            if !str_eq(self.headers[i].name.as_str(), name.as_str()) {
                kept.push(self.headers[i].duplicate());
                assert(views(kept@) =~= before.push(self.headers@[i as int]@));
            }
            i = i + 1;
        }
        assert(all.take(all.len() as int) =~= all);
        let ghost before = views(kept@);
        let ghost added = (name@, value@);
        kept.push(Header { name, value });
        assert(views(kept@) =~= before.push(added));
        self.headers = kept;
    }
}

// ---------------------------------------------------------------------
// What the HTTP library accepts
// ---------------------------------------------------------------------
/// Is `c` a character of header names?
pub open spec fn is_token_char(c: char) -> bool {
    ||| 'a' <= c <= 'z'
    ||| 'A' <= c <= 'Z'
    ||| '0' <= c <= '9'
    ||| c == '!' || c == '#' || c == '$' || c == '%' || c == '&' || c == '\'' || c == '*'
    ||| c == '+' || c == '-' || c == '.' || c == '^' || c == '_' || c == '`' || c == '|'
    ||| c == '~'
}

/// The header name that `s` spells, in lower case.
pub open spec fn header_name_of(s: Seq<char>) -> Option<Seq<char>> {
    if 1 <= s.len() <= 0xffff && forall|i: int| 0 <= i < s.len() ==> is_token_char(#[trigger] s[i]) {
        Some(ascii_lower(s))
    } else {
        None
    }
}

/// May `b` stand in a header's value?
pub open spec fn is_value_byte(b: u8) -> bool {
    b == 9 || (b >= 32 && b != 127)
}

/// May `s` be a header's value?
pub open spec fn is_header_value(s: Seq<char>) -> bool {
    forall|i: int| 0 <= i < utf8(s).len() ==> is_value_byte(#[trigger] utf8(s)[i])
}

/// Calls `HeaderName::from_bytes` of the HTTP library: the name in lower
/// case where it consists of one to 65535 token characters, and nothing
/// otherwise.
#[verifier::external_body]
fn header_name(s: &str) -> (r: Option<String>)
    ensures
        opt_view(r) == header_name_of(s@),
{
    let name = hudsucker::hyper::header::HeaderName::from_bytes(s.as_bytes());
    name.ok().map(|n| n.as_str().to_owned())
}

/// Calls `HeaderValue::from_str` of the HTTP library: the bytes of `s`
/// where each may stand in a header's value, and nothing otherwise.
#[verifier::external_body]
fn header_value(s: &str) -> (r: Option<Vec<u8>>)
    ensures
        r is Some <==> is_header_value(s@),
        r matches Some(v) ==> v@ == utf8(s@),
{
    let value = hudsucker::hyper::header::HeaderValue::from_str(s);
    value.ok().map(|v| v.as_bytes().to_vec())
}

/// The scheme and the authority of a URI, each where it has one.
pub uninterp spec fn uri_origin(uri: Seq<char>) -> Option<(Option<Seq<char>>, Option<Seq<char>>)>;

/// Calls the `Uri` parser of the HTTP library, and asks the result for its
/// scheme and its authority; [`uri_origin`] names both.
#[verifier::external_body]
fn parse_origin(uri: &str) -> (r: Option<(Option<String>, Option<String>)>)
    ensures
        (match r {
            Some((scheme, authority)) => Some((opt_view(scheme), opt_view(authority))),
            None => None,
        }) == uri_origin(uri@),
{
    let parsed: hudsucker::hyper::Uri = uri.parse().ok()?;
    let scheme = parsed.scheme_str().map(|s| s.to_owned());
    Some((scheme, parsed.authority().map(|a| a.as_str().to_owned())))
}

/// Is this URI absolute, with a scheme and an authority?
pub open spec fn uri_is_absolute(uri: Seq<char>) -> bool {
    uri_origin(uri) matches Some((Some(_), Some(_)))
}

/// Is this URI absolute, with a scheme and an authority?
fn is_absolute_uri(uri: &str) -> (r: bool)
    ensures
        r == uri_is_absolute(uri@),
{
    match parse_origin(uri) {
        Some((Some(_), Some(_))) => true,
        _ => false,
    }
}

/// Does this text start with a `/`?
pub open spec fn is_rooted(s: Seq<char>) -> bool {
    s.len() > 0 && s[0] == '/'
}

/// Does `after` start as `before` does? Where that has a scheme and an
/// authority, with the same ones; where it has neither, with a path.
pub open spec fn keeps_origin(before: Seq<char>, after: Seq<char>) -> bool {
    match uri_origin(before) {
        Some((Some(scheme), Some(authority))) => (scheme + "://"@ + authority).is_prefix_of(after),
        Some((None, None)) => is_rooted(after),
        _ => true,
    }
}

/// This URI with another path and query, where both make sense to the HTTP
/// library.
pub uninterp spec fn uri_with_target(uri: Seq<char>, target: Seq<char>) -> Option<Seq<char>>;

/// Calls the `Uri` parser of the HTTP library on `uri` and on `target`,
/// and `Uri::from_parts` on the parts of the one with the path and query of
/// the other; [`uri_with_target`] names what that comes to. Where it comes
/// to something, a scheme and an authority are those of `uri`; where that
/// has neither, what comes out starts with the path, if that is rooted.
#[verifier::external_body]
fn replace_target(uri: &str, target: &str) -> (r: Option<String>)
    ensures
        opt_view(r) == uri_with_target(uri@, target@),
        r matches Some(u) ==> uri_is_absolute(uri@) || is_rooted(target@) ==> keeps_origin(uri@, u@),
{
    let uri: hudsucker::hyper::Uri = uri.parse().ok()?;
    let target: hudsucker::hyper::Uri = target.parse().ok()?;
    let mut parts = uri.into_parts();
    parts.path_and_query = target.path_and_query().cloned();
    hudsucker::hyper::Uri::from_parts(parts).ok().map(|u| u.to_string())
}

// ---------------------------------------------------------------------
// What the URL library computes
// ---------------------------------------------------------------------
/// The path and the query of an absolute URL.
pub uninterp spec fn url_target(url: Seq<char>) -> Option<(Seq<char>, Option<Seq<char>>)>;

/// Calls `url::Url::parse`, and asks the result for its path and its query;
/// [`url_target`] names both. The path of an `http` URL is rooted.
#[verifier::external_body]
fn parse_target(url: &str) -> (r: Option<(String, Option<String>)>)
    ensures
        (match r {
            Some((path, query)) => Some((path@, opt_view(query))),
            None => None,
        }) == url_target(url@),
        r matches Some((path, _)) ==> "http://"@.is_prefix_of(url@) ==> is_rooted(path@),
{
    let parsed = url::Url::parse(url).ok()?;
    Some((parsed.path().to_owned(), parsed.query().map(|q| q.to_owned())))
}

/// A parameter as it stands in a query.
pub uninterp spec fn form_pair(name: Seq<char>, value: Seq<char>) -> Seq<char>;

/// The name of the parameter that stands in this part of a query, if one
/// does.
pub uninterp spec fn form_key(part: Seq<char>) -> Option<Seq<char>>;

/// Calls `append_pair` of a fresh `url::form_urlencoded::Serializer`;
/// [`form_pair`] names what it writes. That is never empty and holds no
/// `&`, and `url::form_urlencoded::parse` finds the name in it again.
#[verifier::external_body]
fn encode_pair(name: &str, value: &str) -> (r: String)
    ensures
        r@ == form_pair(name@, value@),
        r@.len() > 0,
        forall|i: int| 0 <= i < r@.len() ==> r@[i] != '&',
        form_key(r@) == Some(name@),
{
    url::form_urlencoded::Serializer::new(String::new()).append_pair(name, value).finish()
}

/// Calls `url::form_urlencoded::parse`, and takes the name of the first
/// parameter; [`form_key`] names it.
#[verifier::external_body]
fn decode_key(part: &str) -> (r: Option<String>)
    ensures
        opt_view(r) == form_key(part@),
{
    url::form_urlencoded::parse(part.as_bytes()).next().map(|(name, _)| name.into_owned())
}

// ---------------------------------------------------------------------
// Query parameters
// ---------------------------------------------------------------------
/// Does this part of a query hold a parameter that `params` sets?
pub open spec fn is_replaced(part: Seq<char>, params: Seq<(Seq<char>, Seq<char>)>) -> bool {
    form_key(part) matches Some(name) && names_entry(params, name)
}

/// Those of the parts that `params` does not replace.
pub open spec fn kept_parts(
    parts: Seq<Seq<char>>,
    params: Seq<(Seq<char>, Seq<char>)>,
) -> Seq<Seq<char>>
    decreases parts.len(),
{
    if parts.len() == 0 {
        parts
    } else if is_replaced(parts.last(), params) {
        kept_parts(parts.drop_last(), params)
    } else {
        kept_parts(parts.drop_last(), params).push(parts.last())
    }
}

/// The parameters as they stand in a query.
pub open spec fn form_pairs(params: Seq<(Seq<char>, Seq<char>)>) -> Seq<Seq<char>> {
    params.map_values(|p: (Seq<char>, Seq<char>)| form_pair(p.0, p.1))
}

/// The parts of a query; one that is empty or absent has none.
pub open spec fn query_parts(query: Option<Seq<char>>) -> Seq<Seq<char>> {
    match query {
        Some(q) => if q.len() == 0 {
            Seq::empty()
        } else {
            split_at_each(q, '&')
        },
        None => Seq::empty(),
    }
}

/// A query with `params` set: what else stands in it stays as it is, and
/// the parameters follow.
pub open spec fn merged_query(
    query: Option<Seq<char>>,
    params: Seq<(Seq<char>, Seq<char>)>,
) -> Option<Seq<char>> {
    if params.len() == 0 {
        query
    } else {
        Some(joined(kept_parts(query_parts(query), params) + form_pairs(params), "&"@))
    }
}

/// A path and a query as one.
pub open spec fn target_text(path: Seq<char>, query: Option<Seq<char>>) -> Seq<char> {
    match query {
        Some(q) => path + "?"@ + q,
        None => path,
    }
}

/// What the parameters are, where the URL library is as it says it is: each
/// comes out as a part that is not empty, holds no `&`, and has its name.
pub open spec fn encodes_well(params: Seq<(Seq<char>, Seq<char>)>) -> bool {
    forall|i: int|
        0 <= i < params.len() ==> {
            let pair = #[trigger] form_pair(params[i].0, params[i].1);
            &&& pair.len() > 0
            &&& forall|j: int| 0 <= j < pair.len() ==> pair[j] != '&'
            &&& form_key(pair) == Some(params[i].0)
        }
}

/// Keeping parts that were all kept keeps them all.
proof fn lemma_kept_again(parts: Seq<Seq<char>>, params: Seq<(Seq<char>, Seq<char>)>)
    ensures
        kept_parts(kept_parts(parts, params), params) == kept_parts(parts, params),
        forall|i: int|
            0 <= i < kept_parts(parts, params).len() ==> parts.contains(
                #[trigger] kept_parts(parts, params)[i],
            ),
    decreases parts.len(),
{
    if parts.len() > 0 {
        let rest = parts.drop_last();
        lemma_kept_again(rest, params);
        let k = kept_parts(rest, params);
        assert forall|i: int|
            0 <= i < kept_parts(parts, params).len() implies parts.contains(
            #[trigger] kept_parts(parts, params)[i],
        ) by {
            if i < k.len() {
                assert(rest.contains(k[i]));
                let j = choose|j: int| 0 <= j < rest.len() && rest[j] == k[i];
                assert(parts[j] == k[i]);
            } else {
                assert(parts[parts.len() - 1] == parts.last());
            }
        }
        if !is_replaced(parts.last(), params) {
            assert(k.push(parts.last()).drop_last() =~= k);
        }
    }
}

/// Parts that are all replaced leave nothing.
proof fn lemma_kept_then_replaced(
    a: Seq<Seq<char>>,
    b: Seq<Seq<char>>,
    params: Seq<(Seq<char>, Seq<char>)>,
)
    requires
        forall|i: int| 0 <= i < b.len() ==> is_replaced(#[trigger] b[i], params),
    ensures
        kept_parts(a + b, params) == kept_parts(a, params),
    decreases b.len(),
{
    if b.len() == 0 {
        assert(a + b =~= a);
    } else {
        assert((a + b).drop_last() =~= a + b.drop_last());
        assert((a + b).last() == b[b.len() - 1]);
        lemma_kept_then_replaced(a, b.drop_last(), params);
    }
}

/// Setting the parameters a second time changes nothing.
proof fn lemma_merge_again(query: Option<Seq<char>>, params: Seq<(Seq<char>, Seq<char>)>)
    requires
        encodes_well(params),
    ensures
        merged_query(merged_query(query, params), params) == merged_query(query, params),
{
    if params.len() > 0 {
        let kept = kept_parts(query_parts(query), params);
        let pairs = form_pairs(params);
        let all = kept + pairs;
        let text = joined(all, "&"@);
        reveal_strlit("&");
        assert("&"@ =~= seq!['&']);
        lemma_kept_again(query_parts(query), params);
        assert forall|i: int, j: int|
            0 <= i < all.len() && 0 <= j < (#[trigger] all[i]).len() implies #[trigger] all[i][j]
            != '&' by {
            if i < kept.len() {
                assert(query_parts(query).contains(kept[i]));
                let q = query->0;
                lemma_split_pieces_plain(q, '&');
                let k = choose|k: int|
                    0 <= k < query_parts(query).len() && query_parts(query)[k] == kept[i];
                assert(split_at_each(q, '&')[k] == kept[i]);
            } else {
                let p = i - kept.len();
                assert(all[i] == pairs[p]);
                assert(form_pair(params[p].0, params[p].1) == pairs[p]);
            }
        }
        lemma_split_joined(all, '&');
        let last = pairs.last();
        assert(last == form_pair(params.last().0, params.last().1));
        assert(params.last() == params[params.len() - 1]);
        assert(all.last() == last);
        assert(text.len() > 0);
        assert(query_parts(Some(text)) == all);
        assert forall|i: int| 0 <= i < pairs.len() implies is_replaced(
            #[trigger] pairs[i],
            params,
        ) by {
            assert(form_pair(params[i].0, params[i].1) == pairs[i]);
            assert(names_entry(params, params[i].0));
        }
        lemma_kept_then_replaced(kept, pairs, params);
    }
}

/// Does one of `params` have the name of the parameter in this part of a
/// query?
pub open spec fn is_injected(part: Seq<char>, params: Seq<(Seq<char>, Seq<char>)>) -> bool {
    exists|i: int|
        0 <= i < params.len() && form_key(part) == Some((#[trigger] params[i]).0)
}

/// The parts of a query whose name none of `params` has, in order.
pub open spec fn own_parts(
    query: Option<Seq<char>>,
    params: Seq<(Seq<char>, Seq<char>)>,
) -> Seq<Seq<char>> {
    match query {
        Some(q) => if q.len() > 0 {
            split_at_each(q, '&').filter(|part: Seq<char>| !is_injected(part, params))
        } else {
            seq![]
        },
        None => seq![],
    }
}

/// What is kept is what passes the filter.
proof fn lemma_kept_is_filtered(parts: Seq<Seq<char>>, params: Seq<(Seq<char>, Seq<char>)>)
    ensures
        kept_parts(parts, params) == parts.filter(|part: Seq<char>| !is_injected(part, params)),
    decreases parts.len(),
{
    reveal(Seq::filter);
    if parts.len() > 0 {
        lemma_kept_is_filtered(parts.drop_last(), params);
        let part = parts.last();
        assert(is_replaced(part, params) == is_injected(part, params)) by {
            if is_replaced(part, params) {
                let name = form_key(part)->0;
                let i = choose|i: int| 0 <= i < params.len() && (#[trigger] params[i]).0 == name;
                assert(form_key(part) == Some(params[i].0));
            }
            if is_injected(part, params) {
                let i = choose|i: int|
                    0 <= i < params.len() && form_key(part) == Some((#[trigger] params[i]).0);
                assert(params[i].0 == form_key(part)->0);
            }
        }
    }
}

/// What stands in a query stays: taken apart at the `&`, the query with the
/// parameters set is first every part whose name none of the parameters
/// has, as often as it stood there and in the same order, and then each
/// parameter once, in order.
pub proof fn law_own_parameters_stay(
    query: Option<Seq<char>>,
    params: Seq<(Seq<char>, Seq<char>)>,
)
    requires
        encodes_well(params),
        params.len() > 0,
    ensures
        merged_query(query, params) matches Some(m) && split_at_each(m, '&') == own_parts(
            query,
            params,
        ) + Seq::new(params.len(), |i: int| form_pair(params[i].0, params[i].1)),
{
    let parts = query_parts(query);
    lemma_kept_is_filtered(parts, params);
    reveal(Seq::filter);
    let own = kept_parts(parts, params);
    assert(own =~= own_parts(query, params));
    let pairs = form_pairs(params);
    let all = own + pairs;
    reveal_strlit("&");
    assert("&"@ =~= seq!['&']);
    lemma_kept_again(parts, params);
    assert forall|i: int, j: int|
        0 <= i < all.len() && 0 <= j < (#[trigger] all[i]).len() implies #[trigger] all[i][j]
        != '&' by {
        if i < own.len() {
            assert(parts.contains(own[i]));
            let q = query->0;
            lemma_split_pieces_plain(q, '&');
            let k = choose|k: int| 0 <= k < parts.len() && parts[k] == own[i];
            assert(split_at_each(q, '&')[k] == own[i]);
        } else {
            let p = i - own.len();
            assert(all[i] == pairs[p]);
            assert(form_pair(params[p].0, params[p].1) == pairs[p]);
        }
    }
    lemma_split_joined(all, '&');
    assert(pairs =~= Seq::new(params.len(), |i: int| form_pair(params[i].0, params[i].1)));
}

/// A part of the client's own stands in the merged query exactly as often
/// as it stood in the query.
pub proof fn law_own_parameters_are_counted(
    query: Seq<char>,
    params: Seq<(Seq<char>, Seq<char>)>,
    part: Seq<char>,
)
    requires
        encodes_well(params),
        params.len() > 0,
        query.len() > 0,
        !is_injected(part, params),
    ensures
        merged_query(Some(query), params) matches Some(m) && split_at_each(
            m,
            '&',
        ).to_multiset().count(part) == split_at_each(query, '&').to_multiset().count(part),
{
    broadcast use vstd::seq_lib::group_to_multiset_ensures;

    law_own_parameters_stay(Some(query), params);
    assert(form_pairs(params) =~= Seq::new(
        params.len(),
        |i: int| form_pair(params[i].0, params[i].1),
    ));
    let parts = split_at_each(query, '&');
    let keep = |p: Seq<char>| !is_injected(p, params);
    lemma_filter_counts(parts, keep, part);
    let pairs = form_pairs(params);
    assert(!pairs.contains(part)) by {
        if pairs.contains(part) {
            let i = choose|i: int| 0 <= i < pairs.len() && pairs[i] == part;
            assert(form_key(form_pair(params[i].0, params[i].1)) == Some(params[i].0));
        }
    }
    vstd::seq_lib::lemma_multiset_commutative(own_parts(Some(query), params), pairs);
}

/// A filter keeps what passes it as often as it was there.
proof fn lemma_filter_counts<A>(s: Seq<A>, keep: spec_fn(A) -> bool, x: A)
    requires
        keep(x),
    ensures
        s.filter(keep).to_multiset().count(x) == s.to_multiset().count(x),
    decreases s.len(),
{
    broadcast use vstd::seq_lib::group_to_multiset_ensures;

    reveal(Seq::filter);
    if s.len() > 0 {
        lemma_filter_counts(s.drop_last(), keep, x);
        assert(s =~= s.drop_last().push(s.last()));
    }
}

/// Set `params` in a query. What else stands in it stays as it is, and
/// setting the parameters a second time changes nothing.
pub fn merge_query(query: &Option<String>, params: &NameMap<Secret>) -> (r: Option<String>)
    ensures
        opt_view(r) == merged_query(opt_view(*query), params.entries()),
        merged_query(opt_view(r), params.entries()) == opt_view(r),
        encodes_well(params.entries()),
        params.entries().len() > 0 ==> (r matches Some(m) && split_at_each(m@, '&')
            == own_parts(opt_view(*query), params.entries()) + form_pairs(params.entries())),
{
    let n = params.len();
    let ghost ps = params.entries();
    if n == 0 {
        return match query {
            Some(q) => Some(q.clone()),
            None => None,
        };
    }
    let mut out = String::new();
    let mut started = false;
    let ghost mut done = Seq::<Seq<char>>::empty();
    let ghost parts = query_parts(opt_view(*query));
    proof {
        reveal_strlit("&");
        assert("&"@ =~= seq!['&']);
    }
    match query {
        Some(q) => {
            if !q.as_str().is_empty() {
                let pieces = split_str(q.as_str(), '&');
                let mut i: usize = 0;
                assert(parts == views(pieces@));
                assert(parts.take(0) =~= Seq::<Seq<char>>::empty());
                while i < pieces.len()
                    invariant
                        i <= pieces@.len(),
                        parts == views(pieces@),
                        ps == params.entries(),
                        params@ == map_of(ps),
                        done == kept_parts(parts.take(i as int), ps),
                        out@ == joined(done, "&"@),
                        started == (done.len() > 0),
                    decreases pieces.len() - i,
                {
                    let ghost before = done;
                    proof {
                        assert(parts.take(i + 1).drop_last() =~= parts.take(i as int));
                        assert(parts.take(i + 1).last() == pieces@[i as int]@);
                    }
                    let replaced = match decode_key(pieces[i].as_str()) {
                        Some(name) => {
                            proof {
                                lemma_map_of_domain(ps, name@);
                            }
                            params.get(name.as_str()).is_some()
                        },
                        None => false,
                    };
                    if !replaced {
                        if started {
                            out.append("&");
                        }
                        out.append(pieces[i].as_str());
                        started = true;
                        proof {
                            done = before.push(pieces@[i as int]@);
                            assert(done.drop_last() =~= before);
                            if before.len() == 0 {
                                assert(out@ =~= pieces@[i as int]@);
                            }
                        }
                    }
                    i = i + 1;
                }
                assert(parts.take(parts.len() as int) =~= parts);
            }
        },
        None => {},
    }
    let ghost kept = done;
    assert(kept == kept_parts(parts, ps));
    let ghost pairs = form_pairs(ps);
    let mut j: usize = 0;
    assert(kept + pairs.take(0) =~= kept);
    while j < n
        invariant
            j <= n,
            n == ps.len(),
            ps == params.entries(),
            pairs == form_pairs(ps),
            done == kept + pairs.take(j as int),
            out@ == joined(done, "&"@),
            started == (done.len() > 0),
            forall|k: int|
                0 <= k < j ==> {
                    let pair = #[trigger] form_pair(ps[k].0, ps[k].1);
                    &&& pair.len() > 0
                    &&& forall|m: int| 0 <= m < pair.len() ==> pair[m] != '&'
                    &&& form_key(pair) == Some(ps[k].0)
                },
        decreases n - j,
    {
        let ghost before = done;
        let pair = encode_pair(params.name_at(j).as_str(), params.value_at(j).0.as_str());
        if started {
            out.append("&");
        }
        out.append(pair.as_str());
        started = true;
        proof {
            assert(pair@ == pairs[j as int]);
            done = before.push(pair@);
            assert(done.drop_last() =~= before);
            if before.len() == 0 {
                assert(out@ =~= pair@);
            }
            assert(pairs.take(j + 1) =~= pairs.take(j as int).push(pair@));
            assert(done =~= kept + pairs.take(j + 1));
        }
        j = j + 1;
    }
    proof {
        assert(pairs.take(pairs.len() as int) =~= pairs);
        lemma_merge_again(opt_view(*query), ps);
        law_own_parameters_stay(opt_view(*query), ps);
        assert(pairs =~= Seq::new(ps.len(), |i: int| form_pair(ps[i].0, ps[i].1)));
    }
    Some(out)
}

/// A path and a query with `params` set, as one.
pub fn target_with(path: &str, query: &Option<String>, params: &NameMap<Secret>) -> (r: String)
    ensures
        r@ == target_text(path@, merged_query(opt_view(*query), params.entries())),
{
    match merge_query(query, params) {
        Some(q) => cat3(path, "?", q.as_str()),
        None => path.to_owned(),
    }
}

/// The origin that is put in front of a URI that has none, so that the URL
/// library can read it. It is not kept.
pub const PLACEHOLDER_ORIGIN: &'static str = "http://sandbox.invalid";

/// The URL that stands for a URI.
pub open spec fn url_of(uri: Seq<char>) -> Seq<char> {
    if uri_is_absolute(uri) {
        uri
    } else {
        PLACEHOLDER_ORIGIN@ + uri
    }
}

/// A URI with `params` set in its query. One that cannot be read, or that
/// would not be one any more, stays as it is; so does one for which there
/// is nothing to set.
pub open spec fn merged_uri(uri: Seq<char>, params: Seq<(Seq<char>, Seq<char>)>) -> Seq<char> {
    if params.len() == 0 {
        uri
    } else {
        match url_target(url_of(uri)) {
            Some((path, query)) => match uri_with_target(
                uri,
                target_text(path, merged_query(query, params)),
            ) {
                Some(u) => u,
                None => uri,
            },
            None => uri,
        }
    }
}

/// Set `params` in the query of a URI. Its scheme and its authority stay
/// what they are, and where it has none it gets none.
pub fn merge_query_params(params: &NameMap<Secret>, uri: &mut String)
    ensures
        final(uri)@ == merged_uri(old(uri)@, params.entries()),
        final(uri)@ == old(uri)@ || keeps_origin(old(uri)@, final(uri)@),
{
    if params.is_empty() {
        return;
    }
    let url = if is_absolute_uri(uri.as_str()) {
        uri.clone()
    } else {
        let mut s = PLACEHOLDER_ORIGIN.to_owned();
        s.append(uri.as_str());
        s
    };
    proof {
        reveal_strlit("http://");
        reveal_strlit("http://sandbox.invalid");
        if !uri_is_absolute(uri@) {
            assert("http://"@ =~= url@.subrange(0, 7));
        }
    }
    match parse_target(url.as_str()) {
        Some((path, query)) => {
            let target = target_with(path.as_str(), &query, params);
            match replace_target(uri.as_str(), target.as_str()) {
                Some(u) => {
                    *uri = u;
                },
                None => {},
            }
        },
        None => {},
    }
}

// ---------------------------------------------------------------------
// Credentials
// ---------------------------------------------------------------------
/// `bytes` in Base64, with the standard alphabet and padding.
pub uninterp spec fn base64_text(bytes: Seq<u8>) -> Seq<char>;

/// Is `c` a character of that alphabet, or the padding?
pub open spec fn is_base64_char(c: char) -> bool {
    ||| 'a' <= c <= 'z'
    ||| 'A' <= c <= 'Z'
    ||| '0' <= c <= '9'
    ||| c == '+' || c == '/' || c == '='
}

/// Calls `encode` of `base64::engine::general_purpose::STANDARD`, which
/// depends on nothing but the bytes; [`base64_text`] names what it
/// returns. That holds characters of the standard alphabet and padding
/// only.
#[verifier::external_body]
fn encode_base64(bytes: &[u8]) -> (r: String)
    ensures
        r@ == base64_text(bytes@),
        forall|i: int| 0 <= i < r@.len() ==> is_base64_char(#[trigger] r@[i]),
{
    base64::Engine::encode(&base64::engine::general_purpose::STANDARD, bytes)
}

/// The value of the `Authorization` header for these credentials.
pub open spec fn auth_text(auth: AuthView) -> Seq<char> {
    match auth {
        AuthView::Basic { username, password } => "Basic "@ + base64_text(
            utf8(username + ":"@ + password),
        ),
        AuthView::Bearer { token } => "Bearer "@ + token,
    }
}

/// The value of the `Authorization` header for these credentials. For a
/// user name and a password it always is one.
fn auth_header(auth: &ProxyAuth) -> (r: String)
    ensures
        r@ == auth_text(auth@),
        auth@ is Basic ==> is_header_value(r@),
{
    match auth {
        ProxyAuth::Basic { username, password } => {
            let pair = cat3(username.0.as_str(), ":", password.0.as_str());
            let code = encode_base64(bytes_of(pair.as_str()).as_slice());
            let mut s = "Basic ".to_owned();
            s.append(code.as_str());
            proof {
                reveal_strlit("Basic ");
                assert forall|i: int| 0 <= i < s@.len() implies ' ' <= #[trigger] s@[i] <= '~' by {
                    if i >= 6 {
                        assert(s@[i] == code@[i - 6]);
                    }
                }
                lemma_visible_text(s@);
            }
            s
        },
        ProxyAuth::Bearer { token } => {
            let mut s = "Bearer ".to_owned();
            s.append(token.0.as_str());
            s
        },
    }
}

/// Visible ASCII text may be a header's value.
proof fn lemma_visible_text(s: Seq<char>)
    requires
        forall|i: int| 0 <= i < s.len() ==> ' ' <= #[trigger] s[i] <= '~',
    ensures
        is_header_value(s),
{
    assert(vstd::utf8::is_ascii_chars(s));
    vstd::utf8::is_ascii_chars_encode_utf8(s);
    assert forall|i: int| 0 <= i < utf8(s).len() implies is_value_byte(#[trigger] utf8(s)[i]) by {
        assert(utf8(s)[i] == s[i] as u8);
        assert(' ' <= s[i] <= '~');
    }
}

// ---------------------------------------------------------------------
// Rewrites
// ---------------------------------------------------------------------
/// What there is to inject into a request.
pub struct Rewrite {
    /// The headers.
    pub headers: NameMap<Secret>,
    /// The query parameters.
    pub params: NameMap<Secret>,
    /// The credentials.
    pub auth: Option<ProxyAuth>,
}

/// What a [`Rewrite`] says.
#[verifier::ext_equal]
pub struct RewriteView {
    pub headers: Seq<(Seq<char>, Seq<char>)>,
    pub params: Seq<(Seq<char>, Seq<char>)>,
    pub auth: Option<AuthView>,
}

impl View for Rewrite {
    type V = RewriteView;

    open spec fn view(&self) -> RewriteView {
        RewriteView {
            headers: self.headers.entries(),
            params: self.params.entries(),
            auth: opt_view(self.auth),
        }
    }
}

/// Those of the headers that the HTTP library accepts, as it takes them.
pub open spec fn accepted_headers(headers: Seq<(Seq<char>, Seq<char>)>) -> Seq<
    (Seq<char>, Seq<u8>),
>
    decreases headers.len(),
{
    if headers.len() == 0 {
        Seq::empty()
    } else {
        let before = accepted_headers(headers.drop_last());
        match header_name_of(headers.last().0) {
            Some(name) => if is_header_value(headers.last().1) {
                before.push((name, utf8(headers.last().1)))
            } else {
                before
            },
            None => before,
        }
    }
}

/// The `Authorization` header, where there are credentials for it and the
/// HTTP library accepts it.
pub open spec fn accepted_auth(auth: Option<AuthView>) -> Seq<(Seq<char>, Seq<u8>)> {
    match auth {
        Some(a) => if is_header_value(auth_text(a)) {
            seq![("authorization"@, utf8(auth_text(a)))]
        } else {
            Seq::empty()
        },
        None => Seq::empty(),
    }
}

impl RewriteView {
    /// The headers to set, in order.
    pub open spec fn sets(self) -> Seq<(Seq<char>, Seq<u8>)> {
        accepted_headers(self.headers) + accepted_auth(self.auth)
    }

    /// A request with everything injected: headers replace those of the
    /// same name, parameters replace those of the same name, and
    /// everything else stays as it is.
    pub open spec fn applied(self, head: HeadView) -> HeadView {
        HeadView {
            uri: merged_uri(head.uri, self.params),
            headers: set_headers(head.headers, self.sets()),
        }
    }
}

/// Set each of the headers that the HTTP library accepts.
fn inject_headers(headers: &NameMap<Secret>, head: &mut RequestHead)
    ensures
        final(head)@ == (HeadView {
            headers: set_headers(old(head)@.headers, accepted_headers(headers.entries())),
            ..old(head)@
        }),
{
    let n = headers.len();
    let ghost e = headers.entries();
    let mut i: usize = 0;
    while i < n
        invariant
            i <= n,
            n == e.len(),
            e == headers.entries(),
            head@ == (HeadView {
                headers: set_headers(old(head)@.headers, accepted_headers(e.take(i as int))),
                ..old(head)@
            }),
        decreases n - i,
    {
        let ghost before = accepted_headers(e.take(i as int));
        proof {
            assert(e.take(i + 1).drop_last() =~= e.take(i as int));
            assert(e.take(i + 1).last() == e[i as int]);
        }
        match header_name(headers.name_at(i).as_str()) {
            Some(name) => match header_value(headers.value_at(i).0.as_str()) {
                Some(value) => {
                    let ghost set = (name@, value@);
                    head.set_header(name, value);
                    assert(before.push(set).drop_last() =~= before);
                },
                None => {},
            },
            None => {},
        }
        i = i + 1;
    }
    assert(e.take(e.len() as int) =~= e);
}

/// Set the `Authorization` header, where the HTTP library accepts it.
fn inject_auth(auth: &ProxyAuth, head: &mut RequestHead)
    ensures
        final(head)@ == (HeadView {
            headers: set_headers(old(head)@.headers, accepted_auth(Some(auth@))),
            ..old(head)@
        }),
        auth@ is Basic ==> is_header_value(auth_text(auth@)),
{
    let text = auth_header(auth);
    match header_value(text.as_str()) {
        Some(value) => {
            let ghost set = ("authorization"@, value@);
            head.set_header("authorization".to_owned(), value);
            proof {
                let sets = accepted_auth(Some(auth@));
                assert(sets =~= seq![set]);
                assert(sets.drop_last() =~= Seq::<(Seq<char>, Seq<u8>)>::empty());
                assert(sets.last() == set);
                assert(set_headers(old(head)@.headers, sets.drop_last()) == old(head)@.headers);
            }
        },
        None => {},
    }
}

impl Rewrite {
    /// What a destination has to inject, if it has anything.
    pub fn from_proxy(p: &Proxy) -> (r: Option<Rewrite>)
        ensures
            opt_view(r) == (if p@.injects() {
                Some(RewriteView { headers: p@.headers, params: p@.params, auth: p@.auth })
            } else {
                None
            }),
    {
        if !p.has_injection() {
            return None;
        }
        Some(
            Rewrite {
                headers: p.headers.copy(),
                params: p.params.copy(),
                auth: match &p.auth {
                    Some(a) => Some(a.duplicate()),
                    None => None,
                },
            },
        )
    }

    /// Inject everything into a request. It still goes where it went, and
    /// credentials of a user name and a password are never left out.
    pub fn apply(&self, head: &mut RequestHead)
        ensures
            final(head)@ == self@.applied(old(head)@),
            final(head)@.uri == old(head)@.uri || keeps_origin(old(head)@.uri, final(head)@.uri),
            self@.auth matches Some(a) ==> a is Basic ==> accepted_auth(self@.auth) == seq![
                ("authorization"@, utf8(auth_text(a))),
            ],
    {
        inject_headers(&self.headers, head);
        merge_query_params(&self.params, &mut head.uri);
        let ghost a = accepted_headers(self@.headers);
        let ghost b = accepted_auth(self@.auth);
        match &self.auth {
            Some(auth) => inject_auth(auth, head),
            None => {},
        }
        proof {
            lemma_set_in_parts(old(head)@.headers, a, b);
        }
    }
}

// ---------------------------------------------------------------------
// Laws
// ---------------------------------------------------------------------
/// Setting headers in two parts is setting them all.
proof fn lemma_set_in_parts(
    hs: Seq<(Seq<char>, Seq<u8>)>,
    a: Seq<(Seq<char>, Seq<u8>)>,
    b: Seq<(Seq<char>, Seq<u8>)>,
)
    ensures
        set_headers(hs, a + b) == set_headers(set_headers(hs, a), b),
    decreases b.len(),
{
    if b.len() == 0 {
        assert(a + b =~= a);
    } else {
        assert((a + b).drop_last() =~= a + b.drop_last());
        assert((a + b).last() == b.last());
        lemma_set_in_parts(hs, a, b.drop_last());
    }
}

/// Removing a header from a list in two parts.
proof fn lemma_without_parts(
    a: Seq<(Seq<char>, Seq<u8>)>,
    b: Seq<(Seq<char>, Seq<u8>)>,
    name: Seq<char>,
)
    ensures
        without_header(a + b, name) == without_header(a, name) + without_header(b, name),
    decreases b.len(),
{
    if b.len() == 0 {
        assert(a + b =~= a);
        assert(without_header(a, name) + without_header(b, name) =~= without_header(a, name));
    } else {
        assert((a + b).drop_last() =~= a + b.drop_last());
        assert((a + b).last() == b.last());
        lemma_without_parts(a, b.drop_last(), name);
        assert(without_header(a + b, name) =~= without_header(a, name) + without_header(b, name));
    }
}

/// Those of the headers that `sets` does not replace.
pub open spec fn untouched(
    hs: Seq<(Seq<char>, Seq<u8>)>,
    sets: Seq<(Seq<char>, Seq<u8>)>,
) -> Seq<(Seq<char>, Seq<u8>)>
    decreases sets.len(),
{
    if sets.len() == 0 {
        hs
    } else {
        without_header(untouched(hs, sets.drop_last()), sets.last().0)
    }
}

/// Setting headers leaves the others as they are, and adds the same
/// whatever was there.
pub proof fn law_headers_replace(
    hs: Seq<(Seq<char>, Seq<u8>)>,
    sets: Seq<(Seq<char>, Seq<u8>)>,
)
    ensures
        set_headers(hs, sets) == untouched(hs, sets) + set_headers(seq![], sets),
    decreases sets.len(),
{
    if sets.len() == 0 {
        assert(set_headers(hs, sets) =~= untouched(hs, sets) + set_headers(seq![], sets));
    } else {
        let rest = sets.drop_last();
        let (name, value) = sets.last();
        law_headers_replace(hs, rest);
        lemma_without_parts(untouched(hs, rest), set_headers(seq![], rest), name);
        assert(set_headers(hs, sets) =~= untouched(hs, sets) + set_headers(seq![], sets));
    }
}

/// Removing a header twice, or two headers in either order.
proof fn lemma_without_commutes(
    hs: Seq<(Seq<char>, Seq<u8>)>,
    a: Seq<char>,
    b: Seq<char>,
)
    ensures
        without_header(without_header(hs, a), b) == without_header(without_header(hs, b), a),
        without_header(without_header(hs, a), a) == without_header(hs, a),
    decreases hs.len(),
{
    if hs.len() > 0 {
        let rest = hs.drop_last();
        lemma_without_commutes(rest, a, b);
        let x = without_header(rest, a);
        let y = without_header(rest, b);
        assert(x.push(hs.last()).drop_last() =~= x);
        assert(y.push(hs.last()).drop_last() =~= y);
    }
}

/// What is untouched has none of the names, and stays untouched.
proof fn lemma_untouched_without(
    hs: Seq<(Seq<char>, Seq<u8>)>,
    sets: Seq<(Seq<char>, Seq<u8>)>,
    name: Seq<char>,
)
    ensures
        untouched(without_header(hs, name), sets) == without_header(untouched(hs, sets), name),
    decreases sets.len(),
{
    if sets.len() > 0 {
        let rest = sets.drop_last();
        lemma_untouched_without(hs, rest, name);
        lemma_without_commutes(untouched(hs, rest), sets.last().0, name);
    }
}

/// Removing the names once more removes nothing.
proof fn lemma_untouched_again(
    hs: Seq<(Seq<char>, Seq<u8>)>,
    sets: Seq<(Seq<char>, Seq<u8>)>,
)
    ensures
        untouched(untouched(hs, sets), sets) == untouched(hs, sets),
    decreases sets.len(),
{
    if sets.len() > 0 {
        let rest = sets.drop_last();
        let name = sets.last().0;
        let u = untouched(hs, rest);
        lemma_untouched_again(hs, rest);
        lemma_untouched_without(u, rest, name);
        lemma_without_commutes(u, name, name);
    }
}

/// Removing all names from what was set leaves nothing.
proof fn lemma_untouched_of_sets(sets: Seq<(Seq<char>, Seq<u8>)>, extra: Seq<(Seq<char>, Seq<u8>)>)
    ensures
        untouched(set_headers(seq![], sets), sets + extra).len() == 0,
    decreases sets.len() + extra.len(),
{
    if extra.len() > 0 {
        lemma_untouched_of_sets(sets, extra.drop_last());
        assert((sets + extra).drop_last() =~= sets + extra.drop_last());
    } else if sets.len() > 0 {
        let rest = sets.drop_last();
        let (name, value) = sets.last();
        let before = set_headers(seq![], rest);
        assert(sets + extra =~= sets);
        assert(set_headers(seq![], sets) =~= without_header(before, name) + seq![(name, value)]);
        lemma_untouched_parts(without_header(before, name), seq![(name, value)], rest);
        lemma_untouched_without(before, rest, name);
        lemma_untouched_of_sets(rest, seq![]);
        assert(rest + Seq::<(Seq<char>, Seq<u8>)>::empty() =~= rest);
        assert(untouched(before, rest).len() == 0);
        assert(without_header(untouched(before, rest), name).len() == 0);
        lemma_untouched_len(seq![(name, value)], rest);
        let one = untouched(seq![(name, value)], rest);
        assert(untouched(set_headers(seq![], sets), rest) =~= one);
        lemma_untouched_subset(seq![(name, value)], rest);
        lemma_without_same(one, name);
    } else {
        assert(sets + extra =~= sets);
    }
}

/// Where all headers have this name, removing it leaves nothing.
proof fn lemma_without_same(hs: Seq<(Seq<char>, Seq<u8>)>, name: Seq<char>)
    requires
        forall|i: int| 0 <= i < hs.len() ==> (#[trigger] hs[i]).0 == name,
    ensures
        without_header(hs, name).len() == 0,
    decreases hs.len(),
{
    if hs.len() > 0 {
        assert(hs.last() == hs[hs.len() - 1]);
        lemma_without_same(hs.drop_last(), name);
    }
}

/// What is untouched was there before.
proof fn lemma_untouched_subset(
    hs: Seq<(Seq<char>, Seq<u8>)>,
    sets: Seq<(Seq<char>, Seq<u8>)>,
)
    ensures
        forall|i: int|
            0 <= i < untouched(hs, sets).len() ==> hs.contains(#[trigger] untouched(hs, sets)[i]),
    decreases sets.len(),
{
    if sets.len() > 0 {
        let u = untouched(hs, sets.drop_last());
        lemma_untouched_subset(hs, sets.drop_last());
        lemma_without_subset(u, sets.last().0);
        assert forall|i: int| 0 <= i < untouched(hs, sets).len() implies hs.contains(
            #[trigger] untouched(hs, sets)[i],
        ) by {
            let x = untouched(hs, sets)[i];
            assert(u.contains(x));
            let j = choose|j: int| 0 <= j < u.len() && u[j] == x;
            assert(hs.contains(u[j]));
        }
    } else {
        assert forall|i: int| 0 <= i < hs.len() implies hs.contains(#[trigger] untouched(hs, sets)[i]) by {
            assert(hs[i] == untouched(hs, sets)[i]);
        }
    }
}

/// What remains was there before.
proof fn lemma_without_subset(hs: Seq<(Seq<char>, Seq<u8>)>, name: Seq<char>)
    ensures
        forall|i: int|
            0 <= i < without_header(hs, name).len() ==> hs.contains(
                #[trigger] without_header(hs, name)[i],
            ),
    decreases hs.len(),
{
    if hs.len() > 0 {
        let rest = hs.drop_last();
        lemma_without_subset(rest, name);
        assert forall|i: int| 0 <= i < without_header(hs, name).len() implies hs.contains(
            #[trigger] without_header(hs, name)[i],
        ) by {
            let x = without_header(hs, name)[i];
            if i < without_header(rest, name).len() {
                assert(x == without_header(rest, name)[i]);
                assert(rest.contains(x));
                let j = choose|j: int| 0 <= j < rest.len() && rest[j] == x;
                assert(hs[j] == x);
            } else {
                assert(x == hs[hs.len() - 1]);
            }
        }
    }
}

/// Removing names makes no list longer.
proof fn lemma_untouched_len(hs: Seq<(Seq<char>, Seq<u8>)>, sets: Seq<(Seq<char>, Seq<u8>)>)
    ensures
        untouched(hs, sets).len() <= hs.len(),
    decreases sets.len(),
{
    if sets.len() > 0 {
        lemma_untouched_len(hs, sets.drop_last());
        lemma_without_len(untouched(hs, sets.drop_last()), sets.last().0);
    }
}

/// Removing a name makes no list longer.
proof fn lemma_without_len(hs: Seq<(Seq<char>, Seq<u8>)>, name: Seq<char>)
    ensures
        without_header(hs, name).len() <= hs.len(),
    decreases hs.len(),
{
    if hs.len() > 0 {
        lemma_without_len(hs.drop_last(), name);
    }
}

/// Removing names from a list in two parts.
proof fn lemma_untouched_parts(
    a: Seq<(Seq<char>, Seq<u8>)>,
    b: Seq<(Seq<char>, Seq<u8>)>,
    sets: Seq<(Seq<char>, Seq<u8>)>,
)
    ensures
        untouched(a + b, sets) == untouched(a, sets) + untouched(b, sets),
    decreases sets.len(),
{
    if sets.len() > 0 {
        lemma_untouched_parts(a, b, sets.drop_last());
        lemma_without_parts(
            untouched(a, sets.drop_last()),
            untouched(b, sets.drop_last()),
            sets.last().0,
        );
    }
}

/// Applying a rewrite a second time changes no header: what it sets, it
/// sets once.
pub proof fn law_headers_are_set_once(rewrite: RewriteView, headers: Seq<(Seq<char>, Seq<u8>)>)
    ensures
        set_headers(set_headers(headers, rewrite.sets()), rewrite.sets()) == set_headers(
            headers,
            rewrite.sets(),
        ),
{
    let sets = rewrite.sets();
    let fresh = set_headers(seq![], sets);
    law_headers_replace(headers, sets);
    law_headers_replace(set_headers(headers, sets), sets);
    lemma_untouched_parts(untouched(headers, sets), fresh, sets);
    lemma_untouched_again(headers, sets);
    lemma_untouched_of_sets(sets, seq![]);
    assert(sets + Seq::<(Seq<char>, Seq<u8>)>::empty() =~= sets);
    assert(untouched(fresh, sets) =~= Seq::<(Seq<char>, Seq<u8>)>::empty());
    assert(untouched(headers, sets) + untouched(fresh, sets) =~= untouched(headers, sets));
}

/// A rewrite that has nothing to inject changes nothing.
pub proof fn law_blank_rewrite_changes_nothing(head: HeadView)
    ensures
        (RewriteView { headers: seq![], params: seq![], auth: None }).applied(head) == head,
{
    let blank = RewriteView { headers: seq![], params: seq![], auth: None };
    assert(blank.sets() =~= Seq::<(Seq<char>, Seq<u8>)>::empty());
}

/// A header that was set has the value it was set to, and no other.
pub proof fn law_set_header_reads_back(
    hs: Seq<(Seq<char>, Seq<u8>)>,
    name: Seq<char>,
    value: Seq<u8>,
    i: int,
)
    requires
        0 <= i < set_header(hs, name, value).len(),
        set_header(hs, name, value)[i].0 == name,
    ensures
        set_header(hs, name, value)[i].1 == value,
        i == set_header(hs, name, value).len() - 1,
{
    lemma_without_none(hs, name);
}

/// What remains after removing a name does not have it.
proof fn lemma_without_none(hs: Seq<(Seq<char>, Seq<u8>)>, name: Seq<char>)
    ensures
        forall|i: int|
            0 <= i < without_header(hs, name).len() ==> (#[trigger] without_header(hs, name)[i]).0
                != name,
    decreases hs.len(),
{
    if hs.len() > 0 {
        let rest = without_header(hs.drop_last(), name);
        lemma_without_none(hs.drop_last(), name);
        assert forall|i: int| 0 <= i < without_header(hs, name).len() implies (
        #[trigger] without_header(hs, name)[i]).0 != name by {
            if i < rest.len() {
                assert(without_header(hs, name)[i] == rest[i]);
            }
        }
    }
}

/// A filter that a name does not pass does not see whether it is removed.
proof fn lemma_without_unseen(
    hs: Seq<(Seq<char>, Seq<u8>)>,
    name: Seq<char>,
    sees: spec_fn((Seq<char>, Seq<u8>)) -> bool,
)
    requires
        forall|h: (Seq<char>, Seq<u8>)| h.0 == name ==> !#[trigger] sees(h),
    ensures
        without_header(hs, name).filter(sees) == hs.filter(sees),
    decreases hs.len(),
{
    reveal(Seq::filter);
    if hs.len() > 0 {
        let rest = hs.drop_last();
        lemma_without_unseen(rest, name, sees);
        let w = without_header(rest, name);
        if hs.last().0 != name {
            assert(w.push(hs.last()).drop_last() =~= w);
            assert(w.push(hs.last()).last() == hs.last());
        }
    }
}

/// A filter that no set name passes does not see that they are set.
proof fn lemma_sets_unseen(
    hs: Seq<(Seq<char>, Seq<u8>)>,
    sets: Seq<(Seq<char>, Seq<u8>)>,
    sees: spec_fn((Seq<char>, Seq<u8>)) -> bool,
)
    requires
        forall|i: int, h: (Seq<char>, Seq<u8>)|
            0 <= i < sets.len() && h.0 == (#[trigger] sets[i]).0 ==> !#[trigger] sees(h),
    ensures
        set_headers(hs, sets).filter(sees) == hs.filter(sees),
    decreases sets.len(),
{
    reveal(Seq::filter);
    if sets.len() > 0 {
        let rest = sets.drop_last();
        let (name, value) = sets.last();
        assert(sets[sets.len() - 1] == sets.last());
        assert forall|i: int, h: (Seq<char>, Seq<u8>)|
            0 <= i < rest.len() && h.0 == (#[trigger] rest[i]).0 implies !#[trigger] sees(h) by {
            assert(rest[i] == sets[i]);
        }
        lemma_sets_unseen(hs, rest, sees);
        let before = set_headers(hs, rest);
        lemma_without_unseen(before, name, sees);
        let w = without_header(before, name);
        assert(w.push((name, value)).drop_last() =~= w);
        assert(w.push((name, value)).last() == (name, value));
    }
}

/// What is set is there once.
proof fn lemma_set_is_seen(
    hs: Seq<(Seq<char>, Seq<u8>)>,
    name: Seq<char>,
    value: Seq<u8>,
)
    ensures
        set_header(hs, name, value).filter(|h: (Seq<char>, Seq<u8>)| h.0 == name) == seq![
            (name, value),
        ],
{
    let sees = |h: (Seq<char>, Seq<u8>)| h.0 == name;
    let w = without_header(hs, name);
    reveal(Seq::filter);
    lemma_without_none(hs, name);
    lemma_filter_nothing(w, sees);
    assert(w.push((name, value)).drop_last() =~= w);
    assert(w.push((name, value)).last() == (name, value));
    assert(w.filter(sees).push((name, value)) =~= seq![(name, value)]);
}

/// A filter that nothing passes leaves nothing.
proof fn lemma_filter_nothing<A>(s: Seq<A>, keep: spec_fn(A) -> bool)
    requires
        forall|i: int| 0 <= i < s.len() ==> !keep(#[trigger] s[i]),
    ensures
        s.filter(keep) == Seq::<A>::empty(),
    decreases s.len(),
{
    reveal(Seq::filter);
    if s.len() > 0 {
        lemma_filter_nothing(s.drop_last(), keep);
        assert(s.last() == s[s.len() - 1]);
    } else {
        assert(s.filter(keep) =~= Seq::<A>::empty());
    }
}

/// Is this the name of a header that the rewrite may set?
pub open spec fn may_set(rewrite: RewriteView, name: Seq<char>) -> bool {
    ||| rewrite.auth is Some && name == "authorization"@
    ||| exists|i: int|
        0 <= i < rewrite.headers.len() && header_name_of((#[trigger] rewrite.headers[i]).0) == Some(
            name,
        )
}

/// What is set has a name that may be set, and a value that may be one.
proof fn lemma_accepted_names(headers: Seq<(Seq<char>, Seq<char>)>)
    ensures
        forall|i: int|
            0 <= i < accepted_headers(headers).len() ==> exists|k: int|
                0 <= k < headers.len() && header_name_of((#[trigger] headers[k]).0) == Some(
                    (#[trigger] accepted_headers(headers)[i]).0,
                ) && is_header_value(headers[k].1),
    decreases headers.len(),
{
    if headers.len() > 0 {
        let rest = headers.drop_last();
        lemma_accepted_names(rest);
        let all = accepted_headers(headers);
        let before = accepted_headers(rest);
        assert forall|i: int| 0 <= i < all.len() implies exists|k: int|
            0 <= k < headers.len() && header_name_of((#[trigger] headers[k]).0) == Some(
                (#[trigger] all[i]).0,
            ) && is_header_value(headers[k].1) by {
            if i < before.len() {
                assert(all[i] == before[i]);
                let k = choose|k: int|
                    0 <= k < rest.len() && header_name_of((#[trigger] rest[k]).0) == Some(
                        before[i].0,
                    ) && is_header_value(rest[k].1);
                assert(headers[k] == rest[k]);
            } else {
                let k = headers.len() - 1;
                assert(header_name_of(headers[k].0) == Some(all[i].0));
            }
        }
    }
}

/// Is this the name of a header that the rewrite sets: of a declared one
/// that can be a header, or that of credentials that can be the value of
/// one?
pub open spec fn sets_name(rewrite: RewriteView, name: Seq<char>) -> bool {
    ||| name == "authorization"@ && match rewrite.auth {
        Some(AuthView::Basic { username, password }) => is_header_value(
            "Basic "@ + base64_text(utf8(username + ":"@ + password)),
        ),
        Some(AuthView::Bearer { token }) => is_header_value("Bearer "@ + token),
        None => false,
    }
    ||| exists|i: int|
        0 <= i < rewrite.headers.len() && header_name_of((#[trigger] rewrite.headers[i]).0) == Some(
            name,
        ) && is_header_value(rewrite.headers[i].1)
}

/// What cannot be a header changes nothing: the client's headers of every
/// name that the rewrite does not set are there after it as before, also
/// where one of that name is declared and cannot be set.
pub proof fn law_refused_headers_change_nothing(rewrite: RewriteView, head: HeadView)
    ensures
        rewrite.applied(head).headers.filter(
            |h: (Seq<char>, Seq<u8>)| !sets_name(rewrite, h.0),
        ) == head.headers.filter(|h: (Seq<char>, Seq<u8>)| !sets_name(rewrite, h.0)),
{
    let sees = |h: (Seq<char>, Seq<u8>)| !sets_name(rewrite, h.0);
    let sets = rewrite.sets();
    let a = accepted_headers(rewrite.headers);
    lemma_accepted_names(rewrite.headers);
    assert forall|i: int, h: (Seq<char>, Seq<u8>)|
        0 <= i < sets.len() && h.0 == (#[trigger] sets[i]).0 implies !#[trigger] sees(h) by {
        if i < a.len() {
            assert(sets[i] == a[i]);
            let k = choose|k: int|
                0 <= k < rewrite.headers.len() && header_name_of((#[trigger] rewrite.headers[k]).0)
                    == Some(a[i].0) && is_header_value(rewrite.headers[k].1);
            assert(sets_name(rewrite, h.0));
        } else {
            assert(sets[i] == accepted_auth(rewrite.auth)[i - a.len()]);
        }
    }
    lemma_sets_unseen(head.headers, sets, sees);
}

/// The client's own headers stay: those that the rewrite has nothing to say
/// about are there after it as before, as often and in the same order.
pub proof fn law_own_headers_stay(rewrite: RewriteView, head: HeadView)
    ensures
        rewrite.applied(head).headers.filter(
            |h: (Seq<char>, Seq<u8>)| !may_set(rewrite, h.0),
        ) == head.headers.filter(|h: (Seq<char>, Seq<u8>)| !may_set(rewrite, h.0)),
{
    let sees = |h: (Seq<char>, Seq<u8>)| !may_set(rewrite, h.0);
    let sets = rewrite.sets();
    let a = accepted_headers(rewrite.headers);
    lemma_accepted_names(rewrite.headers);
    assert forall|i: int, h: (Seq<char>, Seq<u8>)|
        0 <= i < sets.len() && h.0 == (#[trigger] sets[i]).0 implies !#[trigger] sees(h) by {
        if i < a.len() {
            assert(sets[i] == a[i]);
            let k = choose|k: int|
                0 <= k < rewrite.headers.len() && header_name_of((#[trigger] rewrite.headers[k]).0)
                    == Some(a[i].0);
            assert(may_set(rewrite, h.0));
        } else {
            assert(sets[i] == accepted_auth(rewrite.auth)[i - a.len()]);
        }
    }
    lemma_sets_unseen(head.headers, sets, sees);
}

/// What is set among headers arrives, unless a later one of the same name
/// is set too.
proof fn lemma_header_arrives(
    hs: Seq<(Seq<char>, Seq<u8>)>,
    headers: Seq<(Seq<char>, Seq<char>)>,
    k: int,
    name: Seq<char>,
)
    requires
        0 <= k < headers.len(),
        header_name_of(headers[k].0) == Some(name),
        is_header_value(headers[k].1),
        forall|j: int|
            k < j < headers.len() ==> header_name_of((#[trigger] headers[j]).0) != Some(name)
                || !is_header_value(headers[j].1),
    ensures
        set_headers(hs, accepted_headers(headers)).filter(
            |h: (Seq<char>, Seq<u8>)| h.0 == name,
        ) == seq![(name, utf8(headers[k].1))],
    decreases headers.len(),
{
    let sees = |h: (Seq<char>, Seq<u8>)| h.0 == name;
    let rest = headers.drop_last();
    let before = accepted_headers(rest);
    let all = accepted_headers(headers);
    assert(headers.last() == headers[headers.len() - 1]);
    if k == headers.len() - 1 {
        assert(all.drop_last() =~= before);
        lemma_set_is_seen(set_headers(hs, before), name, utf8(headers[k].1));
    } else {
        assert(rest[k] == headers[k]);
        assert forall|j: int| k < j < rest.len() implies header_name_of((#[trigger] rest[j]).0)
            != Some(name) || !is_header_value(rest[j].1) by {
            assert(rest[j] == headers[j]);
        }
        lemma_header_arrives(hs, rest, k, name);
        if all != before {
            assert(all.drop_last() =~= before);
            let last = all.last();
            assert(last.0 != name);
            let was = set_headers(hs, before);
            lemma_without_unseen(was, last.0, sees);
            reveal(Seq::filter);
            let w = without_header(was, last.0);
            assert(w.push(last).drop_last() =~= w);
            assert(w.push(last).last() == last);
        }
    }
}

/// A declared header arrives: where its name and its value can be those of
/// a header, and none that is declared after it has the same name, the
/// request has it once, with the declared value; unless it is
/// `authorization`, for which credentials are declared.
pub proof fn law_declared_headers_arrive(
    rewrite: RewriteView,
    head: HeadView,
    k: int,
    name: Seq<char>,
)
    requires
        0 <= k < rewrite.headers.len(),
        header_name_of(rewrite.headers[k].0) == Some(name),
        is_header_value(rewrite.headers[k].1),
        forall|j: int|
            k < j < rewrite.headers.len() ==> header_name_of((#[trigger] rewrite.headers[j]).0)
                != Some(name) || !is_header_value(rewrite.headers[j].1),
        rewrite.auth is None || name != "authorization"@,
    ensures
        rewrite.applied(head).headers.filter(|h: (Seq<char>, Seq<u8>)| h.0 == name) == seq![
            (name, utf8(rewrite.headers[k].1)),
        ],
{
    let sees = |h: (Seq<char>, Seq<u8>)| h.0 == name;
    let a = accepted_headers(rewrite.headers);
    let b = accepted_auth(rewrite.auth);
    lemma_header_arrives(head.headers, rewrite.headers, k, name);
    lemma_set_in_parts(head.headers, a, b);
    lemma_sets_unseen(set_headers(head.headers, a), b, sees);
}

/// Declared credentials arrive: the request has one `authorization` header,
/// with the user name and the password in Base64 or with the token, where
/// that can be the value of a header.
pub proof fn law_declared_credentials_arrive(rewrite: RewriteView, head: HeadView)
    ensures
        rewrite.auth matches Some(AuthView::Basic { username, password }) ==> is_header_value(
            "Basic "@ + base64_text(utf8(username + ":"@ + password)),
        ) ==> rewrite.applied(head).headers.filter(
            |h: (Seq<char>, Seq<u8>)| h.0 == "authorization"@,
        ) == seq![
            (
                "authorization"@,
                utf8("Basic "@ + base64_text(utf8(username + ":"@ + password))),
            ),
        ],
        rewrite.auth matches Some(AuthView::Bearer { token }) ==> is_header_value(
            "Bearer "@ + token,
        ) ==> rewrite.applied(head).headers.filter(
            |h: (Seq<char>, Seq<u8>)| h.0 == "authorization"@,
        ) == seq![("authorization"@, utf8("Bearer "@ + token))],
{
    let a = accepted_headers(rewrite.headers);
    let b = accepted_auth(rewrite.auth);
    lemma_set_in_parts(head.headers, a, b);
    let was = set_headers(head.headers, a);
    if b.len() > 0 {
        assert(b.drop_last() =~= Seq::<(Seq<char>, Seq<u8>)>::empty());
        assert(set_headers(was, b.drop_last()) == was);
        let name = "authorization"@;
        lemma_set_is_seen(was, name, b.last().1);
        assert((|h: (Seq<char>, Seq<u8>)| h.0 == name) =~= (|h: (Seq<char>, Seq<u8>)|
            h.0 == "authorization"@));
    }
}

/// The parameters get into the URI: where the URL library finds a path and
/// a query in it, what the HTTP library makes of the same URI with that
/// path and the merged query is the result; the origin that is put in
/// front of a URI without one is used for nothing else.
pub proof fn law_parameters_get_into_the_uri(
    rewrite: RewriteView,
    head: HeadView,
    path: Seq<char>,
    query: Option<Seq<char>>,
    merged: Seq<char>,
)
    requires
        rewrite.params.len() > 0,
        uri_is_absolute(head.uri) ==> url_target(head.uri) == Some((path, query)),
        !uri_is_absolute(head.uri) ==> url_target("http://sandbox.invalid"@ + head.uri) == Some(
            (path, query),
        ),
        merged_query(query, rewrite.params) == Some(merged),
    ensures
        uri_with_target(head.uri, path + "?"@ + merged) matches Some(u) ==> rewrite.applied(
            head,
        ).uri == u,
        uri_with_target(head.uri, path + "?"@ + merged) is None ==> rewrite.applied(head).uri
            == head.uri,
{
}

} // verus!
