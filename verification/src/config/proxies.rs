//! The destinations that the proxy knows, and the rule for all others.

use crate::config::proxy::{Proxy, ProxyAction, ProxyDecl, ProxyView};
use crate::config::resolve_context::{ContextView, ResolveContext};
use crate::config::{
    finalized, resolve_all, resolved_all, validate_all, validated_all, Decl, Finalize, Merge,
};
use crate::errors::{ErrorView, Result};
use crate::host::{Host, HostView};
use crate::name_map::{ascending, lemma_map_of, lemma_walk_of, map_of, walk_of, NameMap};
use crate::values::{duplicate_all, views, Duplicate};
use vstd::prelude::*;
use vstd::string::*;

verus! {

// ---------------------------------------------------------------------
// Declarations
// ---------------------------------------------------------------------
/// The declared destinations, of one profile or of the command line.
#[derive(Debug)]
pub struct ProxyDecls {
    /// The rule for destinations that are not declared. Absent, an
    /// earlier layer decides.
    pub public_web: Option<ProxyAction>,
    /// The destinations, in the order in which they were declared.
    pub proxies: Vec<ProxyDecl>,
}

/// What [`ProxyDecls`] say.
#[verifier::ext_equal]
pub struct ProxyDeclsView {
    pub public_web: Option<ProxyAction>,
    pub proxies: Seq<ProxyView>,
}

impl View for ProxyDecls {
    type V = ProxyDeclsView;

    open spec fn view(&self) -> ProxyDeclsView {
        ProxyDeclsView { public_web: self.public_web, proxies: views(self.proxies@) }
    }
}

impl Duplicate for ProxyDecls {
    fn duplicate(&self) -> (r: ProxyDecls) {
        ProxyDecls { public_web: self.public_web, proxies: duplicate_all(&self.proxies) }
    }
}

impl Default for ProxyDecls {
    /// No destinations.
    fn default() -> (r: ProxyDecls)
        ensures
            r@ == (ProxyDeclsView { public_web: None, proxies: seq![] }),
    {
        let r = ProxyDecls { public_web: None, proxies: Vec::new() };
        assert(r@.proxies =~= Seq::<ProxyView>::empty());
        r
    }
}

/// The destinations by host; a later one of a host replaces an earlier
/// one.
pub open spec fn by_host(proxies: Seq<ProxyView>) -> Map<Seq<char>, ProxyView>
    decreases proxies.len(),
{
    if proxies.len() == 0 {
        Map::empty()
    } else {
        by_host(proxies.drop_last()).insert(proxies.last().host, proxies.last())
    }
}

impl Decl for ProxyDecls {
    type Resolved = Proxies;

    open spec fn validated(me: ProxyDeclsView, host: HostView) -> Result<(), ErrorView> {
        validated_all::<ProxyDecl>(me.proxies, host)
    }

    open spec fn resolved(me: ProxyDeclsView, ctx: ContextView) -> Result<ProxiesView, ErrorView> {
        match resolved_all::<ProxyDecl>(me.proxies, ctx) {
            Ok(proxies) => Ok(
                ProxiesView { public_web: me.public_web, proxies: by_host(proxies) },
            ),
            Err(e) => Err(e),
        }
    }

    fn validate(&self, host: &Host) -> (r: Result<()>) {
        validate_all(&self.proxies, host)
    }

    fn resolve(&self, ctx: &ResolveContext) -> (r: Result<Proxies>) {
        match resolve_all(&self.proxies, ctx) {
            Ok(proxies) => Ok(Proxies::with_entries(self.public_web, proxies)),
            Err(e) => Err(e),
        }
    }
}

// ---------------------------------------------------------------------
// Destinations
// ---------------------------------------------------------------------
/// The destinations by host, and the rule for all others.
pub struct Proxies {
    /// The rule for other destinations. Once finalized there always is
    /// one.
    pub public_web: Option<ProxyAction>,
    /// The destinations.
    pub proxies: NameMap<Proxy>,
}

/// What [`Proxies`] say.
#[verifier::ext_equal]
pub struct ProxiesView {
    pub public_web: Option<ProxyAction>,
    pub proxies: Map<Seq<char>, ProxyView>,
}

impl View for Proxies {
    type V = ProxiesView;

    open spec fn view(&self) -> ProxiesView {
        ProxiesView { public_web: self.public_web, proxies: self.proxies@ }
    }
}

impl Duplicate for Proxies {
    fn duplicate(&self) -> (r: Proxies) {
        Proxies { public_web: self.public_web, proxies: self.proxies.copy() }
    }
}

impl Default for Proxies {
    /// No destinations, and no rule.
    fn default() -> (r: Proxies)
        ensures
            r@ == Proxies::neutral_view(),
    {
        Proxies::neutral()
    }
}

impl ProxiesView {
    /// The destinations, in alphabetical order of their hosts.
    pub open spec fn in_order(self) -> Seq<ProxyView> {
        walk_of(self.proxies).map_values(|e: (Seq<char>, ProxyView)| e.1)
    }

    /// Is traffic to `host` let through? What is declared for the host
    /// decides; otherwise the rule for other destinations; where there is
    /// none, it is not.
    pub open spec fn allows(self, host: Seq<char>) -> bool {
        if self.proxies.contains_key(host) {
            self.proxies[host].action == ProxyAction::Allow
        } else {
            self.public_web == Some(ProxyAction::Allow)
        }
    }

    /// Is a proxy needed at all? It is where the public web may be
    /// reached, or else where some declared destination may.
    pub open spec fn needs_server(self) -> bool {
        ||| self.public_web == Some(ProxyAction::Allow)
        ||| exists|host: Seq<char>|
            self.proxies.contains_key(host) && (#[trigger] self.proxies[host]).action
                == ProxyAction::Allow
    }
}

/// What a destination may show of itself in a log: no header, parameter
/// or credential.
pub open spec fn route_of(p: ProxyView) -> (Seq<char>, u16, ProxyAction) {
    (p.host, p.port, p.action)
}

impl Proxies {
    /// The destinations, in the order in which they are walked.
    pub open spec fn entries(&self) -> Seq<(Seq<char>, ProxyView)> {
        self.proxies.entries()
    }

    /// The given destinations by host; a later one of a host replaces an
    /// earlier one.
    pub fn with_entries(public_web: Option<ProxyAction>, entries: Vec<Proxy>) -> (r: Proxies)
        ensures
            r@ == (ProxiesView { public_web, proxies: by_host(views(entries@)) }),
    {
        let ghost all = views(entries@);
        let mut proxies: NameMap<Proxy> = NameMap::new();
        let mut i: usize = 0;
        while i < entries.len()
            invariant
                i <= entries@.len(),
                all == views(entries@),
                proxies@ == by_host(all.take(i as int)),
            decreases entries.len() - i,
        {
            proof {
                assert(all.take(i + 1).drop_last() =~= all.take(i as int));
                assert(all.take(i + 1).last() == entries@[i as int]@);
            }
            proxies.set(entries[i].host.clone(), entries[i].duplicate());
            i = i + 1;
        }
        assert(all.take(all.len() as int) =~= all);
        Proxies { public_web, proxies }
    }

    /// The destinations, in alphabetical order of their hosts.
    pub fn iter(&self) -> (r: Vec<Proxy>)
        ensures
            views(r@) == self@.in_order(),
    {
        let n = self.proxies.len();
        let mut out: Vec<Proxy> = Vec::new();
        let mut i: usize = 0;
        while i < n
            invariant
                i <= n,
                n == self.entries().len(),
                out@.len() == i,
                forall|j: int| 0 <= j < i ==> (#[trigger] out@[j])@ == self.entries()[j].1,
            decreases n - i,
        {
            out.push(self.proxies.value_at(i).duplicate());
            i = i + 1;
        }
        proof {
            lemma_walk_of(self.entries());
        }
        assert(views(out@) =~= self@.in_order());
        out
    }

    /// Is there no destination?
    pub fn is_empty(&self) -> (r: bool)
        ensures
            r == (self@.proxies == Map::<Seq<char>, ProxyView>::empty()),
    {
        self.proxies.is_empty()
    }

    /// What is declared for `host`, which must be in the shape in which it
    /// is looked up.
    pub fn get(&self, host: &str) -> (r: Option<&Proxy>)
        ensures
            r is Some <==> self@.proxies.contains_key(host@),
            r matches Some(p) ==> p@ == self@.proxies[host@],
    {
        self.proxies.get(host)
    }

    /// The rule for destinations that are not declared, which finalized
    /// destinations have.
    pub fn public_web(&self) -> (r: Result<ProxyAction>)
        requires
            self@.public_web is Some,
        ensures
            r matches Ok(a) && Some(a) == self@.public_web,
    {
        match self.public_web {
            Some(action) => Ok(action),
            None => Ok(ProxyAction::Deny),
        }
    }

    /// Is traffic to `host`, in the shape in which it is looked up, let
    /// through?
    pub fn should_allow(&self, host: &str) -> (r: bool)
        ensures
            r == self@.allows(host@),
    {
        match self.proxies.get(host) {
            Some(proxy) => proxy.action == ProxyAction::Allow,
            None => match self.public_web {
                Some(ProxyAction::Allow) => true,
                _ => false,
            },
        }
    }

    /// Is a proxy needed at all? It is where the public web may be
    /// reached, or else where some declared destination may.
    pub fn is_proxy_server_needed(&self) -> (r: Result<bool>)
        requires
            self@.public_web is Some,
        ensures
            r matches Ok(b) && b == self@.needs_server(),
    {
        match self.public_web {
            Some(ProxyAction::Allow) => {
                return Ok(true);
            },
            _ => {},
        }
        let n = self.proxies.len();
        let ghost e = self.entries();
        let mut i: usize = 0;
        while i < n
            invariant
                i <= n,
                n == e.len(),
                e == self.entries(),
                ascending(e),
                forall|j: int| 0 <= j < i ==> (#[trigger] e[j]).1.action != ProxyAction::Allow,
            decreases n - i,
        {
            if self.proxies.value_at(i).action == ProxyAction::Allow {
                proof {
                    lemma_map_of(e, i as int);
                    assert(self@.proxies.contains_key(e[i as int].0));
                    assert(self@.proxies[e[i as int].0].action == ProxyAction::Allow);
                }
                return Ok(true);
            }
            i = i + 1;
        }
        proof {
            assert forall|host: Seq<char>| self@.proxies.contains_key(host) implies (
            #[trigger] self@.proxies[host]).action != ProxyAction::Allow by {
                crate::name_map::lemma_map_of_domain(e, host);
                let k = choose|k: int| 0 <= k < e.len() && (#[trigger] e[k]).0 == host;
                assert(0 <= k < e.len() && e[k].0 == host);
                lemma_map_of(e, k);
            }
        }
        Ok(false)
    }

    /// What a log may hold of the destinations: the rule for the others,
    /// and of each the host, the port and the action.
    pub fn routing_summary(&self) -> (r: (Option<ProxyAction>, Vec<(String, u16, ProxyAction)>))
        ensures
            r.0 == self@.public_web,
            r.1@.map_values(|t: (String, u16, ProxyAction)| (t.0@, t.1, t.2))
                == self@.in_order().map_values(|p: ProxyView| route_of(p)),
    {
        let n = self.proxies.len();
        let mut out: Vec<(String, u16, ProxyAction)> = Vec::new();
        let mut i: usize = 0;
        while i < n
            invariant
                i <= n,
                n == self.entries().len(),
                out@.len() == i,
                forall|j: int|
                    0 <= j < i ==> ((#[trigger] out@[j]).0@, out@[j].1, out@[j].2) == route_of(
                        self.entries()[j].1,
                    ),
            decreases n - i,
        {
            let p = self.proxies.value_at(i);
            out.push((p.host.clone(), p.port, p.action));
            i = i + 1;
        }
        proof {
            lemma_walk_of(self.entries());
            assert(out@.map_values(|t: (String, u16, ProxyAction)| (t.0@, t.1, t.2))
                =~= self@.in_order().map_values(|p: ProxyView| route_of(p)));
        }
        (self.public_web, out)
    }
}

impl Merge for Proxies {
    open spec fn neutral_view() -> ProxiesView {
        ProxiesView { public_web: None, proxies: Map::empty() }
    }

    /// Where both have a host, `b` decides; the rule of `b` where it has
    /// one.
    open spec fn merged(a: ProxiesView, b: ProxiesView) -> ProxiesView {
        ProxiesView {
            public_web: if b.public_web is Some {
                b.public_web
            } else {
                a.public_web
            },
            proxies: a.proxies.union_prefer_right(b.proxies),
        }
    }

    proof fn law_neutral(a: ProxiesView) {
        assert(Map::<Seq<char>, ProxyView>::empty().union_prefer_right(a.proxies) =~= a.proxies);
        assert(a.proxies.union_prefer_right(Map::empty()) =~= a.proxies);
    }

    proof fn law_associative(a: ProxiesView, b: ProxiesView, c: ProxiesView) {
        assert(a.proxies.union_prefer_right(b.proxies).union_prefer_right(c.proxies)
            =~= a.proxies.union_prefer_right(b.proxies.union_prefer_right(c.proxies)));
    }

    fn neutral() -> (r: Proxies) {
        Proxies { public_web: None, proxies: NameMap::new() }
    }

    fn merge_right_biased(&self, other: &Proxies) -> (r: Proxies) {
        let mut proxies = self.proxies.copy();
        proxies.set_all(&other.proxies);
        let public_web = if other.public_web.is_some() {
            other.public_web
        } else {
            self.public_web
        };
        Proxies { public_web, proxies }
    }
}

impl Finalize for Proxies {
    /// The public web may be reached unless someone says otherwise.
    open spec fn base(me: ProxiesView, host: HostView) -> ProxiesView {
        ProxiesView { public_web: Some(ProxyAction::Allow), proxies: Map::empty() }
    }

    open spec fn cleared(me: ProxiesView) -> ProxiesView {
        me
    }

    fn base_config(&self, host: &Host) -> (r: Proxies) {
        Proxies { public_web: Some(ProxyAction::Allow), proxies: NameMap::new() }
    }

    fn clear_extra_fields(&mut self) {
    }
}

// ---------------------------------------------------------------------
// Laws
// ---------------------------------------------------------------------
/// Finalized destinations always have a rule for the others: the one that
/// was declared, or else that they may be reached.
pub proof fn law_finalized_has_rule(me: ProxiesView, host: HostView)
    ensures
        finalized::<Proxies>(me, host).public_web == Some(
            match me.public_web {
                Some(a) => a,
                None => ProxyAction::Allow,
            },
        ),
        finalized::<Proxies>(me, host).proxies == me.proxies,
{
    assert(Map::<Seq<char>, ProxyView>::empty().union_prefer_right(me.proxies) =~= me.proxies);
}

/// A host that is declared is treated as declared, whatever the rule for
/// the others; one that is not follows the rule.
pub proof fn law_declared_hosts_decide(me: ProxiesView, host: Seq<char>)
    ensures
        me.proxies.contains_key(host) ==> (me.allows(host) <==> me.proxies[host].action
            == ProxyAction::Allow),
        !me.proxies.contains_key(host) ==> (me.allows(host) <==> me.public_web == Some(
            ProxyAction::Allow,
        )),
{
}

/// Without a rule only what was explicitly let through may be reached.
pub proof fn law_unknown_is_denied(me: ProxiesView, host: Seq<char>)
    requires
        me.public_web is None,
        me.allows(host),
    ensures
        me.proxies.contains_key(host),
{
}

/// Where no proxy is needed, nothing may be reached: leaving it out
/// closes nothing that was open.
pub proof fn law_unneeded_proxy_reaches_nothing(me: ProxiesView, host: Seq<char>)
    requires
        !me.needs_server(),
    ensures
        !me.allows(host),
{
}

/// Every destination stands under its own host.
pub proof fn law_by_host_keys(proxies: Seq<ProxyView>, host: Seq<char>)
    requires
        by_host(proxies).contains_key(host),
    ensures
        by_host(proxies)[host].host == host,
        proxies.contains(by_host(proxies)[host]),
    decreases proxies.len(),
{
    if proxies.len() > 0 {
        if host != proxies.last().host {
            law_by_host_keys(proxies.drop_last(), host);
            let p = by_host(proxies.drop_last())[host];
            let i = choose|i: int| 0 <= i < proxies.len() - 1 && proxies.drop_last()[i] == p;
            assert(proxies[i] == p);
        } else {
            assert(proxies[proxies.len() - 1] == proxies.last());
        }
    }
}

/// Of the destinations of one host the last counts, as a whole, and those
/// of other hosts are not touched by it.
pub proof fn law_last_of_a_host_counts(proxies: Seq<ProxyView>, i: int)
    requires
        0 <= i < proxies.len(),
        forall|j: int| i < j < proxies.len() ==> (#[trigger] proxies[j]).host != proxies[i].host,
    ensures
        by_host(proxies).contains_key(proxies[i].host),
        by_host(proxies)[proxies[i].host] == proxies[i],
    decreases proxies.len(),
{
    let n = proxies.len() - 1;
    if i < n {
        let fewer = proxies.drop_last();
        assert(proxies[n].host != proxies[i].host);
        assert forall|j: int| i < j < fewer.len() implies (#[trigger] fewer[j]).host
            != fewer[i].host by {
            assert(fewer[j] == proxies[j]);
        }
        law_last_of_a_host_counts(fewer, i);
    }
}

/// Where two layers meet, a host that the later one declares is treated as
/// that one says, any other as the earlier one says; and the rule for other
/// destinations is the later one's, where it has one.
pub proof fn law_later_declarations_win(a: ProxiesView, b: ProxiesView, host: Seq<char>)
    ensures
        ({
            let both = Proxies::merged(a, b);
            &&& b.proxies.contains_key(host) ==> both.proxies.contains_key(host)
                && both.proxies[host] == b.proxies[host]
            &&& !b.proxies.contains_key(host) && a.proxies.contains_key(host)
                ==> both.proxies.contains_key(host) && both.proxies[host] == a.proxies[host]
            &&& !b.proxies.contains_key(host) && !a.proxies.contains_key(host)
                ==> !both.proxies.contains_key(host)
            &&& b.public_web is Some ==> both.public_web == b.public_web
            &&& b.public_web is None ==> both.public_web == a.public_web
        }),
{
}

/// No proxy is started where nothing may be reached through it: the public
/// web is closed and so is every declared destination.
pub proof fn law_closed_destinations_need_no_proxy(me: ProxiesView)
    requires
        me.public_web != Some(ProxyAction::Allow),
        forall|host: Seq<char>|
            me.proxies.contains_key(host) ==> (#[trigger] me.proxies[host]).action
                == ProxyAction::Deny,
    ensures
        !me.needs_server(),
{
}

/// A log line shows where a destination is and whether it may be reached,
/// and nothing of what is injected there.
pub proof fn law_logs_hold_no_secrets(p: ProxyView, q: ProxyView)
    requires
        p.host == q.host,
        p.port == q.port,
        p.action == q.action,
    ensures
        route_of(p) == route_of(q),
        route_of(p) == (p.host, p.port, p.action),
{
}

/// The destinations are walked in the order of their hosts, each once.
pub proof fn law_destinations_are_walked_in_order(
    e: Seq<(Seq<char>, ProxyView)>,
    public_web: Option<ProxyAction>,
)
    requires
        ascending(e),
    ensures
        ({
            let me = ProxiesView { public_web, proxies: map_of(e) };
            &&& me.in_order().len() == e.len()
            &&& forall|i: int| 0 <= i < e.len() ==> me.in_order()[i] == (#[trigger] e[i]).1
        }),
{
    lemma_walk_of(e);
}

} // verus!
