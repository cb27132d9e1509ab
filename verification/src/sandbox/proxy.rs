//! What the proxy does with a request, and what it contributes to the
//! sandbox.
//!
//! The sandbox cannot reach anything but the ports that are forwarded into
//! it. One of them is the proxy's, which decides for each request whether
//! it goes out, and puts credentials into those that need them. The
//! sandbox never sees the credentials.

use crate::config::env_vars::{EnvVars, EnvVarsView};
use crate::config::forward::ForwardView;
use crate::config::forwards::{Forwards, ForwardsView};
use crate::config::mounts::Mounts;
use crate::config::profile::{Profile, ProfileView};
use crate::config::proxies::{Proxies, ProxiesView};
use crate::config::proxy::{ProxyAction, ProxyView};
use crate::config::Merge;
use crate::hostname::normalize_hostname;
use crate::sandbox::rewrite::{Rewrite, RewriteView};
use crate::text::{bytes_of, cat3, decimal, decimal_text, lowercase, utf8};
use vstd::prelude::*;
use vstd::string::*;

verus! {

// ---------------------------------------------------------------------
// Requests
// ---------------------------------------------------------------------
/// What the proxy does with a request.
pub enum Routing {
    /// Answer it without passing it on.
    Deny(DenyResponse),
    /// Pass it on as it is.
    Forward,
    /// Inject credentials and pass it on.
    Inject(Rewrite),
}

/// The answer to a request that is not passed on.
#[derive(Debug)]
pub struct DenyResponse {
    /// The HTTP status.
    pub status: u16,
    /// The value of the `Via` header.
    pub via: String,
    /// The text.
    pub body: String,
}

/// What a [`DenyResponse`] says.
#[verifier::ext_equal]
pub struct DenyView {
    pub status: u16,
    pub via: Seq<char>,
    pub body: Seq<char>,
}

/// What a [`Routing`] says.
#[verifier::ext_equal]
pub enum RoutingView {
    Deny(DenyView),
    Forward,
    Inject(RewriteView),
}

impl View for DenyResponse {
    type V = DenyView;

    open spec fn view(&self) -> DenyView {
        DenyView { status: self.status, via: self.via@, body: self.body@ }
    }
}

impl View for Routing {
    type V = RoutingView;

    open spec fn view(&self) -> RoutingView {
        match self {
            Routing::Deny(d) => RoutingView::Deny(d@),
            Routing::Forward => RoutingView::Forward,
            Routing::Inject(r) => RoutingView::Inject(r@),
        }
    }
}

/// The HTTP status of a refusal.
pub const FORBIDDEN: u16 = 403;

/// The answer to a request for `host` that is not passed on.
pub open spec fn denial(host: Seq<char>) -> DenyView {
    DenyView {
        status: FORBIDDEN,
        via: "1.1 redoubtful-proxy"@,
        body: "Access to "@ + host + " is denied by redoubtful proxy configuration.\n"@,
    }
}

/// What is injected for `key`, if anything is.
pub open spec fn injection(proxies: ProxiesView, key: Seq<char>) -> Option<RewriteView> {
    if proxies.proxies.contains_key(key) && proxies.proxies[key].injects() {
        let p = proxies.proxies[key];
        Some(RewriteView { headers: p.headers, params: p.params, auth: p.auth })
    } else {
        None
    }
}

/// What the proxy does with a request for the host that is looked up as
/// `key` and was written as `shown`. A tunnel, which `connect` asks for, is
/// never looked into.
pub open spec fn routed(
    proxies: ProxiesView,
    shown: Seq<char>,
    key: Seq<char>,
    connect: bool,
) -> RoutingView {
    if key.len() == 0 || !proxies.allows(key) {
        RoutingView::Deny(denial(shown))
    } else if connect {
        RoutingView::Forward
    } else {
        match injection(proxies, key) {
            Some(r) => RoutingView::Inject(r),
            None => RoutingView::Forward,
        }
    }
}

/// What the proxy does with a request. One that names no host is refused.
pub open spec fn routed_request(
    proxies: ProxiesView,
    host: Option<Seq<char>>,
    connect: bool,
) -> RoutingView {
    match host {
        Some(h) => routed(proxies, h, lowercase(h), connect),
        None => RoutingView::Deny(denial("unknown"@)),
    }
}

/// The answer to a request for `host` that is not passed on.
pub fn deny_response(host: &str) -> (r: DenyResponse)
    ensures
        r@ == denial(host@),
{
    DenyResponse {
        status: FORBIDDEN,
        via: "1.1 redoubtful-proxy".to_owned(),
        body: cat3("Access to ", host, " is denied by redoubtful proxy configuration.\n"),
    }
}

/// What the proxy does with a request for the host that is looked up as
/// `key` and was written as `shown`.
pub fn route(proxies: &Proxies, shown: &str, key: &str, connect: bool) -> (r: Routing)
    ensures
        r@ == routed(proxies@, shown@, key@, connect),
{
    if key.is_empty() || !proxies.should_allow(key) {
        return Routing::Deny(deny_response(shown));
    }
    if connect {
        return Routing::Forward;
    }
    match proxies.get(key) {
        Some(proxy) => match Rewrite::from_proxy(proxy) {
            Some(rewrite) => Routing::Inject(rewrite),
            None => Routing::Forward,
        },
        None => Routing::Forward,
    }
}

/// What the proxy does with a request, given the host that it names, if it
/// names one, and whether it asks for a tunnel.
pub fn handle_request(proxies: &Proxies, host: Option<&str>, connect: bool) -> (r: Routing)
    ensures
        r@ == routed_request(
            proxies@,
            match host {
                Some(h) => Some(h@),
                None => None,
            },
            connect,
        ),
{
    match host {
        Some(h) => {
            let key = normalize_hostname(h);
            route(proxies, h, key.as_str(), connect)
        },
        None => Routing::Deny(deny_response("unknown")),
    }
}

// ---------------------------------------------------------------------
// The sandbox
// ---------------------------------------------------------------------
/// Where the proxy is, seen from the sandbox.
pub open spec fn proxy_url(port: u16) -> Seq<char> {
    "http://127.0.0.1:"@ + decimal(port as nat)
}

/// What must not go through the proxy.
pub const NO_PROXY: &'static str = "localhost,127.0.0.1";

/// The variables by which programs find the proxy.
pub open spec fn proxy_vars(port: u16) -> Map<Seq<char>, Seq<u8>> {
    let url = utf8(proxy_url(port));
    Map::empty().insert("HTTPS_PROXY"@, url).insert("https_proxy"@, url).insert(
        "HTTP_PROXY"@,
        url,
    ).insert("http_proxy"@, url).insert("ALL_PROXY"@, url).insert("all_proxy"@, url).insert(
        "NO_PROXY"@,
        utf8(NO_PROXY@),
    ).insert("no_proxy"@, utf8(NO_PROXY@))
}

/// The variables by which programs find the proxy.
pub fn proxy_env_vars(port: u16) -> (r: EnvVars)
    ensures
        r@ == (EnvVarsView { vars: proxy_vars(port), path: None, path_add: seq![] }),
{
    let mut url = "http://127.0.0.1:".to_owned();
    url.append(decimal_text(port as u64).as_str());
    let mut env = EnvVars::default();
    env.set("HTTPS_PROXY", bytes_of(url.as_str()));
    env.set("https_proxy", bytes_of(url.as_str()));
    env.set("HTTP_PROXY", bytes_of(url.as_str()));
    env.set("http_proxy", bytes_of(url.as_str()));
    env.set("ALL_PROXY", bytes_of(url.as_str()));
    env.set("all_proxy", bytes_of(url.as_str()));
    env.set("NO_PROXY", bytes_of(NO_PROXY));
    env.set("no_proxy", bytes_of(NO_PROXY));
    env
}

/// What the proxy on `port` contributes to the sandbox: a forward of its
/// port, and the variables by which programs find it.
pub open spec fn proxy_contribution(port: u16) -> ProfileView {
    ProfileView {
        mounts: Mounts::neutral_view(),
        forwards: ForwardsView {
            forwards: seq![ForwardView { host_port: port, sandbox_port: port }],
        },
        env: EnvVarsView { vars: proxy_vars(port), path: None, path_add: seq![] },
        proxies: Proxies::neutral_view(),
    }
}

/// What the proxy on `port` contributes to the sandbox.
pub fn proxy_profile(port: u16) -> (r: Profile)
    ensures
        r@ == proxy_contribution(port),
{
    let mut forwards = Forwards::default();
    forwards.forward(port, port);
    assert(forwards@.forwards =~= seq![ForwardView { host_port: port, sandbox_port: port }]);
    Profile {
        mounts: Mounts::default(),
        forwards,
        env: proxy_env_vars(port),
        proxies: Proxies::default(),
    }
}

// ---------------------------------------------------------------------
// Laws
// ---------------------------------------------------------------------
/// Only what the configuration lets through goes out, and all of it does.
pub proof fn law_routing_follows_configuration(
    proxies: ProxiesView,
    shown: Seq<char>,
    key: Seq<char>,
    connect: bool,
)
    requires
        key.len() > 0,
    ensures
        routed(proxies, shown, key, connect) is Deny <==> !proxies.allows(key),
{
}

/// A refused request is answered with the refusal and nothing else.
pub proof fn law_refusals_name_the_host(
    proxies: ProxiesView,
    host: Option<Seq<char>>,
    connect: bool,
)
    ensures
        routed_request(proxies, host, connect) matches RoutingView::Deny(d) ==> d == denial(
            match host {
                Some(h) => h,
                None => "unknown"@,
            },
        ) && d.status == 403,
{
}

/// Credentials go to the host they were declared for, and only where that
/// host may be reached; never into a tunnel.
pub proof fn law_credentials_stay_with_their_host(
    proxies: ProxiesView,
    host: Option<Seq<char>>,
    connect: bool,
)
    ensures
        routed_request(proxies, host, connect) matches RoutingView::Inject(r) ==> {
            &&& !connect
            &&& host is Some
            &&& proxies.proxies.contains_key(lowercase(host->0))
            &&& proxies.proxies[lowercase(host->0)].action == ProxyAction::Allow
            &&& r.headers == proxies.proxies[lowercase(host->0)].headers
            &&& r.params == proxies.proxies[lowercase(host->0)].params
            &&& r.auth == proxies.proxies[lowercase(host->0)].auth
        },
{
}

/// Declared credentials are never left out: a request for a declared host
/// that may be reached, and that has a header, a parameter or credentials
/// to inject, is passed on with exactly those, unless it is a tunnel.
pub proof fn law_declared_credentials_are_injected(
    proxies: ProxiesView,
    host: Seq<char>,
    p: ProxyView,
)
    requires
        lowercase(host).len() > 0,
        proxies.proxies.contains_key(lowercase(host)),
        proxies.proxies[lowercase(host)] == p,
        p.action == ProxyAction::Allow,
    ensures
        p.headers.len() > 0 || p.params.len() > 0 || p.auth is Some ==> routed_request(
            proxies,
            Some(host),
            false,
        ) == RoutingView::Inject(
            RewriteView { headers: p.headers, params: p.params, auth: p.auth },
        ),
        p.headers.len() == 0 && p.params.len() == 0 && p.auth is None ==> routed_request(
            proxies,
            Some(host),
            false,
        ) == RoutingView::Forward,
        routed_request(proxies, Some(host), true) == RoutingView::Forward,
{
}

/// Every request has one of these fates: one without a host is refused; one
/// for a declared host is refused or passed on as its action says; one for
/// another host as the rule for the public web says, and without a rule it
/// is refused. A refusal has status 403 and says which host it was.
pub proof fn law_every_request_is_decided(
    proxies: ProxiesView,
    host: Option<Seq<char>>,
    connect: bool,
)
    ensures
        host is None ==> routed_request(proxies, host, connect) is Deny,
        host matches Some(h) ==> lowercase(h).len() == 0 ==> routed_request(proxies, host, connect)
            is Deny,
        host matches Some(h) ==> lowercase(h).len() > 0 && proxies.proxies.contains_key(
            lowercase(h),
        ) ==> (routed_request(proxies, host, connect) is Deny <==> proxies.proxies[lowercase(
            h,
        )].action == ProxyAction::Deny),
        host matches Some(h) ==> lowercase(h).len() > 0 && !proxies.proxies.contains_key(
            lowercase(h),
        ) ==> routed_request(proxies, host, connect) == (if proxies.public_web == Some(
            ProxyAction::Allow,
        ) {
            RoutingView::Forward
        } else {
            RoutingView::Deny(
                DenyView {
                    status: 403,
                    via: "1.1 redoubtful-proxy"@,
                    body: "Access to "@ + h
                        + " is denied by redoubtful proxy configuration.\n"@,
                },
            )
        }),
        routed_request(proxies, host, connect) matches RoutingView::Deny(d) ==> d.status == 403
            && d.via == "1.1 redoubtful-proxy"@ && d.body == "Access to "@ + (match host {
            Some(h) => h,
            None => "unknown"@,
        }) + " is denied by redoubtful proxy configuration.\n"@,
{
}

/// The variables by which programs find the proxy, spelled out: eight of
/// them, six with its address and two with what must not go through it.
pub proof fn law_proxy_variables_spelled_out(port: u16, name: Seq<char>)
    ensures
        name == "HTTPS_PROXY"@ || name == "https_proxy"@ || name == "HTTP_PROXY"@ || name
            == "http_proxy"@ || name == "ALL_PROXY"@ || name == "all_proxy"@ ==> proxy_vars(
            port,
        ).contains_key(name) && proxy_vars(port)[name] == utf8(
            "http://127.0.0.1:"@ + decimal(port as nat),
        ),
        name == "NO_PROXY"@ || name == "no_proxy"@ ==> proxy_vars(port).contains_key(name)
            && proxy_vars(port)[name] == utf8("localhost,127.0.0.1"@),
        proxy_vars(port).contains_key(name) ==> {
            ||| name == "HTTPS_PROXY"@
            ||| name == "https_proxy"@
            ||| name == "HTTP_PROXY"@
            ||| name == "http_proxy"@
            ||| name == "ALL_PROXY"@
            ||| name == "all_proxy"@
            ||| name == "NO_PROXY"@
            ||| name == "no_proxy"@
        },
{
    reveal_strlit("HTTPS_PROXY");
    reveal_strlit("https_proxy");
    reveal_strlit("HTTP_PROXY");
    reveal_strlit("http_proxy");
    reveal_strlit("ALL_PROXY");
    reveal_strlit("all_proxy");
    reveal_strlit("NO_PROXY");
    reveal_strlit("no_proxy");
    assert("NO_PROXY"@[0] == 'N' && "no_proxy"@[0] == 'n');
    assert("HTTPS_PROXY"@[0] == 'H' && "HTTP_PROXY"@[0] == 'H' && "ALL_PROXY"@[0] == 'A');
    assert("https_proxy"@[0] == 'h' && "http_proxy"@[0] == 'h' && "all_proxy"@[0] == 'a');
}

/// The user cannot point programs past the proxy: whatever the profile
/// sets, the variables of the proxy win. Nothing else of the profile
/// changes but that the port of the proxy is forwarded as well.
pub proof fn law_proxy_settings_win(user: ProfileView, port: u16)
    ensures
        ({
            let end = Profile::merged(user, proxy_contribution(port));
            &&& forall|name: Seq<char>| #[trigger]
                proxy_vars(port).contains_key(name) ==> end.env.vars.contains_key(name)
                    && end.env.vars[name] == proxy_vars(port)[name]
            &&& forall|name: Seq<char>|
                !(#[trigger] proxy_vars(port).contains_key(name)) ==> (end.env.vars.contains_key(
                    name,
                ) <==> user.env.vars.contains_key(name)) && (user.env.vars.contains_key(name)
                    ==> end.env.vars[name] == user.env.vars[name])
            &&& end.mounts == user.mounts
            &&& end.proxies == user.proxies
            &&& end.forwards.forwards == user.forwards.forwards.push(
                ForwardView { host_port: port, sandbox_port: port },
            )
        }),
{
    let end = Profile::merged(user, proxy_contribution(port));
    Mounts::law_neutral(user.mounts);
    Proxies::law_neutral(user.proxies);
    assert(end.forwards.forwards =~= user.forwards.forwards.push(
        ForwardView { host_port: port, sandbox_port: port },
    ));
}

/// A refusal is a 403 that says who refused and what, whatever the host.
pub proof fn law_refusals_spelled_out(host: Seq<char>)
    ensures
        denial(host).status == 403,
        denial(host).via == "1.1 redoubtful-proxy"@,
        denial(host).body == "Access to "@ + host
            + " is denied by redoubtful proxy configuration.\n"@,
{
}

} // verus!
