//! A single destination of the proxy.
//!
//! A [`ProxyDecl`] is what the user wrote: in the compact form
//! `HOST[:PORT][=ACTION]`, or in full in a profile, with the headers,
//! query parameters and credentials to inject as templates. It resolves
//! to a [`Proxy`], in which the templates are rendered.

use crate::config::resolve_context::{ContextView, ResolveContext};
use crate::config::secret::{Secret, Template};
use crate::config::Decl;
use crate::errors::{outcome, Error, ErrorView, Result};
use crate::host::{Host, HostView};
use crate::hostname::normalize_hostname;
use crate::name_map::{with_values, NameMap};
use crate::text::{
    lemma_split_first, lemma_split_nonempty, lemma_split_plain, lowercase, lowercase_text,
    parse_u16, parsed_u16, split_at_each, split_str, str_eq,
};
use crate::values::{opt_view, text_result, views, Duplicate};
use vstd::prelude::*;
use vstd::string::*;

verus! {

// ---------------------------------------------------------------------
// Actions
// ---------------------------------------------------------------------
/// Whether traffic to a destination is let through.
#[derive(Debug, Clone, Copy, PartialEq, Eq, Structural)]
pub enum ProxyAction {
    /// It is.
    Allow,
    /// It is not.
    Deny,
}

impl Default for ProxyAction {
    /// Let it through.
    fn default() -> (r: ProxyAction)
        ensures
            r == ProxyAction::Allow,
    {
        ProxyAction::Allow
    }
}

/// The action of this name, in lower case.
pub open spec fn action_named(name: Seq<char>) -> Result<ProxyAction, ErrorView> {
    if name == "allow"@ {
        Ok(ProxyAction::Allow)
    } else if name == "deny"@ {
        Ok(ProxyAction::Deny)
    } else {
        Err(ErrorView::ProxyInvalidAction { action: name })
    }
}

/// What a result with an action means.
pub open spec fn action_outcome(r: Result<ProxyAction>) -> Result<ProxyAction, ErrorView> {
    match r {
        Ok(a) => Ok(a),
        Err(e) => Err(e@),
    }
}

impl ProxyAction {
    /// The action of this name, in lower case.
    pub fn named(name: &str) -> (r: Result<ProxyAction>)
        ensures
            action_outcome(r) == action_named(name@),
    {
        if str_eq(name, "allow") {
            Ok(ProxyAction::Allow)
        } else if str_eq(name, "deny") {
            Ok(ProxyAction::Deny)
        } else {
            Err(Error::proxy_invalid_action(name))
        }
    }

    /// Parse `allow` or `deny`, in whatever case.
    pub fn from_str(s: &str) -> (r: Result<ProxyAction>)
        ensures
            action_outcome(r) == action_named(lowercase(s@)),
    {
        ProxyAction::named(lowercase_text(s).as_str())
    }
}

// ---------------------------------------------------------------------
// Credentials
// ---------------------------------------------------------------------
/// Declared credentials.
#[derive(Debug)]
pub enum ProxyAuthDecl {
    /// A user name and a password.
    Basic {
        /// The user name.
        username: Template,
        /// The password.
        password: Template,
    },
    /// A token.
    Bearer {
        /// The token.
        token: Template,
    },
}

/// Rendered credentials.
pub enum ProxyAuth {
    /// A user name and a password.
    Basic {
        /// The user name.
        username: Secret,
        /// The password.
        password: Secret,
    },
    /// A token.
    Bearer {
        /// The token.
        token: Secret,
    },
}

/// What [`ProxyAuthDecl`] and [`ProxyAuth`] say.
#[verifier::ext_equal]
pub enum AuthView {
    Basic { username: Seq<char>, password: Seq<char> },
    Bearer { token: Seq<char> },
}

impl View for ProxyAuthDecl {
    type V = AuthView;

    open spec fn view(&self) -> AuthView {
        match self {
            ProxyAuthDecl::Basic { username, password } => AuthView::Basic {
                username: username@,
                password: password@,
            },
            ProxyAuthDecl::Bearer { token } => AuthView::Bearer { token: token@ },
        }
    }
}

impl View for ProxyAuth {
    type V = AuthView;

    open spec fn view(&self) -> AuthView {
        match self {
            ProxyAuth::Basic { username, password } => AuthView::Basic {
                username: username@,
                password: password@,
            },
            ProxyAuth::Bearer { token } => AuthView::Bearer { token: token@ },
        }
    }
}

impl Duplicate for ProxyAuthDecl {
    fn duplicate(&self) -> (r: ProxyAuthDecl) {
        match self {
            ProxyAuthDecl::Basic { username, password } => ProxyAuthDecl::Basic {
                username: username.duplicate(),
                password: password.duplicate(),
            },
            ProxyAuthDecl::Bearer { token } => ProxyAuthDecl::Bearer { token: token.duplicate() },
        }
    }
}

impl Duplicate for ProxyAuth {
    fn duplicate(&self) -> (r: ProxyAuth) {
        match self {
            ProxyAuth::Basic { username, password } => ProxyAuth::Basic {
                username: username.duplicate(),
                password: password.duplicate(),
            },
            ProxyAuth::Bearer { token } => ProxyAuth::Bearer { token: token.duplicate() },
        }
    }
}

/// The texts of credentials, in order.
pub open spec fn auth_texts(auth: Option<AuthView>) -> Seq<Seq<char>> {
    match auth {
        Some(AuthView::Basic { username, password }) => seq![username, password],
        Some(AuthView::Bearer { token }) => seq![token],
        None => seq![],
    }
}

/// Credentials of the same kind with other texts.
pub open spec fn auth_with(auth: Option<AuthView>, texts: Seq<Seq<char>>) -> Option<AuthView> {
    match auth {
        Some(AuthView::Basic { .. }) => Some(
            AuthView::Basic { username: texts[0], password: texts[1] },
        ),
        Some(AuthView::Bearer { .. }) => Some(AuthView::Bearer { token: texts[0] }),
        None => None,
    }
}

// ---------------------------------------------------------------------
// Declarations
// ---------------------------------------------------------------------
/// A declared destination.
#[derive(Debug)]
pub struct ProxyDecl {
    /// Host name or address.
    pub host: String,
    /// Port.
    pub port: u16,
    /// Whether traffic to it is let through.
    pub action: ProxyAction,
    /// The headers to inject.
    pub headers: NameMap<Template>,
    /// The query parameters to inject.
    pub params: NameMap<Template>,
    /// The credentials to inject.
    pub auth: Option<ProxyAuthDecl>,
}

/// What [`ProxyDecl`] and [`Proxy`] say; the one holds templates where the
/// other holds what they render to.
#[verifier::ext_equal]
pub struct ProxyView {
    pub host: Seq<char>,
    pub port: u16,
    pub action: ProxyAction,
    pub headers: Seq<(Seq<char>, Seq<char>)>,
    pub params: Seq<(Seq<char>, Seq<char>)>,
    pub auth: Option<AuthView>,
}

impl View for ProxyDecl {
    type V = ProxyView;

    open spec fn view(&self) -> ProxyView {
        ProxyView {
            host: self.host@,
            port: self.port,
            action: self.action,
            headers: self.headers.entries(),
            params: self.params.entries(),
            auth: opt_view(self.auth),
        }
    }
}

impl Duplicate for ProxyDecl {
    fn duplicate(&self) -> (r: ProxyDecl) {
        ProxyDecl {
            host: self.host.clone(),
            port: self.port,
            action: self.action,
            headers: self.headers.copy(),
            params: self.params.copy(),
            auth: match &self.auth {
                Some(a) => Some(a.duplicate()),
                None => None,
            },
        }
    }
}

/// The port of a destination for which none is given: that of HTTPS.
pub const DEFAULT_PORT: u16 = 443;

/// What `HOST[:PORT][=ACTION]` declares.
///
/// The complaints come in this order: more than one `=`, more than one
/// `:` before it, no host, the port, the action.
pub open spec fn parsed_proxy(s: Seq<char>) -> Result<ProxyView, ErrorView> {
    let parts = split_at_each(s, '=');
    let hp = split_at_each(parts[0], ':');
    if parts.len() > 2 {
        Err(
            ErrorView::ProxyInvalidSyntax {
                spec: s,
                reason: "multiple `=` separators are not supported"@,
            },
        )
    } else if hp.len() > 2 {
        Err(
            ErrorView::ProxyInvalidSyntax {
                spec: s,
                reason: "multiple `:` separators are not supported"@,
            },
        )
    } else if hp[0].len() == 0 {
        Err(ErrorView::ProxyEmptyHost)
    } else if hp.len() == 2 && parsed_u16(hp[1]) is None {
        Err(ErrorView::ProxyInvalidPort { port: hp[1] })
    } else {
        let port = if hp.len() == 2 {
            parsed_u16(hp[1])->0
        } else {
            DEFAULT_PORT
        };
        let action = if parts.len() == 2 {
            action_named(lowercase(parts[1]))
        } else {
            Ok(ProxyAction::Allow)
        };
        match action {
            Err(e) => Err(e),
            Ok(action) => Ok(
                ProxyView {
                    host: hp[0],
                    port,
                    action,
                    headers: seq![],
                    params: seq![],
                    auth: None,
                },
            ),
        }
    }
}

impl ProxyView {
    /// The texts that are templates in a declaration: those of the
    /// headers, of the parameters and of the credentials, in this order.
    pub open spec fn texts(self) -> Seq<Seq<char>> {
        self.headers.map_values(|p: (Seq<char>, Seq<char>)| p.1) + self.params.map_values(
            |p: (Seq<char>, Seq<char>)| p.1,
        ) + auth_texts(self.auth)
    }

    /// The destination with other texts, one for one.
    pub open spec fn with_texts(self, texts: Seq<Seq<char>>) -> ProxyView {
        let h = self.headers.len() as int;
        let p = self.params.len() as int;
        ProxyView {
            headers: with_values(self.headers, texts.take(h)),
            params: with_values(self.params, texts.subrange(h, h + p)),
            auth: auth_with(self.auth, texts.skip(h + p)),
            ..self
        }
    }

    /// What the declaration resolves to where its host is looked up as
    /// `host` and its templates, in order, rendered to `results`. The
    /// first template that did not render counts.
    pub open spec fn assembled(
        self,
        host: Seq<char>,
        results: Seq<std::result::Result<Seq<char>, Seq<char>>>,
    ) -> Result<ProxyView, ErrorView> {
        match first_failure(results) {
            Some(message) => Err(ErrorView::TemplateRender { message }),
            None => Ok(
                ProxyView { host, ..self }.with_texts(
                    results.map_values(|r: std::result::Result<Seq<char>, Seq<char>>| r->Ok_0),
                ),
            ),
        }
    }
}

/// The first failure among results.
pub open spec fn first_failure<A, E>(results: Seq<std::result::Result<A, E>>) -> Option<E>
    decreases results.len(),
{
    if results.len() == 0 {
        None
    } else {
        match results[0] {
            Err(e) => Some(e),
            Ok(_) => first_failure(results.skip(1)),
        }
    }
}

/// The text that a rendering came to, if it came to one.
pub open spec fn said(r: std::result::Result<Seq<char>, Seq<char>>) -> Option<Seq<char>> {
    match r {
        Ok(text) => Some(text),
        Err(_) => None,
    }
}

/// A rendering that came to this text, or to nothing that is said of.
pub open spec fn as_result(text: Option<Seq<char>>) -> std::result::Result<Seq<char>, Seq<char>> {
    match text {
        Some(t) => Ok(t),
        None => Err(seq![]),
    }
}

/// Renderings that came to the same texts fail alike, and where none
/// fails they are the same.
proof fn lemma_same_failures(
    a: Seq<std::result::Result<Seq<char>, Seq<char>>>,
    b: Seq<std::result::Result<Seq<char>, Seq<char>>>,
)
    requires
        a.len() == b.len(),
        forall|j: int| 0 <= j < a.len() ==> said(#[trigger] a[j]) == said(b[j]),
    ensures
        first_failure(a) is None <==> first_failure(b) is None,
        first_failure(a) is None ==> forall|j: int| 0 <= j < a.len() ==> #[trigger] a[j] == b[j],
    decreases a.len(),
{
    if a.len() > 0 {
        let s = a.skip(1);
        let t = b.skip(1);
        assert forall|j: int| 0 <= j < s.len() implies said(#[trigger] s[j]) == said(t[j]) by {
            assert(s[j] == a[j + 1] && t[j] == b[j + 1]);
        }
        assert(said(a[0]) == said(b[0]));
        lemma_same_failures(s, t);
        if first_failure(a) is None {
            assert forall|j: int| 0 <= j < a.len() implies #[trigger] a[j] == b[j] by {
                if j > 0 {
                    assert(s[j - 1] == t[j - 1]);
                }
            }
        }
    }
}

/// What each rendering of a list means.
pub open spec fn rendering_views(v: Seq<std::result::Result<String, String>>) -> Seq<
    std::result::Result<Seq<char>, Seq<char>>,
> {
    v.map_values(|r: std::result::Result<String, String>| text_result(r))
}

/// Append the texts of `map` to `out`.
fn push_texts(out: &mut Vec<String>, map: &NameMap<Template>)
    ensures
        views(final(out)@) == views(old(out)@) + map.entries().map_values(
            |p: (Seq<char>, Seq<char>)| p.1,
        ),
{
    let ghost all = map.entries().map_values(|p: (Seq<char>, Seq<char>)| p.1);
    let n = map.len();
    let mut i: usize = 0;
    assert(views(old(out)@) + all.take(0) =~= views(old(out)@));
    while i < n
        invariant
            i <= n,
            n == map.entries().len(),
            all == map.entries().map_values(|p: (Seq<char>, Seq<char>)| p.1),
            views(out@) == views(old(out)@) + all.take(i as int),
        decreases n - i,
    {
        let ghost before = out@;
        let text = map.value_at(i).0.clone();
        out.push(text);
        proof {
            assert(views(out@) =~= views(before).push(text@));
            assert(all.take(i + 1) =~= all.take(i as int).push(text@));
        }
        i = i + 1;
    }
    assert(all.take(all.len() as int) =~= all);
}

/// The failure of the first result that is one; otherwise the texts.
fn all_rendered(results: Vec<std::result::Result<String, String>>) -> (r: Result<Vec<String>>)
    ensures
        match first_failure(rendering_views(results@)) {
            Some(message) => r matches Err(e) && e@ == (ErrorView::TemplateRender { message }),
            None => r matches Ok(v) && views(v@) == rendering_views(results@).map_values(
                |r: std::result::Result<Seq<char>, Seq<char>>| r->Ok_0,
            ),
        },
{
    let ghost all = rendering_views(results@);
    let mut out: Vec<String> = Vec::new();
    let mut i: usize = 0;
    assert(all.skip(0) =~= all);
    while i < results.len()
        invariant
            i <= results@.len(),
            all == rendering_views(results@),
            first_failure(all.skip(i as int)) == first_failure(all),
            out@.len() == i,
            forall|j: int| 0 <= j < i ==> (#[trigger] out@[j])@ == all[j]->Ok_0,
        decreases results.len() - i,
    {
        assert(all.skip(i as int)[0] == all[i as int]);
        assert(all.skip(i as int).skip(1) =~= all.skip(i + 1));
        match &results[i] {
            Ok(text) => out.push(text.clone()),
            Err(message) => {
                return Err(Error::template_render(message.as_str()));
            },
        }
        i = i + 1;
    }
    assert(views(out@) =~= all.map_values(
        |r: std::result::Result<Seq<char>, Seq<char>>| r->Ok_0,
    ));
    Ok(out)
}

/// The secrets `texts[from..to]`.
fn secrets_of(texts: &Vec<String>, from: usize, to: usize) -> (r: Vec<Secret>)
    requires
        from <= to <= texts@.len(),
    ensures
        r@.len() == to - from,
        views(r@) == views(texts@).subrange(from as int, to as int),
{
    let mut out: Vec<Secret> = Vec::new();
    let mut i: usize = from;
    while i < to
        invariant
            from <= i <= to <= texts@.len(),
            out@.len() == i - from,
            forall|j: int| 0 <= j < i - from ==> (#[trigger] out@[j])@ == texts@[from + j]@,
        decreases to - i,
    {
        out.push(Secret(texts[i].clone()));
        i = i + 1;
    }
    assert(views(out@) =~= views(texts@).subrange(from as int, to as int));
    out
}

impl ProxyDecl {
    /// Parse `HOST[:PORT][=ACTION]`.
    pub fn from_str(s: &str) -> (r: Result<ProxyDecl>)
        ensures
            outcome(r) == parsed_proxy(s@),
    {
        let parts = split_str(s, '=');
        let ghost all = split_at_each(s@, '=');
        proof {
            lemma_split_nonempty(s@, '=');
            assert(all.len() == parts@.len());
            assert(forall|i: int| 0 <= i < all.len() ==> #[trigger] all[i] == parts@[i]@);
        }
        if parts.len() > 2 {
            return Err(
                Error::proxy_invalid_syntax(s, "multiple `=` separators are not supported"),
            );
        }
        let hp = split_str(parts[0].as_str(), ':');
        let ghost hps = split_at_each(all[0], ':');
        proof {
            lemma_split_nonempty(all[0], ':');
            assert(hps.len() == hp@.len());
            assert(forall|i: int| 0 <= i < hps.len() ==> #[trigger] hps[i] == hp@[i]@);
        }
        if hp.len() > 2 {
            return Err(
                Error::proxy_invalid_syntax(s, "multiple `:` separators are not supported"),
            );
        }
        if hp[0].as_str().is_empty() {
            return Err(Error::ProxyEmptyHost);
        }
        let mut port: u16 = DEFAULT_PORT;
        if hp.len() == 2 {
            match parse_u16(hp[1].as_str()) {
                Some(p) => {
                    port = p;
                },
                None => {
                    return Err(Error::proxy_invalid_port(hp[1].as_str()));
                },
            }
        }
        let mut action = ProxyAction::Allow;
        if parts.len() == 2 {
            match ProxyAction::from_str(parts[1].as_str()) {
                Ok(a) => {
                    action = a;
                },
                Err(e) => {
                    return Err(e);
                },
            }
        }
        let r = ProxyDecl {
            host: hp[0].clone(),
            port,
            action,
            headers: NameMap::new(),
            params: NameMap::new(),
            auth: None,
        };
        proof {
            assert(r@.headers =~= Seq::<(Seq<char>, Seq<char>)>::empty());
            assert(r@.params =~= Seq::<(Seq<char>, Seq<char>)>::empty());
        }
        Ok(r)
    }

    /// The templates: those of the headers, of the parameters and of the
    /// credentials, in this order.
    pub fn templates(&self) -> (r: Vec<String>)
        ensures
            views(r@) == self@.texts(),
    {
        let mut out: Vec<String> = Vec::new();
        push_texts(&mut out, &self.headers);
        push_texts(&mut out, &self.params);
        let ghost before = views(out@);
        match &self.auth {
            Some(ProxyAuthDecl::Basic { username, password }) => {
                out.push(username.0.clone());
                out.push(password.0.clone());
            },
            Some(ProxyAuthDecl::Bearer { token }) => {
                out.push(token.0.clone());
            },
            None => {},
        }
        assert(views(out@) =~= self@.texts());
        out
    }

    /// The destination that the declaration stands for, where its host is
    /// looked up as `host` and its templates, in the order of
    /// [`ProxyDecl::templates`], rendered to `results`.
    pub fn assemble(
        &self,
        host: String,
        results: Vec<std::result::Result<String, String>>,
    ) -> (r: Result<Proxy>)
        requires
            results@.len() == self@.texts().len(),
        ensures
            outcome(r) == self@.assembled(host@, rendering_views(results@)),
    {
        let texts = match all_rendered(results) {
            Ok(texts) => texts,
            Err(e) => {
                return Err(e);
            },
        };
        let h = self.headers.len();
        let p = self.params.len();
        let ghost all = views(texts@);
        assert(all.len() == self@.texts().len());
        let end = texts.len();
        let auth = match &self.auth {
            Some(ProxyAuthDecl::Basic { .. }) => {
                assert(self@.texts().len() == h + p + 2);
                assert(all.skip(h + p)[0] == texts@[h + p]@);
                assert(all.skip(h + p)[1] == texts@[h + p + 1]@);
                Some(
                    ProxyAuth::Basic {
                        username: Secret(texts[end - 2].clone()),
                        password: Secret(texts[end - 1].clone()),
                    },
                )
            },
            Some(ProxyAuthDecl::Bearer { .. }) => {
                assert(self@.texts().len() == h + p + 1);
                assert(all.skip(h + p)[0] == texts@[h + p]@);
                Some(ProxyAuth::Bearer { token: Secret(texts[end - 1].clone()) })
            },
            None => None,
        };
        assert(h + p <= end);
        let headers = self.headers.with_values(secrets_of(&texts, 0, h));
        let params = self.params.with_values(secrets_of(&texts, h, h + p));
        proof {
            assert(all.subrange(0, h as int) =~= all.take(h as int));
        }
        Ok(Proxy { host, port: self.port, action: self.action, headers, params, auth })
    }
}

impl Decl for ProxyDecl {
    type Resolved = Proxy;

    /// There must be a host.
    open spec fn validated(me: ProxyView, host: HostView) -> Result<(), ErrorView> {
        if me.host.len() == 0 {
            Err(ErrorView::ProxyEmptyHost)
        } else {
            Ok(())
        }
    }

    /// The host in lower case, and every template rendered.
    open spec fn resolved(me: ProxyView, ctx: ContextView) -> Result<ProxyView, ErrorView> {
        me.assembled(
            lowercase(me.host),
            me.texts().map_values(|t: Seq<char>| as_result(ctx.rendered(t))),
        )
    }

    fn validate(&self, host: &Host) -> (r: Result<()>) {
        if self.host.as_str().is_empty() {
            return Err(Error::ProxyEmptyHost);
        }
        Ok(())
    }

    fn resolve(&self, ctx: &ResolveContext) -> (r: Result<Proxy>) {
        let templates = self.templates();
        let ghost all = self@.texts();
        let mut results: Vec<std::result::Result<String, String>> = Vec::new();
        let mut i: usize = 0;
        while i < templates.len()
            invariant
                i <= templates@.len(),
                all == views(templates@),
                results@.len() == i,
                forall|j: int|
                    0 <= j < i ==> said(text_result(#[trigger] results@[j])) == ctx@.rendered(
                        all[j],
                    ),
            decreases templates.len() - i,
        {
            assert(all[i as int] == templates@[i as int]@);
            results.push(ctx.render(templates[i].as_str()));
            i = i + 1;
        }
        proof {
            let owed = all.map_values(|t: Seq<char>| as_result(ctx@.rendered(t)));
            let got = rendering_views(results@);
            assert forall|j: int| 0 <= j < got.len() implies said(#[trigger] got[j]) == said(
                owed[j],
            ) by {
                assert(got[j] == text_result(results@[j]));
            }
            lemma_same_failures(got, owed);
            if first_failure(got) is None {
                assert(got =~= owed);
            }
        }
        self.assemble(normalize_hostname(self.host.as_str()), results)
    }
}

// ---------------------------------------------------------------------
// Destinations
// ---------------------------------------------------------------------
/// A destination of the proxy, with every template rendered.
pub struct Proxy {
    /// Host name or address.
    pub host: String,
    /// Port.
    pub port: u16,
    /// Whether traffic to it is let through.
    pub action: ProxyAction,
    /// The headers to inject.
    pub headers: NameMap<Secret>,
    /// The query parameters to inject.
    pub params: NameMap<Secret>,
    /// The credentials to inject.
    pub auth: Option<ProxyAuth>,
}

impl View for Proxy {
    type V = ProxyView;

    open spec fn view(&self) -> ProxyView {
        ProxyView {
            host: self.host@,
            port: self.port,
            action: self.action,
            headers: self.headers.entries(),
            params: self.params.entries(),
            auth: opt_view(self.auth),
        }
    }
}

impl Duplicate for Proxy {
    fn duplicate(&self) -> (r: Proxy) {
        Proxy {
            host: self.host.clone(),
            port: self.port,
            action: self.action,
            headers: self.headers.copy(),
            params: self.params.copy(),
            auth: match &self.auth {
                Some(a) => Some(a.duplicate()),
                None => None,
            },
        }
    }
}

impl ProxyView {
    /// Is there anything to inject?
    pub open spec fn injects(self) -> bool {
        self.headers.len() > 0 || self.params.len() > 0 || self.auth is Some
    }
}

impl Proxy {
    /// Is there anything to inject?
    pub fn has_injection(&self) -> (r: bool)
        ensures
            r == self@.injects(),
    {
        !self.headers.is_empty() || !self.params.is_empty() || self.auth.is_some()
    }
}

/// Resolving changes neither the port nor the action, nor which headers
/// and parameters there are, nor the kind of the credentials.
pub proof fn law_resolution_keeps_shape(me: ProxyView, ctx: ContextView)
    ensures
        ProxyDecl::resolved(me, ctx) matches Ok(p) ==> {
            &&& p.port == me.port
            &&& p.action == me.action
            &&& p.headers.len() == me.headers.len()
            &&& forall|i: int| 0 <= i < p.headers.len() ==> p.headers[i].0 == me.headers[i].0
            &&& p.params.len() == me.params.len()
            &&& forall|i: int| 0 <= i < p.params.len() ==> p.params[i].0 == me.params[i].0
            &&& (p.auth is Some <==> me.auth is Some)
            &&& p.injects() == me.injects()
        },
{
}

/// A declaration without templates always resolves.
pub proof fn law_plain_declarations_resolve(me: ProxyView, ctx: ContextView)
    requires
        me.texts().len() == 0,
    ensures
        ProxyDecl::resolved(me, ctx) is Ok,
{
    assert(me.texts().map_values(|t: Seq<char>| as_result(ctx.rendered(t))).len() == 0);
}

/// `HOST`, `HOST:PORT` and either of them with `=ACTION` are accepted
/// exactly where there is a host, the port is a port number and the action
/// is `allow` or `deny` in whatever case. Without a port it is 443, without
/// an action traffic is let through, and nothing is injected. A second `:`
/// or `=` is refused.
pub proof fn law_proxy_syntax(h: Seq<char>, port: Seq<char>, action: Seq<char>, rest: Seq<char>)
    requires
        !h.contains(':') && !h.contains('='),
        !port.contains(':') && !port.contains('='),
        !action.contains('='),
    ensures
        ({
            let with_port = h + seq![':'] + port;
            let known = lowercase(action) == "allow"@ || lowercase(action) == "deny"@;
            let plain = |p: ProxyView|
                p.host == h && p.headers.len() == 0 && p.params.len() == 0 && p.auth is None;
            &&& parsed_proxy(h) is Ok <==> h.len() > 0
            &&& parsed_proxy(h) matches Ok(p) ==> plain(p) && p.port == 443 && p.action
                == ProxyAction::Allow
            &&& parsed_proxy(with_port) is Ok <==> h.len() > 0 && parsed_u16(port) is Some
            &&& parsed_proxy(with_port) matches Ok(p) ==> plain(p) && parsed_u16(port) == Some(
                p.port,
            ) && p.action == ProxyAction::Allow
            &&& parsed_proxy(h + seq!['='] + action) is Ok <==> h.len() > 0 && known
            &&& parsed_proxy(h + seq!['='] + action) matches Ok(p) ==> plain(p) && p.port == 443
                && (p.action == ProxyAction::Allow <==> lowercase(action) == "allow"@)
            &&& parsed_proxy(with_port + seq!['='] + action) is Ok <==> h.len() > 0 && parsed_u16(
                port,
            ) is Some && known
            &&& parsed_proxy(with_port + seq!['='] + action) matches Ok(p) ==> plain(p)
                && parsed_u16(port) == Some(p.port) && (p.action == ProxyAction::Allow
                <==> lowercase(action) == "allow"@)
            &&& parsed_proxy(h + seq!['='] + (action + seq!['='] + rest)) is Err
            &&& !rest.contains('=') ==> parsed_proxy(h + seq![':'] + (port + seq![':'] + rest)) is Err
        }),
{
    reveal_strlit("allow");
    reveal_strlit("deny");
    assert("allow"@.len() == 5 && "deny"@.len() == 4);
    let with_port = h + seq![':'] + port;
    assert(!with_port.contains('='));
    lemma_split_plain(h, '=');
    lemma_split_plain(h, ':');
    lemma_split_plain(port, ':');
    lemma_split_plain(action, '=');
    lemma_split_plain(with_port, '=');
    lemma_split_first(h, ':', port);
    assert(split_at_each(with_port, ':') =~= seq![h, port]);
    lemma_split_first(h, '=', action);
    lemma_split_first(with_port, '=', action);
    assert(split_at_each(h + seq!['='] + action, '=') =~= seq![h, action]);
    assert(split_at_each(with_port + seq!['='] + action, '=') =~= seq![with_port, action]);
    lemma_split_nonempty(rest, '=');
    lemma_split_first(action, '=', rest);
    lemma_split_first(h, '=', action + seq!['='] + rest);
    if !rest.contains('=') {
        let many = h + seq![':'] + (port + seq![':'] + rest);
        assert(!many.contains('='));
        lemma_split_plain(many, '=');
        lemma_split_nonempty(rest, ':');
        lemma_split_first(port, ':', rest);
        lemma_split_first(h, ':', port + seq![':'] + rest);
    }
}

/// Nothing failed where every result is a success.
pub proof fn lemma_no_failure<A, E>(results: Seq<std::result::Result<A, E>>)
    ensures
        first_failure(results) is None <==> forall|i: int|
            0 <= i < results.len() ==> (#[trigger] results[i]) is Ok,
    decreases results.len(),
{
    if results.len() > 0 {
        let rest = results.skip(1);
        lemma_no_failure(rest);
        if first_failure(results) is None {
            assert forall|i: int| 0 <= i < results.len() implies (#[trigger] results[i]) is Ok by {
                if i > 0 {
                    assert(rest[i - 1] == results[i]);
                }
            }
        }
        if forall|i: int| 0 <= i < results.len() ==> (#[trigger] results[i]) is Ok {
            assert(results[0] is Ok);
            assert forall|i: int| 0 <= i < rest.len() implies (#[trigger] rest[i]) is Ok by {
                assert(rest[i] == results[i + 1]);
            }
        }
    }
}

/// Resolving renders each template in its own place: that of a header
/// becomes the value of that header, that of a parameter the value of that
/// parameter, and those of the credentials the user name, the password or
/// the token. The host is looked up in lower case.
pub proof fn law_templates_render_in_place(me: ProxyView, ctx: ContextView)
    ensures
        ProxyDecl::resolved(me, ctx) is Ok <==> {
            &&& forall|i: int|
                0 <= i < me.headers.len() ==> ctx.rendered((#[trigger] me.headers[i]).1) is Some
            &&& forall|i: int|
                0 <= i < me.params.len() ==> ctx.rendered((#[trigger] me.params[i]).1) is Some
            &&& me.auth matches Some(AuthView::Basic { username, password }) ==> ctx.rendered(
                username,
            ) is Some && ctx.rendered(password) is Some
            &&& me.auth matches Some(AuthView::Bearer { token }) ==> ctx.rendered(token) is Some
        },
        ProxyDecl::resolved(me, ctx) matches Ok(p) ==> {
            &&& p.host == lowercase(me.host)
            &&& p.headers.len() == me.headers.len()
            &&& forall|i: int|
                0 <= i < me.headers.len() ==> p.headers[i].0 == (#[trigger] me.headers[i]).0
                    && ctx.rendered(me.headers[i].1) == Some(p.headers[i].1)
            &&& p.params.len() == me.params.len()
            &&& forall|i: int|
                0 <= i < me.params.len() ==> p.params[i].0 == (#[trigger] me.params[i]).0
                    && ctx.rendered(me.params[i].1) == Some(p.params[i].1)
            &&& me.auth matches Some(AuthView::Basic { username, password }) ==> (p.auth matches Some(
                AuthView::Basic { username: u, password: w },
            ) && ctx.rendered(username) == Some(u) && ctx.rendered(password) == Some(w))
            &&& me.auth matches Some(AuthView::Bearer { token }) ==> (p.auth matches Some(
                AuthView::Bearer { token: t },
            ) && ctx.rendered(token) == Some(t))
            &&& me.auth is None ==> p.auth is None
        },
{
    let texts = me.texts();
    let results = texts.map_values(|t: Seq<char>| as_result(ctx.rendered(t)));
    let h = me.headers.len() as int;
    let n = me.params.len() as int;
    lemma_no_failure(results);
    assert forall|i: int| 0 <= i < h implies #[trigger] texts[i] == me.headers[i].1 by {}
    assert forall|i: int| 0 <= i < n implies #[trigger] texts[h + i] == me.params[i].1 by {}
    let auth = auth_texts(me.auth);
    assert forall|i: int| 0 <= i < auth.len() implies #[trigger] texts[h + n + i] == auth[i] by {}
    assert(texts.len() == h + n + auth.len());
    match me.auth {
        Some(AuthView::Basic { username, password }) => {
            assert(texts[h + n + 0] == username);
            assert(texts[h + n + 1] == password);
        },
        Some(AuthView::Bearer { token }) => {
            assert(texts[h + n + 0] == token);
        },
        None => {},
    }
    if first_failure(results) is None {
        assert forall|i: int| 0 <= i < texts.len() implies ctx.rendered(#[trigger] texts[i]) is Some
            && results[i]->Ok_0 == ctx.rendered(texts[i])->0 by {
            assert(results[i] is Ok);
        }
        assert forall|i: int| 0 <= i < h implies ctx.rendered((#[trigger] me.headers[i]).1) is Some
            by {
            assert(texts[i] == me.headers[i].1);
        }
        assert forall|i: int| 0 <= i < n implies ctx.rendered((#[trigger] me.params[i]).1) is Some
            by {
            assert(texts[h + i] == me.params[i].1);
        }
        let values = results.map_values(|r: std::result::Result<Seq<char>, Seq<char>>| r->Ok_0);
        let p = ProxyDecl::resolved(me, ctx)->Ok_0;
        assert forall|i: int| 0 <= i < h implies p.headers[i].0 == (#[trigger] me.headers[i]).0
            && ctx.rendered(me.headers[i].1) == Some(p.headers[i].1) by {
            assert(texts[i] == me.headers[i].1);
            assert(values.take(h)[i] == values[i]);
        }
        assert forall|i: int| 0 <= i < n implies p.params[i].0 == (#[trigger] me.params[i]).0
            && ctx.rendered(me.params[i].1) == Some(p.params[i].1) by {
            assert(texts[h + i] == me.params[i].1);
            assert(values.subrange(h, h + n)[i] == values[h + i]);
        }
        if me.auth is Some {
            assert(values.skip(h + n)[0] == values[h + n]);
        }
    } else {
        let k = choose|k: int| 0 <= k < results.len() && (#[trigger] results[k]) is Err;
        assert(ctx.rendered(texts[k]) is None);
        if k < h {
            assert(texts[k] == me.headers[k].1);
        } else if k < h + n {
            assert(texts[h + (k - h)] == me.params[k - h].1);
        } else {
            assert(texts[h + n + (k - h - n)] == auth[k - h - n]);
        }
    }
}

/// Each refusal says what is wrong: more than one `=` is complained of
/// first, then more than one `:`, a missing host, the port and the action.
pub proof fn law_refusals_spelled_out(
    h: Seq<char>,
    port: Seq<char>,
    action: Seq<char>,
    rest: Seq<char>,
)
    requires
        !h.contains(':') && !h.contains('='),
        !port.contains(':') && !port.contains('='),
        !action.contains('='),
    ensures
        ({
            let with_port = h + seq![':'] + port;
            let acted = h + seq!['='] + action;
            let twice = h + seq!['='] + (action + seq!['='] + rest);
            let many = h + seq![':'] + (port + seq![':'] + rest);
            let unknown = lowercase(action) != "allow"@ && lowercase(action) != "deny"@;
            &&& parsed_proxy(twice) == Err::<ProxyView, ErrorView>(
                ErrorView::ProxyInvalidSyntax {
                    spec: twice,
                    reason: "multiple `=` separators are not supported"@,
                },
            )
            &&& !rest.contains('=') ==> parsed_proxy(many) == Err::<ProxyView, ErrorView>(
                ErrorView::ProxyInvalidSyntax {
                    spec: many,
                    reason: "multiple `:` separators are not supported"@,
                },
            )
            &&& h.len() == 0 ==> {
                &&& parsed_proxy(h) == Err::<ProxyView, ErrorView>(ErrorView::ProxyEmptyHost)
                &&& parsed_proxy(with_port) == Err::<ProxyView, ErrorView>(
                    ErrorView::ProxyEmptyHost,
                )
                &&& parsed_proxy(acted) == Err::<ProxyView, ErrorView>(ErrorView::ProxyEmptyHost)
            }
            &&& h.len() > 0 && parsed_u16(port) is None ==> parsed_proxy(with_port) == Err::<
                ProxyView,
                ErrorView,
            >(ErrorView::ProxyInvalidPort { port })
            &&& h.len() > 0 && unknown ==> parsed_proxy(acted) == Err::<ProxyView, ErrorView>(
                ErrorView::ProxyInvalidAction { action: lowercase(action) },
            )
        }),
{
    let with_port = h + seq![':'] + port;
    assert(!with_port.contains('='));
    lemma_split_plain(h, '=');
    lemma_split_plain(h, ':');
    lemma_split_plain(port, ':');
    lemma_split_plain(action, '=');
    lemma_split_plain(with_port, '=');
    lemma_split_first(h, ':', port);
    assert(split_at_each(with_port, ':') =~= seq![h, port]);
    lemma_split_first(h, '=', action);
    assert(split_at_each(h + seq!['='] + action, '=') =~= seq![h, action]);
    lemma_split_nonempty(rest, '=');
    lemma_split_first(action, '=', rest);
    lemma_split_first(h, '=', action + seq!['='] + rest);
    if !rest.contains('=') {
        let many = h + seq![':'] + (port + seq![':'] + rest);
        assert(!many.contains('='));
        lemma_split_plain(many, '=');
        lemma_split_nonempty(rest, ':');
        lemma_split_first(port, ':', rest);
        lemma_split_first(h, ':', port + seq![':'] + rest);
    }
}

/// The two actions have their names, and nothing else names one.
pub proof fn law_actions_spelled_out(name: Seq<char>)
    ensures
        action_named(name) == Ok::<ProxyAction, ErrorView>(ProxyAction::Allow) <==> name
            == "allow"@,
        action_named(name) == Ok::<ProxyAction, ErrorView>(ProxyAction::Deny) <==> name == "deny"@,
        name != "allow"@ && name != "deny"@ ==> action_named(name) == Err::<
            ProxyAction,
            ErrorView,
        >(ErrorView::ProxyInvalidAction { action: name }),
{
    reveal_strlit("allow");
    reveal_strlit("deny");
    assert("allow"@.len() == 5 && "deny"@.len() == 4);
}

/// The first template that does not render is what is complained of, with
/// its own message; where all do, the destination has the host that was
/// given, and all of its own but the texts.
pub proof fn law_first_failure_counts(
    me: ProxyView,
    host: Seq<char>,
    results: Seq<std::result::Result<Seq<char>, Seq<char>>>,
    k: int,
)
    ensures
        0 <= k < results.len() && results[k] is Err && (forall|j: int|
            0 <= j < k ==> (#[trigger] results[j]) is Ok) ==> me.assembled(host, results) == Err::<
            ProxyView,
            ErrorView,
        >(ErrorView::TemplateRender { message: results[k]->Err_0 }),
        (forall|j: int| 0 <= j < results.len() ==> (#[trigger] results[j]) is Ok) ==> (
        me.assembled(host, results) matches Ok(p) && p.host == host && p.port == me.port && p.action
            == me.action),
    decreases results.len(),
{
    lemma_no_failure(results);
    if 0 < k < results.len() && results[k] is Err && (forall|j: int|
        0 <= j < k ==> (#[trigger] results[j]) is Ok) {
        let rest = results.skip(1);
        assert(results[0] is Ok);
        assert(rest[k - 1] == results[k]);
        assert forall|j: int| 0 <= j < k - 1 implies (#[trigger] rest[j]) is Ok by {
            assert(rest[j] == results[j + 1]);
        }
        law_first_failure_counts(me, host, rest, k - 1);
    }
}

} // verus!
