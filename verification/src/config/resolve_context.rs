//! What declarations are resolved against: the host's environment and the
//! secrets.
//!
//! Credentials are written as Handlebars templates over the secrets, such
//! as `{{secrets.example.api-key}}`. Templates are strict: one that names
//! a secret which does not exist is an error, not an empty string.

use crate::config::template::{could_recurse, has_tag, may_recurse};
use crate::errors::{outcome, same_outcome, Error, ErrorView, Result};
use crate::host::{Host, HostView};
use crate::text::copy_bytes;
use crate::values::text_result;
use vstd::prelude::*;
use vstd::string::*;

verus! {

/// What templates may refer to, and what is known of the host.
pub struct ResolveContext {
    /// The host.
    pub host: Host,
    /// The secrets, as the text of a TOML document.
    pub secrets: String,
}

/// What a [`ResolveContext`] says.
#[verifier::ext_equal]
pub struct ContextView {
    pub host: HostView,
    pub secrets: Seq<char>,
}

impl View for ResolveContext {
    type V = ContextView;

    open spec fn view(&self) -> ContextView {
        ContextView { host: self.host@, secrets: self.secrets@ }
    }
}

/// The name under which templates find the secrets.
pub const SECRETS_ROOT: &'static str = "secrets";

/// What a template that could include itself without end is refused with.
pub const RECURSIVE_TEMPLATE: &'static str =
    "inline partials must not include one another in a circle";

// ---------------------------------------------------------------------
// What other crates compute
// ---------------------------------------------------------------------
/// What is wrong with the secrets, the text of a TOML document, if
/// anything is.
pub uninterp spec fn secrets_complaint(source: Seq<char>) -> Option<Seq<char>>;

/// Calls `toml::from_str` for a JSON value, and keeps nothing but the
/// complaint, which depends on the text alone; [`secrets_complaint`] names
/// it. Of an empty text there is none.
#[verifier::external_body]
fn check_secrets(source: &str) -> (r: std::result::Result<(), String>)
    ensures
        match secrets_complaint(source@) {
            None => r is Ok,
            Some(e) => r matches Err(f) && f@ == e,
        },
        source@.len() == 0 ==> r is Ok,
{
    let parsed: std::result::Result<serde_json::Value, toml::de::Error> = toml::from_str(source);
    parsed.map(|_| ()).map_err(|e| e.to_string())
}

/// What Handlebars makes of `template` where `data`, read as TOML, stands
/// under the name `root`; `None` where it makes nothing of it.
pub uninterp spec fn rendering(
    strict: bool,
    root: Seq<char>,
    data: Seq<char>,
    template: Seq<char>,
) -> Option<Seq<char>>;

/// Calls `handlebars::Handlebars::render_template` on a fresh registry
/// with the given strictness. The data reaches it as a JSON object whose
/// only member is `root`, which `toml::from_str` reads from `data`; where
/// that cannot be read, nothing is rendered. Whether the template renders,
/// and to what, depends on the arguments alone, and [`rendering`] names it;
/// nothing is said of the text of an error, in which the engine names any
/// one of the things that are wrong. Text in which no tag stands comes out
/// as it is, unless the data cannot be read. A template whose inline
/// partials include one another in a circle may never be done; whether it
/// is depends on the data and on the helpers that stand in between, so
/// none with a circle is let through.
#[verifier::external_body]
fn render_with(strict: bool, root: &str, data: &str, template: &str) -> (r: std::result::Result<
    String,
    String,
>)
    requires
        !may_recurse(template@),
    ensures
        match rendering(strict, root@, data@, template@) {
            Some(s) => r matches Ok(t) && t@ == s,
            None => r is Err,
        },
        r matches Ok(s) ==> !has_tag(template@) ==> s@ == template@,
        !has_tag(template@) && readable(data@) ==> r is Ok,
        secrets_complaint(data@) is Some ==> r is Err,
{
    let value: serde_json::Value = toml::from_str(data).map_err(|e| e.to_string())?;
    let mut scope = serde_json::Map::new();
    scope.insert(root.to_owned(), value);
    let mut registry = handlebars::Handlebars::new();
    registry.set_strict_mode(strict);
    registry.render_template(template, &scope).map_err(|e| e.to_string())
}

// ---------------------------------------------------------------------
// Rendering
// ---------------------------------------------------------------------
/// Can the secrets be read? An empty text can.
pub open spec fn readable(secrets: Seq<char>) -> bool {
    secrets.len() == 0 || secrets_complaint(secrets) is None
}

/// What a template stands for, given what it renders to, if it does.
pub open spec fn template_outcome(rendered: Option<Seq<char>>) -> Result<Seq<char>, ErrorView> {
    match rendered {
        Some(s) => Ok(s),
        None => Err(ErrorView::TemplateRender { message: seq![] }),
    }
}

/// What a template stands for, given what rendering it came to.
pub open spec fn concluded(r: std::result::Result<Seq<char>, Seq<char>>) -> Result<
    Seq<char>,
    ErrorView,
> {
    match r {
        Ok(s) => Ok(s),
        Err(message) => Err(ErrorView::TemplateRender { message }),
    }
}

/// A context, given what came of reading its secrets, the text of the file
/// at `path`.
pub open spec fn context_of(
    host: HostView,
    path: Seq<u8>,
    secrets: Seq<char>,
    checked: std::result::Result<(), Seq<char>>,
) -> Result<ContextView, ErrorView> {
    match checked {
        Ok(_) => Ok(ContextView { host, secrets }),
        Err(source) => Err(ErrorView::CouldNotParseSecrets { path, source }),
    }
}

impl ContextView {
    /// What `template` renders to against the secrets, if it does.
    pub open spec fn rendered(self, template: Seq<char>) -> Option<Seq<char>> {
        if may_recurse(template) {
            None
        } else {
            rendering(true, SECRETS_ROOT@, self.secrets, template)
        }
    }
}

impl ResolveContext {
    /// A context, given what came of reading its secrets, the text of the
    /// file at `path`.
    pub fn with_checked(
        host: Host,
        path: &[u8],
        secrets: String,
        checked: std::result::Result<(), String>,
    ) -> (r: Result<ResolveContext>)
        ensures
            outcome(r) == context_of(
                host@,
                path@,
                secrets@,
                match checked {
                    Ok(_) => Ok(()),
                    Err(source) => Err(source@),
                },
            ),
    {
        match checked {
            Ok(_) => Ok(ResolveContext { host, secrets }),
            Err(source) => Err(
                Error::could_not_parse_secrets(copy_bytes(path), source.as_str()),
            ),
        }
    }

    /// A context with the secrets of the file at `path`, whose text is a
    /// TOML document; one that cannot be read is an error.
    pub fn new(host: Host, path: &[u8], secrets: String) -> (r: Result<ResolveContext>)
        ensures
            match secrets_complaint(secrets@) {
                None => r matches Ok(ctx) && ctx@ == (ContextView {
                    host: host@,
                    secrets: secrets@,
                }),
                Some(source) => r matches Err(e) && e@ == (ErrorView::CouldNotParseSecrets {
                    path: path@,
                    source,
                }),
            },
            secrets@.len() == 0 ==> r is Ok,
    {
        let checked = check_secrets(secrets.as_str());
        ResolveContext::with_checked(host, path, secrets, checked)
    }

    /// A context with no secrets, on a host of which nothing is known.
    pub fn empty() -> (r: ResolveContext)
        ensures
            r@.host == (HostView { vars: seq![], home: None, cwd: None, unreadable: seq![] }),
            r@.secrets == Seq::<char>::empty(),
    {
        let r = ResolveContext { host: Host::empty(), secrets: String::new() };
        assert(r@.secrets =~= Seq::<char>::empty());
        r
    }

    /// Render `template` against the secrets. Text in which no tag stands
    /// comes out as it is.
    pub fn render(&self, template: &str) -> (r: std::result::Result<String, String>)
        ensures
            match self@.rendered(template@) {
                Some(s) => r matches Ok(t) && t@ == s,
                None => r is Err,
            },
            may_recurse(template@) ==> (r matches Err(e) && e@ == RECURSIVE_TEMPLATE@),
            r matches Ok(s) ==> !has_tag(template@) ==> s@ == template@,
            !has_tag(template@) && readable(self@.secrets) ==> r is Ok,
    {
        if could_recurse(template) {
            return Err(RECURSIVE_TEMPLATE.to_owned());
        }
        render_with(true, SECRETS_ROOT, self.secrets.as_str(), template)
    }

    /// What a template stands for, given what rendering it came to.
    pub fn conclude(r: std::result::Result<String, String>) -> (t: Result<String>)
        ensures
            outcome(t) == concluded(text_result(r)),
    {
        match r {
            Ok(s) => Ok(s),
            Err(message) => Err(Error::template_render(message.as_str())),
        }
    }

    /// Render `template` against the secrets. One that names a secret which
    /// does not exist, or that cannot be rendered for another reason, is an
    /// error.
    pub fn render_template(&self, template: &str) -> (r: Result<String>)
        ensures
            same_outcome(outcome(r), template_outcome(self@.rendered(template@))),
            r matches Ok(s) ==> !has_tag(template@) ==> s@ == template@,
            !has_tag(template@) && readable(self@.secrets) ==> r is Ok,
    {
        ResolveContext::conclude(self.render(template))
    }
}

/// Templates find the secrets under the name `secrets`, and a name that is
/// not there is an error rather than nothing: the engine is strict. A
/// template that could include itself without end is not handed to it.
pub proof fn law_templates_are_rendered_strictly(ctx: ContextView, template: Seq<char>)
    ensures
        may_recurse(template) ==> ctx.rendered(template) is None,
        !may_recurse(template) ==> ctx.rendered(template) == rendering(
            true,
            "secrets"@,
            ctx.secrets,
            template,
        ),
{
}

/// A context has the host and the secrets that it was given; secrets that
/// cannot be read are an error that names their file and says why, and so
/// is a template that does not render.
pub proof fn law_contexts_keep_what_they_are_given(
    host: HostView,
    path: Seq<u8>,
    secrets: Seq<char>,
    source: Seq<char>,
)
    ensures
        context_of(host, path, secrets, Ok(())) matches Ok(ctx) && ctx.host == host && ctx.secrets
            == secrets,
        context_of(host, path, secrets, Err(source)) == Err::<ContextView, ErrorView>(
            ErrorView::CouldNotParseSecrets { path, source },
        ),
        concluded(Ok(source)) == Ok::<Seq<char>, ErrorView>(source),
        concluded(Err(source)) == Err::<Seq<char>, ErrorView>(
            ErrorView::TemplateRender { message: source },
        ),
{
}

} // verus!
