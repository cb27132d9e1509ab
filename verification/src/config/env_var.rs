//! A single environment variable of the sandbox.

use crate::config::resolve_context::{ContextView, ResolveContext};
use crate::config::spanned::{unplaced, Spanned, SpannedView};
use crate::config::Decl;
use crate::errors::{Error, ErrorView, Result};
use crate::host::{Host, HostView};
use crate::text::{
    bytes_of, contains_char, law_cut_at_the_first, lossy_text, split_first, split_once_str, utf8,
    utf8_lossy,
};
use crate::values::{duplicate_opt, opt_view, Duplicate};
use vstd::prelude::*;
use vstd::string::*;

verus! {

/// A declared variable: a name, and a value unless the host's is to be
/// passed through.
#[derive(Debug)]
pub struct EnvVarDecl {
    /// The name.
    pub name: Spanned<String>,
    /// The value, which may be empty; absent, the host's value is passed
    /// through.
    pub value: Option<String>,
}

/// What an [`EnvVarDecl`] says.
#[verifier::ext_equal]
pub struct EnvVarDeclView {
    pub name: SpannedView<Seq<char>>,
    pub value: Option<Seq<char>>,
}

impl View for EnvVarDecl {
    type V = EnvVarDeclView;

    open spec fn view(&self) -> EnvVarDeclView {
        EnvVarDeclView { name: self.name@, value: opt_view(self.value) }
    }
}

impl Duplicate for EnvVarDecl {
    fn duplicate(&self) -> (r: EnvVarDecl) {
        EnvVarDecl { name: self.name.duplicate(), value: duplicate_opt(&self.value) }
    }
}

impl EnvVarDeclView {
    /// The variable it stands for. A variable to be passed through that
    /// the host does not have is dropped.
    pub open spec fn var(self, host: HostView) -> Option<EnvVarView> {
        match self.value {
            Some(literal) => Some(EnvVarView { name: self.name.value, value: utf8(literal) }),
            None => match host.var(self.name.value) {
                Some(value) => Some(EnvVarView { name: self.name.value, value }),
                None => None,
            },
        }
    }
}

/// What `VAR` (pass through) or `VAR=VALUE` (literal) declares. The first
/// `=` decides: what follows it is the value, even where it is empty.
pub open spec fn parsed_env_var(s: Seq<char>) -> EnvVarDeclView {
    match split_first(s, '=') {
        Some((name, value)) => EnvVarDeclView { name: unplaced(name), value: Some(value) },
        None => EnvVarDeclView { name: unplaced(s), value: None },
    }
}

impl EnvVarDecl {
    /// Parse `VAR` or `VAR=VALUE`. Every text is one of the two; whether
    /// the name is usable is for [`Decl::validate`] to say.
    pub fn from_str(s: &str) -> (r: Result<EnvVarDecl>)
        ensures
            r matches Ok(d) && d@ == parsed_env_var(s@),
    {
        match split_once_str(s, '=') {
            Some((name, value)) => Ok(
                EnvVarDecl { name: Spanned::new(0, 0, name), value: Some(value) },
            ),
            None => Ok(EnvVarDecl { name: Spanned::new(0, 0, s.to_owned()), value: None }),
        }
    }
}

impl Decl for EnvVarDecl {
    type Resolved = ResolvedEnvVar;

    /// The name must not be empty and must not contain NUL.
    open spec fn validated(me: EnvVarDeclView, host: HostView) -> Result<(), ErrorView> {
        if me.name.value.len() == 0 {
            Err(ErrorView::InvalidEnvName { name: me.name.value, reason: "name is empty"@ })
        } else if me.name.value.contains('\0') {
            Err(ErrorView::InvalidEnvName { name: me.name.value, reason: "name contains NUL"@ })
        } else {
            Ok(())
        }
    }

    open spec fn resolved(me: EnvVarDeclView, ctx: ContextView) -> Result<
        Option<EnvVarView>,
        ErrorView,
    > {
        Ok(me.var(ctx.host))
    }

    fn validate(&self, host: &Host) -> (r: Result<()>) {
        let name = self.name.value.as_str();
        if name.is_empty() {
            return Err(Error::invalid_env_name(name, "name is empty"));
        }
        if contains_char(name, '\0') {
            return Err(Error::invalid_env_name(name, "name contains NUL"));
        }
        Ok(())
    }

    fn resolve(&self, ctx: &ResolveContext) -> (r: Result<ResolvedEnvVar>) {
        let value = match &self.value {
            Some(literal) => bytes_of(literal.as_str()),
            None => match ctx.host.var_os(self.name.value.as_str()) {
                Some(value) => value,
                None => {
                    return Ok(ResolvedEnvVar { var: None });
                },
            },
        };
        let found = ResolvedEnvVar { var: Some(EnvVar { name: self.name.value.clone(), value }) };
        assert(found@ == self@.var(ctx@.host));
        Ok(found)
    }
}

/// What a declared variable resolves to: nothing, where it was to be
/// passed through and the host does not have it.
pub struct ResolvedEnvVar {
    /// The variable.
    pub var: Option<EnvVar>,
}

impl View for ResolvedEnvVar {
    type V = Option<EnvVarView>;

    open spec fn view(&self) -> Option<EnvVarView> {
        opt_view(self.var)
    }
}

/// A variable of the sandbox. The value is kept byte for byte, since the
/// host's need not be UTF-8.
#[derive(Debug)]
pub struct EnvVar {
    /// The name.
    pub name: String,
    /// The value.
    pub value: Vec<u8>,
}

/// What an [`EnvVar`] says.
#[verifier::ext_equal]
pub struct EnvVarView {
    pub name: Seq<char>,
    pub value: Seq<u8>,
}

impl View for EnvVar {
    type V = EnvVarView;

    open spec fn view(&self) -> EnvVarView {
        EnvVarView { name: self.name@, value: self.value@ }
    }
}

impl Duplicate for EnvVar {
    fn duplicate(&self) -> (r: EnvVar) {
        EnvVar { name: self.name.clone(), value: self.value.duplicate() }
    }
}

impl EnvVar {
    /// The value as a report shows it: what is not UTF-8 is replaced by
    /// U+FFFD. Only reports use this; the sandbox gets the bytes.
    pub fn value_lossy(&self) -> (r: String)
        ensures
            r@ == utf8_lossy(self@.value),
    {
        lossy_text(self.value.as_slice())
    }
}

/// `VAR` passes the host's value through and `VAR=VALUE` gives that value,
/// which may be empty or hold further `=`.
pub proof fn law_env_var_syntax(name: Seq<char>, value: Seq<char>, host: HostView)
    requires
        !name.contains('='),
    ensures
        parsed_env_var(name + seq!['='] + value).var(host) == Some(
            EnvVarView { name, value: utf8(value) },
        ),
        parsed_env_var(name).var(host) == (match host.var(name) {
            Some(bytes) => Some(EnvVarView { name, value: bytes }),
            None => None,
        }),
        EnvVarDecl::validated(parsed_env_var(name), host) is Ok <==> name.len() > 0
            && !name.contains('\0'),
        EnvVarDecl::validated(parsed_env_var(name + seq!['='] + value), host) is Ok <==> name.len()
            > 0 && !name.contains('\0'),
{
    law_cut_at_the_first(name, '=', value);
}

/// A name that cannot be used is refused with the name and what is wrong
/// with it.
pub proof fn law_refusals_spelled_out(me: EnvVarDeclView, host: HostView)
    ensures
        me.name.value.len() == 0 ==> EnvVarDecl::validated(me, host) == Err::<(), ErrorView>(
            ErrorView::InvalidEnvName { name: me.name.value, reason: "name is empty"@ },
        ),
        me.name.value.contains('\0') ==> EnvVarDecl::validated(me, host) == Err::<(), ErrorView>(
            ErrorView::InvalidEnvName { name: me.name.value, reason: "name contains NUL"@ },
        ),
{
}

} // verus!
