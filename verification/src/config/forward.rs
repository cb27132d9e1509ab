//! A single TCP port that is forwarded from the host's loopback into the
//! sandbox.

use crate::config::resolve_context::{ContextView, ResolveContext};
use crate::config::spanned::{unplaced, Spanned, SpannedView};
use crate::config::Decl;
use crate::errors::{Error, ErrorView, Result};
use crate::host::{Host, HostView};
use crate::text::{
    cat3, decimal, decimal_text, is_digit, law_u16_round_trip, lemma_decimal_value,
    lemma_first_index_is, lemma_first_index_none, lemma_split_first, lemma_split_nonempty,
    lemma_split_plain, parse_u16, parsed_u16, quoted, quoted_text, split_at_each, split_str,
};
use crate::values::{opt_view, Duplicate};
use vstd::prelude::*;
use vstd::string::*;

verus! {

/// A declared forward.
#[derive(Debug)]
pub struct ForwardDecl {
    /// Port on the host's loopback.
    pub host_port: Spanned<u16>,
    /// Port inside the sandbox; absent, it is the host port.
    pub sandbox_port: Option<Spanned<u16>>,
}

/// What a [`ForwardDecl`] says.
#[verifier::ext_equal]
pub struct ForwardDeclView {
    pub host_port: SpannedView<u16>,
    pub sandbox_port: Option<SpannedView<u16>>,
}

impl View for ForwardDecl {
    type V = ForwardDeclView;

    open spec fn view(&self) -> ForwardDeclView {
        ForwardDeclView { host_port: self.host_port@, sandbox_port: opt_view(self.sandbox_port) }
    }
}

impl Duplicate for ForwardDecl {
    fn duplicate(&self) -> (r: ForwardDecl) {
        ForwardDecl {
            host_port: Spanned::new(self.host_port.start, self.host_port.end, self.host_port.value),
            sandbox_port: match &self.sandbox_port {
                Some(p) => Some(Spanned::new(p.start, p.end, p.value)),
                None => None,
            },
        }
    }
}

impl ForwardDeclView {
    /// The port inside the sandbox.
    pub open spec fn inside(self) -> u16 {
        match self.sandbox_port {
            Some(p) => p.value,
            None => self.host_port.value,
        }
    }
}

/// What `HOST_PORT[:SANDBOX_PORT]` declares. A third part is reserved.
pub open spec fn parsed_forward(s: Seq<char>) -> std::result::Result<ForwardDeclView, Seq<char>> {
    let parts = split_at_each(s, ':');
    if parts.len() > 2 {
        Err(
            "forward spec "@ + quoted(s)
                + " contains more than one `:`; multi-colon syntax is reserved for future use"@,
        )
    } else {
        match parsed_u16(parts[0]) {
            None => Err(
                "forward host port "@ + quoted(parts[0]) + " is not a valid TCP port number"@,
            ),
            Some(host) => if parts.len() == 1 {
                Ok(ForwardDeclView { host_port: unplaced(host), sandbox_port: None })
            } else {
                match parsed_u16(parts[1]) {
                    None => Err(
                        "forward sandbox port "@ + quoted(parts[1])
                            + " is not a valid TCP port number"@,
                    ),
                    Some(sandbox) => Ok(
                        ForwardDeclView {
                            host_port: unplaced(host),
                            sandbox_port: Some(unplaced(sandbox)),
                        },
                    ),
                }
            },
        }
    }
}

impl ForwardDecl {
    /// The port inside the sandbox: the host port, unless another was
    /// given.
    pub fn sandbox_port(&self) -> (r: u16)
        ensures
            r == self@.inside(),
    {
        match &self.sandbox_port {
            Some(p) => p.value,
            None => self.host_port.value,
        }
    }

    /// Parse `HOST_PORT[:SANDBOX_PORT]`. Port 0 is for [`Decl::validate`]
    /// to reject.
    pub fn from_str(s: &str) -> (r: std::result::Result<ForwardDecl, String>)
        ensures
            match parsed_forward(s@) {
                Ok(d) => r matches Ok(f) && f@ == d,
                Err(e) => r matches Err(f) && f@ == e,
            },
    {
        let parts = split_str(s, ':');
        let ghost all = split_at_each(s@, ':');
        proof {
            lemma_split_nonempty(s@, ':');
            assert(all.len() == parts@.len());
            assert(forall|i: int| 0 <= i < all.len() ==> #[trigger] all[i] == parts@[i]@);
        }
        if parts.len() > 2 {
            return Err(
                cat3(
                    "forward spec ",
                    quoted_text(s).as_str(),
                    " contains more than one `:`; multi-colon syntax is reserved for future use",
                ),
            );
        }
        let host = match parse_u16(parts[0].as_str()) {
            Some(p) => p,
            None => {
                return Err(
                    cat3(
                        "forward host port ",
                        quoted_text(parts[0].as_str()).as_str(),
                        " is not a valid TCP port number",
                    ),
                );
            },
        };
        if parts.len() == 1 {
            return Ok(ForwardDecl { host_port: Spanned::new(0, 0, host), sandbox_port: None });
        }
        match parse_u16(parts[1].as_str()) {
            Some(sandbox) => Ok(
                ForwardDecl {
                    host_port: Spanned::new(0, 0, host),
                    sandbox_port: Some(Spanned::new(0, 0, sandbox)),
                },
            ),
            None => Err(
                cat3(
                    "forward sandbox port ",
                    quoted_text(parts[1].as_str()).as_str(),
                    " is not a valid TCP port number",
                ),
            ),
        }
    }
}

impl Decl for ForwardDecl {
    type Resolved = Forward;

    /// Neither port may be 0, which means "any port".
    open spec fn validated(me: ForwardDeclView, host: HostView) -> Result<(), ErrorView> {
        if me.host_port.value == 0 {
            Err(ErrorView::InvalidForwardPort { field: "host_port"@, value: 0 })
        } else if me.inside() == 0 {
            Err(ErrorView::InvalidForwardPort { field: "sandbox_port"@, value: 0 })
        } else {
            Ok(())
        }
    }

    open spec fn resolved(me: ForwardDeclView, ctx: ContextView) -> Result<ForwardView, ErrorView> {
        Ok(ForwardView { host_port: me.host_port.value, sandbox_port: me.inside() })
    }

    fn validate(&self, host: &Host) -> (r: Result<()>) {
        if self.host_port.value == 0 {
            return Err(Error::invalid_forward_port("host_port", 0));
        }
        if self.sandbox_port() == 0 {
            return Err(Error::invalid_forward_port("sandbox_port", 0));
        }
        Ok(())
    }

    fn resolve(&self, ctx: &ResolveContext) -> (r: Result<Forward>) {
        Ok(Forward { host_port: self.host_port.value, sandbox_port: self.sandbox_port() })
    }
}

/// A forwarded port.
#[derive(Debug, Clone, Copy)]
pub struct Forward {
    /// Port on the host's loopback.
    pub host_port: u16,
    /// Port inside the sandbox.
    pub sandbox_port: u16,
}

/// What a [`Forward`] says.
#[verifier::ext_equal]
pub struct ForwardView {
    pub host_port: u16,
    pub sandbox_port: u16,
}

impl View for Forward {
    type V = ForwardView;

    open spec fn view(&self) -> ForwardView {
        ForwardView { host_port: self.host_port, sandbox_port: self.sandbox_port }
    }
}

impl Duplicate for Forward {
    fn duplicate(&self) -> (r: Forward) {
        *self
    }
}

impl ForwardView {
    /// The forward in the syntax of `pasta`'s `-T`, which is also that of
    /// a declaration: one port where both are the same.
    pub open spec fn text(self) -> Seq<char> {
        if self.host_port == self.sandbox_port {
            decimal(self.host_port as nat)
        } else {
            decimal(self.host_port as nat) + ":"@ + decimal(self.sandbox_port as nat)
        }
    }
}

impl Forward {
    /// The forward in the syntax of `pasta`'s `-T`.
    pub fn text(&self) -> (r: String)
        ensures
            r@ == self@.text(),
    {
        let host = decimal_text(self.host_port as u64);
        if self.host_port == self.sandbox_port {
            host
        } else {
            cat3(host.as_str(), ":", decimal_text(self.sandbox_port as u64).as_str())
        }
    }
}

/// A printed forward, parsed and resolved, is the forward again.
pub proof fn law_forward_round_trip(f: ForwardView, ctx: ContextView)
    ensures
        parsed_forward(f.text()) matches Ok(d) && ForwardDecl::resolved(d, ctx) == Ok::<
            ForwardView,
            ErrorView,
        >(f),
{
    let h = decimal(f.host_port as nat);
    let b = decimal(f.sandbox_port as nat);
    law_u16_round_trip(f.host_port);
    law_u16_round_trip(f.sandbox_port);
    lemma_decimal_value(f.host_port as nat);
    lemma_decimal_value(f.sandbox_port as nat);
    reveal_strlit(":");
    assert forall|i: int| 0 <= i < h.len() implies h[i] != ':' by {
        assert(is_digit(h[i]));
    }
    assert forall|i: int| 0 <= i < b.len() implies b[i] != ':' by {
        assert(is_digit(b[i]));
    }
    lemma_first_index_none(h, ':');
    lemma_first_index_none(b, ':');
    if f.host_port != f.sandbox_port {
        let t = f.text();
        assert(t[h.len() as int] == ':');
        assert forall|i: int| 0 <= i < h.len() implies t[i] != ':' by {
            assert(t[i] == h[i]);
        }
        lemma_first_index_is(t, ':', h.len() as int);
        assert(t.take(h.len() as int) =~= h);
        assert(t.skip(h.len() as int + 1) =~= b);
        assert(split_at_each(b, ':') == seq![b]);
        assert(split_at_each(t, ':') =~= seq![h, b]);
    }
}

/// `HOST_PORT` and `HOST_PORT:SANDBOX_PORT` are accepted exactly where
/// every part is a port number, and the ports are those numbers; without a
/// second part, the port is the same on both sides. A third part is
/// refused.
pub proof fn law_forward_syntax(h: Seq<char>, b: Seq<char>, rest: Seq<char>)
    requires
        !h.contains(':'),
        !b.contains(':'),
    ensures
        parsed_forward(h) is Ok <==> parsed_u16(h) is Some,
        parsed_forward(h) matches Ok(d) ==> parsed_u16(h) == Some(d.host_port.value) && d.inside()
            == d.host_port.value,
        parsed_forward(h + seq![':'] + b) is Ok <==> parsed_u16(h) is Some && parsed_u16(b) is Some,
        parsed_forward(h + seq![':'] + b) matches Ok(d) ==> parsed_u16(h) == Some(
            d.host_port.value,
        ) && parsed_u16(b) == Some(d.inside()),
        parsed_forward(h + seq![':'] + (b + seq![':'] + rest)) is Err,
{
    lemma_split_plain(h, ':');
    lemma_split_plain(b, ':');
    lemma_split_first(h, ':', b);
    lemma_split_nonempty(rest, ':');
    lemma_split_first(b, ':', rest);
    lemma_split_first(h, ':', b + seq![':'] + rest);
    assert(split_at_each(h + seq![':'] + b, ':') =~= seq![h, b]);
}

/// What is printed of a forward holds digits and at most one `:`, so that
/// nothing in it can be taken for a separator of the list.
pub proof fn lemma_forward_text_plain(f: ForwardView)
    ensures
        !f.text().contains(','),
        f.text().len() > 0,
{
    lemma_decimal_value(f.host_port as nat);
    lemma_decimal_value(f.sandbox_port as nat);
    reveal_strlit(":");
    let h = decimal(f.host_port as nat);
    let b = decimal(f.sandbox_port as nat);
    let t = f.text();
    assert forall|i: int| 0 <= i < t.len() implies t[i] != ',' by {
        if i < h.len() {
            assert(t[i] == h[i] && is_digit(h[i]));
        } else if i > h.len() {
            assert(t[i] == b[i - h.len() - 1] && is_digit(b[i - h.len() - 1]));
        }
    }
}

/// Each refusal says what is wrong, and quotes it.
pub proof fn law_refusals_spelled_out(h: Seq<char>, b: Seq<char>, rest: Seq<char>, host: HostView)
    requires
        !h.contains(':'),
        !b.contains(':'),
    ensures
        ({
            let two = h + seq![':'] + b;
            let three = h + seq![':'] + (b + seq![':'] + rest);
            &&& parsed_forward(three) == Err::<ForwardDeclView, Seq<char>>(
                "forward spec "@ + quoted(three)
                    + " contains more than one `:`; multi-colon syntax is reserved for future use"@,
            )
            &&& parsed_u16(h) is None ==> {
                &&& parsed_forward(h) == Err::<ForwardDeclView, Seq<char>>(
                    "forward host port "@ + quoted(h) + " is not a valid TCP port number"@,
                )
                &&& parsed_forward(two) == parsed_forward(h)
            }
            &&& parsed_u16(h) is Some && parsed_u16(b) is None ==> parsed_forward(two) == Err::<
                ForwardDeclView,
                Seq<char>,
            >("forward sandbox port "@ + quoted(b) + " is not a valid TCP port number"@)
        }),
        forall|d: ForwardDeclView|
            #![trigger ForwardDecl::validated(d, host)]
            d.host_port.value == 0 ==> ForwardDecl::validated(d, host) == Err::<(), ErrorView>(
                ErrorView::InvalidForwardPort { field: "host_port"@, value: 0 },
            ),
        forall|d: ForwardDeclView|
            #![trigger ForwardDecl::validated(d, host)]
            d.host_port.value != 0 && d.inside() == 0 ==> ForwardDecl::validated(d, host) == Err::<
                (),
                ErrorView,
            >(ErrorView::InvalidForwardPort { field: "sandbox_port"@, value: 0 }),
        forall|d: ForwardDeclView|
            #![trigger ForwardDecl::validated(d, host)]
            d.host_port.value != 0 && d.inside() != 0 ==> ForwardDecl::validated(d, host) is Ok,
{
    lemma_split_plain(h, ':');
    lemma_split_plain(b, ':');
    lemma_split_first(h, ':', b);
    lemma_split_nonempty(rest, ':');
    lemma_split_first(b, ':', rest);
    lemma_split_first(h, ':', b + seq![':'] + rest);
    assert(split_at_each(h + seq![':'] + b, ':') =~= seq![h, b]);
}

} // verus!
