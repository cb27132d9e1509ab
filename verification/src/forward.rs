//! Forwards as the command line alone describes them, without profiles.
//!
//! The `forwards` command prints this list. Each forward remembers where it
//! came from.

use crate::config::forward::{lemma_forward_text_plain, ForwardView as PortsView};
use crate::text::{
    cat3, decimal, is_digit, joined, law_u16_round_trip, lemma_decimal_value, lemma_split_first,
    lemma_split_joined, lemma_split_nonempty, lemma_split_plain, parse_u16, parsed_u16, quoted,
    quoted_text, split_at_each, split_str,
};
use crate::values::views;
use vstd::prelude::*;
use vstd::std_specs::iter::IteratorSpec;
use vstd::string::*;

verus! {

/// Where a forward came from.
#[derive(Debug, Clone, Copy, PartialEq, Eq, Structural)]
pub enum ForwardSource {
    /// The command line asked for it.
    Cli,
}

/// A forwarded port.
#[derive(Debug, Clone, Copy)]
pub struct Forward {
    /// Port on the host's loopback.
    pub host_port: u16,
    /// Port inside the sandbox.
    pub sandbox_port: u16,
    /// Where it came from.
    pub source: ForwardSource,
}

/// What a [`Forward`] says.
#[verifier::ext_equal]
pub struct ForwardView {
    pub host_port: u16,
    pub sandbox_port: u16,
    pub source: ForwardSource,
}

impl View for Forward {
    type V = ForwardView;

    open spec fn view(&self) -> ForwardView {
        ForwardView {
            host_port: self.host_port,
            sandbox_port: self.sandbox_port,
            source: self.source,
        }
    }
}

impl ForwardView {
    /// The forward in the syntax of `pasta`'s `-T`.
    pub open spec fn text(self) -> Seq<char> {
        PortsView { host_port: self.host_port, sandbox_port: self.sandbox_port }.text()
    }
}

/// Forwards in the syntax of `pasta`'s `-T`, separated by commas.
pub open spec fn pasta_text(list: Seq<ForwardView>) -> Seq<char> {
    joined(list.map_values(|f: ForwardView| f.text()), ","@)
}

/// The forwarded ports, in order.
#[derive(Debug)]
pub struct ForwardList(pub Vec<Forward>);

impl View for ForwardList {
    type V = Seq<ForwardView>;

    open spec fn view(&self) -> Seq<ForwardView> {
        views(self.0@)
    }
}

impl Default for ForwardList {
    /// No forwards.
    fn default() -> (r: ForwardList)
        ensures
            r@ == Seq::<ForwardView>::empty(),
    {
        ForwardList::new()
    }
}

impl ForwardList {
    /// A list without forwards.
    pub fn new() -> (r: ForwardList)
        ensures
            r@ == Seq::<ForwardView>::empty(),
    {
        let r = ForwardList(Vec::new());
        assert(r@ =~= Seq::<ForwardView>::empty());
        r
    }

    /// Append a forward.
    pub fn forward(&mut self, host_port: u16, sandbox_port: u16, source: ForwardSource)
        ensures
            final(self)@ == old(self)@.push((ForwardView { host_port, sandbox_port, source })),
    {
        let ghost before = self.0@;
        self.0.push(Forward { host_port, sandbox_port, source });
        assert(views(self.0@) =~= views(before).push(
            (ForwardView { host_port, sandbox_port, source }),
        ));
    }

    /// The forwards, in order.
    pub fn iter(&self) -> (r: std::slice::Iter<'_, Forward>)
        ensures
            r.remaining() == self.0@.as_ref(),
    {
        self.0.as_slice().iter()
    }

    /// Is there no forward?
    pub fn is_empty(&self) -> (r: bool)
        ensures
            r == (self@.len() == 0),
    {
        self.0.len() == 0
    }

    /// The forwards in the syntax of `pasta`'s `-T`: one port where both are
    /// the same, two with a `:` between them otherwise, separated by commas.
    pub fn format_for_pasta(&self) -> (r: String)
        ensures
            r@ == pasta_text(self@),
    {
        let ghost all = self@.map_values(|f: ForwardView| f.text());
        let mut out = String::new();
        let mut i: usize = 0;
        while i < self.0.len()
            invariant
                i <= self.0@.len(),
                all == self@.map_values(|f: ForwardView| f.text()),
                out@ == joined(all.take(i as int), ","@),
            decreases self.0.len() - i,
        {
            let ports = crate::config::forward::Forward {
                host_port: self.0[i].host_port,
                sandbox_port: self.0[i].sandbox_port,
            };
            let piece = ports.text();
            if i > 0 {
                out.append(",");
            }
            out.append(piece.as_str());
            proof {
                assert(all.take(i + 1).drop_last() =~= all.take(i as int));
                assert(all.take(i + 1).last() == piece@);
                if i == 0 {
                    assert(out@ =~= piece@);
                }
            }
            i = i + 1;
        }
        assert(all.take(all.len() as int) =~= all);
        out
    }
}

// ---------------------------------------------------------------------
// The command line
// ---------------------------------------------------------------------
/// A forward that the command line asks for.
#[derive(Debug, Clone, Copy)]
pub struct ForwardSpec {
    /// Port on the host's loopback.
    pub host_port: u16,
    /// Port inside the sandbox.
    pub sandbox_port: u16,
}

impl View for ForwardSpec {
    type V = PortsView;

    open spec fn view(&self) -> PortsView {
        PortsView { host_port: self.host_port, sandbox_port: self.sandbox_port }
    }
}

/// A port other than 0.
pub open spec fn parsed_port(s: Seq<char>) -> std::result::Result<u16, Seq<char>> {
    match parsed_u16(s) {
        None => Err("not a TCP port number"@),
        Some(n) => if n == 0 {
            Err("port 0 is not a valid forward target"@)
        } else {
            Ok(n)
        },
    }
}

/// What `HOST_PORT[:SANDBOX_PORT]` asks for. A third part is reserved.
pub open spec fn parsed_spec(s: Seq<char>) -> std::result::Result<PortsView, Seq<char>> {
    let parts = split_at_each(s, ':');
    let host = parts[0];
    let sandbox = if parts.len() > 1 {
        parts[1]
    } else {
        parts[0]
    };
    if parts.len() > 2 {
        Err(
            "forward spec "@ + quoted(s)
                + " contains more than one `:`; multi-colon syntax is reserved for future use"@,
        )
    } else {
        match parsed_port(host) {
            Err(e) => Err("forward host port "@ + quoted(host) + " is invalid: "@ + e),
            Ok(host_port) => match parsed_port(sandbox) {
                Err(e) => Err("forward sandbox port "@ + quoted(sandbox) + " is invalid: "@ + e),
                Ok(sandbox_port) => Ok(PortsView { host_port, sandbox_port }),
            },
        }
    }
}

/// Parse a port other than 0.
pub fn parse_port(s: &str) -> (r: std::result::Result<u16, String>)
    ensures
        match parsed_port(s@) {
            Ok(n) => r == Ok::<u16, String>(n),
            Err(e) => r matches Err(f) && f@ == e,
        },
{
    match parse_u16(s) {
        None => Err("not a TCP port number".to_owned()),
        Some(n) => if n == 0 {
            Err("port 0 is not a valid forward target".to_owned())
        } else {
            Ok(n)
        },
    }
}

impl ForwardSpec {
    /// Parse `HOST_PORT[:SANDBOX_PORT]`.
    pub fn from_str(s: &str) -> (r: std::result::Result<ForwardSpec, String>)
        ensures
            match parsed_spec(s@) {
                Ok(d) => r matches Ok(f) && f@ == d,
                Err(e) => r matches Err(f) && f@ == e,
            },
    {
        let parts = split_str(s, ':');
        let ghost all = split_at_each(s@, ':');
        proof {
            lemma_split_nonempty(s@, ':');
            assert(all.len() == parts@.len());
            assert(forall|i: int| 0 <= i < all.len() ==> #[trigger] all[i] == parts@[i]@);
        }
        if parts.len() > 2 {
            return Err(
                cat3(
                    "forward spec ",
                    quoted_text(s).as_str(),
                    " contains more than one `:`; multi-colon syntax is reserved for future use",
                ),
            );
        }
        let host = parts[0].as_str();
        let sandbox = if parts.len() > 1 {
            parts[1].as_str()
        } else {
            parts[0].as_str()
        };
        let host_port = match parse_port(host) {
            Ok(n) => n,
            Err(e) => {
                let mut text = cat3(
                    "forward host port ",
                    quoted_text(host).as_str(),
                    " is invalid: ",
                );
                text.append(e.as_str());
                return Err(text);
            },
        };
        match parse_port(sandbox) {
            Ok(sandbox_port) => Ok(ForwardSpec { host_port, sandbox_port }),
            Err(e) => {
                let mut text = cat3(
                    "forward sandbox port ",
                    quoted_text(sandbox).as_str(),
                    " is invalid: ",
                );
                text.append(e.as_str());
                Err(text)
            },
        }
    }
}

/// What the command line says about forwards.
#[derive(Debug)]
pub struct ForwardOpts {
    /// The forwards, in order.
    pub forward: Vec<ForwardSpec>,
}

impl Default for ForwardOpts {
    /// Nothing.
    fn default() -> (r: ForwardOpts)
        ensures
            r.forward@.len() == 0,
    {
        ForwardOpts { forward: Vec::new() }
    }
}

/// What was asked for on the command line, as forwards.
pub open spec fn asked_forwards(specs: Seq<PortsView>) -> Seq<ForwardView> {
    specs.map_values(
        |f: PortsView|
            ForwardView {
                host_port: f.host_port,
                sandbox_port: f.sandbox_port,
                source: ForwardSource::Cli,
            },
    )
}

impl ForwardOpts {
    /// Append the forwards to a list, in order.
    pub fn apply(&self, list: &mut ForwardList)
        ensures
            final(list)@ == old(list)@ + asked_forwards(views(self.forward@)),
    {
        let ghost added = asked_forwards(views(self.forward@));
        let mut i: usize = 0;
        assert(old(list)@ + added.take(0) =~= old(list)@);
        while i < self.forward.len()
            invariant
                i <= self.forward@.len(),
                added == asked_forwards(views(self.forward@)),
                list@ == old(list)@ + added.take(i as int),
            decreases self.forward.len() - i,
        {
            list.forward(
                self.forward[i].host_port,
                self.forward[i].sandbox_port,
                ForwardSource::Cli,
            );
            proof {
                assert(views(self.forward@)[i as int] == self.forward@[i as int]@);
                assert(added.take(i + 1) =~= added.take(i as int).push(added[i as int]));
                assert(list@ =~= old(list)@ + added.take(i + 1));
            }
            i = i + 1;
        }
        assert(added.take(added.len() as int) =~= added);
    }
}

/// What is accepted never forwards port 0.
pub proof fn law_port_zero_is_rejected(s: Seq<char>)
    ensures
        parsed_spec(s) matches Ok(f) ==> f.host_port != 0 && f.sandbox_port != 0,
{
}

/// `HOST_PORT` and `HOST_PORT:SANDBOX_PORT` are accepted exactly where
/// every part is a port number other than 0, and the ports are those
/// numbers; without a second part, the port is the same on both sides. A
/// third part is refused.
pub proof fn law_spec_syntax(h: Seq<char>, b: Seq<char>, rest: Seq<char>)
    requires
        !h.contains(':'),
        !b.contains(':'),
    ensures
        ({
            let host_ok = parsed_u16(h) is Some && parsed_u16(h) != Some(0u16);
            let sandbox_ok = parsed_u16(b) is Some && parsed_u16(b) != Some(0u16);
            let two = parsed_spec(h + seq![':'] + b);
            &&& parsed_spec(h) is Ok <==> host_ok
            &&& parsed_spec(h) matches Ok(f) ==> parsed_u16(h) == Some(f.host_port)
                && f.sandbox_port == f.host_port
            &&& two is Ok <==> host_ok && sandbox_ok
            &&& two matches Ok(f) ==> parsed_u16(h) == Some(f.host_port) && parsed_u16(b) == Some(
                f.sandbox_port,
            )
            &&& parsed_spec(h + seq![':'] + (b + seq![':'] + rest)) is Err
        }),
{
    lemma_split_plain(h, ':');
    lemma_split_plain(b, ':');
    lemma_split_first(h, ':', b);
    lemma_split_nonempty(rest, ':');
    lemma_split_first(b, ':', rest);
    lemma_split_first(h, ':', b + seq![':'] + rest);
    assert(split_at_each(h + seq![':'] + b, ':') =~= seq![h, b]);
}

/// What `pasta` is told of forwards of ports other than 0 reads back as
/// what was asked for: taken apart at the commas it has one part for each
/// forward, in order, and each part reads as the ports of its forward.
pub proof fn law_forwards_read_back(list: Seq<ForwardView>)
    requires
        list.len() > 0,
        forall|i: int|
            0 <= i < list.len() ==> (#[trigger] list[i]).host_port != 0 && list[i].sandbox_port
                != 0,
    ensures
        ({
            let parts = split_at_each(pasta_text(list), ',');
            &&& parts.len() == list.len()
            &&& forall|i: int|
                0 <= i < parts.len() ==> (parsed_spec(#[trigger] parts[i]) matches Ok(f)
                    && f.host_port == list[i].host_port && f.sandbox_port
                    == list[i].sandbox_port)
        }),
{
    let texts = list.map_values(|f: ForwardView| f.text());
    reveal_strlit(",");
    assert(","@ =~= seq![',']);
    assert forall|i: int, j: int|
        0 <= i < texts.len() && 0 <= j < (#[trigger] texts[i]).len() implies #[trigger] texts[i][j]
        != ',' by {
        let f = PortsView { host_port: list[i].host_port, sandbox_port: list[i].sandbox_port };
        lemma_forward_text_plain(f);
        assert(texts[i] == f.text());
        assert(texts[i].contains(texts[i][j]));
    }
    lemma_split_joined(texts, ',');
    assert forall|i: int| 0 <= i < texts.len() implies (parsed_spec(#[trigger] texts[i]) matches Ok(
        f,
    ) && f.host_port == list[i].host_port && f.sandbox_port == list[i].sandbox_port) by {
        lemma_printed_ports(
            PortsView { host_port: list[i].host_port, sandbox_port: list[i].sandbox_port },
        );
    }
}

/// Printed ports other than 0 read as themselves.
proof fn lemma_printed_ports(f: PortsView)
    requires
        f.host_port != 0,
        f.sandbox_port != 0,
    ensures
        parsed_spec(f.text()) == Ok::<PortsView, Seq<char>>(f),
{
    let h = decimal(f.host_port as nat);
    let b = decimal(f.sandbox_port as nat);
    law_u16_round_trip(f.host_port);
    law_u16_round_trip(f.sandbox_port);
    lemma_decimal_value(f.host_port as nat);
    lemma_decimal_value(f.sandbox_port as nat);
    reveal_strlit(":");
    assert(":"@ =~= seq![':']);
    assert(!h.contains(':')) by {
        if h.contains(':') {
            let i = choose|i: int| 0 <= i < h.len() && h[i] == ':';
            assert(is_digit(h[i]));
        }
    }
    assert(!b.contains(':')) by {
        if b.contains(':') {
            let i = choose|i: int| 0 <= i < b.len() && b[i] == ':';
            assert(is_digit(b[i]));
        }
    }
    law_spec_syntax(h, b, Seq::empty());
}

/// There is one forward for each that was asked for, in order and with its
/// ports, and it is said to come from the command line.
pub proof fn law_asked_forwards_one_for_one(specs: Seq<PortsView>)
    ensures
        asked_forwards(specs).len() == specs.len(),
        forall|i: int|
            0 <= i < specs.len() ==> asked_forwards(specs)[i].host_port == (
            #[trigger] specs[i]).host_port && asked_forwards(specs)[i].sandbox_port
                == specs[i].sandbox_port && asked_forwards(specs)[i].source == ForwardSource::Cli,
{
}

/// Each refusal says what is wrong, and quotes it.
pub proof fn law_refusals_spelled_out(h: Seq<char>, b: Seq<char>, rest: Seq<char>)
    requires
        !h.contains(':'),
        !b.contains(':'),
    ensures
        ({
            let two = h + seq![':'] + b;
            let three = h + seq![':'] + (b + seq![':'] + rest);
            let fine = parsed_u16(h) is Some && parsed_u16(h) != Some(0u16);
            &&& parsed_spec(three) == Err::<PortsView, Seq<char>>(
                "forward spec "@ + quoted(three)
                    + " contains more than one `:`; multi-colon syntax is reserved for future use"@,
            )
            &&& parsed_u16(h) is None ==> {
                &&& parsed_spec(h) == Err::<PortsView, Seq<char>>(
                    "forward host port "@ + quoted(h) + " is invalid: "@ + "not a TCP port number"@,
                )
                &&& parsed_spec(two) == parsed_spec(h)
            }
            &&& parsed_u16(h) == Some(0u16) ==> {
                &&& parsed_spec(h) == Err::<PortsView, Seq<char>>(
                    "forward host port "@ + quoted(h) + " is invalid: "@
                        + "port 0 is not a valid forward target"@,
                )
                &&& parsed_spec(two) == parsed_spec(h)
            }
            &&& fine && parsed_u16(b) is None ==> parsed_spec(two) == Err::<PortsView, Seq<char>>(
                "forward sandbox port "@ + quoted(b) + " is invalid: "@ + "not a TCP port number"@,
            )
            &&& fine && parsed_u16(b) == Some(0u16) ==> parsed_spec(two) == Err::<
                PortsView,
                Seq<char>,
            >(
                "forward sandbox port "@ + quoted(b) + " is invalid: "@
                    + "port 0 is not a valid forward target"@,
            )
        }),
{
    lemma_split_plain(h, ':');
    lemma_split_plain(b, ':');
    lemma_split_first(h, ':', b);
    lemma_split_nonempty(rest, ':');
    lemma_split_first(b, ':', rest);
    lemma_split_first(h, ':', b + seq![':'] + rest);
    assert(split_at_each(h + seq![':'] + b, ':') =~= seq![h, b]);
}

} // verus!
