//! The list of TCP ports that are forwarded into the sandbox.
//!
//! There are no automatic forwards: a sandbox reaches nothing of the host
//! until the user asks for a port.

use crate::config::forward::{
    law_forward_round_trip, lemma_forward_text_plain, parsed_forward, Forward, ForwardDecl,
    ForwardDeclView, ForwardView,
};
use crate::config::resolve_context::{ContextView, ResolveContext};
use crate::config::{
    finalized, resolve_all, resolved_all, validate_all, validated_all, Decl, Finalize, Merge,
};
use crate::errors::{ErrorView, Result};
use crate::host::{Host, HostView};
use crate::text::{joined, lemma_split_joined, split_at_each};
use crate::values::{duplicate_all, push_duplicates, views, Duplicate};
use vstd::prelude::*;
use vstd::std_specs::iter::IteratorSpec;
use vstd::string::*;

verus! {

/// The declared forwards, of one profile or of the command line.
#[derive(Debug)]
pub struct ForwardDecls {
    /// The forwards, in the order in which they were declared.
    pub forwards: Vec<ForwardDecl>,
}

/// What [`ForwardDecls`] say.
#[verifier::ext_equal]
pub struct ForwardDeclsView {
    pub forwards: Seq<ForwardDeclView>,
}

impl View for ForwardDecls {
    type V = ForwardDeclsView;

    open spec fn view(&self) -> ForwardDeclsView {
        ForwardDeclsView { forwards: views(self.forwards@) }
    }
}

impl Duplicate for ForwardDecls {
    fn duplicate(&self) -> (r: ForwardDecls) {
        ForwardDecls { forwards: duplicate_all(&self.forwards) }
    }
}

impl Default for ForwardDecls {
    /// No forwards.
    fn default() -> (r: ForwardDecls)
        ensures
            r@ == (ForwardDeclsView { forwards: seq![] }),
    {
        let r = ForwardDecls { forwards: Vec::new() };
        assert(r@.forwards =~= Seq::<ForwardDeclView>::empty());
        r
    }
}

impl Decl for ForwardDecls {
    type Resolved = Forwards;

    open spec fn validated(me: ForwardDeclsView, host: HostView) -> Result<(), ErrorView> {
        validated_all::<ForwardDecl>(me.forwards, host)
    }

    open spec fn resolved(me: ForwardDeclsView, ctx: ContextView) -> Result<
        ForwardsView,
        ErrorView,
    > {
        match resolved_all::<ForwardDecl>(me.forwards, ctx) {
            Ok(forwards) => Ok(ForwardsView { forwards }),
            Err(e) => Err(e),
        }
    }

    fn validate(&self, host: &Host) -> (r: Result<()>) {
        validate_all(&self.forwards, host)
    }

    fn resolve(&self, ctx: &ResolveContext) -> (r: Result<Forwards>) {
        match resolve_all(&self.forwards, ctx) {
            Ok(forwards) => Ok(Forwards { forwards }),
            Err(e) => Err(e),
        }
    }
}

/// The forwarded ports, in order.
#[derive(Debug)]
pub struct Forwards {
    /// The forwards.
    pub forwards: Vec<Forward>,
}

/// What [`Forwards`] say.
#[verifier::ext_equal]
pub struct ForwardsView {
    pub forwards: Seq<ForwardView>,
}

impl View for Forwards {
    type V = ForwardsView;

    open spec fn view(&self) -> ForwardsView {
        ForwardsView { forwards: views(self.forwards@) }
    }
}

impl Duplicate for Forwards {
    fn duplicate(&self) -> (r: Forwards) {
        Forwards { forwards: duplicate_all(&self.forwards) }
    }
}

impl Default for Forwards {
    /// No forwards.
    fn default() -> (r: Forwards)
        ensures
            r@ == Forwards::neutral_view(),
    {
        Forwards::neutral()
    }
}

impl ForwardsView {
    /// The forwards and one more.
    pub open spec fn with_forward(self, host_port: u16, sandbox_port: u16) -> ForwardsView {
        ForwardsView { forwards: self.forwards.push(ForwardView { host_port, sandbox_port }) }
    }

    /// The forwards in the syntax of `pasta`'s `-T`, separated by commas.
    pub open spec fn text(self) -> Seq<char> {
        joined(self.forwards.map_values(|f: ForwardView| f.text()), ","@)
    }
}

impl Forwards {
    /// Append a forward.
    pub fn forward(&mut self, host_port: u16, sandbox_port: u16)
        ensures
            final(self)@ == old(self)@.with_forward(host_port, sandbox_port),
    {
        let ghost before = self.forwards@;
        self.forwards.push(Forward { host_port, sandbox_port });
        assert(views(self.forwards@) =~= views(before).push(
            (ForwardView { host_port, sandbox_port }),
        ));
    }

    /// The forwards, in order.
    pub fn iter(&self) -> (r: std::slice::Iter<'_, Forward>)
        ensures
            r.remaining() == self.forwards@.as_ref(),
    {
        self.forwards.as_slice().iter()
    }

    /// Is there no forward?
    pub fn is_empty(&self) -> (r: bool)
        ensures
            r == (self@.forwards.len() == 0),
    {
        self.forwards.len() == 0
    }

    /// The forwards in the syntax of `pasta`'s `-T`. An empty list gives
    /// an empty string, for which `pasta` wants `none` instead.
    pub fn format_for_pasta(&self) -> (r: String)
        ensures
            r@ == self@.text(),
    {
        let ghost all = self@.forwards.map_values(|f: ForwardView| f.text());
        let mut out = String::new();
        let mut i: usize = 0;
        while i < self.forwards.len()
            invariant
                i <= self.forwards@.len(),
                all == self@.forwards.map_values(|f: ForwardView| f.text()),
                out@ == joined(all.take(i as int), ","@),
            decreases self.forwards.len() - i,
        {
            let piece = self.forwards[i].text();
            if i > 0 {
                out.append(",");
            }
            out.append(piece.as_str());
            proof {
                assert(all.take(i + 1).drop_last() =~= all.take(i as int));
                assert(all.take(i + 1).last() == piece@);
                if i == 0 {
                    assert(out@ =~= piece@);
                }
            }
            i = i + 1;
        }
        assert(all.take(all.len() as int) =~= all);
        out
    }
}

impl Merge for Forwards {
    open spec fn neutral_view() -> ForwardsView {
        ForwardsView { forwards: seq![] }
    }

    /// The forwards of `a`, then those of `b`.
    open spec fn merged(a: ForwardsView, b: ForwardsView) -> ForwardsView {
        ForwardsView { forwards: a.forwards + b.forwards }
    }

    proof fn law_neutral(a: ForwardsView) {
        assert(Seq::<ForwardView>::empty() + a.forwards =~= a.forwards);
        assert(a.forwards + Seq::<ForwardView>::empty() =~= a.forwards);
    }

    proof fn law_associative(a: ForwardsView, b: ForwardsView, c: ForwardsView) {
        assert(a.forwards + b.forwards + c.forwards =~= a.forwards + (b.forwards + c.forwards));
    }

    fn neutral() -> (r: Forwards) {
        let r = Forwards { forwards: Vec::new() };
        assert(r@.forwards =~= Seq::<ForwardView>::empty());
        r
    }

    fn merge_right_biased(&self, other: &Forwards) -> (r: Forwards) {
        let mut forwards = duplicate_all(&self.forwards);
        push_duplicates(&mut forwards, &other.forwards);
        Forwards { forwards }
    }
}

impl Finalize for Forwards {
    /// Nothing is forwarded that nobody asked for.
    open spec fn base(me: ForwardsView, host: HostView) -> ForwardsView {
        ForwardsView { forwards: seq![] }
    }

    open spec fn cleared(me: ForwardsView) -> ForwardsView {
        me
    }

    fn base_config(&self, host: &Host) -> (r: Forwards) {
        Forwards::neutral()
    }

    fn clear_extra_fields(&mut self) {
    }
}

/// Finalizing adds no forward and drops none.
pub proof fn law_only_declared_forwards(me: ForwardsView, host: HostView)
    ensures
        finalized::<Forwards>(me, host) == me,
{
    assert(Seq::<ForwardView>::empty() + me.forwards =~= me.forwards);
}

/// What `pasta` is told reads back as what was declared: taken apart at
/// the commas it has one part for each forward, in order, and each part
/// reads as the ports of its forward.
pub proof fn law_forwards_read_back(me: ForwardsView)
    requires
        me.forwards.len() > 0,
    ensures
        ({
            let parts = split_at_each(me.text(), ',');
            &&& parts.len() == me.forwards.len()
            &&& forall|i: int|
                0 <= i < parts.len() ==> (parsed_forward(#[trigger] parts[i]) matches Ok(d)
                    && d.host_port.value == me.forwards[i].host_port && d.inside()
                    == me.forwards[i].sandbox_port)
        }),
{
    let texts = me.forwards.map_values(|f: ForwardView| f.text());
    reveal_strlit(",");
    assert(","@ =~= seq![',']);
    assert forall|i: int, j: int|
        0 <= i < texts.len() && 0 <= j < (#[trigger] texts[i]).len() implies #[trigger] texts[i][j]
        != ',' by {
        lemma_forward_text_plain(me.forwards[i]);
        assert(texts[i].contains(texts[i][j]));
    }
    lemma_split_joined(texts, ',');
    assert forall|i: int| 0 <= i < texts.len() implies (parsed_forward(
        #[trigger] texts[i],
    ) matches Ok(d) && d.host_port.value == me.forwards[i].host_port && d.inside()
        == me.forwards[i].sandbox_port) by {
        law_forward_round_trip(me.forwards[i], arbitrary());
    }
}

/// A forward that is appended comes last, with the port on the host and the
/// port in the sandbox that were given; those before it stay.
pub proof fn law_appended_forward_comes_last(
    me: ForwardsView,
    host_port: u16,
    sandbox_port: u16,
)
    ensures
        ({
            let after = me.with_forward(host_port, sandbox_port).forwards;
            &&& after.len() == me.forwards.len() + 1
            &&& after.last().host_port == host_port
            &&& after.last().sandbox_port == sandbox_port
            &&& forall|i: int| 0 <= i < me.forwards.len() ==> #[trigger] after[i] == me.forwards[i]
        }),
{
}

} // verus!
