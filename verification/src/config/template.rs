//! Which templates could go on for ever.
//!
//! A Handlebars template may define partials of its own, inline, and it may
//! include partials. A partial that includes itself, directly or through
//! others, may never be done. Handlebars itself says what the parts of a
//! template are; here it is found out whether its inline partials include
//! one another in a circle.

use crate::text::str_eq;
use vstd::prelude::*;
use vstd::string::*;

verus! {

// ---------------------------------------------------------------------
// The parts of a template
// ---------------------------------------------------------------------
/// Does the template hold a tag?
pub open spec fn has_tag(t: Seq<char>) -> bool {
    exists|i: int| 0 <= i < t.len() - 1 && #[trigger] t[i] == '{' && t[i + 1] == '{'
}

/// The name of a partial, where it is defined or included.
pub enum PartName {
    /// It is this text.
    Text(String),
    /// It is known only once the template is rendered.
    Computed,
    /// There is none.
    Absent,
}

/// What a [`PartName`] says.
#[verifier::ext_equal]
pub enum NameView {
    Text(Seq<char>),
    Computed,
    Absent,
}

impl View for PartName {
    type V = NameView;

    open spec fn view(&self) -> NameView {
        match self {
            PartName::Text(s) => NameView::Text(s@),
            PartName::Computed => NameView::Computed,
            PartName::Absent => NameView::Absent,
        }
    }
}

/// A part of a template.
#[verifier::ext_equal]
pub enum PartView {
    /// Text, or a tag that holds no other parts.
    Leaf,
    /// A block with what it holds, and what stands for it otherwise.
    Block { main: Seq<PartView>, inverse: Seq<PartView> },
    /// A block that is handed to a decorator, with the first parameter.
    Decorated { decorator: NameView, first: NameView, body: Seq<PartView> },
    /// The inclusion of a partial, with what stands in for it.
    Inclusion { name: NameView, body: Seq<PartView> },
}

/// What kind of part it is.
pub enum PartKind {
    /// Text, or a tag that holds no other parts.
    Leaf,
    /// A block.
    Block,
    /// A block that is handed to a decorator.
    Decorated,
    /// The inclusion of a partial.
    Inclusion,
}

/// Is the part of this kind?
pub open spec fn is_of_kind(part: PartView, kind: PartKind) -> bool {
    match part {
        PartView::Leaf => kind is Leaf,
        PartView::Block { .. } => kind is Block,
        PartView::Decorated { .. } => kind is Decorated,
        PartView::Inclusion { .. } => kind is Inclusion,
    }
}

/// The name of the decorator, or of the partial that is included.
pub open spec fn name_of(part: PartView) -> NameView {
    match part {
        PartView::Decorated { decorator, .. } => decorator,
        PartView::Inclusion { name, .. } => name,
        _ => NameView::Absent,
    }
}

/// The first parameter of a decorator, as a name.
pub open spec fn first_of(part: PartView) -> NameView {
    match part {
        PartView::Decorated { first, .. } => first,
        _ => NameView::Absent,
    }
}

/// The parts that a part holds.
pub open spec fn main_of(part: PartView) -> Seq<PartView> {
    match part {
        PartView::Leaf => seq![],
        PartView::Block { main, .. } => main,
        PartView::Decorated { body, .. } => body,
        PartView::Inclusion { body, .. } => body,
    }
}

/// The parts that stand for a block otherwise.
pub open spec fn inverse_of(part: PartView) -> Seq<PartView> {
    match part {
        PartView::Block { inverse, .. } => inverse,
        _ => seq![],
    }
}

// ---------------------------------------------------------------------
// What Handlebars says
// ---------------------------------------------------------------------
/// A part of a template as Handlebars has read it.
#[verifier::external_type_specification]
#[verifier::external_body]
pub struct ExTemplateElement(handlebars::template::TemplateElement);

/// What a part holds.
pub uninterp spec fn part(element: handlebars::template::TemplateElement) -> PartView;

/// What parts hold.
pub open spec fn parts(v: Seq<handlebars::template::TemplateElement>) -> Seq<PartView> {
    v.map_values(|e: handlebars::template::TemplateElement| part(e))
}

/// The parts of the template that is written so; `None` where it is not
/// one.
pub uninterp spec fn outline(source: Seq<char>) -> Option<Seq<PartView>>;

/// Calls `handlebars::Template::compile`, which depends on the text alone,
/// and takes the elements of what it returns; [`outline`] names what they
/// hold. Text in which no tag stands is a template, and its parts hold no
/// others.
#[verifier::external_body]
fn compile(source: &str) -> (r: Option<Vec<handlebars::template::TemplateElement>>)
    ensures
        match outline(source@) {
            Some(p) => r matches Some(v) && parts(v@) == p,
            None => r is None,
        },
        !has_tag(source@) ==> (r matches Some(v) && forall|i: int|
            0 <= i < v@.len() ==> part(#[trigger] v@[i]) is Leaf),
{
    handlebars::Template::compile(source).ok().map(|t| t.elements)
}

/// Tells the variants of `handlebars::template::TemplateElement` apart.
#[verifier::external_body]
fn kind_of(e: &handlebars::template::TemplateElement) -> (r: PartKind)
    ensures
        is_of_kind(part(*e), r),
{
    match e {
        handlebars::template::TemplateElement::HelperBlock(_) => PartKind::Block,
        handlebars::template::TemplateElement::DecoratorBlock(_) => PartKind::Decorated,
        handlebars::template::TemplateElement::PartialExpression(_) => PartKind::Inclusion,
        handlebars::template::TemplateElement::PartialBlock(_) => PartKind::Inclusion,
        _ => PartKind::Leaf,
    }
}

/// Calls `handlebars::template::Parameter::as_name` on the name of a
/// decorator block, or of a partial expression or block: the name under
/// which it is looked up, unless that is an expression.
#[verifier::external_body]
fn own_name(e: &handlebars::template::TemplateElement) -> (r: PartName)
    ensures
        r@ == name_of(part(*e)),
{
    match e {
        handlebars::template::TemplateElement::DecoratorBlock(d)
        | handlebars::template::TemplateElement::PartialExpression(d)
        | handlebars::template::TemplateElement::PartialBlock(d) => {
            d.name.as_name().map_or(PartName::Computed, |n| PartName::Text(n.to_owned()))
        },
        _ => PartName::Absent,
    }
}

/// Takes the first parameter out of a decorator block: a string is the
/// name itself, another literal is none, and anything else is known only
/// once the template is rendered.
#[verifier::external_body]
fn first_param(e: &handlebars::template::TemplateElement) -> (r: PartName)
    ensures
        r@ == first_of(part(*e)),
{
    match e {
        handlebars::template::TemplateElement::DecoratorBlock(d) => match d.params.first() {
            Some(handlebars::template::Parameter::Literal(j)) => {
                j.as_str().map_or(PartName::Absent, |s| PartName::Text(s.to_owned()))
            },
            Some(_) => PartName::Computed,
            None => PartName::Absent,
        },
        _ => PartName::Absent,
    }
}

/// Takes the template out of a `handlebars::template::TemplateElement`, and
/// its elements: the parts that a part holds. One without a template holds
/// none.
#[verifier::external_body]
fn main_parts<'a>(e: &'a handlebars::template::TemplateElement) -> (r: Option<
    &'a Vec<handlebars::template::TemplateElement>,
>)
    ensures
        match r {
            Some(v) => parts(v@) == main_of(part(*e)),
            None => main_of(part(*e)).len() == 0,
        },
{
    match e {
        handlebars::template::TemplateElement::HelperBlock(h) => h.template.as_ref(),
        handlebars::template::TemplateElement::DecoratorBlock(d)
        | handlebars::template::TemplateElement::PartialExpression(d)
        | handlebars::template::TemplateElement::PartialBlock(d) => d.template.as_ref(),
        _ => None,
    }.map(|t| &t.elements)
}

/// Takes the inverse template out of a
/// `handlebars::template::TemplateElement`, and its elements: the parts that
/// stand for a block otherwise. One without an inverse template has none.
#[verifier::external_body]
fn inverse_parts<'a>(e: &'a handlebars::template::TemplateElement) -> (r: Option<
    &'a Vec<handlebars::template::TemplateElement>,
>)
    ensures
        match r {
            Some(v) => parts(v@) == inverse_of(part(*e)),
            None => inverse_of(part(*e)).len() == 0,
        },
{
    match e {
        handlebars::template::TemplateElement::HelperBlock(h) => h.inverse.as_ref(),
        _ => None,
    }.map(|t| &t.elements)
}

// ---------------------------------------------------------------------
// Who includes whom
// ---------------------------------------------------------------------
/// The decorator that defines partials. There is no other.
pub const INLINE: &'static str = "inline";

/// The partials that these parts include when they are rendered. What an
/// inline partial among them includes is its own.
pub open spec fn inclusions(p: Seq<PartView>) -> Seq<NameView>
    decreases p,
{
    if p.len() == 0 {
        seq![]
    } else {
        inclusions(p.drop_last()) + inclusions_of(p.last())
    }
}

/// The partials that a part includes when it is rendered.
pub open spec fn inclusions_of(part: PartView) -> Seq<NameView>
    decreases part,
{
    match part {
        PartView::Leaf => seq![],
        PartView::Block { main, inverse } => inclusions(main) + inclusions(inverse),
        PartView::Decorated { .. } => seq![],
        PartView::Inclusion { name, body } => seq![name] + inclusions(body),
    }
}

/// An inline partial, and what it includes.
#[verifier::ext_equal]
pub struct DefView {
    pub name: NameView,
    pub includes: Seq<NameView>,
}

/// The inline partials that are defined anywhere in these parts.
pub open spec fn definitions(p: Seq<PartView>) -> Seq<DefView>
    decreases p,
{
    if p.len() == 0 {
        seq![]
    } else {
        definitions(p.drop_last()) + definitions_of(p.last())
    }
}

/// The inline partials that are defined in a part.
pub open spec fn definitions_of(part: PartView) -> Seq<DefView>
    decreases part,
{
    match part {
        PartView::Leaf => seq![],
        PartView::Block { main, inverse } => definitions(main) + definitions(inverse),
        PartView::Decorated { decorator, first, body } => if decorator == NameView::Text(INLINE@) {
            seq![DefView { name: first, includes: inclusions(body) }] + definitions(body)
        } else {
            seq![]
        },
        PartView::Inclusion { body, .. } => definitions(body),
    }
}

/// The name of the block that a partial was included with. It never is the
/// name of a definition.
pub const PARTIAL_BLOCK: &'static str = "@partial-block";

/// Could what is included under the one name be what is defined under the
/// other?
pub open spec fn could_name(included: NameView, defined: NameView) -> bool {
    match (included, defined) {
        (_, NameView::Absent) => false,
        (NameView::Absent, _) => false,
        (NameView::Computed, _) => true,
        (NameView::Text(t), NameView::Computed) => t != PARTIAL_BLOCK@,
        (NameView::Text(t), NameView::Text(u)) => t != PARTIAL_BLOCK@ && t == u,
    }
}

/// Could the inline partial `a` include the inline partial `b`?
pub open spec fn leads_to(defs: Seq<DefView>, a: int, b: int) -> bool {
    &&& 0 <= a < defs.len()
    &&& 0 <= b < defs.len()
    &&& exists|k: int|
        0 <= k < defs[a].includes.len() && could_name(
            #[trigger] defs[a].includes[k],
            defs[b].name,
        )
}

/// Could each of these inline partials include the next?
pub open spec fn is_walk(defs: Seq<DefView>, w: Seq<int>) -> bool {
    forall|k: int| 0 <= k < w.len() - 1 ==> leads_to(defs, #[trigger] w[k], w[k + 1])
}

/// Could one of these inclusions be of the inline partial `a`?
pub open spec fn is_entered(defs: Seq<DefView>, included: Seq<NameView>, a: int) -> bool {
    &&& 0 <= a < defs.len()
    &&& exists|k: int|
        0 <= k < included.len() && could_name(#[trigger] included[k], defs[a].name)
}

/// Does the walk come back to where it has been?
pub open spec fn comes_back(w: Seq<int>) -> bool {
    exists|i: int| 0 <= i < w.len() - 1 && #[trigger] w[i] == w.last()
}

/// Could these inclusions lead to inline partials that include one another
/// in a circle?
pub open spec fn goes_round(defs: Seq<DefView>, included: Seq<NameView>) -> bool {
    exists|w: Seq<int>| #[trigger]
        is_walk(defs, w) && w.len() > 0 && is_entered(defs, included, w[0]) && comes_back(w)
}

/// Could rendering the template lead to inline partials that include one
/// another in a circle?
pub open spec fn may_recurse(source: Seq<char>) -> bool {
    outline(source) matches Some(p) && goes_round(definitions(p), inclusions(p))
}

/// A walk through more partials than there are comes back to where it has
/// been.
proof fn lemma_long_walk_comes_back(defs: Seq<DefView>, w: Seq<int>) -> (v: Seq<int>)
    requires
        is_walk(defs, w),
        w.len() > defs.len(),
        forall|k: int| 0 <= k < w.len() ==> 0 <= #[trigger] w[k] < defs.len(),
    ensures
        is_walk(defs, v),
        v.len() > 0,
        v[0] == w[0],
        comes_back(v),
{
    let n = defs.len() as int;
    if w.no_duplicates() {
        w.unique_seq_to_set();
        vstd::set_lib::lemma_int_range(0, n);
        assert(w.to_set().subset_of(vstd::set_lib::set_int_range(0, n)));
        vstd::set_lib::lemma_len_subset(w.to_set(), vstd::set_lib::set_int_range(0, n));
    }
    let (i, j) = choose|i: int, j: int|
        0 <= i < w.len() && 0 <= j < w.len() && i != j && w[i] == w[j];
    let (a, b) = if i < j {
        (i, j)
    } else {
        (j, i)
    };
    let v = w.take(b + 1);
    assert forall|k: int| 0 <= k < v.len() - 1 implies leads_to(defs, #[trigger] v[k], v[k + 1]) by {
        assert(v[k] == w[k] && v[k + 1] == w[k + 1]);
    }
    assert(v[a] == v.last());
    v
}

/// Where nothing goes round, including partials comes to an end: no chain
/// of inclusions is longer than there are inline partials.
pub proof fn law_inclusions_end(defs: Seq<DefView>, included: Seq<NameView>, w: Seq<int>)
    requires
        !goes_round(defs, included),
        is_walk(defs, w),
        w.len() > 0,
        is_entered(defs, included, w[0]),
    ensures
        w.len() <= defs.len(),
{
    if w.len() > defs.len() {
        assert forall|k: int| 0 <= k < w.len() implies 0 <= #[trigger] w[k] < defs.len() by {
            if k > 0 {
                assert(leads_to(defs, w[k - 1], w[k - 1 + 1]));
            }
        }
        let v = lemma_long_walk_comes_back(defs, w);
    }
}

/// Where each of some partials leads to another of them, there is a walk of
/// any length.
proof fn lemma_walk_on(defs: Seq<DefView>, some: Set<int>, a: int, len: nat) -> (w: Seq<int>)
    requires
        some.contains(a),
        forall|x: int| #[trigger]
            some.contains(x) ==> exists|y: int| #[trigger] some.contains(y) && leads_to(defs, x, y),
    ensures
        w.len() == len + 1,
        w[0] == a,
        is_walk(defs, w),
        forall|k: int| 0 <= k < w.len() ==> some.contains(#[trigger] w[k]),
    decreases len,
{
    if len == 0 {
        seq![a]
    } else {
        let b = choose|y: int| #[trigger] some.contains(y) && leads_to(defs, a, y);
        let rest = lemma_walk_on(defs, some, b, (len - 1) as nat);
        let w = seq![a] + rest;
        assert forall|k: int| 0 <= k < w.len() - 1 implies leads_to(
            defs,
            #[trigger] w[k],
            w[k + 1],
        ) by {
            if k > 0 {
                assert(w[k] == rest[k - 1] && w[k + 1] == rest[k]);
                assert(leads_to(defs, rest[k - 1], rest[k - 1 + 1]));
            } else {
                assert(w[1] == rest[0]);
            }
        }
        assert forall|k: int| 0 <= k < w.len() implies some.contains(#[trigger] w[k]) by {
            if k > 0 {
                assert(w[k] == rest[k - 1]);
            }
        }
        w
    }
}

/// Where each of some partials leads to another of them, entering one of
/// them goes round.
proof fn lemma_endless_goes_round(
    defs: Seq<DefView>,
    included: Seq<NameView>,
    some: Set<int>,
    a: int,
)
    requires
        some.contains(a),
        is_entered(defs, included, a),
        forall|x: int| #[trigger]
            some.contains(x) ==> 0 <= x < defs.len() && exists|y: int| #[trigger]
                some.contains(y) && leads_to(defs, x, y),
    ensures
        goes_round(defs, included),
{
    let w = lemma_walk_on(defs, some, a, defs.len());
    assert forall|k: int| 0 <= k < w.len() implies 0 <= #[trigger] w[k] < defs.len() by {
        assert(some.contains(w[k]));
    }
    let v = lemma_long_walk_comes_back(defs, w);
}

/// Are these partials ranked, so that each leads only to others of lesser
/// rank?
spec fn is_ranked(defs: Seq<DefView>, some: Set<int>, rank: Seq<int>) -> bool {
    forall|a: int, b: int| #[trigger]
        leads_to(defs, a, b) && some.contains(a) ==> some.contains(b) && rank[b] < rank[a]
}

/// A walk that starts among ranked partials stays there, and the rank
/// falls.
proof fn lemma_rank_falls(
    defs: Seq<DefView>,
    some: Set<int>,
    rank: Seq<int>,
    w: Seq<int>,
    i: int,
    j: int,
)
    requires
        is_walk(defs, w),
        is_ranked(defs, some, rank),
        0 <= i < j < w.len(),
        some.contains(w[i]),
    ensures
        some.contains(w[j]),
        rank[w[j]] < rank[w[i]],
    decreases j - i,
{
    if i < j - 1 {
        lemma_rank_falls(defs, some, rank, w, i, j - 1);
    }
    assert(leads_to(defs, w[j - 1], w[j - 1 + 1]));
}

/// Entering only ranked partials does not go round.
proof fn lemma_ranked_ends(
    defs: Seq<DefView>,
    included: Seq<NameView>,
    some: Set<int>,
    rank: Seq<int>,
)
    requires
        is_ranked(defs, some, rank),
        forall|a: int| #[trigger] is_entered(defs, included, a) ==> some.contains(a),
    ensures
        !goes_round(defs, included),
{
    if goes_round(defs, included) {
        let w = choose|w: Seq<int>| #[trigger]
            is_walk(defs, w) && w.len() > 0 && is_entered(defs, included, w[0]) && comes_back(w);
        let i = choose|i: int| 0 <= i < w.len() - 1 && #[trigger] w[i] == w.last();
        if i > 0 {
            lemma_rank_falls(defs, some, rank, w, 0, i);
        }
        lemma_rank_falls(defs, some, rank, w, i, w.len() - 1);
    }
}

/// Parts that hold no others define no partial.
proof fn lemma_leaves_define_nothing(p: Seq<PartView>)
    requires
        forall|i: int| 0 <= i < p.len() ==> #[trigger] p[i] is Leaf,
    ensures
        definitions(p).len() == 0,
    decreases p.len(),
{
    if p.len() > 0 {
        assert(p[p.len() - 1] is Leaf);
        assert(p.last() is Leaf);
        assert(definitions_of(p.last()).len() == 0);
        lemma_leaves_define_nothing(p.drop_last());
    }
}

// ---------------------------------------------------------------------
// Finding out
// ---------------------------------------------------------------------
/// What names say.
pub open spec fn name_views(v: Seq<PartName>) -> Seq<NameView> {
    v.map_values(|n: PartName| n@)
}

/// An inline partial, and what it includes.
struct Definition {
    name: PartName,
    includes: Vec<PartName>,
}

impl View for Definition {
    type V = DefView;

    closed spec fn view(&self) -> DefView {
        DefView { name: self.name@, includes: name_views(self.includes@) }
    }
}

/// What definitions say.
spec fn def_views(v: Seq<Definition>) -> Seq<DefView> {
    v.map_values(|d: Definition| d@)
}

/// Is it the decorator that defines partials?
fn names_inline(name: &PartName) -> (r: bool)
    ensures
        r == (name@ == NameView::Text(INLINE@)),
{
    match name {
        PartName::Text(s) => str_eq(s.as_str(), INLINE),
        _ => false,
    }
}

/// Append the partials that parts include when they are rendered.
fn push_inclusions(out: &mut Vec<PartName>, t: &Vec<handlebars::template::TemplateElement>)
    ensures
        name_views(final(out)@) == name_views(old(out)@) + inclusions(parts(t@)),
    decreases parts(t@),
{
    let ghost p = parts(t@);
    let n = t.len();
    let mut i: usize = 0;
    assert(p.take(0) =~= Seq::<PartView>::empty());
    assert(name_views(out@) + inclusions(p.take(0)) =~= name_views(out@));
    while i < n
        invariant
            i <= n,
            n == p.len(),
            p == parts(t@),
            name_views(out@) == name_views(old(out)@) + inclusions(p.take(i as int)),
        decreases n - i,
    {
        let ghost before = name_views(out@);
        let ghost here = p[i as int];
        assert(here == part(t@[i as int]));
        let ghost given = inclusions(p.take(i as int));
        proof {
            assert(p.take(i + 1).drop_last() =~= p.take(i as int));
            assert(p.take(i + 1).last() == here);
            assert(decreases_to!(p => p[i as int]));
        }
        match kind_of(&t[i]) {
            PartKind::Leaf => {},
            PartKind::Decorated => {},
            PartKind::Block => {
                match main_parts(&t[i]) {
                    Some(b) => push_inclusions(out, b),
                    None => {},
                }
                let ghost middle = name_views(out@);
                assert(middle =~= before + inclusions(main_of(here)));
                match inverse_parts(&t[i]) {
                    Some(b) => push_inclusions(out, b),
                    None => {},
                }
                assert(name_views(out@) =~= middle + inclusions(inverse_of(here)));
            },
            PartKind::Inclusion => {
                let name = own_name(&t[i]);
                out.push(name);
                assert(name_views(out@) =~= before.push(name@));
                match main_parts(&t[i]) {
                    Some(b) => push_inclusions(out, b),
                    None => {},
                }
            },
        }
        proof {
            assert(name_views(out@) =~= before + inclusions_of(here));
            assert(name_views(out@) =~= name_views(old(out)@) + (given + inclusions_of(here)));
        }
        i = i + 1;
    }
    assert(p.take(p.len() as int) =~= p);
}

/// Append the inline partials that are defined anywhere in parts.
fn push_definitions(out: &mut Vec<Definition>, t: &Vec<handlebars::template::TemplateElement>)
    ensures
        def_views(final(out)@) == def_views(old(out)@) + definitions(parts(t@)),
    decreases parts(t@),
{
    let ghost p = parts(t@);
    let n = t.len();
    let mut i: usize = 0;
    assert(p.take(0) =~= Seq::<PartView>::empty());
    assert(def_views(out@) + definitions(p.take(0)) =~= def_views(out@));
    while i < n
        invariant
            i <= n,
            n == p.len(),
            p == parts(t@),
            def_views(out@) == def_views(old(out)@) + definitions(p.take(i as int)),
        decreases n - i,
    {
        let ghost before = def_views(out@);
        let ghost here = p[i as int];
        assert(here == part(t@[i as int]));
        let ghost given = definitions(p.take(i as int));
        proof {
            assert(p.take(i + 1).drop_last() =~= p.take(i as int));
            assert(p.take(i + 1).last() == here);
            assert(decreases_to!(p => p[i as int]));
        }
        match kind_of(&t[i]) {
            PartKind::Leaf => {},
            PartKind::Decorated => {
                if names_inline(&own_name(&t[i])) {
                    let name = first_param(&t[i]);
                    let mut includes: Vec<PartName> = Vec::new();
                    match main_parts(&t[i]) {
                        Some(b) => push_inclusions(&mut includes, b),
                        None => {},
                    }
                    assert(name_views(includes@) =~= inclusions(main_of(here)));
                    let d = Definition { name, includes };
                    out.push(d);
                    assert(def_views(out@) =~= before.push(d@));
                    match main_parts(&t[i]) {
                        Some(b) => push_definitions(out, b),
                        None => {},
                    }
                }
            },
            PartKind::Block => {
                match main_parts(&t[i]) {
                    Some(b) => push_definitions(out, b),
                    None => {},
                }
                let ghost middle = def_views(out@);
                assert(middle =~= before + definitions(main_of(here)));
                match inverse_parts(&t[i]) {
                    Some(b) => push_definitions(out, b),
                    None => {},
                }
                assert(def_views(out@) =~= middle + definitions(inverse_of(here)));
            },
            PartKind::Inclusion => {
                match main_parts(&t[i]) {
                    Some(b) => push_definitions(out, b),
                    None => {},
                }
            },
        }
        proof {
            assert(def_views(out@) =~= before + definitions_of(here));
            assert(def_views(out@) =~= def_views(old(out)@) + (given + definitions_of(here)));
        }
        i = i + 1;
    }
    assert(p.take(p.len() as int) =~= p);
}

/// Could what is included under the one name be what is defined under the
/// other?
fn may_name(included: &PartName, defined: &PartName) -> (r: bool)
    ensures
        r == could_name(included@, defined@),
{
    match (included, defined) {
        (_, PartName::Absent) => false,
        (PartName::Absent, _) => false,
        (PartName::Computed, _) => true,
        (PartName::Text(t), PartName::Computed) => !str_eq(t.as_str(), PARTIAL_BLOCK),
        (PartName::Text(t), PartName::Text(u)) => !str_eq(t.as_str(), PARTIAL_BLOCK) && str_eq(
            t.as_str(),
            u.as_str(),
        ),
    }
}

/// Could the inline partial `a` include the inline partial `b`?
fn may_lead(defs: &Vec<Definition>, a: usize, b: usize) -> (r: bool)
    requires
        a < defs@.len(),
        b < defs@.len(),
    ensures
        r == leads_to(def_views(defs@), a as int, b as int),
{
    let ghost all = def_views(defs@);
    let mut k: usize = 0;
    assert(all[a as int] == defs@[a as int]@);
    assert(all[b as int] == defs@[b as int]@);
    while k < defs[a].includes.len()
        invariant
            a < defs@.len(),
            b < defs@.len(),
            all == def_views(defs@),
            all[a as int] == defs@[a as int]@,
            all[b as int] == defs@[b as int]@,
            k <= defs@[a as int].includes@.len(),
            forall|j: int|
                0 <= j < k ==> !could_name(#[trigger] all[a as int].includes[j], all[b as int].name),
        decreases defs[a as int].includes.len() - k,
    {
        assert(all[a as int].includes[k as int] == defs@[a as int].includes@[k as int]@);
        if may_name(&defs[a].includes[k], &defs[b].name) {
            return true;
        }
        k = k + 1;
    }
    false
}

/// Could the inline partial `a` include one of those that are marked?
fn leads_to_marked(defs: &Vec<Definition>, marks: &Vec<bool>, a: usize) -> (r: bool)
    requires
        a < defs@.len(),
        marks@.len() == defs@.len(),
    ensures
        r == exists|b: int|
            0 <= b < marks@.len() && #[trigger] marks@[b] && leads_to(
                def_views(defs@),
                a as int,
                b,
            ),
{
    let mut b: usize = 0;
    while b < defs.len()
        invariant
            b <= defs@.len(),
            a < defs@.len(),
            marks@.len() == defs@.len(),
            forall|j: int|
                0 <= j < b ==> !(#[trigger] marks@[j] && leads_to(
                    def_views(defs@),
                    a as int,
                    j,
                )),
        decreases defs.len() - b,
    {
        if marks[b] && may_lead(defs, a, b) {
            return true;
        }
        b = b + 1;
    }
    false
}

/// One of the marked partials that leads to none that is marked.
fn find_end(defs: &Vec<Definition>, marks: &Vec<bool>) -> (r: Option<usize>)
    requires
        marks@.len() == defs@.len(),
    ensures
        match r {
            Some(a) => a < marks@.len() && marks@[a as int] && forall|b: int|
                0 <= b < marks@.len() && #[trigger] marks@[b] ==> !leads_to(
                    def_views(defs@),
                    a as int,
                    b,
                ),
            None => forall|a: int|
                0 <= a < marks@.len() && #[trigger] marks@[a] ==> exists|b: int|
                    0 <= b < marks@.len() && #[trigger] marks@[b] && leads_to(
                        def_views(defs@),
                        a,
                        b,
                    ),
        },
{
    let mut a: usize = 0;
    while a < defs.len()
        invariant
            a <= defs@.len(),
            marks@.len() == defs@.len(),
            forall|x: int|
                0 <= x < a && #[trigger] marks@[x] ==> exists|b: int|
                    0 <= b < marks@.len() && #[trigger] marks@[b] && leads_to(
                        def_views(defs@),
                        x,
                        b,
                    ),
        decreases defs.len() - a,
    {
        if marks[a] && !leads_to_marked(defs, marks, a) {
            return Some(a);
        }
        a = a + 1;
    }
    None
}

/// Could one of these inclusions be of the inline partial `a`?
fn may_enter(defs: &Vec<Definition>, included: &Vec<PartName>, a: usize) -> (r: bool)
    requires
        a < defs@.len(),
    ensures
        r == is_entered(def_views(defs@), name_views(included@), a as int),
{
    let ghost all = def_views(defs@);
    let ghost names = name_views(included@);
    assert(all[a as int] == defs@[a as int]@);
    let mut k: usize = 0;
    while k < included.len()
        invariant
            a < defs@.len(),
            k <= included@.len(),
            all == def_views(defs@),
            names == name_views(included@),
            all[a as int] == defs@[a as int]@,
            forall|j: int| 0 <= j < k ==> !could_name(#[trigger] names[j], all[a as int].name),
        decreases included.len() - k,
    {
        assert(names[k as int] == included@[k as int]@);
        if may_name(&included[k], &defs[a].name) {
            return true;
        }
        k = k + 1;
    }
    false
}

/// Could one of these inclusions be of a marked partial?
fn enters_marked(defs: &Vec<Definition>, included: &Vec<PartName>, marks: &Vec<bool>) -> (r: bool)
    requires
        marks@.len() == defs@.len(),
    ensures
        r == exists|a: int|
            0 <= a < marks@.len() && #[trigger] marks@[a] && is_entered(
                def_views(defs@),
                name_views(included@),
                a,
            ),
{
    let mut a: usize = 0;
    while a < defs.len()
        invariant
            a <= defs@.len(),
            marks@.len() == defs@.len(),
            forall|j: int|
                0 <= j < a ==> !(#[trigger] marks@[j] && is_entered(
                    def_views(defs@),
                    name_views(included@),
                    j,
                )),
        decreases defs.len() - a,
    {
        if marks[a] && may_enter(defs, included, a) {
            return true;
        }
        a = a + 1;
    }
    false
}

/// Could these inclusions lead to inline partials that include one another
/// in a circle? Partials that lead to none of the others are left out one
/// after the other; each that cannot be left out leads to a circle.
fn finds_circle(defs: &Vec<Definition>, included: &Vec<PartName>) -> (r: bool)
    ensures
        r == goes_round(def_views(defs@), name_views(included@)),
{
    let ghost all = def_views(defs@);
    let ghost names = name_views(included@);
    let n = defs.len();
    let mut marks: Vec<bool> = Vec::new();
    while marks.len() < n
        invariant
            marks@.len() <= n,
            forall|j: int| 0 <= j < marks@.len() ==> #[trigger] marks@[j],
        decreases n - marks.len(),
    {
        marks.push(true);
    }
    let ghost mut rank: Seq<int> = Seq::new(n as nat, |j: int| 0);
    let ghost mut alive: Set<int> = vstd::set_lib::set_int_range(0, n as int);
    let ghost mut step: int = 0;
    proof {
        vstd::set_lib::lemma_int_range(0, n as int);
    }
    loop
        invariant
            n == defs@.len(),
            all == def_views(defs@),
            names == name_views(included@),
            marks@.len() == n,
            rank.len() == n,
            alive.finite(),
            forall|x: int| #[trigger] alive.contains(x) <==> 0 <= x < n && marks@[x],
            forall|a: int| 0 <= a < n && !(#[trigger] marks@[a]) ==> rank[a] < step,
            forall|a: int, b: int| #[trigger]
                leads_to(all, a, b) && !marks@[a] ==> !marks@[b] && rank[b] < rank[a],
        decreases alive.len(),
    {
        match find_end(defs, &marks) {
            Some(a) => {
                let ghost before = marks@;
                assert(alive.contains(a as int));
                marks.set(a, false);
                proof {
                    rank = rank.update(a as int, step);
                    step = step + 1;
                    alive = alive.remove(a as int);
                    assert forall|x: int, y: int| #[trigger]
                        leads_to(all, x, y) && !marks@[x] implies !marks@[y] && rank[y]
                        < rank[x] by {
                        if x == a {
                            assert(!before[y]);
                        } else {
                            assert(!before[x]);
                            assert(!before[y]);
                        }
                        assert(y != a);
                    }
                }
            },
            None => {
                let r = enters_marked(defs, included, &marks);
                proof {
                    if r {
                        let a = choose|a: int|
                            0 <= a < marks@.len() && #[trigger] marks@[a] && is_entered(
                                all,
                                names,
                                a,
                            );
                        assert(alive.contains(a));
                        assert forall|x: int| #[trigger] alive.contains(x) implies 0 <= x
                            < all.len() && exists|y: int| #[trigger]
                            alive.contains(y) && leads_to(all, x, y) by {
                            assert(marks@[x]);
                            let y = choose|y: int|
                                0 <= y < marks@.len() && #[trigger] marks@[y] && leads_to(
                                    all,
                                    x,
                                    y,
                                );
                            assert(alive.contains(y));
                        }
                        lemma_endless_goes_round(all, names, alive, a);
                    } else {
                        let gone = Set::new(|x: int| 0 <= x < n && !marks@[x]);
                        assert forall|a: int| #[trigger] is_entered(
                            all,
                            names,
                            a,
                        ) implies gone.contains(a) by {
                            assert(!marks@[a]);
                        }
                        lemma_ranked_ends(all, names, gone, rank);
                    }
                }
                return r;
            },
        }
    }
}

/// Could rendering the template lead to inline partials that include one
/// another in a circle?
pub fn could_recurse(source: &str) -> (r: bool)
    ensures
        r == may_recurse(source@),
        !has_tag(source@) ==> !r,
{
    match compile(source) {
        Some(t) => {
            let mut defs: Vec<Definition> = Vec::new();
            push_definitions(&mut defs, &t);
            assert(def_views(defs@) =~= definitions(parts(t@)));
            let mut included: Vec<PartName> = Vec::new();
            push_inclusions(&mut included, &t);
            assert(name_views(included@) =~= inclusions(parts(t@)));
            let r = finds_circle(&defs, &included);
            proof {
                if !has_tag(source@) {
                    assert(forall|i: int|
                        0 <= i < t@.len() ==> parts(t@)[i] == part(#[trigger] t@[i]));
                    lemma_leaves_define_nothing(parts(t@));
                    lemma_ranked_ends(
                        definitions(parts(t@)),
                        inclusions(parts(t@)),
                        Set::empty(),
                        seq![],
                    );
                }
            }
            r
        },
        None => false,
    }
}

// ---------------------------------------------------------------------
// What is found
// ---------------------------------------------------------------------
/// Every inclusion that is rendered is found, in order and wherever it
/// stands: in what a block holds, in what stands for it otherwise, and in
/// what stands in for a partial. What a definition includes is not among
/// them.
pub proof fn law_inclusions_are_found(
    a: Seq<PartView>,
    b: Seq<PartView>,
    name: NameView,
    decorator: NameView,
)
    ensures
        inclusions(a + b) == inclusions(a) + inclusions(b),
        inclusions(Seq::<PartView>::empty()) == Seq::<NameView>::empty(),
        inclusions(seq![PartView::Leaf]) == Seq::<NameView>::empty(),
        inclusions(seq![PartView::Block { main: a, inverse: b }]) == inclusions(a) + inclusions(b),
        inclusions(seq![PartView::Decorated { decorator, first: name, body: a }]) == Seq::<
            NameView,
        >::empty(),
        inclusions(seq![PartView::Inclusion { name, body: a }]) == seq![name] + inclusions(a),
    decreases b.len(),
{
    let none = Seq::<PartView>::empty();
    let nothing = Seq::<NameView>::empty();
    let leaf = seq![PartView::Leaf];
    let block = seq![PartView::Block { main: a, inverse: b }];
    let decorated = seq![PartView::Decorated { decorator, first: name, body: a }];
    let included = seq![PartView::Inclusion { name, body: a }];
    assert(leaf.drop_last() =~= none);
    assert(block.drop_last() =~= none);
    assert(decorated.drop_last() =~= none);
    assert(included.drop_last() =~= none);
    assert(inclusions(none) == nothing);
    assert(nothing + inclusions_of(leaf[0]) =~= nothing);
    assert(inclusions(block) =~= inclusions(a) + inclusions(b)) by {
        assert(inclusions_of(block[0]) == inclusions(a) + inclusions(b));
    }
    assert(inclusions(decorated) =~= nothing) by {
        assert(inclusions_of(decorated[0]) == nothing);
    }
    assert(inclusions(included) =~= seq![name] + inclusions(a)) by {
        assert(inclusions_of(included[0]) == seq![name] + inclusions(a));
    }
    if b.len() == 0 {
        assert(a + b =~= a);
        assert(inclusions(a) + inclusions(b) =~= inclusions(a));
    } else {
        law_inclusions_are_found(a, b.drop_last(), name, decorator);
        assert((a + b).drop_last() =~= a + b.drop_last());
        assert((a + b).last() == b.last());
        assert(inclusions(a + b) =~= inclusions(a) + inclusions(b));
    }
}

/// Every inline partial is found, wherever it is defined, with all that it
/// includes; the one decorator that defines partials is `inline`.
pub proof fn law_definitions_are_found(
    a: Seq<PartView>,
    b: Seq<PartView>,
    name: NameView,
    decorator: NameView,
)
    ensures
        definitions(a + b) == definitions(a) + definitions(b),
        definitions(Seq::<PartView>::empty()) == Seq::<DefView>::empty(),
        definitions(seq![PartView::Leaf]) == Seq::<DefView>::empty(),
        definitions(seq![PartView::Block { main: a, inverse: b }]) == definitions(a)
            + definitions(b),
        definitions(seq![PartView::Inclusion { name, body: a }]) == definitions(a),
        definitions(
            seq![
                PartView::Decorated { decorator: NameView::Text("inline"@), first: name, body: a },
            ],
        ) == seq![DefView { name, includes: inclusions(a) }] + definitions(a),
        decorator != NameView::Text("inline"@) ==> definitions(
            seq![PartView::Decorated { decorator, first: name, body: a }],
        ) == Seq::<DefView>::empty(),
    decreases b.len(),
{
    let none = Seq::<PartView>::empty();
    let nothing = Seq::<DefView>::empty();
    let leaf = seq![PartView::Leaf];
    let block = seq![PartView::Block { main: a, inverse: b }];
    let inline = seq![
        PartView::Decorated { decorator: NameView::Text("inline"@), first: name, body: a },
    ];
    let decorated = seq![PartView::Decorated { decorator, first: name, body: a }];
    let included = seq![PartView::Inclusion { name, body: a }];
    assert(leaf.drop_last() =~= none);
    assert(block.drop_last() =~= none);
    assert(inline.drop_last() =~= none);
    assert(decorated.drop_last() =~= none);
    assert(included.drop_last() =~= none);
    assert(definitions(none) == nothing);
    assert(nothing + definitions_of(leaf[0]) =~= nothing);
    assert(definitions(block) =~= definitions(a) + definitions(b)) by {
        assert(definitions_of(block[0]) == definitions(a) + definitions(b));
    }
    assert(definitions(inline) =~= seq![DefView { name, includes: inclusions(a) }] + definitions(a))
        by {
        assert(definitions_of(inline[0]) == seq![DefView { name, includes: inclusions(a) }]
            + definitions(a));
    }
    if decorator != NameView::Text("inline"@) {
        assert(definitions(decorated) =~= nothing) by {
            assert(definitions_of(decorated[0]) == nothing);
        }
    }
    assert(definitions(included) =~= definitions(a)) by {
        assert(definitions_of(included[0]) == definitions(a));
    }
    if b.len() == 0 {
        assert(a + b =~= a);
        assert(definitions(a) + definitions(b) =~= definitions(a));
    } else {
        law_definitions_are_found(a, b.drop_last(), name, decorator);
        assert((a + b).drop_last() =~= a + b.drop_last());
        assert((a + b).last() == b.last());
        assert(definitions(a + b) =~= definitions(a) + definitions(b));
    }
}

/// An inclusion by text means the definition of that text; one by a name
/// that is computed could mean any, and one of a definition whose name is
/// computed could be meant by any; but what is absent names nothing, and
/// `@partial-block` is never a definition.
pub proof fn law_names_that_could_match(t: Seq<char>, u: Seq<char>, n: NameView)
    ensures
        could_name(NameView::Text(t), NameView::Text(u)) <==> t == u && t != "@partial-block"@,
        could_name(NameView::Text(t), NameView::Computed) <==> t != "@partial-block"@,
        could_name(NameView::Computed, n) <==> !(n is Absent),
        !could_name(n, NameView::Absent),
        !could_name(NameView::Absent, n),
{
}

/// A partial that is included and could include itself goes round, and so
/// do two that could include one another.
pub proof fn law_circles_are_found(defs: Seq<DefView>, included: Seq<NameView>, a: int, b: int)
    requires
        0 <= a < defs.len(),
        0 <= b < defs.len(),
        exists|k: int|
            0 <= k < included.len() && could_name(#[trigger] included[k], defs[a].name),
        exists|k: int|
            0 <= k < defs[a].includes.len() && could_name(
                #[trigger] defs[a].includes[k],
                defs[b].name,
            ),
        exists|k: int|
            0 <= k < defs[b].includes.len() && could_name(
                #[trigger] defs[b].includes[k],
                defs[a].name,
            ),
    ensures
        goes_round(defs, included),
{
    let w = seq![a, b, a];
    assert(leads_to(defs, a, b) && leads_to(defs, b, a));
    assert forall|k: int| 0 <= k < w.len() - 1 implies leads_to(defs, #[trigger] w[k], w[k + 1]) by {
        if k == 0 {
            assert(w[0] == a && w[1] == b);
        } else {
            assert(w[1] == b && w[2] == a);
        }
    }
    assert(w[0] == w.last());
    assert(is_walk(defs, w) && w.len() > 0 && is_entered(defs, included, w[0]) && comes_back(w));
}

/// A template whose partials each include only partials that are defined
/// before them does not go round, whatever it includes itself.
pub proof fn law_order_does_not_go_round(defs: Seq<DefView>, included: Seq<NameView>)
    requires
        forall|a: int, b: int, k: int|
            0 <= a <= b < defs.len() && 0 <= k < defs[a].includes.len() ==> !could_name(
                #[trigger] defs[a].includes[k],
                (#[trigger] defs[b]).name,
            ),
    ensures
        !goes_round(defs, included),
{
    if goes_round(defs, included) {
        let w = choose|w: Seq<int>| #[trigger]
            is_walk(defs, w) && w.len() > 0 && is_entered(defs, included, w[0]) && comes_back(w);
        let i = choose|i: int| 0 <= i < w.len() - 1 && #[trigger] w[i] == w.last();
        lemma_walk_descends(defs, w, i, w.len() - 1);
    }
}

/// Where partials include only what is defined before them, walks go down.
proof fn lemma_walk_descends(defs: Seq<DefView>, w: Seq<int>, i: int, j: int)
    requires
        is_walk(defs, w),
        0 <= i < j < w.len(),
        forall|a: int, b: int, k: int|
            0 <= a <= b < defs.len() && 0 <= k < defs[a].includes.len() ==> !could_name(
                #[trigger] defs[a].includes[k],
                (#[trigger] defs[b]).name,
            ),
    ensures
        w[j] < w[i],
    decreases j - i,
{
    let a = w[j - 1];
    let b = w[j - 1 + 1];
    assert(leads_to(defs, a, b));
    let k = choose|k: int|
        0 <= k < defs[a].includes.len() && could_name(#[trigger] defs[a].includes[k], defs[b].name);
    assert(b < a) by {
        if a <= b {
            assert(!could_name(defs[a].includes[k], defs[b].name));
        }
    }
    if i < j - 1 {
        lemma_walk_descends(defs, w, i, j - 1);
    }
}

} // verus!
