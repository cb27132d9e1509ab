//! The environment as the command line alone describes it, without
//! profiles.
//!
//! Values are strings here. A variable of the host whose value is not UTF-8
//! counts as one that is not set. Each variable remembers where it came
//! from, and the list keeps the order in which names first came up.

pub use crate::config::env_vars::CANONICAL_PATH;
use crate::config::env_vars::{
    law_default_names_spelled_out, passthrough_list, passthrough_names,
};
use crate::host::{Host, HostView};
use crate::text::{
    cat3, contains_char, first_index, law_cut_at_the_first, lemma_first_index,
    lemma_first_index_is, lemma_first_index_none, lemma_split_first, lossy_text, quoted,
    quoted_text, split_at_each, split_first, split_once_str, starts_with_str, str_eq, utf8_lossy,
    utf8_text,
};
use crate::values::{views, Duplicate};
use vstd::prelude::*;
use vstd::std_specs::iter::IteratorSpec;
use vstd::string::*;
use vstd::utf8::{decode_utf8, valid_utf8};

verus! {

// ---------------------------------------------------------------------
// Entries
// ---------------------------------------------------------------------
/// Where a variable came from.
#[derive(Debug, Clone, Copy, PartialEq, Eq, Structural)]
pub enum EnvSource {
    /// Every sandbox has it.
    Default,
    /// The command line asked for it.
    Cli,
}

/// A variable of the sandbox.
#[derive(Debug)]
pub struct EnvEntry {
    /// The name.
    pub name: String,
    /// The value.
    pub value: String,
    /// Where it came from.
    pub source: EnvSource,
}

/// What an [`EnvEntry`] says.
#[verifier::ext_equal]
pub struct EntryView {
    pub name: Seq<char>,
    pub value: Seq<char>,
    pub source: EnvSource,
}

impl View for EnvEntry {
    type V = EntryView;

    open spec fn view(&self) -> EntryView {
        EntryView { name: self.name@, value: self.value@, source: self.source }
    }
}

impl Duplicate for EnvEntry {
    fn duplicate(&self) -> (r: EnvEntry) {
        EnvEntry {
            name: self.name.clone(),
            value: self.value.clone(),
            source: self.source,
        }
    }
}

/// The variables of the sandbox.
#[derive(Debug)]
pub struct EnvList(pub Vec<EnvEntry>);

impl View for EnvList {
    type V = Seq<EntryView>;

    open spec fn view(&self) -> Seq<EntryView> {
        views(self.0@)
    }
}

impl Default for EnvList {
    /// No variables.
    fn default() -> (r: EnvList)
        ensures
            r@ == Seq::<EntryView>::empty(),
    {
        EnvList::new()
    }
}

/// The names of the variables, in order.
pub open spec fn names_of(list: Seq<EntryView>) -> Seq<Seq<char>> {
    list.map_values(|e: EntryView| e.name)
}

/// The list where `entry` stands in place of the first of its name, or at
/// the end where there is none.
pub open spec fn upserted(list: Seq<EntryView>, entry: EntryView) -> Seq<EntryView> {
    match first_index(names_of(list), entry.name) {
        Some(i) => list.update(i, entry),
        None => list.push(entry),
    }
}

/// The list without those of this name.
pub open spec fn without_name(list: Seq<EntryView>, name: Seq<char>) -> Seq<EntryView>
    decreases list.len(),
{
    if list.len() == 0 {
        list
    } else if list.last().name == name {
        without_name(list.drop_last(), name)
    } else {
        without_name(list.drop_last(), name).push(list.last())
    }
}

/// `base` with the directories in front of it, in order.
pub open spec fn search_path(adds: Seq<Seq<char>>, base: Seq<char>) -> Seq<char>
    decreases adds.len(),
{
    if adds.len() == 0 {
        base
    } else {
        adds[0] + ":"@ + search_path(adds.skip(1), base)
    }
}

/// The list with those of the named variables that the host has.
pub open spec fn with_passthroughs(
    list: Seq<EntryView>,
    names: Seq<Seq<char>>,
    host: HostView,
) -> Seq<EntryView>
    decreases names.len(),
{
    if names.len() == 0 {
        list
    } else {
        let before = with_passthroughs(list, names.drop_last(), host);
        match host.var_text(names.last()) {
            Some(value) => upserted(
                before,
                EntryView { name: names.last(), value, source: EnvSource::Default },
            ),
            None => before,
        }
    }
}

/// The list with those of the variables whose name starts with `LC_`.
pub open spec fn with_locale(list: Seq<EntryView>, vars: Seq<(Seq<u8>, Seq<u8>)>) -> Seq<EntryView>
    decreases vars.len(),
{
    if vars.len() == 0 {
        list
    } else {
        let before = with_locale(list, vars.drop_last());
        let (name, value) = vars.last();
        if valid_utf8(name) && valid_utf8(value) && "LC_"@.is_prefix_of(decode_utf8(name)) {
            upserted(
                before,
                EntryView {
                    name: decode_utf8(name),
                    value: decode_utf8(value),
                    source: EnvSource::Default,
                },
            )
        } else {
            before
        }
    }
}

/// What every sandbox starts from: the home directory, a search path, and
/// of the host's variables those that pass through.
pub open spec fn baseline(
    home: Seq<u8>,
    path_override: Option<Seq<char>>,
    path_additions: Seq<Seq<char>>,
    host: HostView,
) -> Seq<EntryView> {
    let base = match path_override {
        Some(p) => p,
        None => CANONICAL_PATH@,
    };
    let fixed = seq![
        EntryView { name: "HOME"@, value: utf8_lossy(home), source: EnvSource::Default },
        EntryView {
            name: "PATH"@,
            value: search_path(path_additions, base),
            source: EnvSource::Default,
        },
    ];
    with_locale(with_passthroughs(fixed, passthrough_names(), host), host.vars)
}

/// `base` with the directories in front of it, in order.
fn build_path(adds: &Vec<String>, base: &str) -> (r: String)
    ensures
        r@ == search_path(views(adds@), base@),
{
    let ghost all = views(adds@);
    let mut out = String::new();
    let mut i: usize = 0;
    proof {
        assert(all.skip(0) =~= all);
        assert(out@ + search_path(all, base@) =~= search_path(all, base@));
    }
    while i < adds.len()
        invariant
            i <= adds@.len(),
            all == views(adds@),
            out@ + search_path(all.skip(i as int), base@) == search_path(all, base@),
        decreases adds.len() - i,
    {
        let ghost before = out@;
        let ghost rest = search_path(all.skip(i + 1), base@);
        proof {
            assert(all.skip(i as int)[0] == adds@[i as int]@);
            assert(all.skip(i as int).skip(1) =~= all.skip(i + 1));
        }
        out.append(adds[i].as_str());
        out.append(":");
        assert(before + (adds@[i as int]@ + ":"@ + rest) =~= out@ + rest);
        i = i + 1;
    }
    out.append(base);
    out
}

impl EnvList {
    /// A list without variables.
    pub fn new() -> (r: EnvList)
        ensures
            r@ == Seq::<EntryView>::empty(),
    {
        let r = EnvList(Vec::new());
        assert(r@ =~= Seq::<EntryView>::empty());
        r
    }

    /// What every sandbox starts from. The home directory is the one that
    /// the mounts use, not the host's variable; the search path is never
    /// the host's.
    pub fn default_baseline(
        home: &[u8],
        path_override: Option<&str>,
        path_additions: &Vec<String>,
        host: &Host,
    ) -> (r: EnvList)
        ensures
            r@ == baseline(
                home@,
                match path_override {
                    Some(p) => Some(p@),
                    None => None,
                },
                views(path_additions@),
                host@,
            ),
    {
        let own = EnvSource::Default;
        let mut list = EnvList::new();
        list.set("HOME", lossy_text(home), own);
        let base = match path_override {
            Some(p) => p,
            None => CANONICAL_PATH,
        };
        let path = build_path(path_additions, base);
        let ghost first = list@;
        list.set("PATH", path, own);
        let ghost fixed = seq![
            EntryView { name: "HOME"@, value: utf8_lossy(home@), source: own },
            EntryView { name: "PATH"@, value: path@, source: own },
        ];
        proof {
            reveal_strlit("HOME");
            reveal_strlit("PATH");
            assert("HOME"@[0] != "PATH"@[0]);
            lemma_first_index_none(names_of(Seq::<EntryView>::empty()), "HOME"@);
            assert(first =~= seq![fixed[0]]);
            lemma_first_index_none(names_of(first), "PATH"@);
            assert(list@ =~= fixed);
        }
        let names = passthrough_list();
        let ghost all = views(names@);
        let mut i: usize = 0;
        assert(all.take(0) =~= Seq::<Seq<char>>::empty());
        while i < names.len()
            invariant
                i <= names@.len(),
                all == views(names@),
                own == EnvSource::Default,
                list@ == with_passthroughs(fixed, all.take(i as int), host@),
            decreases names.len() - i,
        {
            proof {
                assert(all.take(i + 1).drop_last() =~= all.take(i as int));
                assert(all.take(i + 1).last() == names@[i as int]@);
            }
            match host.var(names[i]) {
                Some(value) => list.set(names[i], value, own),
                None => {},
            }
            i = i + 1;
        }
        assert(all.take(all.len() as int) =~= all);
        let ghost passed = list@;
        let mut j: usize = 0;
        assert(host@.vars.take(0) =~= Seq::<(Seq<u8>, Seq<u8>)>::empty());
        while j < host.vars.len()
            invariant
                j <= host.vars@.len(),
                own == EnvSource::Default,
                list@ == with_locale(passed, host@.vars.take(j as int)),
            decreases host.vars.len() - j,
        {
            let v = &host.vars[j];
            proof {
                let next = host@.vars.take(j + 1);
                assert(next.drop_last() =~= host@.vars.take(j as int));
                assert(next.last() == (v.name@, v.value@));
            }
            match utf8_text(v.name.as_slice()) {
                Some(name) => match utf8_text(v.value.as_slice()) {
                    Some(value) => {
                        if starts_with_str(name.as_str(), "LC_") {
                            list.set(name.as_str(), value, own);
                        }
                    },
                    None => {},
                },
                None => {},
            }
            j = j + 1;
        }
        assert(host@.vars.take(host@.vars.len() as int) =~= host@.vars);
        list
    }

    /// Let `name` have `value`, whatever it had before. A name that is not
    /// in the list yet comes last.
    pub fn set(&mut self, name: &str, value: String, source: EnvSource)
        ensures
            final(self)@ == upserted(
                old(self)@,
                (EntryView { name: name@, value: value@, source }),
            ),
    {
        let ghost before = self@;
        let ghost names = names_of(before);
        let ghost entry = EntryView { name: name@, value: value@, source };
        let mut i: usize = 0;
        while i < self.0.len()
            invariant
                i <= self.0@.len(),
                before == self@,
                *self == *old(self),
                names == names_of(before),
                entry == (EntryView { name: name@, value: value@, source }),
                forall|j: int| 0 <= j < i ==> names[j] != name@,
            decreases self.0.len() - i,
        {
            assert(names[i as int] == self.0@[i as int].name@);
            if str_eq(self.0[i].name.as_str(), name) {
                proof {
                    lemma_first_index_is(names, name@, i as int);
                }
                self.0.set(i, EnvEntry { name: name.to_owned(), value, source });
                assert(self@ =~= before.update(i as int, entry));
                return;
            }
            i = i + 1;
        }
        proof {
            lemma_first_index_none(names, name@);
        }
        self.0.push(EnvEntry { name: name.to_owned(), value, source });
        assert(self@ =~= before.push(entry));
    }

    /// Remove `name`, if it is there.
    pub fn unset(&mut self, name: &str)
        ensures
            final(self)@ == without_name(old(self)@, name@),
    {
        let ghost all = self@;
        let mut kept: Vec<EnvEntry> = Vec::new();
        let mut i: usize = 0;
        assert(all.take(0) =~= Seq::<EntryView>::empty());
        assert(views(kept@) =~= Seq::<EntryView>::empty());
        while i < self.0.len()
            invariant
                i <= self.0@.len(),
                all == self@,
                *self == *old(self),
                views(kept@) == without_name(all.take(i as int), name@),
            decreases self.0.len() - i,
        {
            let ghost before = views(kept@);
            proof {
                assert(all.take(i + 1).drop_last() =~= all.take(i as int));
                assert(all.take(i + 1).last() == self.0@[i as int]@);
            }
            if !str_eq(self.0[i].name.as_str(), name) {
                kept.push(self.0[i].duplicate());
                assert(views(kept@) =~= before.push(self.0@[i as int]@));
            }
            i = i + 1;
        }
        assert(all.take(all.len() as int) =~= all);
        self.0 = kept;
    }

    /// The variables, in order.
    pub fn iter(&self) -> (r: std::slice::Iter<'_, EnvEntry>)
        ensures
            r.remaining() == self.0@.as_ref(),
    {
        self.0.as_slice().iter()
    }

    /// The number of variables.
    pub fn len(&self) -> (n: usize)
        ensures
            n == self@.len(),
    {
        self.0.len()
    }
}

// ---------------------------------------------------------------------
// The command line
// ---------------------------------------------------------------------
/// What the command line asks of a variable.
#[derive(Debug)]
pub enum EnvSpecValue {
    /// Give it this value, which may be empty.
    Literal(String),
    /// Pass the host's value through; where the host has none, the variable
    /// is not to be there.
    Passthrough,
}

/// A variable that the command line asks for.
#[derive(Debug)]
pub struct EnvSpec {
    /// The name.
    pub name: String,
    /// What is asked of it.
    pub value: EnvSpecValue,
}

/// What an [`EnvSpec`] says; without a value it asks for the host's.
#[verifier::ext_equal]
pub struct EnvSpecView {
    pub name: Seq<char>,
    pub value: Option<Seq<char>>,
}

impl View for EnvSpec {
    type V = EnvSpecView;

    open spec fn view(&self) -> EnvSpecView {
        EnvSpecView {
            name: self.name@,
            value: match &self.value {
                EnvSpecValue::Literal(v) => Some(v@),
                EnvSpecValue::Passthrough => None,
            },
        }
    }
}

/// What `VAR` (pass through) or `VAR=VALUE` (literal) asks for. The first
/// `=` decides. The name must not be empty and must not contain NUL.
pub open spec fn parsed_spec(s: Seq<char>) -> std::result::Result<EnvSpecView, Seq<char>> {
    let spec = match split_first(s, '=') {
        Some((name, value)) => EnvSpecView { name, value: Some(value) },
        None => EnvSpecView { name: s, value: None },
    };
    if spec.name.len() == 0 {
        Err("env spec "@ + quoted(s) + " has empty variable name"@)
    } else if spec.name.contains('\0') {
        Err("env spec "@ + quoted(s) + " variable name contains NUL"@)
    } else {
        Ok(spec)
    }
}

impl EnvSpec {
    /// Parse `VAR` or `VAR=VALUE`.
    pub fn from_str(s: &str) -> (r: std::result::Result<EnvSpec, String>)
        ensures
            match parsed_spec(s@) {
                Ok(d) => r matches Ok(e) && e@ == d,
                Err(e) => r matches Err(f) && f@ == e,
            },
    {
        let spec = match split_once_str(s, '=') {
            Some((name, value)) => EnvSpec { name, value: EnvSpecValue::Literal(value) },
            None => EnvSpec { name: s.to_owned(), value: EnvSpecValue::Passthrough },
        };
        if spec.name.as_str().is_empty() {
            return Err(
                cat3("env spec ", quoted_text(s).as_str(), " has empty variable name"),
            );
        }
        if contains_char(spec.name.as_str(), '\0') {
            return Err(
                cat3("env spec ", quoted_text(s).as_str(), " variable name contains NUL"),
            );
        }
        Ok(spec)
    }
}

/// What the command line says about the environment.
#[derive(Debug)]
pub struct EnvOpts {
    /// The variables, in order.
    pub env: Vec<EnvSpec>,
    /// What to use in place of the canonical `PATH`.
    pub path: Option<String>,
    /// Directories to put in front of `PATH`, in order.
    pub path_add: Vec<String>,
}

impl Default for EnvOpts {
    /// Nothing.
    fn default() -> (r: EnvOpts)
        ensures
            r.env@.len() == 0,
            r.path is None,
            r.path_add@.len() == 0,
    {
        EnvOpts { env: Vec::new(), path: None, path_add: Vec::new() }
    }
}

/// The list after everything that was asked for, in order. A variable that
/// was to be passed through and that the host does not have is removed.
pub open spec fn applied(list: Seq<EntryView>, specs: Seq<EnvSpecView>, host: HostView) -> Seq<
    EntryView,
>
    decreases specs.len(),
{
    if specs.len() == 0 {
        list
    } else {
        let before = applied(list, specs.drop_last(), host);
        let spec = specs.last();
        let value = match spec.value {
            Some(literal) => Some(literal),
            None => host.var_text(spec.name),
        };
        match value {
            Some(value) => upserted(
                before,
                EntryView { name: spec.name, value, source: EnvSource::Cli },
            ),
            None => without_name(before, spec.name),
        }
    }
}

impl EnvOpts {
    /// Do to a list what is asked for, in order. The options about `PATH`
    /// are for [`EnvList::default_baseline`].
    pub fn apply(&self, list: &mut EnvList, host: &Host)
        ensures
            final(list)@ == applied(old(list)@, views(self.env@), host@),
    {
        let ghost all = views(self.env@);
        let mut i: usize = 0;
        assert(all.take(0) =~= Seq::<EnvSpecView>::empty());
        while i < self.env.len()
            invariant
                i <= self.env@.len(),
                all == views(self.env@),
                list@ == applied(old(list)@, all.take(i as int), host@),
            decreases self.env.len() - i,
        {
            let spec = &self.env[i];
            proof {
                assert(all.take(i + 1).drop_last() =~= all.take(i as int));
                assert(all.take(i + 1).last() == spec@);
            }
            match &spec.value {
                EnvSpecValue::Literal(v) => list.set(
                    spec.name.as_str(),
                    v.clone(),
                    EnvSource::Cli,
                ),
                EnvSpecValue::Passthrough => match host.var(spec.name.as_str()) {
                    Some(value) => list.set(spec.name.as_str(), value, EnvSource::Cli),
                    None => list.unset(spec.name.as_str()),
                },
            }
            i = i + 1;
        }
        assert(all.take(all.len() as int) =~= all);
    }
}

// ---------------------------------------------------------------------
// Laws
// ---------------------------------------------------------------------
/// A variable that was set has the value it was set to; the others keep
/// theirs and their place.
pub proof fn law_set_reads_back(list: Seq<EntryView>, entry: EntryView)
    ensures
        upserted(list, entry).contains(entry),
        forall|i: int|
            0 <= i < list.len() && (#[trigger] list[i]).name != entry.name ==> upserted(
                list,
                entry,
            )[i] == list[i],
{
    lemma_first_index(names_of(list), entry.name);
    match first_index(names_of(list), entry.name) {
        Some(i) => {
            assert(upserted(list, entry)[i] == entry);
        },
        None => {
            assert(upserted(list, entry)[list.len() as int] == entry);
        },
    }
}

/// No name stands twice in a list that was built by setting and unsetting.
pub proof fn law_names_stay_unique(list: Seq<EntryView>, entry: EntryView, name: Seq<char>)
    requires
        names_of(list).no_duplicates(),
    ensures
        names_of(upserted(list, entry)).no_duplicates(),
        names_of(without_name(list, name)).no_duplicates(),
        !names_of(without_name(list, name)).contains(name),
{
    lemma_upsert_unique(list, entry);
    lemma_without_unique(list, name);
    assert(!names_of(without_name(list, name)).contains(name)) by {
        if names_of(without_name(list, name)).contains(name) {
            let w = without_name(list, name);
            let i = choose|i: int| 0 <= i < names_of(w).len() && names_of(w)[i] == name;
            assert(w[i].name == name);
        }
    }
}

proof fn lemma_upsert_unique(list: Seq<EntryView>, entry: EntryView)
    requires
        names_of(list).no_duplicates(),
    ensures
        names_of(upserted(list, entry)).no_duplicates(),
{
    let names = names_of(list);
    lemma_first_index(names, entry.name);
    let after = names_of(upserted(list, entry));
    match first_index(names, entry.name) {
        Some(i) => {
            assert(after =~= names);
        },
        None => {
            assert(after =~= names.push(entry.name));
            assert forall|a: int, b: int|
                0 <= a < after.len() && 0 <= b < after.len() && a != b implies after[a]
                != after[b] by {
                if a < names.len() && b < names.len() {
                } else if a < names.len() {
                    assert(names.contains(names[a]));
                } else {
                    assert(names.contains(names[b]));
                }
            }
        },
    }
}

proof fn lemma_without_unique(list: Seq<EntryView>, name: Seq<char>)
    requires
        names_of(list).no_duplicates(),
    ensures
        names_of(without_name(list, name)).no_duplicates(),
        forall|i: int|
            0 <= i < without_name(list, name).len() ==> (#[trigger] without_name(list, name)[i]).name
                != name && list.contains(without_name(list, name)[i]),
    decreases list.len(),
{
    if list.len() > 0 {
        let rest = list.drop_last();
        let names = names_of(list);
        assert(names_of(rest).no_duplicates()) by {
            assert forall|a: int, b: int|
                0 <= a < rest.len() && 0 <= b < rest.len() && a != b implies names_of(rest)[a]
                != names_of(rest)[b] by {
                assert(names[a] != names[b]);
            }
        }
        lemma_without_unique(rest, name);
        let w = without_name(rest, name);
        let last = list.last();
        let all = without_name(list, name);
        assert forall|i: int| 0 <= i < all.len() implies (#[trigger] all[i]).name != name
            && list.contains(all[i]) by {
            if i < w.len() {
                assert(all[i] == w[i]);
                let j = choose|j: int| 0 <= j < rest.len() && rest[j] == w[i];
                assert(list[j] == w[i]);
            } else {
                assert(list[list.len() - 1] == last);
            }
        }
        if last.name != name {
            let ns = names_of(all);
            assert forall|a: int, b: int|
                0 <= a < ns.len() && 0 <= b < ns.len() && a != b implies ns[a] != ns[b] by {
                if a < w.len() && b < w.len() {
                    assert(names_of(w)[a] != names_of(w)[b]);
                } else if a < w.len() {
                    let j = choose|j: int| 0 <= j < rest.len() && rest[j] == w[a];
                    assert(names[j] != names[list.len() - 1]);
                } else {
                    let j = choose|j: int| 0 <= j < rest.len() && rest[j] == w[b];
                    assert(names[j] != names[list.len() - 1]);
                }
            }
        }
    }
}

// ---------------------------------------------------------------------
// Sequences of calls
// ---------------------------------------------------------------------
/// A call that changes a list.
#[verifier::ext_equal]
pub enum EnvCall {
    /// [`EnvList::set`] with this entry.
    Sets(EntryView),
    /// [`EnvList::unset`] with this name.
    Unsets(Seq<char>),
}

/// The name that a call is about.
pub open spec fn name_in(call: EnvCall) -> Seq<char> {
    match call {
        EnvCall::Sets(entry) => entry.name,
        EnvCall::Unsets(name) => name,
    }
}

/// A list after a call.
pub open spec fn after_call(list: Seq<EntryView>, call: EnvCall) -> Seq<EntryView> {
    match call {
        EnvCall::Sets(entry) => upserted(list, entry),
        EnvCall::Unsets(name) => without_name(list, name),
    }
}

/// What calls build from an empty list.
pub open spec fn built(calls: Seq<EnvCall>) -> Seq<EntryView>
    decreases calls.len(),
{
    if calls.len() == 0 {
        Seq::empty()
    } else {
        after_call(built(calls.drop_last()), calls.last())
    }
}

/// The last of the calls that is about `name`.
pub open spec fn last_about(calls: Seq<EnvCall>, name: Seq<char>) -> Option<EnvCall>
    decreases calls.len(),
{
    if calls.len() == 0 {
        None
    } else if name_in(calls.last()) == name {
        Some(calls.last())
    } else {
        last_about(calls.drop_last(), name)
    }
}

/// The index of the last of the calls that set `name` where it was not in
/// the list; -1 where none did.
pub open spec fn last_added(calls: Seq<EnvCall>, name: Seq<char>) -> int
    decreases calls.len(),
{
    if calls.len() == 0 {
        -1
    } else {
        let before = calls.drop_last();
        if calls.last() is Sets && name_in(calls.last()) == name && !names_of(
            built(before),
        ).contains(name) {
            calls.len() - 1
        } else {
            last_added(before, name)
        }
    }
}

/// Are the entries in the order in which `at` ranks their names?
spec fn ranked(list: Seq<EntryView>, at: spec_fn(Seq<char>) -> int) -> bool {
    forall|a: int, b: int|
        0 <= a < b < list.len() ==> at((#[trigger] list[a]).name) < at((#[trigger] list[b]).name)
}

/// What is left after a removal was there before, in the same order, and
/// is all that has another name.
proof fn lemma_without_keeps_rank(
    list: Seq<EntryView>,
    name: Seq<char>,
    at: spec_fn(Seq<char>) -> int,
)
    requires
        ranked(list, at),
    ensures
        ranked(without_name(list, name), at),
        forall|e: EntryView| #[trigger]
            without_name(list, name).contains(e) <==> list.contains(e) && e.name != name,
    decreases list.len(),
{
    if list.len() > 0 {
        let rest = list.drop_last();
        let last = list.last();
        assert forall|a: int, b: int| 0 <= a < b < rest.len() implies at(
            (#[trigger] rest[a]).name,
        ) < at((#[trigger] rest[b]).name) by {
            assert(rest[a] == list[a] && rest[b] == list[b]);
        }
        lemma_without_keeps_rank(rest, name, at);
        let w = without_name(rest, name);
        let all = without_name(list, name);
        assert forall|e: EntryView| list.contains(e) == (rest.contains(e) || e == last) by {
            if list.contains(e) {
                let k = choose|k: int| 0 <= k < list.len() && list[k] == e;
                if k < rest.len() {
                    assert(rest[k] == e);
                }
            }
            if rest.contains(e) {
                let k = choose|k: int| 0 <= k < rest.len() && rest[k] == e;
                assert(list[k] == e);
            }
            if e == last {
                assert(list[list.len() - 1] == e);
            }
        }
        if last.name != name {
            assert(all == w.push(last));
            assert forall|e: EntryView| all.contains(e) == (w.contains(e) || e == last) by {
                if all.contains(e) {
                    let k = choose|k: int| 0 <= k < all.len() && all[k] == e;
                    if k < w.len() {
                        assert(w[k] == e);
                    }
                }
                if w.contains(e) {
                    let k = choose|k: int| 0 <= k < w.len() && w[k] == e;
                    assert(all[k] == e);
                }
                if e == last {
                    assert(all[w.len() as int] == e);
                }
            }
            assert forall|a: int, b: int| 0 <= a < b < all.len() implies at(
                (#[trigger] all[a]).name,
            ) < at((#[trigger] all[b]).name) by {
                if b == w.len() {
                    assert(w.contains(w[a]));
                    let k = choose|k: int| 0 <= k < rest.len() && rest[k] == w[a];
                    assert(list[k] == all[a] && list[list.len() - 1] == all[b]);
                }
            }
        }
    }
}

/// What is in a list after a set: the new entry, and what has another
/// name.
proof fn lemma_upserted_holds(list: Seq<EntryView>, entry: EntryView)
    requires
        names_of(list).no_duplicates(),
    ensures
        forall|e: EntryView| #[trigger]
            upserted(list, entry).contains(e) <==> e == entry || (list.contains(e) && e.name
                != entry.name),
{
    let names = names_of(list);
    let after = upserted(list, entry);
    lemma_first_index(names, entry.name);
    assert forall|e: EntryView| #[trigger] after.contains(e) <==> e == entry || (list.contains(e)
        && e.name != entry.name) by {
        match first_index(names, entry.name) {
            Some(i) => {
                if after.contains(e) && e != entry {
                    let k = choose|k: int| 0 <= k < after.len() && after[k] == e;
                    assert(k != i && list[k] == e);
                    assert(names[k] != names[i]);
                }
                if list.contains(e) && e.name != entry.name {
                    let k = choose|k: int| 0 <= k < list.len() && list[k] == e;
                    assert(names[k] == e.name);
                    assert(after[k] == e);
                }
                assert(after[i] == entry);
            },
            None => {
                if after.contains(e) && e != entry {
                    let k = choose|k: int| 0 <= k < after.len() && after[k] == e;
                    assert(list[k] == e);
                    assert(names.contains(names[k]));
                }
                if list.contains(e) {
                    let k = choose|k: int| 0 <= k < list.len() && list[k] == e;
                    assert(after[k] == e);
                }
                assert(after[list.len() as int] == entry);
            },
        }
    }
}

/// A name is in a list where an entry of that name is.
proof fn lemma_named_entry(list: Seq<EntryView>, name: Seq<char>)
    ensures
        names_of(list).contains(name) <==> exists|e: EntryView|
            #[trigger] list.contains(e) && e.name == name,
{
    let names = names_of(list);
    if names.contains(name) {
        let k = choose|k: int| 0 <= k < names.len() && names[k] == name;
        assert(list.contains(list[k]) && list[k].name == name);
    }
    if exists|e: EntryView| #[trigger] list.contains(e) && e.name == name {
        let e = choose|e: EntryView| #[trigger] list.contains(e) && e.name == name;
        let k = choose|k: int| 0 <= k < list.len() && list[k] == e;
        assert(names[k] == name);
    }
}

/// The last call about a name is about it.
proof fn lemma_last_about(calls: Seq<EnvCall>, name: Seq<char>)
    ensures
        last_about(calls, name) matches Some(call) ==> name_in(call) == name,
    decreases calls.len(),
{
    if calls.len() > 0 {
        lemma_last_about(calls.drop_last(), name);
    }
}

/// What calls build holds each name once. Whether a name is in it, and
/// with which value and source, is decided by the last call about it; and
/// the entries stand in the order in which their names were last newly
/// added.
pub proof fn law_last_call_decides(calls: Seq<EnvCall>)
    ensures
        names_of(built(calls)).no_duplicates(),
        forall|e: EntryView| #[trigger]
            built(calls).contains(e) <==> last_about(calls, e.name) == Some(EnvCall::Sets(e)),
        forall|name: Seq<char>| #[trigger]
            names_of(built(calls)).contains(name) <==> (last_about(calls, name) matches Some(call)
                && call is Sets),
        forall|a: int, b: int|
            0 <= a < b < built(calls).len() ==> last_added(calls, (#[trigger] built(calls)[a]).name)
                < last_added(calls, (#[trigger] built(calls)[b]).name),
        forall|a: int|
            0 <= a < built(calls).len() ==> 0 <= last_added(
                calls,
                (#[trigger] built(calls)[a]).name,
            ) < calls.len(),
    decreases calls.len(),
{
    let list = built(calls);
    if calls.len() > 0 {
        let before = calls.drop_last();
        let old_list = built(before);
        let call = calls.last();
        let name = name_in(call);
        law_last_call_decides(before);
        let at = |n: Seq<char>| last_added(before, n);
        assert(ranked(old_list, at));
        lemma_named_entry(old_list, name);
        match call {
            EnvCall::Sets(entry) => {
                lemma_upsert_unique(old_list, entry);
                lemma_upserted_holds(old_list, entry);
                lemma_first_index(names_of(old_list), name);
                match first_index(names_of(old_list), name) {
                    Some(i) => {
                        assert(names_of(old_list)[i] == name);
                        assert(names_of(old_list).contains(name));
                        assert forall|a: int| 0 <= a < list.len() implies (
                        #[trigger] list[a]).name == old_list[a].name by {}
                        assert forall|a: int, b: int| 0 <= a < b < list.len() implies last_added(
                            calls,
                            (#[trigger] list[a]).name,
                        ) < last_added(calls, (#[trigger] list[b]).name) by {
                            assert(at(old_list[a].name) < at(old_list[b].name));
                        }
                    },
                    None => {
                        assert forall|a: int| 0 <= a < old_list.len() implies (
                        #[trigger] old_list[a]).name != name by {
                            assert(names_of(old_list)[a] == old_list[a].name);
                        }
                        assert forall|a: int, b: int| 0 <= a < b < list.len() implies last_added(
                            calls,
                            (#[trigger] list[a]).name,
                        ) < last_added(calls, (#[trigger] list[b]).name) by {
                            assert(list[a] == old_list[a]);
                            if b < old_list.len() {
                                assert(list[b] == old_list[b]);
                                assert(at(old_list[a].name) < at(old_list[b].name));
                            }
                        }
                        assert forall|a: int| 0 <= a < list.len() implies 0 <= last_added(
                            calls,
                            (#[trigger] list[a]).name,
                        ) < calls.len() by {
                            if a < old_list.len() {
                                assert(list[a] == old_list[a]);
                            }
                        }
                    },
                }
            },
            EnvCall::Unsets(_) => {
                lemma_without_unique(old_list, name);
                lemma_without_keeps_rank(old_list, name, at);
                assert forall|a: int, b: int| 0 <= a < b < list.len() implies last_added(
                    calls,
                    (#[trigger] list[a]).name,
                ) < last_added(calls, (#[trigger] list[b]).name) by {
                    assert(at(list[a].name) < at(list[b].name));
                }
                assert forall|a: int| 0 <= a < list.len() implies 0 <= last_added(
                    calls,
                    (#[trigger] list[a]).name,
                ) < calls.len() by {
                    assert(list.contains(list[a]));
                    let k = choose|k: int| 0 <= k < old_list.len() && old_list[k] == list[a];
                    assert(last_added(before, old_list[k].name) >= 0);
                }
            },
        }
    }
    assert forall|name: Seq<char>| #[trigger]
        names_of(list).contains(name) <==> (last_about(calls, name) matches Some(call) && call
            is Sets) by {
        lemma_named_entry(list, name);
        lemma_last_about(calls, name);
        if let Some(EnvCall::Sets(entry)) = last_about(calls, name) {
            assert(list.contains(entry));
        }
    }
}

// ---------------------------------------------------------------------
// What every sandbox starts from
// ---------------------------------------------------------------------
/// What is in the list once the host's variables of these names are.
proof fn lemma_passthroughs_hold(list: Seq<EntryView>, names: Seq<Seq<char>>, host: HostView)
    requires
        names_of(list).no_duplicates(),
    ensures
        names_of(with_passthroughs(list, names, host)).no_duplicates(),
        forall|e: EntryView| #[trigger]
            with_passthroughs(list, names, host).contains(e) <==> if names.contains(e.name)
                && host.var_text(e.name) is Some {
                host.var_text(e.name) == Some(e.value) && e.source == EnvSource::Default
            } else {
                list.contains(e)
            },
    decreases names.len(),
{
    if names.len() > 0 {
        let fewer = names.drop_last();
        let name = names.last();
        let before = with_passthroughs(list, fewer, host);
        let after = with_passthroughs(list, names, host);
        lemma_passthroughs_hold(list, fewer, host);
        assert forall|n: Seq<char>| #[trigger] names.contains(n) == (fewer.contains(n) || n
            == name) by {
            if names.contains(n) {
                let k = choose|k: int| 0 <= k < names.len() && names[k] == n;
                if k < fewer.len() {
                    assert(fewer[k] == n);
                }
            }
            if fewer.contains(n) {
                let k = choose|k: int| 0 <= k < fewer.len() && fewer[k] == n;
                assert(names[k] == n);
            }
            assert(names[names.len() - 1] == name);
        }
        match host.var_text(name) {
            Some(value) => {
                let entry = EntryView { name, value, source: EnvSource::Default };
                lemma_upsert_unique(before, entry);
                lemma_upserted_holds(before, entry);
                assert forall|e: EntryView| #[trigger]
                    after.contains(e) <==> if names.contains(e.name) && host.var_text(
                        e.name,
                    ) is Some {
                        host.var_text(e.name) == Some(e.value) && e.source == EnvSource::Default
                    } else {
                        list.contains(e)
                    } by {
                    assert(before.contains(e) == before.contains(e));
                    assert(names.contains(e.name) == (fewer.contains(e.name) || e.name == name));
                    if e.name == name && after.contains(e) {
                        assert(e == entry);
                    }
                    if e.name == name && e.value == value && e.source == EnvSource::Default {
                        assert(e =~= entry);
                    }
                }
            },
            None => {
                assert forall|e: EntryView| #[trigger]
                    after.contains(e) <==> if names.contains(e.name) && host.var_text(
                        e.name,
                    ) is Some {
                        host.var_text(e.name) == Some(e.value) && e.source == EnvSource::Default
                    } else {
                        list.contains(e)
                    } by {
                    assert(before.contains(e) == after.contains(e));
                    assert(names.contains(e.name) == (fewer.contains(e.name) || e.name == name));
                }
            },
        }
    }
}

/// Does this variable of the host, name and value, read as text of this
/// name, with `LC_` in front?
pub open spec fn reads_as_locale(var: (Seq<u8>, Seq<u8>), name: Seq<char>) -> bool {
    &&& valid_utf8(var.0)
    &&& valid_utf8(var.1)
    &&& decode_utf8(var.0) == name
    &&& name.len() >= 3 && name[0] == 'L' && name[1] == 'C' && name[2] == '_'
}

/// How `LC_` stands in front.
proof fn lemma_locale_prefix(name: Seq<char>)
    ensures
        "LC_"@.is_prefix_of(name) <==> name.len() >= 3 && name[0] == 'L' && name[1] == 'C'
            && name[2] == '_',
{
    reveal_strlit("LC_");
    if name.len() >= 3 {
        let head = name.subrange(0, 3);
        assert(head[0] == name[0] && head[1] == name[1] && head[2] == name[2]);
        if name[0] == 'L' && name[1] == 'C' && name[2] == '_' {
            assert("LC_"@ =~= head);
        }
    }
}

/// What is in the list once the host's locale is.
proof fn lemma_locale_holds(list: Seq<EntryView>, vars: Seq<(Seq<u8>, Seq<u8>)>)
    requires
        names_of(list).no_duplicates(),
    ensures
        names_of(with_locale(list, vars)).no_duplicates(),
        forall|e: EntryView|
            (forall|i: int| 0 <= i < vars.len() ==> !reads_as_locale(#[trigger] vars[i], e.name))
                ==> (#[trigger] with_locale(list, vars).contains(e) <==> list.contains(e)),
        forall|e: EntryView, i: int|
            0 <= i < vars.len() && reads_as_locale(#[trigger] vars[i], e.name) && (forall|j: int|
                i < j < vars.len() ==> !reads_as_locale(#[trigger] vars[j], e.name)) ==> (
            #[trigger] with_locale(list, vars).contains(e) <==> e.value == decode_utf8(vars[i].1)
                && e.source == EnvSource::Default),
    decreases vars.len(),
{
    if vars.len() > 0 {
        let fewer = vars.drop_last();
        let n = vars.len() - 1;
        let var = vars[n];
        let before = with_locale(list, fewer);
        let after = with_locale(list, vars);
        lemma_locale_holds(list, fewer);
        assert(forall|i: int| 0 <= i < n ==> #[trigger] fewer[i] == vars[i]);
        assert(vars.last() == var);
        let name = decode_utf8(var.0);
        lemma_locale_prefix(name);
        let counts = reads_as_locale(var, name);
        let entry = EntryView {
            name,
            value: decode_utf8(var.1),
            source: EnvSource::Default,
        };
        if counts {
            lemma_upsert_unique(before, entry);
            lemma_upserted_holds(before, entry);
        } else {
            assert(after == before);
        }
        assert forall|e: EntryView|
            (forall|i: int| 0 <= i < vars.len() ==> !reads_as_locale(
                #[trigger] vars[i],
                e.name,
            )) implies (#[trigger] after.contains(e) <==> list.contains(e)) by {
            assert(!reads_as_locale(vars[n], e.name));
            assert forall|i: int| 0 <= i < fewer.len() implies !reads_as_locale(
                #[trigger] fewer[i],
                e.name,
            ) by {
                assert(fewer[i] == vars[i]);
            }
            assert(before.contains(e) <==> list.contains(e));
            if counts {
                assert(e.name != name);
            }
        }
        assert forall|e: EntryView, i: int|
            0 <= i < vars.len() && reads_as_locale(#[trigger] vars[i], e.name) && (forall|j: int|
                i < j < vars.len() ==> !reads_as_locale(#[trigger] vars[j], e.name)) implies (
        #[trigger] after.contains(e) <==> e.value == decode_utf8(vars[i].1) && e.source
            == EnvSource::Default) by {
            if i == n {
                assert(counts && e.name == name);
                if e.value == entry.value && e.source == EnvSource::Default {
                    assert(e =~= entry);
                }
            } else {
                assert(!reads_as_locale(vars[n], e.name));
                assert(fewer[i] == vars[i]);
                assert forall|j: int| i < j < fewer.len() implies !reads_as_locale(
                    #[trigger] fewer[j],
                    e.name,
                ) by {
                    assert(fewer[j] == vars[j]);
                }
                assert(before.contains(e) <==> e.value == decode_utf8(vars[i].1) && e.source
                    == EnvSource::Default);
                if counts {
                    assert(e.name != name);
                }
            }
        }
    }
}

/// The two variables that are always there, and that passing through does
/// not touch.
proof fn lemma_fixed_names()
    ensures
        "HOME"@ != "PATH"@,
        !passthrough_names().contains("HOME"@),
        !passthrough_names().contains("PATH"@),
        "HOME"@[0] == 'H',
        "PATH"@[0] == 'P',
        forall|name: Seq<char>| #[trigger]
            passthrough_names().contains(name) ==> !(name.len() >= 3 && name[0] == 'L' && name[1]
                == 'C' && name[2] == '_'),
{
    reveal_strlit("PATH");
    reveal_strlit("HOME");
    reveal_strlit("USER");
    reveal_strlit("LOGNAME");
    reveal_strlit("SHELL");
    reveal_strlit("TERM");
    reveal_strlit("COLORTERM");
    reveal_strlit("NO_COLOR");
    reveal_strlit("FORCE_COLOR");
    reveal_strlit("CLICOLOR");
    reveal_strlit("CLICOLOR_FORCE");
    reveal_strlit("TERMINFO");
    reveal_strlit("TERMINFO_DIRS");
    reveal_strlit("COLUMNS");
    reveal_strlit("LINES");
    reveal_strlit("TERM_PROGRAM");
    reveal_strlit("TERM_PROGRAM_VERSION");
    reveal_strlit("LANG");
    reveal_strlit("TZ");
    reveal_strlit("EDITOR");
    reveal_strlit("VISUAL");
    reveal_strlit("PAGER");
    law_default_names_spelled_out("HOME"@);
    law_default_names_spelled_out("PATH"@);
    assert("PAGER"@.len() == 5 && "HOME"@[0] == 'H' && "PATH"@[0] == 'P');
    assert("PAGER"@[1] == 'A' && "PATH"@.len() == 4);
    assert forall|name: Seq<char>| #[trigger] passthrough_names().contains(name) implies !(
    name.len() >= 3 && name[0] == 'L' && name[1] == 'C' && name[2] == '_') by {
        law_default_names_spelled_out(name);
        assert("LOGNAME"@[1] == 'O' && "LINES"@[1] == 'I' && "LANG"@[1] == 'A');
    }
}

/// What every sandbox starts from, name by name. `HOME` is the home
/// directory that was given; `PATH` never comes from the host; a variable
/// that passes through by default is there with the host's value, where
/// the host has one that is UTF-8; of the names that start with `LC_` the
/// last one of the host counts; there is nothing else, no name is there
/// twice, and nothing is said to come from the command line.
pub proof fn law_baseline_holds(
    home: Seq<u8>,
    path_override: Option<Seq<char>>,
    path_additions: Seq<Seq<char>>,
    host: HostView,
    e: EntryView,
    i: int,
)
    ensures
        ({
            let list = baseline(home, path_override, path_additions, host);
            let locale = e.name.len() >= 3 && e.name[0] == 'L' && e.name[1] == 'C' && e.name[2]
                == '_';
            &&& names_of(list).no_duplicates()
            &&& list.contains(e) ==> e.source == EnvSource::Default
            &&& e.name == "HOME"@ ==> (list.contains(e) <==> e.value == utf8_lossy(home)
                && e.source == EnvSource::Default)
            &&& e.name == "PATH"@ ==> (list.contains(e) <==> e.value == search_path(
                path_additions,
                match path_override {
                    Some(p) => p,
                    None => "/usr/local/sbin:/usr/local/bin:/usr/sbin:/usr/bin:/sbin:/bin"@,
                },
            ) && e.source == EnvSource::Default)
            &&& passthrough_names().contains(e.name) ==> (list.contains(e) <==> host.var_text(
                e.name,
            ) == Some(e.value) && e.source == EnvSource::Default)
            &&& locale && 0 <= i < host.vars.len() && reads_as_locale(host.vars[i], e.name) && (
            forall|j: int|
                i < j < host.vars.len() ==> !reads_as_locale(#[trigger] host.vars[j], e.name))
                ==> (list.contains(e) <==> e.value == decode_utf8(host.vars[i].1) && e.source
                == EnvSource::Default)
            &&& locale && (forall|j: int|
                0 <= j < host.vars.len() ==> !reads_as_locale(#[trigger] host.vars[j], e.name))
                ==> !list.contains(e)
            &&& e.name != "HOME"@ && e.name != "PATH"@ && !passthrough_names().contains(e.name)
                && !locale ==> !list.contains(e)
        }),
{
    let base = match path_override {
        Some(p) => p,
        None => CANONICAL_PATH@,
    };
    let fixed = seq![
        EntryView { name: "HOME"@, value: utf8_lossy(home), source: EnvSource::Default },
        EntryView {
            name: "PATH"@,
            value: search_path(path_additions, base),
            source: EnvSource::Default,
        },
    ];
    let passed = with_passthroughs(fixed, passthrough_names(), host);
    let list = baseline(home, path_override, path_additions, host);
    lemma_fixed_names();
    assert(names_of(fixed).no_duplicates()) by {
        assert(names_of(fixed) =~= seq!["HOME"@, "PATH"@]);
    }
    lemma_passthroughs_hold(fixed, passthrough_names(), host);
    lemma_locale_holds(passed, host.vars);
    assert(list == with_locale(passed, host.vars));
    assert(fixed.contains(e) <==> e == fixed[0] || e == fixed[1]);
    assert(passed.contains(e) == passed.contains(e));
    if e.name == "HOME"@ && e.value == utf8_lossy(home) && e.source == EnvSource::Default {
        assert(e =~= fixed[0]);
    }
    if e.name == "PATH"@ && e.value == fixed[1].value && e.source == EnvSource::Default {
        assert(e =~= fixed[1]);
    }
    if exists|j: int| 0 <= j < host.vars.len() && reads_as_locale(#[trigger] host.vars[j], e.name) {
        let k = lemma_last_locale(host.vars, e.name, host.vars.len() as int);
        assert(reads_as_locale(host.vars[k], e.name));
        assert(list.contains(e) <==> e.value == decode_utf8(host.vars[k].1) && e.source
            == EnvSource::Default);
    } else {
        assert(list.contains(e) <==> passed.contains(e));
    }
}

/// The last of the first `n` variables that reads as `name`.
proof fn lemma_last_locale(vars: Seq<(Seq<u8>, Seq<u8>)>, name: Seq<char>, n: int) -> (k: int)
    requires
        0 <= n <= vars.len(),
        exists|j: int| 0 <= j < n && reads_as_locale(#[trigger] vars[j], name),
    ensures
        0 <= k < n,
        reads_as_locale(vars[k], name),
        forall|j: int| k < j < n ==> !reads_as_locale(#[trigger] vars[j], name),
    decreases n,
{
    if reads_as_locale(vars[n - 1], name) {
        n - 1
    } else {
        lemma_last_locale(vars, name, n - 1)
    }
}

/// Taken apart at the colons, the search path is every added directory, in
/// order and each once, followed by the entries of the base.
pub proof fn law_search_path_entries(adds: Seq<Seq<char>>, base: Seq<char>)
    requires
        forall|i: int| 0 <= i < adds.len() ==> !(#[trigger] adds[i]).contains(':'),
    ensures
        split_at_each(search_path(adds, base), ':') == adds + split_at_each(base, ':'),
    decreases adds.len(),
{
    if adds.len() == 0 {
        assert(adds + split_at_each(base, ':') =~= split_at_each(base, ':'));
    } else {
        let rest = adds.skip(1);
        reveal_strlit(":");
        assert(":"@ =~= seq![':']);
        assert forall|i: int| 0 <= i < rest.len() implies !(#[trigger] rest[i]).contains(':') by {
            assert(rest[i] == adds[i + 1]);
        }
        law_search_path_entries(rest, base);
        lemma_split_first(adds[0], ':', search_path(rest, base));
        assert(seq![adds[0]] + (rest + split_at_each(base, ':')) =~= adds + split_at_each(
            base,
            ':',
        ));
    }
}

// ---------------------------------------------------------------------
// What the command line asks for
// ---------------------------------------------------------------------
/// `VAR` asks for the host's value and `VAR=VALUE` for that value, which
/// may be empty or hold further `=`; a name that is empty or holds NUL is
/// refused, and nothing else is.
pub proof fn law_spec_syntax(name: Seq<char>, value: Seq<char>)
    requires
        !name.contains('='),
    ensures
        name.len() > 0 && !name.contains('\0') ==> {
            &&& parsed_spec(name) == Ok::<EnvSpecView, Seq<char>>(
                EnvSpecView { name, value: None },
            )
            &&& parsed_spec(name + seq!['='] + value) == Ok::<EnvSpecView, Seq<char>>(
                EnvSpecView { name, value: Some(value) },
            )
        },
        name.len() == 0 || name.contains('\0') ==> {
            &&& parsed_spec(name) is Err
            &&& parsed_spec(name + seq!['='] + value) is Err
        },
{
    law_cut_at_the_first(name, '=', value);
}

/// Of what is asked for, the last that names a variable decides about it:
/// with a value, the variable has that value; without one, it has the
/// host's, or is not there where the host has none. It then counts as
/// asked for on the command line. A variable that nothing names stays as
/// it was.
pub proof fn law_last_spec_decides(
    list: Seq<EntryView>,
    specs: Seq<EnvSpecView>,
    host: HostView,
    e: EntryView,
    i: int,
)
    requires
        names_of(list).no_duplicates(),
    ensures
        names_of(applied(list, specs, host)).no_duplicates(),
        (forall|j: int| 0 <= j < specs.len() ==> (#[trigger] specs[j]).name != e.name) ==> (
        applied(list, specs, host).contains(e) <==> list.contains(e)),
        0 <= i < specs.len() && specs[i].name == e.name && (forall|j: int|
            i < j < specs.len() ==> (#[trigger] specs[j]).name != e.name) ==> (applied(
            list,
            specs,
            host,
        ).contains(e) <==> e.source == EnvSource::Cli && (specs[i].value == Some(e.value) || (
        specs[i].value is None && host.var_text(e.name) == Some(e.value)))),
    decreases specs.len(),
{
    if specs.len() > 0 {
        let fewer = specs.drop_last();
        let n = specs.len() - 1;
        let spec = specs[n];
        assert(specs.last() == spec);
        let before = applied(list, fewer, host);
        let after = applied(list, specs, host);
        law_last_spec_decides(list, fewer, host, e, i);
        assert(forall|j: int| 0 <= j < n ==> #[trigger] fewer[j] == specs[j]);
        let value = match spec.value {
            Some(literal) => Some(literal),
            None => host.var_text(spec.name),
        };
        match value {
            Some(value) => {
                let entry = EntryView { name: spec.name, value, source: EnvSource::Cli };
                lemma_upsert_unique(before, entry);
                lemma_upserted_holds(before, entry);
                assert(after.contains(e) <==> e == entry || (before.contains(e) && e.name
                    != entry.name));
                if e.name == entry.name && e.value == entry.value && e.source == EnvSource::Cli {
                    assert(e =~= entry);
                }
            },
            None => {
                lemma_without_unique(before, spec.name);
                lemma_without_holds(before, spec.name, e);
            },
        }
        if forall|j: int| 0 <= j < specs.len() ==> (#[trigger] specs[j]).name != e.name {
            assert(specs[n].name != e.name);
            assert forall|j: int| 0 <= j < fewer.len() implies (#[trigger] fewer[j]).name
                != e.name by {
                assert(fewer[j] == specs[j]);
            }
        }
        if 0 <= i < n && specs[i].name == e.name && (forall|j: int|
            i < j < specs.len() ==> (#[trigger] specs[j]).name != e.name) {
            assert(specs[n].name != e.name);
            assert(fewer[i] == specs[i]);
            assert forall|j: int| i < j < fewer.len() implies (#[trigger] fewer[j]).name
                != e.name by {
                assert(fewer[j] == specs[j]);
            }
        }
    }
}

/// What is left after a removal is what has another name.
proof fn lemma_without_holds(list: Seq<EntryView>, name: Seq<char>, e: EntryView)
    ensures
        without_name(list, name).contains(e) <==> list.contains(e) && e.name != name,
    decreases list.len(),
{
    if list.len() > 0 {
        let rest = list.drop_last();
        let last = list.last();
        lemma_without_holds(rest, name, e);
        let w = without_name(rest, name);
        let all = without_name(list, name);
        if list.contains(e) {
            let k = choose|k: int| 0 <= k < list.len() && list[k] == e;
            if k < rest.len() {
                assert(rest[k] == e);
            }
        }
        if rest.contains(e) {
            let k = choose|k: int| 0 <= k < rest.len() && rest[k] == e;
            assert(list[k] == e);
        }
        assert(list[list.len() - 1] == last);
        if last.name != name {
            assert(all == w.push(last));
            if all.contains(e) {
                let k = choose|k: int| 0 <= k < all.len() && all[k] == e;
                if k < w.len() {
                    assert(w[k] == e);
                }
            }
            if w.contains(e) {
                let k = choose|k: int| 0 <= k < w.len() && w[k] == e;
                assert(all[k] == e);
            }
            assert(all[w.len() as int] == last);
        }
    }
}

/// Each refusal says what is wrong, and quotes what was written; an empty
/// name is complained of before one that holds NUL.
pub proof fn law_refusals_spelled_out(name: Seq<char>, value: Seq<char>)
    requires
        !name.contains('='),
    ensures
        ({
            let literal = name + seq!['='] + value;
            &&& name.len() == 0 ==> {
                &&& parsed_spec(name) == Err::<EnvSpecView, Seq<char>>(
                    "env spec "@ + quoted(name) + " has empty variable name"@,
                )
                &&& parsed_spec(literal) == Err::<EnvSpecView, Seq<char>>(
                    "env spec "@ + quoted(literal) + " has empty variable name"@,
                )
            }
            &&& name.contains('\0') ==> {
                &&& parsed_spec(name) == Err::<EnvSpecView, Seq<char>>(
                    "env spec "@ + quoted(name) + " variable name contains NUL"@,
                )
                &&& parsed_spec(literal) == Err::<EnvSpecView, Seq<char>>(
                    "env spec "@ + quoted(literal) + " variable name contains NUL"@,
                )
            }
        }),
{
    law_cut_at_the_first(name, '=', value);
}

} // verus!
