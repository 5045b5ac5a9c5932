//! The partial configuration model, its merge law, and finalization.
//!
//! A profile document is a [`OptionConfig`]: six fields, every one optional,
//! meaning "not specified by this document" when absent. Documents found
//! along the ancestor chain are merged into an accumulator; the accumulator
//! is then finalized into a [`Config`] by substituting the documented
//! defaults for every still-absent field.
//!
//! The merge law, stated by [`merge_view`]:
//! - an incoming document with `strict = Some(true)` replaces the whole
//!   accumulator, absent fields included;
//! - otherwise each scalar field of the incoming document wins where present,
//!   and a present `settings` mapping is unioned over the accumulated one,
//!   key by key, with the incoming side winning.

use vstd::prelude::*;

use crate::smap::map_of_pairs;
use crate::smap::StringMap;

verus! {

/// The mathematical content of a partial configuration.
#[verifier::ext_equal]
pub ghost struct OptionConfigView {
    pub strict: Option<bool>,
    pub strict_git: Option<bool>,
    pub select_profile_on_first_use: Option<bool>,
    pub show_current_profile: Option<bool>,
    pub interactive: Option<bool>,
    pub config: Option<Map<Seq<char>, Seq<char>>>,
}

/// The mathematical content of a resolved configuration.
#[verifier::ext_equal]
pub ghost struct ConfigView {
    pub strict: bool,
    pub strict_git: bool,
    pub select_profile_on_first_use: bool,
    pub show_current_profile: bool,
    pub interactive: bool,
    pub config: Map<Seq<char>, Seq<char>>,
}

/// A profile document: every field optional, absent meaning "unspecified".
#[derive(Debug)]
pub struct OptionConfig {
    pub strict: Option<bool>,
    pub strict_git: Option<bool>,
    pub select_profile_on_first_use: Option<bool>,
    pub show_current_profile: Option<bool>,
    pub interactive: Option<bool>,
    pub config: Option<StringMap>,
}

/// A fully resolved configuration: every field present.
#[derive(Debug)]
pub struct Config {
    pub strict: bool,
    pub strict_git: bool,
    pub select_profile_on_first_use: bool,
    pub show_current_profile: bool,
    pub interactive: bool,
    pub config: StringMap,
}

impl View for OptionConfig {
    type V = OptionConfigView;

    open spec fn view(&self) -> OptionConfigView {
        OptionConfigView {
            strict: self.strict,
            strict_git: self.strict_git,
            select_profile_on_first_use: self.select_profile_on_first_use,
            show_current_profile: self.show_current_profile,
            interactive: self.interactive,
            config: match self.config {
                Some(c) => Some(c@),
                None => None,
            },
        }
    }
}

impl View for Config {
    type V = ConfigView;

    open spec fn view(&self) -> ConfigView {
        ConfigView {
            strict: self.strict,
            strict_git: self.strict_git,
            select_profile_on_first_use: self.select_profile_on_first_use,
            show_current_profile: self.show_current_profile,
            interactive: self.interactive,
            config: self.config@,
        }
    }
}

impl OptionConfigView {
    /// The accumulator every resolution starts from: all fields absent.
    pub open spec fn absent() -> OptionConfigView {
        OptionConfigView {
            strict: None,
            strict_git: None,
            select_profile_on_first_use: None,
            show_current_profile: None,
            interactive: None,
            config: None,
        }
    }

    /// Whether this document declares itself authoritative.
    pub open spec fn is_strict(self) -> bool {
        self.strict == Some(true)
    }
}

/// The incoming field wins where present; the base is kept otherwise.
pub open spec fn or_else(inc: Option<bool>, base: Option<bool>) -> Option<bool> {
    match inc {
        Some(v) => Some(v),
        None => base,
    }
}

/// The accumulated settings mapping, or empty where none was accumulated.
pub open spec fn settings_or_empty(base: Option<Map<Seq<char>, Seq<char>>>) -> Map<
    Seq<char>,
    Seq<char>,
> {
    match base {
        Some(m) => m,
        None => Map::empty(),
    }
}

/// How a present incoming settings mapping combines with the accumulator.
pub open spec fn merged_settings(
    base: Option<Map<Seq<char>, Seq<char>>>,
    inc: Option<Map<Seq<char>, Seq<char>>>,
) -> Option<Map<Seq<char>, Seq<char>>> {
    match inc {
        Some(m) => Some(settings_or_empty(base).union_prefer_right(m)),
        None => base,
    }
}

/// The merge law combining an accumulator with one incoming document.
pub open spec fn merge_view(base: OptionConfigView, inc: OptionConfigView) -> OptionConfigView {
    if inc.is_strict() {
        inc
    } else {
        OptionConfigView {
            strict: or_else(inc.strict, base.strict),
            strict_git: or_else(inc.strict_git, base.strict_git),
            select_profile_on_first_use: or_else(
                inc.select_profile_on_first_use,
                base.select_profile_on_first_use,
            ),
            show_current_profile: or_else(inc.show_current_profile, base.show_current_profile),
            interactive: or_else(inc.interactive, base.interactive),
            config: merged_settings(base.config, inc.config),
        }
    }
}

/// A scalar field after finalization: its value if present, else the default.
pub open spec fn or_default(o: Option<bool>, d: bool) -> bool {
    match o {
        Some(b) => b,
        None => d,
    }
}

/// The settings mapping substituted when no document ever supplied one.
pub open spec fn default_settings() -> Map<Seq<char>, Seq<char>> {
    map!["user.name"@ => "John Doe"@, "user.email"@ => ""@]
}

/// Finalization: the documented default for every absent field.
pub open spec fn finalize_view(v: OptionConfigView) -> ConfigView {
    ConfigView {
        strict: or_default(v.strict, false),
        strict_git: or_default(v.strict_git, true),
        select_profile_on_first_use: or_default(v.select_profile_on_first_use, false),
        show_current_profile: or_default(v.show_current_profile, true),
        interactive: or_default(v.interactive, false),
        config: match v.config {
            Some(m) => m,
            None => default_settings(),
        },
    }
}

impl Config {
    /// Whether the settings table keeps its keys unique.
    pub open spec fn wf(&self) -> bool {
        self.config.wf()
    }
}

impl OptionConfig {
    /// Whether the settings table, if present, keeps its keys unique.
    pub open spec fn wf(&self) -> bool {
        match self.config {
            Some(c) => c.wf(),
            None => true,
        }
    }

    /// The all-absent document.
    pub fn new() -> (r: OptionConfig)
        ensures
            r.wf(),
            r@ == OptionConfigView::absent(),
    {
        OptionConfig {
            strict: None,
            strict_git: None,
            select_profile_on_first_use: None,
            show_current_profile: None,
            interactive: None,
            config: None,
        }
    }

    /// Finalize the accumulator into a resolved configuration.
    pub fn to_config(&self) -> (r: Config)
        requires
            self.wf(),
        ensures
            r.wf(),
            r@ == finalize_view(self@),
    {
        let config = match &self.config {
            Some(c) => c.duplicate(),
            None => {
                let mut d = StringMap::new();
                d.insert(String::from_str("user.name"), String::from_str("John Doe"));
                d.insert(String::from_str("user.email"), String::from_str(""));
                proof {
                    assert(d@ =~= default_settings());
                }
                d
            },
        };
        Config {
            strict: match self.strict {
                Some(b) => b,
                None => false,
            },
            strict_git: match self.strict_git {
                Some(b) => b,
                None => true,
            },
            select_profile_on_first_use: match self.select_profile_on_first_use {
                Some(b) => b,
                None => false,
            },
            show_current_profile: match self.show_current_profile {
                Some(b) => b,
                None => true,
            },
            interactive: match self.interactive {
                Some(b) => b,
                None => false,
            },
            config,
        }
    }

    /// Merge one incoming document into this accumulator.
    pub fn merge(&mut self, other: &OptionConfig)
        requires
            old(self).wf(),
            other.wf(),
        ensures
            final(self).wf(),
            final(self)@ == merge_view(old(self)@, other@),
    {
        let strict_reset = match other.strict {
            Some(true) => true,
            _ => false,
        };
        if strict_reset {
            self.strict = other.strict;
            self.strict_git = other.strict_git;
            self.select_profile_on_first_use = other.select_profile_on_first_use;
            self.show_current_profile = other.show_current_profile;
            self.interactive = other.interactive;
            self.config = match &other.config {
                Some(c) => Some(c.duplicate()),
                None => None,
            };
        } else {
            if let Some(v) = other.strict {
                self.strict = Some(v);
            }
            if let Some(v) = other.strict_git {
                self.strict_git = Some(v);
            }
            if let Some(v) = other.select_profile_on_first_use {
                self.select_profile_on_first_use = Some(v);
            }
            if let Some(v) = other.show_current_profile {
                self.show_current_profile = Some(v);
            }
            if let Some(v) = other.interactive {
                self.interactive = Some(v);
            }
            if let Some(other_config) = &other.config {
                let ghost base = settings_or_empty(old(self)@.config);
                let ghost inc = other_config.pairs();
                let mut merged = match &self.config {
                    Some(c) => c.duplicate(),
                    None => StringMap::new(),
                };
                let n = other_config.entries.len();
                let mut i: usize = 0;
                while i < n
                    invariant
                        merged.wf(),
                        other_config.wf(),
                        inc == other_config.pairs(),
                        n == other_config.entries.len(),
                        n == inc.len(),
                        i <= n,
                        merged@ == base.union_prefer_right(map_of_pairs(inc.take(i as int))),
                    decreases n - i,
                {
                    let key = other_config.entries[i].key.clone();
                    let value = other_config.entries[i].value.clone();
                    proof {
                        assert(inc[i as int] == (
                            other_config.entries@[i as int].key@,
                            other_config.entries@[i as int].value@,
                        ));
                        lemma_union_insert(base, map_of_pairs(inc.take(i as int)), key@, value@);
                        assert(inc.take(i as int).push(inc[i as int]) =~= inc.take(i as int + 1));
                        crate::smap::lemma_map_of_pairs_push(
                            inc.take(i as int),
                            inc[i as int].0,
                            inc[i as int].1,
                        );
                    }
                    merged.insert(key, value);
                    i += 1;
                }
                proof {
                    assert(inc.take(n as int) =~= inc);
                }
                self.config = Some(merged);
            }
        }
        proof {
            if strict_reset {
                if other.config is Some {
                    assert(self@.config == Some(other.config->0@));
                }
                assert(self@ =~= other@);
            } else {
                if other.config is None && old(self)@.config is Some {
                    assert(self@.config == old(self)@.config);
                }
                assert(self@ =~= merge_view(old(self)@, other@));
            }
        }
    }
}

/// Whether two optional scalar fields hold the same value.
fn same_opt_bool(a: Option<bool>, b: Option<bool>) -> (r: bool)
    ensures
        r == (a == b),
{
    match (a, b) {
        (None, None) => true,
        (Some(x), Some(y)) => x == y,
        _ => false,
    }
}

impl PartialEq for OptionConfig {
    fn eq(&self, other: &OptionConfig) -> (r: bool) {
        let scalars = same_opt_bool(self.strict, other.strict) && same_opt_bool(
            self.strict_git,
            other.strict_git,
        ) && same_opt_bool(self.select_profile_on_first_use, other.select_profile_on_first_use)
            && same_opt_bool(self.show_current_profile, other.show_current_profile)
            && same_opt_bool(self.interactive, other.interactive);
        let settings = match (&self.config, &other.config) {
            (None, None) => true,
            (Some(a), Some(b)) => a == b,
            _ => false,
        };
        scalars && settings
    }
}

impl vstd::std_specs::cmp::PartialEqSpecImpl for OptionConfig {
    open spec fn obeys_eq_spec() -> bool {
        true
    }

    open spec fn eq_spec(&self, other: &OptionConfig) -> bool {
        &&& self.strict == other.strict
        &&& self.strict_git == other.strict_git
        &&& self.select_profile_on_first_use == other.select_profile_on_first_use
        &&& self.show_current_profile == other.show_current_profile
        &&& self.interactive == other.interactive
        &&& match (self.config, other.config) {
            (None, None) => true,
            (Some(a), Some(b)) => a.pairs() == b.pairs(),
            _ => false,
        }
    }
}

impl PartialEq for Config {
    fn eq(&self, other: &Config) -> (r: bool) {
        self.strict == other.strict && self.strict_git == other.strict_git
            && self.select_profile_on_first_use == other.select_profile_on_first_use
            && self.show_current_profile == other.show_current_profile && self.interactive
            == other.interactive && self.config == other.config
    }
}

impl vstd::std_specs::cmp::PartialEqSpecImpl for Config {
    open spec fn obeys_eq_spec() -> bool {
        true
    }

    open spec fn eq_spec(&self, other: &Config) -> bool {
        &&& self.strict == other.strict
        &&& self.strict_git == other.strict_git
        &&& self.select_profile_on_first_use == other.select_profile_on_first_use
        &&& self.show_current_profile == other.show_current_profile
        &&& self.interactive == other.interactive
        &&& self.config.pairs() == other.config.pairs()
    }
}

/// The accumulator after merging a sequence of documents, oldest first.
pub open spec fn merge_all(init: OptionConfigView, docs: Seq<OptionConfigView>) -> OptionConfigView
    decreases docs.len(),
{
    if docs.len() == 0 {
        init
    } else {
        merge_view(merge_all(init, docs.drop_last()), docs.last())
    }
}

/// Merging the all-absent accumulator with any document yields that document.
pub proof fn lemma_merge_absent_identity(p: OptionConfigView)
    ensures
        merge_view(OptionConfigView::absent(), p) == p,
{
    if !p.is_strict() {
        match p.config {
            Some(m) => {
                assert(Map::<Seq<char>, Seq<char>>::empty().union_prefer_right(m) =~= m);
            },
            None => {},
        }
        assert(merge_view(OptionConfigView::absent(), p) =~= p);
    }
}

/// A strict incoming document discards the whole accumulator: the result is
/// the strict document itself, absent fields and settings included.
pub proof fn lemma_strict_resets(base: OptionConfigView, d: OptionConfigView)
    requires
        d.is_strict(),
    ensures
        merge_view(base, d) == d,
        merge_view(base, d).config == d.config,
{
}

/// After any sequence of merges ending in a non-strict document, every field
/// present in that last document wins over the same field of any earlier
/// document or of the initial accumulator; so does every settings key it
/// carries.
pub proof fn lemma_latest_document_wins(
    init: OptionConfigView,
    docs: Seq<OptionConfigView>,
    d: OptionConfigView,
)
    requires
        !d.is_strict(),
    ensures
        d.strict is Some ==> merge_all(init, docs.push(d)).strict == d.strict,
        d.strict_git is Some ==> merge_all(init, docs.push(d)).strict_git == d.strict_git,
        d.select_profile_on_first_use is Some ==> merge_all(
            init,
            docs.push(d),
        ).select_profile_on_first_use == d.select_profile_on_first_use,
        d.show_current_profile is Some ==> merge_all(init, docs.push(d)).show_current_profile
            == d.show_current_profile,
        d.interactive is Some ==> merge_all(init, docs.push(d)).interactive == d.interactive,
        d.config is Some ==> merge_all(init, docs.push(d)).config is Some,
        d.config is Some ==> forall|k: Seq<char>| #[trigger]
            d.config->0.dom().contains(k) ==> merge_all(init, docs.push(d)).config->0.dom().contains(
                k,
            ) && merge_all(init, docs.push(d)).config->0[k] == d.config->0[k],
{
    assert(docs.push(d).drop_last() =~= docs);
    assert(docs.push(d).last() == d);
    assert(merge_all(init, docs.push(d)) == merge_view(merge_all(init, docs), d));
}

/// A non-strict `settings` merge is a non-destructive union: accumulated keys
/// survive, incoming keys win where both sides carry one.
pub proof fn lemma_settings_nondestructive_union(base: OptionConfigView, d: OptionConfigView)
    requires
        !d.is_strict(),
        d.config is Some,
    ensures
        merge_view(base, d).config is Some,
        merge_view(base, d).config->0.dom() =~= settings_or_empty(base.config).dom().union(
            d.config->0.dom(),
        ),
        forall|k: Seq<char>| #[trigger]
            d.config->0.dom().contains(k) ==> merge_view(base, d).config->0[k] == d.config->0[k],
        forall|k: Seq<char>| #[trigger]
            settings_or_empty(base.config).dom().contains(k) && !d.config->0.dom().contains(k)
                ==> merge_view(base, d).config->0[k] == settings_or_empty(base.config)[k],
{
}

/// Finalizing the all-absent accumulator yields the documented defaults.
pub proof fn lemma_finalize_absent()
    ensures
        finalize_view(OptionConfigView::absent()) == (ConfigView {
            strict: false,
            strict_git: true,
            select_profile_on_first_use: false,
            show_current_profile: true,
            interactive: false,
            config: map!["user.name"@ => "John Doe"@, "user.email"@ => ""@],
        }),
{
}

/// Inserting into the right-hand side of a union shows through the union.
proof fn lemma_union_insert(
    b: Map<Seq<char>, Seq<char>>,
    m: Map<Seq<char>, Seq<char>>,
    k: Seq<char>,
    v: Seq<char>,
)
    ensures
        b.union_prefer_right(m).insert(k, v) == b.union_prefer_right(m.insert(k, v)),
{
    assert(b.union_prefer_right(m).insert(k, v) =~= b.union_prefer_right(m.insert(k, v)));
}

} // verus!
