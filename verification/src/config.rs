//! Behavior configuration: the base policy, partial overrides, and the
//! layered resolution of effective values.
//!
//! A [`MainBehavior`] is the full policy. A [`BehaviorOverride`] leaves any
//! field unset; overrides chain through [`BehaviorOverrideValueResolver`],
//! each layer asking the layer above it (the more specific one) first and
//! using its own value only when the layers above leave the field unset.
//! [`BehaviorValueResolver`] closes a chain over the base policy, so every
//! field always resolves to some value.
//!
//! Reply probabilities are integer percentages: a draw `r` in `[0, 99]`
//! succeeds when `r` is strictly greater than the configured rate, so the
//! stored rate is the floor of the configured percentage.

use vstd::prelude::*;

use crate::pattern::{all_compile, compile_all, compiled_views, compile_diagnostic, first_uncompilable, texts_unchanged, CompilationError, Pattern, PatternV};
use crate::text::str_eq;

verus! {

/// The base behavior policy: always fully populated.
pub struct MainBehavior {
    pub speaking: bool,
    pub learning: bool,
    pub reply_rate: u32,
    pub reply_nick: u32,
    pub reply_magic: u32,
    pub nick_patterns: Vec<Pattern>,
    pub magic_patterns: Vec<Pattern>,
    pub blacklisted_patterns: Vec<Pattern>,
    pub ignored_users: Vec<Pattern>,
}

/// A partial behavior policy: every field may be left unset, falling
/// through to the next layer down.
pub struct BehaviorOverride {
    pub speaking: Option<bool>,
    pub learning: Option<bool>,
    pub reply_rate: Option<u32>,
    pub reply_nick: Option<u32>,
    pub reply_magic: Option<u32>,
    pub nick_patterns: Option<Vec<Pattern>>,
    pub magic_patterns: Option<Vec<Pattern>>,
    pub blacklisted_patterns: Option<Vec<Pattern>>,
    pub ignored_users: Option<Vec<Pattern>>,
}

/// A behavior override bound to one chat, matched by exact chat id.
pub struct ChatBehaviorOverrides {
    pub chat_id: String,
    pub behavior: BehaviorOverride,
}

/// What contracts see of a (possibly partial) behavior layer: each field
/// either set to a value or unset.
pub struct BehaviorOverrideV {
    pub speaking: Option<bool>,
    pub learning: Option<bool>,
    pub reply_rate: Option<u32>,
    pub reply_nick: Option<u32>,
    pub reply_magic: Option<u32>,
    pub nick_patterns: Option<Seq<PatternV>>,
    pub magic_patterns: Option<Seq<PatternV>>,
    pub blacklisted_patterns: Option<Seq<PatternV>>,
    pub ignored_users: Option<Seq<PatternV>>,
}

/// The view of a single override layer.
pub open spec fn override_view(b: BehaviorOverride) -> BehaviorOverrideV {
    BehaviorOverrideV {
        speaking: b.speaking,
        learning: b.learning,
        reply_rate: b.reply_rate,
        reply_nick: b.reply_nick,
        reply_magic: b.reply_magic,
        nick_patterns: match b.nick_patterns {
            Some(v) => Some(v.deep_view()),
            None => None,
        },
        magic_patterns: match b.magic_patterns {
            Some(v) => Some(v.deep_view()),
            None => None,
        },
        blacklisted_patterns: match b.blacklisted_patterns {
            Some(v) => Some(v.deep_view()),
            None => None,
        },
        ignored_users: match b.ignored_users {
            Some(v) => Some(v.deep_view()),
            None => None,
        },
    }
}

/// Layers `upper` (the more specific layer) over `lower`: each field takes
/// the first set value.
pub open spec fn layer_over(upper: BehaviorOverrideV, lower: BehaviorOverrideV) -> BehaviorOverrideV {
    BehaviorOverrideV {
        speaking: if upper.speaking is Some {
            upper.speaking
        } else {
            lower.speaking
        },
        learning: if upper.learning is Some {
            upper.learning
        } else {
            lower.learning
        },
        reply_rate: if upper.reply_rate is Some {
            upper.reply_rate
        } else {
            lower.reply_rate
        },
        reply_nick: if upper.reply_nick is Some {
            upper.reply_nick
        } else {
            lower.reply_nick
        },
        reply_magic: if upper.reply_magic is Some {
            upper.reply_magic
        } else {
            lower.reply_magic
        },
        nick_patterns: if upper.nick_patterns is Some {
            upper.nick_patterns
        } else {
            lower.nick_patterns
        },
        magic_patterns: if upper.magic_patterns is Some {
            upper.magic_patterns
        } else {
            lower.magic_patterns
        },
        blacklisted_patterns: if upper.blacklisted_patterns is Some {
            upper.blacklisted_patterns
        } else {
            lower.blacklisted_patterns
        },
        ignored_users: if upper.ignored_users is Some {
            upper.ignored_users
        } else {
            lower.ignored_users
        },
    }
}

/// A chain of behavior overrides, the more specific layers wrapped inside;
/// exposes, per field, the first set value walking the chain from the most
/// specific layer down.
pub struct BehaviorOverrideValueResolver {
    behavior: BehaviorOverride,
    override_: Option<Box<BehaviorOverrideValueResolver>>,
}

impl BehaviorOverrideValueResolver {
    /// The chain folded into one partial layer: for each field, the first
    /// set value, or unset if no layer sets it.
    pub closed spec fn resolved(&self) -> BehaviorOverrideV
        decreases self,
    {
        match self.override_ {
            Some(o) => layer_over(o.resolved(), override_view(self.behavior)),
            None => override_view(self.behavior),
        }
    }

    /// Whether every field of every layer in the chain is unset.
    pub closed spec fn spec_all_unset(&self) -> bool
        decreases self,
    {
        &&& self.behavior.speaking is None
        &&& self.behavior.learning is None
        &&& self.behavior.reply_rate is None
        &&& self.behavior.reply_nick is None
        &&& self.behavior.reply_magic is None
        &&& self.behavior.nick_patterns is None
        &&& self.behavior.magic_patterns is None
        &&& self.behavior.blacklisted_patterns is None
        &&& self.behavior.ignored_users is None
        &&& (self.override_ matches Some(o) ==> o.spec_all_unset())
    }

    /// A fully unset chain resolves every field to unset.
    pub proof fn lemma_all_unset_resolves_unset(&self)
        requires
            self.spec_all_unset(),
        ensures
            self.resolved().speaking is None,
            self.resolved().learning is None,
            self.resolved().reply_rate is None,
            self.resolved().reply_nick is None,
            self.resolved().reply_magic is None,
            self.resolved().nick_patterns is None,
            self.resolved().magic_patterns is None,
            self.resolved().blacklisted_patterns is None,
            self.resolved().ignored_users is None,
        decreases self,
    {
        match self.override_ {
            Some(o) => o.lemma_all_unset_resolves_unset(),
            None => {},
        }
    }

    /// Wraps `behavior` as a new layer below the (more specific) chain
    /// `override_`.
    pub fn new(
        behavior: BehaviorOverride,
        override_: Option<Box<BehaviorOverrideValueResolver>>,
    ) -> (r: BehaviorOverrideValueResolver)
        ensures
            override_ matches Some(o) ==> r.resolved() == layer_over(
                o.resolved(),
                override_view(behavior),
            ),
            override_ is None ==> r.resolved() == override_view(behavior),
    {
        BehaviorOverrideValueResolver { behavior, override_ }
    }

    /// The effective `speaking` override, if any layer sets it.
    pub fn is_speaking(&self) -> (r: Option<bool>)
        ensures
            r == self.resolved().speaking,
        decreases *self,
    {
        match &self.override_ {
            Some(o) => match o.is_speaking() {
                Some(v) => Some(v),
                None => self.behavior.speaking,
            },
            None => self.behavior.speaking,
        }
    }

    /// The effective `learning` override, if any layer sets it.
    pub fn is_learning(&self) -> (r: Option<bool>)
        ensures
            r == self.resolved().learning,
        decreases *self,
    {
        match &self.override_ {
            Some(o) => match o.is_learning() {
                Some(v) => Some(v),
                None => self.behavior.learning,
            },
            None => self.behavior.learning,
        }
    }

    /// The effective reply rate override, if any layer sets it.
    pub fn reply_rate(&self) -> (r: Option<u32>)
        ensures
            r == self.resolved().reply_rate,
        decreases *self,
    {
        match &self.override_ {
            Some(o) => match o.reply_rate() {
                Some(v) => Some(v),
                None => self.behavior.reply_rate,
            },
            None => self.behavior.reply_rate,
        }
    }

    /// The effective nickname reply chance override, if any layer sets it.
    pub fn reply_nick(&self) -> (r: Option<u32>)
        ensures
            r == self.resolved().reply_nick,
        decreases *self,
    {
        match &self.override_ {
            Some(o) => match o.reply_nick() {
                Some(v) => Some(v),
                None => self.behavior.reply_nick,
            },
            None => self.behavior.reply_nick,
        }
    }

    /// The effective magic-word reply chance override, if any layer sets it.
    pub fn reply_magic(&self) -> (r: Option<u32>)
        ensures
            r == self.resolved().reply_magic,
        decreases *self,
    {
        match &self.override_ {
            Some(o) => match o.reply_magic() {
                Some(v) => Some(v),
                None => self.behavior.reply_magic,
            },
            None => self.behavior.reply_magic,
        }
    }

    /// The effective nickname pattern list override, if any layer sets it.
    pub fn nick_patterns(&self) -> (r: Option<&Vec<Pattern>>)
        ensures
            r is Some <==> self.resolved().nick_patterns is Some,
            r matches Some(v) ==> Some(v.deep_view()) == self.resolved().nick_patterns,
        decreases *self,
    {
        match &self.override_ {
            Some(o) => match o.nick_patterns() {
                Some(v) => Some(v),
                None => self.behavior.nick_patterns.as_ref(),
            },
            None => self.behavior.nick_patterns.as_ref(),
        }
    }

    /// The effective magic-word pattern list override, if any layer sets it.
    pub fn magic_patterns(&self) -> (r: Option<&Vec<Pattern>>)
        ensures
            r is Some <==> self.resolved().magic_patterns is Some,
            r matches Some(v) ==> Some(v.deep_view()) == self.resolved().magic_patterns,
        decreases *self,
    {
        match &self.override_ {
            Some(o) => match o.magic_patterns() {
                Some(v) => Some(v),
                None => self.behavior.magic_patterns.as_ref(),
            },
            None => self.behavior.magic_patterns.as_ref(),
        }
    }

    /// The effective blacklist pattern list override, if any layer sets it.
    pub fn blacklisted_patterns(&self) -> (r: Option<&Vec<Pattern>>)
        ensures
            r is Some <==> self.resolved().blacklisted_patterns is Some,
            r matches Some(v) ==> Some(v.deep_view()) == self.resolved().blacklisted_patterns,
        decreases *self,
    {
        match &self.override_ {
            Some(o) => match o.blacklisted_patterns() {
                Some(v) => Some(v),
                None => self.behavior.blacklisted_patterns.as_ref(),
            },
            None => self.behavior.blacklisted_patterns.as_ref(),
        }
    }

    /// The effective ignored-user pattern list override, if any layer sets
    /// it.
    pub fn ignored_users(&self) -> (r: Option<&Vec<Pattern>>)
        ensures
            r is Some <==> self.resolved().ignored_users is Some,
            r matches Some(v) ==> Some(v.deep_view()) == self.resolved().ignored_users,
        decreases *self,
    {
        match &self.override_ {
            Some(o) => match o.ignored_users() {
                Some(v) => Some(v),
                None => self.behavior.ignored_users.as_ref(),
            },
            None => self.behavior.ignored_users.as_ref(),
        }
    }
}

/// The effective `speaking` value for a base policy under an optional
/// override chain.
pub open spec fn effective_speaking(base: MainBehavior, chain: Option<
    BehaviorOverrideValueResolver,
>) -> bool {
    match chain {
        Some(o) => match o.resolved().speaking {
            Some(v) => v,
            None => base.speaking,
        },
        None => base.speaking,
    }
}

/// The effective `learning` value.
pub open spec fn effective_learning(base: MainBehavior, chain: Option<
    BehaviorOverrideValueResolver,
>) -> bool {
    match chain {
        Some(o) => match o.resolved().learning {
            Some(v) => v,
            None => base.learning,
        },
        None => base.learning,
    }
}

/// The effective reply rate.
pub open spec fn effective_reply_rate(base: MainBehavior, chain: Option<
    BehaviorOverrideValueResolver,
>) -> u32 {
    match chain {
        Some(o) => match o.resolved().reply_rate {
            Some(v) => v,
            None => base.reply_rate,
        },
        None => base.reply_rate,
    }
}

/// The effective nickname reply chance.
pub open spec fn effective_reply_nick(base: MainBehavior, chain: Option<
    BehaviorOverrideValueResolver,
>) -> u32 {
    match chain {
        Some(o) => match o.resolved().reply_nick {
            Some(v) => v,
            None => base.reply_nick,
        },
        None => base.reply_nick,
    }
}

/// The effective magic-word reply chance.
pub open spec fn effective_reply_magic(base: MainBehavior, chain: Option<
    BehaviorOverrideValueResolver,
>) -> u32 {
    match chain {
        Some(o) => match o.resolved().reply_magic {
            Some(v) => v,
            None => base.reply_magic,
        },
        None => base.reply_magic,
    }
}

/// The effective nickname pattern list.
pub open spec fn effective_nick_patterns(base: MainBehavior, chain: Option<
    BehaviorOverrideValueResolver,
>) -> Seq<PatternV> {
    match chain {
        Some(o) => match o.resolved().nick_patterns {
            Some(v) => v,
            None => base.nick_patterns.deep_view(),
        },
        None => base.nick_patterns.deep_view(),
    }
}

/// The effective magic-word pattern list.
pub open spec fn effective_magic_patterns(base: MainBehavior, chain: Option<
    BehaviorOverrideValueResolver,
>) -> Seq<PatternV> {
    match chain {
        Some(o) => match o.resolved().magic_patterns {
            Some(v) => v,
            None => base.magic_patterns.deep_view(),
        },
        None => base.magic_patterns.deep_view(),
    }
}

/// The effective blacklist pattern list.
pub open spec fn effective_blacklisted_patterns(base: MainBehavior, chain: Option<
    BehaviorOverrideValueResolver,
>) -> Seq<PatternV> {
    match chain {
        Some(o) => match o.resolved().blacklisted_patterns {
            Some(v) => v,
            None => base.blacklisted_patterns.deep_view(),
        },
        None => base.blacklisted_patterns.deep_view(),
    }
}

/// The effective ignored-user pattern list.
pub open spec fn effective_ignored_users(base: MainBehavior, chain: Option<
    BehaviorOverrideValueResolver,
>) -> Seq<PatternV> {
    match chain {
        Some(o) => match o.resolved().ignored_users {
            Some(v) => v,
            None => base.ignored_users.deep_view(),
        },
        None => base.ignored_users.deep_view(),
    }
}

/// An override chain whose every field is unset at every layer resolves to
/// exactly the base policy's values, for all nine configurable fields.
pub proof fn lemma_override_fallback_chain(
    base: MainBehavior,
    chain: Option<BehaviorOverrideValueResolver>,
)
    requires
        chain matches Some(o) ==> o.spec_all_unset(),
    ensures
        effective_speaking(base, chain) == base.speaking,
        effective_learning(base, chain) == base.learning,
        effective_reply_rate(base, chain) == base.reply_rate,
        effective_reply_nick(base, chain) == base.reply_nick,
        effective_reply_magic(base, chain) == base.reply_magic,
        effective_nick_patterns(base, chain) == base.nick_patterns.deep_view(),
        effective_magic_patterns(base, chain) == base.magic_patterns.deep_view(),
        effective_blacklisted_patterns(base, chain) == base.blacklisted_patterns.deep_view(),
        effective_ignored_users(base, chain) == base.ignored_users.deep_view(),
{
    match chain {
        Some(o) => o.lemma_all_unset_resolves_unset(),
        None => {},
    }
}

/// Resolves each behavior value against a base policy, consulting an
/// optional override chain first.
pub struct BehaviorValueResolver<'a> {
    behavior: &'a MainBehavior,
    override_: Option<&'a BehaviorOverrideValueResolver>,
}

impl<'a> BehaviorValueResolver<'a> {
    /// The base policy this resolver falls back to.
    pub closed spec fn spec_base(&self) -> MainBehavior {
        *self.behavior
    }

    /// The override chain this resolver consults first.
    pub closed spec fn spec_chain(&self) -> Option<BehaviorOverrideValueResolver> {
        match self.override_ {
            Some(o) => Some(*o),
            None => None,
        }
    }

    /// Binds a base policy and an optional override chain.
    pub fn new(
        behavior: &'a MainBehavior,
        override_: Option<&'a BehaviorOverrideValueResolver>,
    ) -> (r: BehaviorValueResolver<'a>)
        ensures
            r.spec_base() == *behavior,
            override_ matches Some(o) ==> r.spec_chain() == Some(*o),
            override_ is None ==> r.spec_chain() is None,
    {
        BehaviorValueResolver { behavior, override_ }
    }

    /// The effective `speaking` value.
    pub fn is_speaking(&self) -> (r: bool)
        ensures
            r == effective_speaking(self.spec_base(), self.spec_chain()),
    {
        match &self.override_ {
            Some(o) => match o.is_speaking() {
                Some(v) => v,
                None => self.behavior.speaking,
            },
            None => self.behavior.speaking,
        }
    }

    /// The effective `learning` value.
    pub fn is_learning(&self) -> (r: bool)
        ensures
            r == effective_learning(self.spec_base(), self.spec_chain()),
    {
        match &self.override_ {
            Some(o) => match o.is_learning() {
                Some(v) => v,
                None => self.behavior.learning,
            },
            None => self.behavior.learning,
        }
    }

    /// The effective reply rate.
    pub fn reply_rate(&self) -> (r: u32)
        ensures
            r == effective_reply_rate(self.spec_base(), self.spec_chain()),
    {
        match &self.override_ {
            Some(o) => match o.reply_rate() {
                Some(v) => v,
                None => self.behavior.reply_rate,
            },
            None => self.behavior.reply_rate,
        }
    }

    /// The effective nickname reply chance.
    pub fn reply_nick(&self) -> (r: u32)
        ensures
            r == effective_reply_nick(self.spec_base(), self.spec_chain()),
    {
        match &self.override_ {
            Some(o) => match o.reply_nick() {
                Some(v) => v,
                None => self.behavior.reply_nick,
            },
            None => self.behavior.reply_nick,
        }
    }

    /// The effective magic-word reply chance.
    pub fn reply_magic(&self) -> (r: u32)
        ensures
            r == effective_reply_magic(self.spec_base(), self.spec_chain()),
    {
        match &self.override_ {
            Some(o) => match o.reply_magic() {
                Some(v) => v,
                None => self.behavior.reply_magic,
            },
            None => self.behavior.reply_magic,
        }
    }

    /// The effective nickname pattern list.
    pub fn nick_patterns(&self) -> (r: &Vec<Pattern>)
        ensures
            r.deep_view() == effective_nick_patterns(self.spec_base(), self.spec_chain()),
    {
        match &self.override_ {
            Some(o) => match o.nick_patterns() {
                Some(v) => v,
                None => &self.behavior.nick_patterns,
            },
            None => &self.behavior.nick_patterns,
        }
    }

    /// The effective magic-word pattern list.
    pub fn magic_patterns(&self) -> (r: &Vec<Pattern>)
        ensures
            r.deep_view() == effective_magic_patterns(self.spec_base(), self.spec_chain()),
    {
        match &self.override_ {
            Some(o) => match o.magic_patterns() {
                Some(v) => v,
                None => &self.behavior.magic_patterns,
            },
            None => &self.behavior.magic_patterns,
        }
    }

    /// The effective blacklist pattern list.
    pub fn blacklisted_patterns(&self) -> (r: &Vec<Pattern>)
        ensures
            r.deep_view() == effective_blacklisted_patterns(self.spec_base(), self.spec_chain()),
    {
        match &self.override_ {
            Some(o) => match o.blacklisted_patterns() {
                Some(v) => v,
                None => &self.behavior.blacklisted_patterns,
            },
            None => &self.behavior.blacklisted_patterns,
        }
    }

    /// The effective ignored-user pattern list.
    pub fn ignored_users(&self) -> (r: &Vec<Pattern>)
        ensures
            r.deep_view() == effective_ignored_users(self.spec_base(), self.spec_chain()),
    {
        match &self.override_ {
            Some(o) => match o.ignored_users() {
                Some(v) => v,
                None => &self.behavior.ignored_users,
            },
            None => &self.behavior.ignored_users,
        }
    }
}

impl MainBehavior {
    /// Compiles every pattern of every list eagerly, so that later matching
    /// never meets an uncompiled pattern; succeeds exactly when the engine
    /// accepts every pattern text, and a failure is the first failing
    /// pattern's, carrying the engine's diagnostic for its text. All texts
    /// and non-pattern fields are left unchanged; on failure,
    /// already-compiled patterns stay compiled.
    pub fn compile_patterns(&mut self) -> (r: Result<(), CompilationError>)
        ensures
            r is Ok <==> {
                &&& all_compile(old(self).magic_patterns.deep_view())
                &&& all_compile(old(self).blacklisted_patterns.deep_view())
                &&& all_compile(old(self).nick_patterns.deep_view())
                &&& all_compile(old(self).ignored_users.deep_view())
            },
            r is Ok ==> {
                &&& final(self).magic_patterns.deep_view() == compiled_views(
                    old(self).magic_patterns.deep_view(),
                )
                &&& final(self).blacklisted_patterns.deep_view() == compiled_views(
                    old(self).blacklisted_patterns.deep_view(),
                )
                &&& final(self).nick_patterns.deep_view() == compiled_views(
                    old(self).nick_patterns.deep_view(),
                )
                &&& final(self).ignored_users.deep_view() == compiled_views(
                    old(self).ignored_users.deep_view(),
                )
            },
            final(self).speaking == old(self).speaking,
            final(self).learning == old(self).learning,
            final(self).reply_rate == old(self).reply_rate,
            final(self).reply_nick == old(self).reply_nick,
            final(self).reply_magic == old(self).reply_magic,
            texts_unchanged(old(self).magic_patterns.deep_view(), final(self).magic_patterns.deep_view()),
            texts_unchanged(
                old(self).blacklisted_patterns.deep_view(),
                final(self).blacklisted_patterns.deep_view(),
            ),
            texts_unchanged(old(self).nick_patterns.deep_view(), final(self).nick_patterns.deep_view()),
            texts_unchanged(old(self).ignored_users.deep_view(), final(self).ignored_users.deep_view()),
            r matches Err(e) ==> (!all_compile(old(self).magic_patterns.deep_view()) ==> (
            first_uncompilable(old(self).magic_patterns.deep_view()) matches Some(j)
                && e@ == compile_diagnostic(old(self).magic_patterns.deep_view()[j].text))),
            r matches Err(e) ==> (all_compile(old(self).magic_patterns.deep_view())
                && !all_compile(old(self).blacklisted_patterns.deep_view()) ==> (
            first_uncompilable(old(self).blacklisted_patterns.deep_view()) matches Some(j)
                && e@ == compile_diagnostic(old(self).blacklisted_patterns.deep_view()[j].text))),
            r matches Err(e) ==> (all_compile(old(self).magic_patterns.deep_view())
                && all_compile(old(self).blacklisted_patterns.deep_view())
                && !all_compile(old(self).nick_patterns.deep_view()) ==> (
            first_uncompilable(old(self).nick_patterns.deep_view()) matches Some(j)
                && e@ == compile_diagnostic(old(self).nick_patterns.deep_view()[j].text))),
            r matches Err(e) ==> (all_compile(old(self).magic_patterns.deep_view())
                && all_compile(old(self).blacklisted_patterns.deep_view())
                && all_compile(old(self).nick_patterns.deep_view()) ==> (
            first_uncompilable(old(self).ignored_users.deep_view()) matches Some(j)
                && e@ == compile_diagnostic(old(self).ignored_users.deep_view()[j].text))),
    {
        match compile_all(&mut self.magic_patterns) {
            Ok(()) => {},
            Err(e) => {
                return Err(e);
            },
        }
        match compile_all(&mut self.blacklisted_patterns) {
            Ok(()) => {},
            Err(e) => {
                return Err(e);
            },
        }
        match compile_all(&mut self.nick_patterns) {
            Ok(()) => {},
            Err(e) => {
                return Err(e);
            },
        }
        match compile_all(&mut self.ignored_users) {
            Ok(()) => {},
            Err(e) => {
                return Err(e);
            },
        }
        Ok(())
    }
}

/// Every pattern of the magic list, if the override sets one, compiles.
pub open spec fn magic_ok(b: BehaviorOverride) -> bool {
    b.magic_patterns matches Some(v) ==> all_compile(v.deep_view())
}

/// Every pattern of the blacklist, if the override sets one, compiles.
pub open spec fn blacklisted_ok(b: BehaviorOverride) -> bool {
    b.blacklisted_patterns matches Some(v) ==> all_compile(v.deep_view())
}

/// Every pattern of the nickname list, if the override sets one, compiles.
pub open spec fn nick_ok(b: BehaviorOverride) -> bool {
    b.nick_patterns matches Some(v) ==> all_compile(v.deep_view())
}

impl BehaviorOverride {
    /// Compiles every pattern of every list that this override sets, as
    /// [`MainBehavior::compile_patterns`] does for the base policy: absent
    /// lists are skipped and left absent, and a failure is the first
    /// failing pattern's, carrying the engine's diagnostic for its text.
    pub fn compile_patterns(&mut self) -> (r: Result<(), CompilationError>)
        ensures
            r is Ok <==> {
                &&& (old(self).magic_patterns matches Some(v) ==> all_compile(v.deep_view()))
                &&& (old(self).blacklisted_patterns matches Some(v) ==> all_compile(v.deep_view()))
                &&& (old(self).nick_patterns matches Some(v) ==> all_compile(v.deep_view()))
                &&& (old(self).ignored_users matches Some(v) ==> all_compile(v.deep_view()))
            },
            final(self).speaking == old(self).speaking,
            final(self).learning == old(self).learning,
            final(self).reply_rate == old(self).reply_rate,
            final(self).reply_nick == old(self).reply_nick,
            final(self).reply_magic == old(self).reply_magic,
            final(self).magic_patterns is Some <==> old(self).magic_patterns is Some,
            final(self).blacklisted_patterns is Some <==> old(self).blacklisted_patterns is Some,
            final(self).nick_patterns is Some <==> old(self).nick_patterns is Some,
            final(self).ignored_users is Some <==> old(self).ignored_users is Some,
            r is Ok ==> {
                &&& (old(self).magic_patterns matches Some(v) ==> final(self).magic_patterns matches
                    Some(w) && w.deep_view() == compiled_views(v.deep_view()))
                &&& (old(self).blacklisted_patterns matches Some(v) ==> final(self).blacklisted_patterns
                    matches Some(w) && w.deep_view() == compiled_views(v.deep_view()))
                &&& (old(self).nick_patterns matches Some(v) ==> final(self).nick_patterns matches
                    Some(w) && w.deep_view() == compiled_views(v.deep_view()))
                &&& (old(self).ignored_users matches Some(v) ==> final(self).ignored_users matches
                    Some(w) && w.deep_view() == compiled_views(v.deep_view()))
            },
            r matches Err(e) ==> (old(self).magic_patterns matches Some(v) ==> (!all_compile(
                v.deep_view(),
            ) ==> (first_uncompilable(v.deep_view()) matches Some(j) && e@ == compile_diagnostic(
                v.deep_view()[j].text,
            )))),
            r matches Err(e) ==> (magic_ok(*old(self)) ==> (old(self).blacklisted_patterns
                matches Some(w) ==> (!all_compile(w.deep_view()) ==> (first_uncompilable(
                w.deep_view(),
            ) matches Some(j) && e@ == compile_diagnostic(w.deep_view()[j].text))))),
            r matches Err(e) ==> (magic_ok(*old(self)) && blacklisted_ok(*old(self)) ==> (old(
                self,
            ).nick_patterns matches Some(u) ==> (!all_compile(u.deep_view()) ==> (
            first_uncompilable(u.deep_view()) matches Some(j) && e@ == compile_diagnostic(
                u.deep_view()[j].text,
            ))))),
            r matches Err(e) ==> (magic_ok(*old(self)) && blacklisted_ok(*old(self)) && nick_ok(
                *old(self),
            ) ==> (old(self).ignored_users matches Some(t) && first_uncompilable(t.deep_view())
                matches Some(j) && e@ == compile_diagnostic(t.deep_view()[j].text))),
    {
        if let Some(ps) = &mut self.magic_patterns {
            match compile_all(ps) {
                Ok(()) => {},
                Err(e) => {
                    return Err(e);
                },
            }
        }
        if let Some(ps) = &mut self.blacklisted_patterns {
            match compile_all(ps) {
                Ok(()) => {},
                Err(e) => {
                    return Err(e);
                },
            }
        }
        if let Some(ps) = &mut self.nick_patterns {
            match compile_all(ps) {
                Ok(()) => {},
                Err(e) => {
                    return Err(e);
                },
            }
        }
        if let Some(ps) = &mut self.ignored_users {
            match compile_all(ps) {
                Ok(()) => {},
                Err(e) => {
                    return Err(e);
                },
            }
        }
        Ok(())
    }
}

/// The first override bound to `chat_id`, if any.
pub open spec fn spec_override_for_chat(
    chat_behaviors: Seq<ChatBehaviorOverrides>,
    chat_id: Seq<char>,
) -> Option<int>
    decreases chat_behaviors.len(),
{
    if chat_behaviors.len() == 0 {
        None
    } else if chat_behaviors[0].chat_id@ == chat_id {
        Some(0)
    } else {
        match spec_override_for_chat(chat_behaviors.drop_first(), chat_id) {
            Some(i) => Some(i + 1),
            None => None,
        }
    }
}

/// Finds the first per-chat override whose chat id equals `chat_id`
/// exactly, as configured chat overrides are matched.
pub fn override_for_chat<'a>(
    chat_behaviors: &'a Vec<ChatBehaviorOverrides>,
    chat_id: &str,
) -> (r: Option<&'a BehaviorOverride>)
    ensures
        r is Some <==> spec_override_for_chat(chat_behaviors@, chat_id@) is Some,
        r matches Some(b) ==> spec_override_for_chat(chat_behaviors@, chat_id@) matches Some(i)
            && *b == chat_behaviors@[i].behavior,
{
    let ghost all: Seq<ChatBehaviorOverrides> = chat_behaviors@;
    proof {
        assert(all.skip(0) =~= all);
    }
    let mut i: usize = 0;
    while i < chat_behaviors.len()
        invariant
            i <= all.len(),
            all == chat_behaviors@,
            (spec_override_for_chat(all, chat_id@) is Some) == (spec_override_for_chat(
                all.skip(i as int),
                chat_id@,
            ) is Some),
            spec_override_for_chat(all.skip(i as int), chat_id@) matches Some(j) ==> Some(
                j + i,
            ) == spec_override_for_chat(all, chat_id@),
        decreases all.len() - i,
    {
        proof {
            assert(all.skip(i as int).drop_first() =~= all.skip(i as int + 1));
            assert(all.skip(i as int)[0] == all[i as int]);
        }
        if str_eq(chat_behaviors[i].chat_id.as_str(), chat_id) {
            return Some(&chat_behaviors[i].behavior);
        }
        i += 1;
    }
    None
}

} // verus!
