//! The decision engine: decides, per incoming line, whether to learn it
//! and whether to reply, and picks the reply from the dictionary.
//!
//! Both decisions are gated by the effective behavior values (base policy
//! plus an optional override chain). Probability draws come from the
//! engine's own random source; the deterministic core that the draws feed
//! is [`should_reply_to_with_draws`], whose outcome is pinned exactly. A
//! regex-engine give-up during matching surfaces as
//! [`PatternError::MatchFailed`], and only where a consulted list holds a
//! compiled pattern the engine could be given; on every other path the
//! decisions below are exactly their specifications.

use vstd::prelude::*;

use crate::config::{
    effective_blacklisted_patterns, effective_ignored_users, effective_magic_patterns,
    effective_nick_patterns, effective_reply_magic, effective_reply_nick, effective_reply_rate,
    effective_speaking, BehaviorOverrideValueResolver, BehaviorValueResolver, MainBehavior,
};
use crate::dictionary::{
    learn_line, lemma_dedup_nonempty, lemma_learn_line_bounds, lemma_learn_line_len,
    lemma_learn_line_nonempty, lower_of, sentences_of, spec_known_words, spec_respond, Dictionary,
};
use crate::pattern::{
    has_compiled, lift_pattern_result, matches_any, spec_matches_any, NotCompiledError,
    PatternError, PatternV,
};

verus! {

#[verifier::external_type_specification]
#[verifier::external_body]
pub struct ExSmallRng(rand::rngs::SmallRng);

/// Relies on `SmallRng::from_entropy` (rand): seeds a fresh generator from
/// the operating system's entropy source. Nothing can be promised of the
/// generator's output; it aborts only if the entropy source itself fails.
#[verifier::external_body]
fn rng_from_entropy() -> rand::rngs::SmallRng {
    <rand::rngs::SmallRng as rand::SeedableRng>::from_entropy()
}

/// Relies on `RngCore::next_u32` for `SmallRng` (rand): one 32-bit value
/// from the generator. Nothing can be promised of a random value.
#[verifier::external_body]
fn rng_next_u32(rng: &mut rand::rngs::SmallRng) -> u32 {
    rand::RngCore::next_u32(rng)
}

/// Relies on `RngCore::next_u64` for `SmallRng` (rand): one 64-bit value
/// from the generator. Nothing can be promised of a random value.
#[verifier::external_body]
fn rng_next_u64(rng: &mut rand::rngs::SmallRng) -> u64 {
    rand::RngCore::next_u64(rng)
}

/// Whether a draw against probability `rate` succeeds: the draw, reduced
/// modulo 100 to a value in `[0, 99]`, must be strictly greater than
/// `rate`. The `== 100` disjunct can never hold of a remainder modulo 100;
/// the draw formula is specified with it, so it is kept and stated.
pub open spec fn spec_chance(rate: u32, draw: u32) -> bool {
    draw % 100 > rate || draw % 100 == 100
}

/// Evaluates one probability draw against `rate`.
pub fn chance_with_draw(rate: u32, draw: u32) -> (b: bool)
    ensures
        b == spec_chance(rate, draw),
{
    let p: u32 = draw % 100;
    p > rate || p == 100
}

/// Draws one 32-bit value and evaluates it against `rate`; the ghost half
/// of the result is the value drawn.
fn chance(rate: u32, rng: &mut rand::rngs::SmallRng) -> (r: (bool, Ghost<u32>))
    ensures
        r.0 == spec_chance(rate, r.1@),
{
    let draw = rng_next_u32(rng);
    let b = chance_with_draw(rate, draw);
    (b, Ghost(draw))
}

/// Whether to learn `input` from `user_id` under the given effective
/// pattern lists: refused when the user matches an ignored-user pattern or
/// the input matches a blacklisted pattern, granted otherwise; an
/// uncompiled pattern reached during matching is an error.
pub open spec fn spec_should_learn(
    ignored: Seq<PatternV>,
    blacklisted: Seq<PatternV>,
    user_id: Seq<char>,
    input: Seq<char>,
) -> Result<bool, NotCompiledError> {
    match spec_matches_any(user_id, ignored) {
        Err(e) => Err(e),
        Ok(Some(_)) => Ok(false),
        Ok(None) => match spec_matches_any(input, blacklisted) {
            Err(e) => Err(e),
            Ok(Some(_)) => Ok(false),
            Ok(None) => Ok(true),
        },
    }
}

/// Whether to reply, checked in strict order: an ignored user always gets
/// a reply; with speaking off, nobody else does; a nickname match draws
/// against the nickname chance and falls through on failure; a magic-word
/// match draws against the magic chance and falls through on failure; the
/// reply rate decides the rest.
pub open spec fn spec_should_reply(
    speaking: bool,
    ignored: Seq<PatternV>,
    nick: Seq<PatternV>,
    magic: Seq<PatternV>,
    reply_nick: u32,
    reply_magic: u32,
    reply_rate: u32,
    user_id: Seq<char>,
    input: Seq<char>,
    nick_draw: u32,
    magic_draw: u32,
    rate_draw: u32,
) -> Result<bool, NotCompiledError> {
    match spec_matches_any(user_id, ignored) {
        Err(e) => Err(e),
        Ok(Some(_)) => Ok(true),
        Ok(None) => if !speaking {
            Ok(false)
        } else {
            match spec_matches_any(input, nick) {
                Err(e) => Err(e),
                Ok(nick_match) => if nick_match is Some && spec_chance(reply_nick, nick_draw) {
                    Ok(true)
                } else {
                    match spec_matches_any(input, magic) {
                        Err(e) => Err(e),
                        Ok(magic_match) => if magic_match is Some && spec_chance(
                            reply_magic,
                            magic_draw,
                        ) {
                            Ok(true)
                        } else {
                            Ok(spec_chance(reply_rate, rate_draw))
                        },
                    }
                },
            }
        },
    }
}

/// With speaking on, a non-ignored user, no nickname or magic match and a
/// reply rate of zero, the decision is `rate_draw % 100 > 0`: a reply on
/// 99 of every 100 draws, not none. The draw formula is kept literally,
/// not corrected.
pub proof fn lemma_reply_rate_zero(
    ignored: Seq<PatternV>,
    nick: Seq<PatternV>,
    magic: Seq<PatternV>,
    reply_nick: u32,
    reply_magic: u32,
    user_id: Seq<char>,
    input: Seq<char>,
    nick_draw: u32,
    magic_draw: u32,
    rate_draw: u32,
)
    requires
        spec_matches_any(user_id, ignored) == Ok::<Option<int>, NotCompiledError>(None),
        spec_matches_any(input, nick) == Ok::<Option<int>, NotCompiledError>(None),
        spec_matches_any(input, magic) == Ok::<Option<int>, NotCompiledError>(None),
    ensures
        spec_should_reply(
            true,
            ignored,
            nick,
            magic,
            reply_nick,
            reply_magic,
            0,
            user_id,
            input,
            nick_draw,
            magic_draw,
            rate_draw,
        ) == Ok::<bool, NotCompiledError>(rate_draw % 100 > 0),
{
}

/// The reply decision with the three probability draws supplied by the
/// caller: unless the regex engine gave up on one of the patterns tried,
/// the outcome is fully determined by the behavior values, the inputs and
/// the draws. Each draw is consulted only if its check is reached.
pub fn should_reply_to_with_draws(
    behavior: &MainBehavior,
    behavior_override: &Option<BehaviorOverrideValueResolver>,
    user_id: &str,
    input: &str,
    nick_draw: u32,
    magic_draw: u32,
    rate_draw: u32,
) -> (r: Result<bool, PatternError>)
    ensures
        !(r matches Err(PatternError::MatchFailed(_))) ==> r == lift_pattern_result(
            spec_should_reply(
                effective_speaking(*behavior, *behavior_override),
                effective_ignored_users(*behavior, *behavior_override),
                effective_nick_patterns(*behavior, *behavior_override),
                effective_magic_patterns(*behavior, *behavior_override),
                effective_reply_nick(*behavior, *behavior_override),
                effective_reply_magic(*behavior, *behavior_override),
                effective_reply_rate(*behavior, *behavior_override),
                user_id@,
                input@,
                nick_draw,
                magic_draw,
                rate_draw,
            ),
        ),
        r matches Err(PatternError::MatchFailed(_)) ==> has_compiled(
            effective_ignored_users(*behavior, *behavior_override),
        ) || (spec_matches_any(user_id@, effective_ignored_users(*behavior, *behavior_override))
            == Ok::<Option<int>, NotCompiledError>(None) && effective_speaking(
            *behavior,
            *behavior_override,
        ) && (has_compiled(effective_nick_patterns(*behavior, *behavior_override))
            || has_compiled(effective_magic_patterns(*behavior, *behavior_override)))),
{
    let b = BehaviorValueResolver::new(behavior, behavior_override.as_ref());
    match matches_any(user_id, b.ignored_users()) {
        Err(e) => {
            return Err(e);
        },
        Ok(Some(_)) => {
            return Ok(true);
        },
        Ok(None) => {},
    }
    if !b.is_speaking() {
        return Ok(false);
    }
    match matches_any(input, b.nick_patterns()) {
        Err(e) => {
            return Err(e);
        },
        Ok(matched) => {
            if matched.is_some() && chance_with_draw(b.reply_nick(), nick_draw) {
                return Ok(true);
            }
        },
    }
    match matches_any(input, b.magic_patterns()) {
        Err(e) => {
            return Err(e);
        },
        Ok(matched) => {
            if matched.is_some() && chance_with_draw(b.reply_magic(), magic_draw) {
                return Ok(true);
            }
        },
    }
    Ok(chance_with_draw(b.reply_rate(), rate_draw))
}

/// The platform-agnostic engine: a dictionary, a base behavior policy and
/// a random source, deciding and replying per incoming line.
pub struct Borg {
    dictionary: Dictionary,
    behavior: MainBehavior,
    rng: rand::rngs::SmallRng,
}

impl Borg {
    /// The engine's dictionary.
    pub closed spec fn spec_dictionary(&self) -> Dictionary {
        self.dictionary
    }

    /// The engine's base behavior policy.
    pub closed spec fn spec_behavior(&self) -> MainBehavior {
        self.behavior
    }

    /// The dictionary's index points only at stored sentences and holds no
    /// empty entry, so replying never reads past the sentence list and a
    /// known word always has a sentence to offer.
    pub open spec fn wf(&self) -> bool {
        &&& self.spec_dictionary().index_positions_in_bounds()
        &&& self.spec_dictionary().index_entries_nonempty()
    }

    /// A new engine over the given dictionary and policy, with an
    /// entropy-seeded random source.
    pub fn new(dictionary: Dictionary, behavior: MainBehavior) -> (r: Borg)
        requires
            dictionary.index_positions_in_bounds(),
            dictionary.index_entries_nonempty(),
        ensures
            r.spec_dictionary() == dictionary,
            r.spec_behavior() == behavior,
            r.wf(),
    {
        Borg { dictionary, behavior, rng: rng_from_entropy() }
    }

    /// The engine's dictionary, borrowed: what a storage collaborator
    /// persists.
    pub fn dictionary(&self) -> (r: &Dictionary)
        ensures
            *r == self.spec_dictionary(),
    {
        &self.dictionary
    }

    /// Picks a response for `line` from the dictionary, drawing the pivot
    /// word and the sentence with the engine's random source. For some
    /// pair of draws the answer is exactly the dictionary's; a line is
    /// answered exactly when some word of it is known.
    pub fn respond_to(&mut self, line: &str) -> (r: Option<String>)
        requires
            old(self).wf(),
        ensures
            final(self).wf(),
            final(self).spec_dictionary() == old(self).spec_dictionary(),
            final(self).spec_behavior() == old(self).spec_behavior(),
            exists|d1: u64, d2: u64|
                r.deep_view() == spec_respond(old(self).spec_dictionary(), line@, d1, d2),
            r is Some <==> spec_known_words(old(self).spec_dictionary().index(), line@).len() > 0,
    {
        let d1 = rng_next_u64(&mut self.rng);
        let d2 = rng_next_u64(&mut self.rng);
        let r = self.dictionary.respond_to(line, d1, d2);
        proof {
            assert(r.deep_view() == spec_respond(self.dictionary, line@, d1, d2));
            lemma_dedup_nonempty(spec_known_words(self.dictionary.index(), line@));
        }
        r
    }

    /// Learns `line` into the dictionary (lower-cased, split into
    /// sentences, deduplicated and indexed).
    pub fn learn(&mut self, line: &str)
        requires
            old(self).wf(),
        ensures
            final(self).wf(),
            final(self).spec_behavior() == old(self).spec_behavior(),
            ({
                let step = learn_line(
                    old(self).spec_dictionary().sents(),
                    old(self).spec_dictionary().index(),
                    sentences_of(lower_of(line@)),
                    false,
                );
                final(self).spec_dictionary().sents() == step.0
                    && final(self).spec_dictionary().index() == step.1
            }),
    {
        let ghost sents0 = self.dictionary.sents();
        let ghost ind0 = self.dictionary.index();
        self.dictionary.learn(line);
        proof {
            assert(self.dictionary.sentences@.len() == self.dictionary.sentences.len());
            lemma_learn_line_len(sents0, ind0, sentences_of(lower_of(line@)), false);
            lemma_learn_line_bounds(sents0, ind0, sentences_of(lower_of(line@)), false);
            lemma_learn_line_nonempty(sents0, ind0, sentences_of(lower_of(line@)), false);
        }
    }

    /// Whether to learn `line` from `user_id`: refused for ignored users
    /// and blacklisted inputs, granted otherwise. An uncompiled pattern or
    /// an engine give-up is a typed error, never a panic or a silent
    /// non-match; unless the engine gave up, the decision is exactly
    /// [`spec_should_learn`]'s, and a give-up can only come from a
    /// compiled pattern in one of the two consulted lists — with both
    /// effective lists empty the answer is always `Ok(true)`.
    pub fn should_learn(
        &mut self,
        user_id: &str,
        input: &str,
        behavior: &Option<BehaviorOverrideValueResolver>,
    ) -> (r: Result<bool, PatternError>)
        ensures
            *final(self) == *old(self),
            !(r matches Err(PatternError::MatchFailed(_))) ==> r == lift_pattern_result(
                spec_should_learn(
                    effective_ignored_users(old(self).spec_behavior(), *behavior),
                    effective_blacklisted_patterns(old(self).spec_behavior(), *behavior),
                    user_id@,
                    input@,
                ),
            ),
            r matches Err(PatternError::MatchFailed(_)) ==> has_compiled(
                effective_ignored_users(old(self).spec_behavior(), *behavior),
            ) || has_compiled(
                effective_blacklisted_patterns(old(self).spec_behavior(), *behavior),
            ),
    {
        let b = BehaviorValueResolver::new(&self.behavior, behavior.as_ref());
        match matches_any(user_id, b.ignored_users()) {
            Err(e) => {
                return Err(e);
            },
            Ok(Some(_)) => {
                return Ok(false);
            },
            Ok(None) => {},
        }
        match matches_any(input, b.blacklisted_patterns()) {
            Err(e) => Err(e),
            Ok(Some(_)) => Ok(false),
            Ok(None) => Ok(true),
        }
    }

    /// Whether to reply to `input` from `user_id`, drawing probabilities
    /// from the engine's random source: unless the regex engine gave up,
    /// the answer is exactly [`spec_should_reply`]'s for some triple of
    /// draws; a user matching an ignored-user pattern always gets a reply,
    /// whatever the draws, and with speaking effectively off a non-ignored
    /// user never does (either time unless the engine gave up first). A
    /// give-up can only come from a compiled pattern in a consulted list,
    /// so with an empty effective ignored list and speaking off, for one,
    /// the answer is always `Ok(false)`.
    pub fn should_reply_to(
        &mut self,
        user_id: &str,
        input: &str,
        behavior: &Option<BehaviorOverrideValueResolver>,
    ) -> (r: Result<bool, PatternError>)
        ensures
            final(self).spec_dictionary() == old(self).spec_dictionary(),
            final(self).spec_behavior() == old(self).spec_behavior(),
            r matches Err(PatternError::MatchFailed(_)) || (exists|dn: u32, dm: u32, dr: u32|
                r == lift_pattern_result(
                    spec_should_reply(
                        effective_speaking(old(self).spec_behavior(), *behavior),
                        effective_ignored_users(old(self).spec_behavior(), *behavior),
                        effective_nick_patterns(old(self).spec_behavior(), *behavior),
                        effective_magic_patterns(old(self).spec_behavior(), *behavior),
                        effective_reply_nick(old(self).spec_behavior(), *behavior),
                        effective_reply_magic(old(self).spec_behavior(), *behavior),
                        effective_reply_rate(old(self).spec_behavior(), *behavior),
                        user_id@,
                        input@,
                        dn,
                        dm,
                        dr,
                    ),
                )),
            spec_matches_any(
                user_id@,
                effective_ignored_users(old(self).spec_behavior(), *behavior),
            ) matches Ok(Some(_)) ==> r == Ok::<bool, PatternError>(true) || r matches Err(
                PatternError::MatchFailed(_),
            ),
            spec_matches_any(
                user_id@,
                effective_ignored_users(old(self).spec_behavior(), *behavior),
            ) == Ok::<Option<int>, NotCompiledError>(None) && !effective_speaking(
                old(self).spec_behavior(),
                *behavior,
            ) ==> r == Ok::<bool, PatternError>(false) || r matches Err(
                PatternError::MatchFailed(_),
            ),
            r matches Err(PatternError::MatchFailed(_)) ==> has_compiled(
                effective_ignored_users(old(self).spec_behavior(), *behavior),
            ) || (spec_matches_any(
                user_id@,
                effective_ignored_users(old(self).spec_behavior(), *behavior),
            ) == Ok::<Option<int>, NotCompiledError>(None) && effective_speaking(
                old(self).spec_behavior(),
                *behavior,
            ) && (has_compiled(effective_nick_patterns(old(self).spec_behavior(), *behavior))
                || has_compiled(
                effective_magic_patterns(old(self).spec_behavior(), *behavior),
            ))),
    {
        let ghost speaking = effective_speaking(self.spec_behavior(), *behavior);
        let ghost ignored = effective_ignored_users(self.spec_behavior(), *behavior);
        let ghost nick = effective_nick_patterns(self.spec_behavior(), *behavior);
        let ghost magic = effective_magic_patterns(self.spec_behavior(), *behavior);
        let ghost r_nick = effective_reply_nick(self.spec_behavior(), *behavior);
        let ghost r_magic = effective_reply_magic(self.spec_behavior(), *behavior);
        let ghost r_rate = effective_reply_rate(self.spec_behavior(), *behavior);
        let ghost mut dn: u32 = 0;
        let ghost mut dm: u32 = 0;
        let b = BehaviorValueResolver::new(&self.behavior, behavior.as_ref());
        match matches_any(user_id, b.ignored_users()) {
            Err(e) => {
                proof {
                    if !(e matches PatternError::MatchFailed(_)) {
                        assert(spec_should_reply(
                            speaking,
                            ignored,
                            nick,
                            magic,
                            r_nick,
                            r_magic,
                            r_rate,
                            user_id@,
                            input@,
                            0,
                            0,
                            0,
                        ) == Err::<bool, NotCompiledError>(NotCompiledError));
                    }
                }
                return Err(e);
            },
            Ok(Some(_)) => {
                proof {
                    assert(spec_should_reply(
                        speaking,
                        ignored,
                        nick,
                        magic,
                        r_nick,
                        r_magic,
                        r_rate,
                        user_id@,
                        input@,
                        0,
                        0,
                        0,
                    ) == Ok::<bool, NotCompiledError>(true));
                }
                return Ok(true);
            },
            Ok(None) => {},
        }
        if !b.is_speaking() {
            proof {
                assert(spec_should_reply(
                    speaking,
                    ignored,
                    nick,
                    magic,
                    r_nick,
                    r_magic,
                    r_rate,
                    user_id@,
                    input@,
                    0,
                    0,
                    0,
                ) == Ok::<bool, NotCompiledError>(false));
            }
            return Ok(false);
        }
        match matches_any(input, b.nick_patterns()) {
            Err(e) => {
                proof {
                    if !(e matches PatternError::MatchFailed(_)) {
                        assert(spec_should_reply(
                            speaking,
                            ignored,
                            nick,
                            magic,
                            r_nick,
                            r_magic,
                            r_rate,
                            user_id@,
                            input@,
                            0,
                            0,
                            0,
                        ) == Err::<bool, NotCompiledError>(NotCompiledError));
                    }
                }
                return Err(e);
            },
            Ok(matched) => {
                if matched.is_some() {
                    let c = chance(b.reply_nick(), &mut self.rng);
                    proof {
                        dn = c.1@;
                    }
                    if c.0 {
                        proof {
                            assert(spec_should_reply(
                                speaking,
                                ignored,
                                nick,
                                magic,
                                r_nick,
                                r_magic,
                                r_rate,
                                user_id@,
                                input@,
                                dn,
                                0,
                                0,
                            ) == Ok::<bool, NotCompiledError>(true));
                        }
                        return Ok(true);
                    }
                }
            },
        }
        match matches_any(input, b.magic_patterns()) {
            Err(e) => {
                proof {
                    if !(e matches PatternError::MatchFailed(_)) {
                        assert(spec_should_reply(
                            speaking,
                            ignored,
                            nick,
                            magic,
                            r_nick,
                            r_magic,
                            r_rate,
                            user_id@,
                            input@,
                            dn,
                            0,
                            0,
                        ) == Err::<bool, NotCompiledError>(NotCompiledError));
                    }
                }
                return Err(e);
            },
            Ok(matched) => {
                if matched.is_some() {
                    let c = chance(b.reply_magic(), &mut self.rng);
                    proof {
                        dm = c.1@;
                    }
                    if c.0 {
                        proof {
                            assert(spec_should_reply(
                                speaking,
                                ignored,
                                nick,
                                magic,
                                r_nick,
                                r_magic,
                                r_rate,
                                user_id@,
                                input@,
                                dn,
                                dm,
                                0,
                            ) == Ok::<bool, NotCompiledError>(true));
                        }
                        return Ok(true);
                    }
                }
            },
        }
        let c = chance(b.reply_rate(), &mut self.rng);
        proof {
            assert(spec_should_reply(
                speaking,
                ignored,
                nick,
                magic,
                r_nick,
                r_magic,
                r_rate,
                user_id@,
                input@,
                dn,
                dm,
                c.1@,
            ) == Ok::<bool, NotCompiledError>(c.0));
        }
        if c.0 {
            Ok(true)
        } else {
            Ok(false)
        }
    }
}

} // verus!
