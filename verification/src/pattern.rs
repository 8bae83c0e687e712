//! Regular-expression patterns with explicit, memoized compilation.
//!
//! A [`Pattern`] carries its source text and, once [`Pattern::compile`] has
//! succeeded, a compiled form that is always the result of compiling that
//! text. Every failure is a typed error, never a panic: a pattern whose
//! text the engine rejects surfaces the engine's diagnostic as a
//! [`CompilationError`], matching through an uncompiled pattern reports
//! [`NotCompiledError`], and an engine failure during matching itself (for
//! example, a catastrophically backtracking pattern exceeding the engine's
//! retry limit) reports [`MatchError`].

use vstd::prelude::*;

verus! {

/// Whether the regex engine accepts `pattern` as a valid pattern text.
///
/// Names the success of `onig::Regex::new` on this text; it depends on the
/// text alone.
pub uninterp spec fn pattern_compiles(pattern: Seq<char>) -> bool;

/// The regex engine's diagnostic for a pattern text it rejects.
///
/// Names the description carried by `onig::Regex::new`'s error; it depends
/// on the text alone.
pub uninterp spec fn compile_diagnostic(pattern: Seq<char>) -> Seq<char>;

/// Whether the whole of `input` is matched by the valid pattern `pattern`.
///
/// Names the outcome of matching `input` against the regex compiled from
/// `pattern` (onig's whole-string match, as `Regex::is_match` computes it)
/// when the engine completes; it depends on the pattern text and the input
/// alone.
pub uninterp spec fn regex_matches(pattern: Seq<char>, input: Seq<char>) -> bool;

/// The regex engine rejected a pattern text; holds the engine's diagnostic.
#[derive(Debug, Clone, PartialEq, Eq)]
pub struct CompilationError {
    description: String,
}

impl View for CompilationError {
    type V = Seq<char>;

    closed spec fn view(&self) -> Seq<char> {
        self.description@
    }
}

impl CompilationError {
    /// The engine's diagnostic message.
    pub fn description(&self) -> (r: &str)
        ensures
            r@ == self@,
    {
        self.description.as_str()
    }
}

/// A pattern was used for matching before being compiled.
#[derive(Debug, Clone, Copy, PartialEq, Eq, Structural)]
pub struct NotCompiledError;

/// The regex engine gave up while matching (for example, its backtracking
/// retry limit was exceeded); holds the engine's diagnostic.
#[derive(Debug, Clone, PartialEq, Eq)]
pub struct MatchError {
    description: String,
}

impl View for MatchError {
    type V = Seq<char>;

    closed spec fn view(&self) -> Seq<char> {
        self.description@
    }
}

impl MatchError {
    /// The engine's diagnostic message.
    pub fn description(&self) -> (r: &str)
        ensures
            r@ == self@,
    {
        self.description.as_str()
    }
}

/// Why a pattern could not be evaluated against an input.
#[derive(Debug, Clone, PartialEq, Eq)]
pub enum PatternError {
    /// The pattern was used before being compiled.
    NotCompiled(NotCompiledError),
    /// The engine gave up during matching.
    MatchFailed(MatchError),
}

/// Maps the error of a deterministic matching outcome into the full error
/// taxonomy (an engine give-up has no deterministic counterpart).
pub open spec fn lift_pattern_result(r: Result<bool, NotCompiledError>) -> Result<
    bool,
    PatternError,
> {
    match r {
        Ok(b) => Ok(b),
        Err(e) => Err(PatternError::NotCompiled(e)),
    }
}

/// A compiled regular expression, kept together with the text it was
/// compiled from. The only way to obtain one is `compile_regex`, so `regex`
/// is always the result of compiling `text`.
struct CompiledRegex {
    text: String,
    regex: onig::Regex,
}

impl CompiledRegex {
    /// The pattern text this regex was compiled from.
    pub closed spec fn spec_text(&self) -> Seq<char> {
        self.text@
    }
}

#[verifier::external_type_specification]
#[verifier::external_body]
pub struct ExRegex(onig::Regex);

/// Relies on `onig::Regex::new`: it returns `Ok` exactly when the engine
/// accepts the pattern text, and `Err` carries the engine's diagnostic
/// (`onig::Error::description`), both functions of the text alone. The
/// compiled regex is stored beside the text it came from.
#[verifier::external_body]
fn compile_regex(text: &str) -> (r: Result<CompiledRegex, CompilationError>)
    ensures
        r is Ok <==> pattern_compiles(text@),
        r matches Ok(c) ==> c.spec_text() == text@,
        r matches Err(e) ==> e@ == compile_diagnostic(text@),
{
    match onig::Regex::new(text) {
        Ok(regex) => Ok(CompiledRegex { text: text.to_string(), regex }),
        Err(e) => Err(CompilationError { description: e.description().to_string() }),
    }
}

/// Relies on `onig::Regex::match_with_param` with the arguments
/// `Regex::is_match` uses (whole-string match anchored at the start, so a
/// match is one covering all of `input`): on completion the outcome is the
/// match result for `c`'s pattern text on this input (the regex held by
/// `c` is the one compiled from `c.text`; the only constructor of
/// `CompiledRegex` builds it so). When the engine gives up instead of
/// completing (`Regex::is_match` would panic here), its diagnostic is
/// returned as an error.
#[verifier::external_body]
fn regex_is_match(c: &CompiledRegex, input: &str) -> (r: Result<bool, MatchError>)
    ensures
        r matches Ok(b) ==> b == regex_matches(c.spec_text(), input@),
{
    match c.regex.match_with_param(
        input,
        0,
        onig::SearchOptions::SEARCH_OPTION_WHOLE_STRING,
        None,
        onig::MatchParam::default(),
    ) {
        Ok(m) => Ok(m == Some(input.len())),
        Err(e) => Err(MatchError { description: e.description().to_string() }),
    }
}

/// What contracts see of a [`Pattern`]: its source text and whether it has
/// been compiled.
pub struct PatternV {
    pub text: Seq<char>,
    pub compiled: bool,
}

/// A regular-expression pattern: source text plus a memoized compiled form.
pub struct Pattern {
    original: String,
    compiled: Option<CompiledRegex>,
}

impl View for Pattern {
    type V = PatternV;

    closed spec fn view(&self) -> PatternV {
        PatternV { text: self.original@, compiled: self.compiled is Some }
    }
}

impl DeepView for Pattern {
    type V = PatternV;

    open spec fn deep_view(&self) -> PatternV {
        self.view()
    }
}

impl Pattern {
    /// The memoized compiled form, once present, is the result of compiling
    /// the pattern's own text, and is only present when the engine accepts
    /// that text.
    #[verifier::type_invariant]
    closed spec fn inv(self) -> bool {
        self.compiled matches Some(c) ==> c.spec_text() == self.original@
            && pattern_compiles(self.original@)
    }

    /// A new, not yet compiled pattern with the given source text.
    pub fn new(original: String) -> (p: Pattern)
        ensures
            p@.text == original@,
            !p@.compiled,
    {
        Pattern { original, compiled: None }
    }

    /// The pattern's source text.
    pub fn original(&self) -> (r: &str)
        ensures
            r@ == self@.text,
    {
        self.original.as_str()
    }

    /// Whether the pattern has a compiled form; a compiled pattern's text is
    /// one the engine accepts.
    pub fn is_compiled(&self) -> (b: bool)
        ensures
            b == self@.compiled,
            b ==> pattern_compiles(self@.text),
    {
        proof {
            use_type_invariant(self);
        }
        self.compiled.is_some()
    }

    /// Compiles the pattern's text, memoizing the result: an already
    /// compiled pattern is left as it is, and compilation succeeds exactly
    /// when the engine accepts the text. The text itself never changes, and
    /// a failure carries the engine's diagnostic for it.
    pub fn compile(&mut self) -> (r: Result<(), CompilationError>)
        ensures
            final(self)@.text == old(self)@.text,
            old(self)@.compiled ==> *final(self) == *old(self) && r is Ok,
            r is Ok <==> old(self)@.compiled || pattern_compiles(old(self)@.text),
            final(self)@.compiled == (r is Ok),
            r is Err ==> *final(self) == *old(self),
            r matches Err(e) ==> e@ == compile_diagnostic(old(self)@.text),
    {
        proof {
            use_type_invariant(&*self);
        }
        match &self.compiled {
            Some(_) => Ok(()),
            None => {
                match compile_regex(self.original.as_str()) {
                    Ok(c) => {
                        self.compiled = Some(c);
                        Ok(())
                    },
                    Err(e) => Err(e),
                }
            },
        }
    }

    /// The compiled regex handle, or an error for a pattern not yet
    /// compiled.
    pub fn get_regex(&self) -> (r: Result<&onig::Regex, NotCompiledError>)
        ensures
            r is Ok <==> self@.compiled,
    {
        match &self.compiled {
            Some(c) => Ok(&c.regex),
            None => Err(NotCompiledError),
        }
    }

    /// Whether the whole input matches this pattern. An uncompiled pattern
    /// is an error, never a silent non-match; unless the engine gave up on
    /// this input, the outcome is exactly the pattern's match result.
    pub fn matches(&self, input: &str) -> (r: Result<bool, PatternError>)
        ensures
            !self@.compiled ==> r == Err::<bool, PatternError>(
                PatternError::NotCompiled(NotCompiledError),
            ),
            self@.compiled && !(r matches Err(PatternError::MatchFailed(_))) ==> r == Ok::<
                bool,
                PatternError,
            >(regex_matches(self@.text, input@)),
    {
        proof {
            use_type_invariant(self);
        }
        match &self.compiled {
            Some(c) => match regex_is_match(c, input) {
                Ok(b) => Ok(b),
                Err(e) => Err(PatternError::MatchFailed(e)),
            },
            None => Err(PatternError::NotCompiled(NotCompiledError)),
        }
    }
}

/// Whether some pattern of the list is compiled: only a compiled pattern
/// is ever handed to the engine, so only then can matching fail.
pub open spec fn has_compiled(ps: Seq<PatternV>) -> bool {
    exists|j: int| 0 <= j < ps.len() && (#[trigger] ps[j]).compiled
}

/// Whether the engine accepts every pattern of the list (a pattern already
/// compiled counts as accepted, which it is).
pub open spec fn all_compile(ps: Seq<PatternV>) -> bool {
    forall|j: int| 0 <= j < ps.len() ==> ps[j].compiled || pattern_compiles(ps[j].text)
}

/// The first pattern of the list that is neither compiled nor acceptable
/// to the engine: the one an eager compilation pass fails on.
pub open spec fn first_uncompilable(ps: Seq<PatternV>) -> Option<int>
    decreases ps.len(),
{
    if ps.len() == 0 {
        None
    } else if !(ps[0].compiled || pattern_compiles(ps[0].text)) {
        Some(0)
    } else {
        match first_uncompilable(ps.drop_first()) {
            Some(j) => Some(j + 1),
            None => None,
        }
    }
}

/// A position that fails, with everything before it fine, is the first
/// failure.
proof fn lemma_first_uncompilable_at(ps: Seq<PatternV>, i: int)
    requires
        0 <= i < ps.len(),
        forall|k: int| 0 <= k < i ==> ps[k].compiled || pattern_compiles(ps[k].text),
        !(ps[i].compiled || pattern_compiles(ps[i].text)),
    ensures
        first_uncompilable(ps) == Some(i),
    decreases i,
{
    if i > 0 {
        assert forall|k: int| 0 <= k < i - 1 implies ps.drop_first()[k].compiled
            || pattern_compiles(ps.drop_first()[k].text) by {
            assert(ps.drop_first()[k] == ps[k + 1]);
        }
        assert(ps.drop_first()[i - 1] == ps[i]);
        lemma_first_uncompilable_at(ps.drop_first(), i - 1);
    }
}

/// The views of `ps` with every pattern marked compiled, texts unchanged.
pub open spec fn compiled_views(ps: Seq<PatternV>) -> Seq<PatternV> {
    ps.map_values(|p: PatternV| PatternV { text: p.text, compiled: true })
}

/// Same length and same pattern texts, position by position.
pub open spec fn texts_unchanged(before: Seq<PatternV>, after: Seq<PatternV>) -> bool {
    &&& after.len() == before.len()
    &&& forall|i: int| 0 <= i < before.len() ==> after[i].text == before[i].text
}

/// Compiles every pattern of the list in place, memoizing: already compiled
/// patterns are left alone. Succeeds exactly when the engine accepts every
/// text; a failure is the first failing pattern's, with the engine's
/// diagnostic for its text, and even then the texts are unchanged and
/// already-compiled patterns stay compiled.
#[verifier::loop_isolation(false)]
pub fn compile_all(patterns: &mut Vec<Pattern>) -> (r: Result<(), CompilationError>)
    ensures
        r is Ok <==> all_compile(old(patterns).deep_view()),
        r is Ok ==> final(patterns).deep_view() == compiled_views(old(patterns).deep_view()),
        texts_unchanged(old(patterns).deep_view(), final(patterns).deep_view()),
        r matches Err(e) ==> first_uncompilable(old(patterns).deep_view()) matches Some(j)
            && e@ == compile_diagnostic(old(patterns).deep_view()[j].text),
{
    let ghost orig: Seq<PatternV> = old(patterns).deep_view();
    proof {
        crate::text::lemma_vec_deep_view_index(*old(patterns));
    }
    let mut i: usize = 0;
    while i < patterns.len()
        invariant
            orig == old(patterns).deep_view(),
            orig.len() == old(patterns)@.len(),
            i <= orig.len(),
            patterns@.len() == orig.len(),
            forall|j: int|
                0 <= j < i ==> (#[trigger] patterns@[j])@.text == orig[j].text
                    && patterns@[j]@.compiled && (orig[j].compiled || pattern_compiles(
                    orig[j].text,
                )),
            forall|j: int| i <= j < orig.len() ==> (#[trigger] patterns@[j])@ == orig[j],
        decreases orig.len() - i,
    {
        proof {
            assert forall|k: int|
                0 <= k < i implies orig[k].compiled || pattern_compiles(orig[k].text) by {
                assert(patterns@[k]@.compiled);
            }
        }
        let res = patterns[i].compile();
        match res {
            Ok(()) => {},
            Err(e) => {
                proof {
                    assert(!(orig[i as int].compiled || pattern_compiles(orig[i as int].text)));
                    lemma_first_uncompilable_at(orig, i as int);
                    crate::text::lemma_vec_deep_view_index(*patterns);
                    assert forall|j: int|
                        0 <= j < orig.len() implies (#[trigger] patterns.deep_view()[j]).text
                        == orig[j].text by {
                        assert(patterns.deep_view()[j] == patterns@[j]@);
                    }
                }
                return Err(e);
            },
        }
        i += 1;
    }
    proof {
        crate::text::lemma_vec_deep_view_index(*patterns);
        assert forall|j: int|
            0 <= j < orig.len() implies orig[j].compiled || pattern_compiles(orig[j].text) by {
            assert(patterns@[j]@.compiled);
        }
        assert forall|j: int|
            0 <= j < orig.len() implies #[trigger] patterns.deep_view()[j] == compiled_views(
            orig,
        )[j] by {
            assert(patterns.deep_view()[j] == patterns@[j]@);
            assert(compiled_views(orig)[j] == (PatternV { text: orig[j].text, compiled: true }));
        }
        assert(patterns.deep_view() =~= compiled_views(orig));
    }
    Ok(())
}

/// The deterministic outcome of matching `input` against `patterns` in
/// order: the position of the first match, `None` when no pattern matches,
/// and an error when an uncompiled pattern is reached before any match.
pub open spec fn spec_matches_any(input: Seq<char>, patterns: Seq<PatternV>) -> Result<
    Option<int>,
    NotCompiledError,
>
    decreases patterns.len(),
{
    if patterns.len() == 0 {
        Ok(None)
    } else if !patterns[0].compiled {
        Err(NotCompiledError)
    } else if regex_matches(patterns[0].text, input) {
        Ok(Some(0))
    } else {
        match spec_matches_any(input, patterns.drop_first()) {
            Ok(Some(j)) => Ok(Some(j + 1)),
            r => r,
        }
    }
}

/// `spec_matches_any` of a suffix, with its match position moved to the
/// whole list's coordinates.
pub open spec fn shift_matches_any(r: Result<Option<int>, NotCompiledError>, i: int) -> Result<
    Option<int>,
    NotCompiledError,
> {
    match r {
        Ok(Some(j)) => Ok(Some(j + i)),
        x => x,
    }
}

/// Matches `input` against each pattern in order, short-circuiting on the
/// first match, which is returned. An uncompiled pattern reached before
/// any match surfaces an error instead of being skipped or panicking, and
/// unless the engine gave up on one of the patterns tried, the outcome is
/// exactly [`spec_matches_any`]'s. The engine can only have been given a
/// compiled pattern, so on a list without one — an empty list above all —
/// no give-up is possible and the outcome is always exact.
pub fn matches_any<'a>(input: &str, patterns: &'a Vec<Pattern>) -> (r: Result<
    Option<&'a Pattern>,
    PatternError,
>)
    ensures
        r matches Ok(Some(p)) ==> spec_matches_any(input@, patterns.deep_view()) matches Ok(jo)
            && jo matches Some(j) && *p == patterns@[j],
        r matches Ok(None) ==> spec_matches_any(input@, patterns.deep_view()) == Ok::<
            Option<int>,
            NotCompiledError,
        >(None),
        r matches Err(PatternError::NotCompiled(_)) ==> spec_matches_any(
            input@,
            patterns.deep_view(),
        ) is Err,
        r matches Err(PatternError::MatchFailed(_)) ==> has_compiled(patterns.deep_view()),
{
    let ghost all: Seq<PatternV> = patterns.deep_view();
    proof {
        assert(all.skip(0) =~= all);
    }
    let mut i: usize = 0;
    while i < patterns.len()
        invariant
            i <= all.len(),
            all == patterns.deep_view(),
            all.len() == patterns@.len(),
            spec_matches_any(input@, all) == shift_matches_any(
                spec_matches_any(input@, all.skip(i as int)),
                i as int,
            ),
        decreases patterns.len() - i,
    {
        proof {
            crate::text::lemma_vec_deep_view_index(*patterns);
            assert(all.skip(i as int).drop_first() =~= all.skip(i as int + 1));
            assert(all.skip(i as int)[0] == all[i as int]);
        }
        let res = patterns[i].matches(input);
        match res {
            Ok(true) => {
                return Ok(Some(&patterns[i]));
            },
            Ok(false) => {},
            Err(e) => {
                proof {
                    if e matches PatternError::MatchFailed(_) {
                        assert(all[i as int].compiled);
                    }
                }
                return Err(e);
            },
        }
        i += 1;
    }
    proof {
        assert(all.skip(all.len() as int) =~= Seq::<PatternV>::empty());
    }
    Ok(None)
}

} // verus!
