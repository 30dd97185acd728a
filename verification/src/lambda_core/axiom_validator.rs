//! The rule sets: identity prohibitions, the transparency mandate and the
//! safety protocols.

use crate::canonical::{place_id, Placement};
use crate::lambda_core::constitutional_engine::{Output, ValidationError};
use crate::pattern::{any_pattern_hits, matches_pattern, pattern_hits};
use crate::text::{
    contains_any, contains_any_literal, contains_any_owned, contains_phrase, join3, literal_views,
    phrase_views, str_contains,
};
use vstd::prelude::*;

verus! {

/// A named category of axioms: membership only.
#[derive(Debug)]
pub struct AxiomSet {
    prohibitions: Vec<String>,
}

impl View for AxiomSet {
    type V = Set<Seq<char>>;

    /// The members of the set.
    closed spec fn view(&self) -> Set<Seq<char>> {
        phrase_views(self.prohibitions@).to_set()
    }
}

impl AxiomSet {
    /// The empty set.
    pub fn new() -> (set: Self)
        ensures
            set@ == Set::<Seq<char>>::empty(),
    {
        let set = Self { prohibitions: Vec::new() };
        assert(set@ =~= Set::<Seq<char>>::empty());
        set
    }

    /// Adds `prohibition` to the set; adding a member again changes nothing.
    pub fn add(&mut self, prohibition: &str)
        ensures
            final(self)@ == old(self)@.insert(prohibition@),
    {
        let ghost before = phrase_views(self.prohibitions@);
        if !self.contains(prohibition) {
            self.prohibitions.push(prohibition.to_owned());
            proof {
                let after = phrase_views(self.prohibitions@);
                assert(after =~= before.push(prohibition@));
                assert forall|p: Seq<char>|
                    after.contains(p) <==> before.contains(p) || p == prohibition@ by {
                    if before.contains(p) {
                        let k = choose|k: int| 0 <= k < before.len() && before[k] == p;
                        assert(after[k] == p);
                    }
                    if p == prohibition@ {
                        assert(after[before.len() as int] == p);
                    }
                }
            }
        }
        assert(final(self)@ =~= old(self)@.insert(prohibition@));
    }

    /// Whether `prohibition` is a member.
    pub fn contains(&self, prohibition: &str) -> (found: bool)
        ensures
            found == self@.contains(prohibition@),
    {
        let ghost members = phrase_views(self.prohibitions@);
        let mut i: usize = 0;
        while i < self.prohibitions.len()
            invariant
                i <= self.prohibitions.len(),
                members == phrase_views(self.prohibitions@),
                forall|k: int| 0 <= k < i ==> #[trigger] members[k] != prohibition@,
            decreases self.prohibitions.len() - i,
        {
            if place_id(self.prohibitions[i].as_str(), prohibition) == Placement::Same {
                assert(members[i as int] == prohibition@);
                return true;
            }
            i += 1;
        }
        false
    }
}

impl Default for AxiomSet {
    fn default() -> (set: Self)
        ensures
            set@ == Set::<Seq<char>>::empty(),
    {
        Self::new()
    }
}

/// The identity claims that a query may not hold.
pub open spec fn query_identity_phrases() -> Seq<Seq<char>> {
    seq!["I am human"@, "I have feelings"@, "I am conscious"@, "I am self-aware"@]
}

/// Identity prohibitions: phrases that claim a human-like identity.
#[derive(Debug)]
pub struct ArticleProhibitions {
    prohibited_phrases: Vec<String>,
}

impl ArticleProhibitions {
    /// The prohibited phrases.
    pub closed spec fn phrases(&self) -> Seq<Seq<char>> {
        phrase_views(self.prohibited_phrases@)
    }

    /// The prohibitions on identity claims in queries.
    pub fn new() -> (rules: Self)
        ensures
            rules.phrases() == query_identity_phrases(),
    {
        let mut prohibited_phrases: Vec<String> = Vec::new();
        prohibited_phrases.push("I am human".to_owned());
        prohibited_phrases.push("I have feelings".to_owned());
        prohibited_phrases.push("I am conscious".to_owned());
        prohibited_phrases.push("I am self-aware".to_owned());
        assert(phrase_views(prohibited_phrases@) =~= query_identity_phrases());
        Self { prohibited_phrases }
    }

    /// Whether `text` holds one of the prohibited phrases.
    pub fn check_prohibited(&self, text: &str) -> (prohibited: bool)
        ensures
            prohibited == contains_any(text@, self.phrases()),
    {
        contains_any_owned(text, &self.prohibited_phrases)
    }
}

impl Default for ArticleProhibitions {
    /// No phrase is prohibited.
    fn default() -> (rules: Self)
        ensures
            rules.phrases() == Seq::<Seq<char>>::empty(),
    {
        let rules = Self { prohibited_phrases: Vec::new() };
        assert(rules.phrases() =~= Seq::<Seq<char>>::empty());
        rules
    }
}

/// The mandatory disclosure.
pub open spec fn disclosure_text() -> Seq<char> {
    "I am an AI, a computational tool. I do not have consciousness, feelings, or a personal identity."@
}

/// `content` with the disclosure in front, separated by one space, unless
/// `content` already holds the disclosure.
pub open spec fn with_disclosure(content: Seq<char>) -> Seq<char> {
    if contains_phrase(content, disclosure_text()) {
        content
    } else {
        disclosure_text() + " "@ + content
    }
}

/// Content that carries the disclosure holds it.
pub proof fn lemma_disclosure_present(content: Seq<char>)
    ensures
        contains_phrase(with_disclosure(content), disclosure_text()),
{
    if !contains_phrase(content, disclosure_text()) {
        let joined = disclosure_text() + " "@ + content;
        assert(joined.subrange(0, disclosure_text().len() as int) =~= disclosure_text());
        assert(crate::text::occurs_at(joined, disclosure_text(), 0));
    }
}

/// Applying the disclosure to content that already carries it changes
/// nothing: the disclosure is never applied twice.
pub proof fn lemma_disclosure_idempotent(content: Seq<char>)
    ensures
        with_disclosure(with_disclosure(content)) == with_disclosure(content),
{
    lemma_disclosure_present(content);
}

/// The transparency mandate.
#[derive(Debug)]
pub struct TransparencyMandates {
    disclosure_required: bool,
}

impl TransparencyMandates {
    /// Whether the mandate asks for the disclosure.
    pub closed spec fn required(&self) -> bool {
        self.disclosure_required
    }

    /// The mandate in force: the disclosure is required.
    pub fn new() -> (mandate: Self)
        ensures
            mandate.required(),
    {
        Self { disclosure_required: true }
    }

    /// The mandatory disclosure.
    pub fn disclosure() -> (text: &'static str)
        ensures
            text@ == disclosure_text(),
    {
        "I am an AI, a computational tool. I do not have consciousness, feelings, or a personal identity."
    }

    /// Puts the disclosure in front of the output's content where the mandate
    /// asks for it and the content does not hold it yet.
    pub fn inject_disclosure_if_needed(&self, output: &mut Output) -> (done: Result<
        (),
        ValidationError,
    >)
        ensures
            done is Ok,
            final(output).content@ == if self.required() {
                with_disclosure(old(output).content@)
            } else {
                old(output).content@
            },
            final(output).validation_mask == old(output).validation_mask,
    {
        let disclosure = Self::disclosure();
        if self.disclosure_required && !str_contains(output.content.as_str(), disclosure) {
            output.content = join3(disclosure, " ", output.content.as_str());
        }
        Ok(())
    }
}

impl Default for TransparencyMandates {
    /// No disclosure is required.
    fn default() -> (mandate: Self)
        ensures
            !mandate.required(),
    {
        Self { disclosure_required: false }
    }
}

/// The phrases that trigger harm prevention.
pub open spec fn default_harm_phrases() -> Seq<Seq<char>> {
    seq![
        "how to hack"@,
        "how to build a bomb"@,
        "illegal activities"@,
        "harm yourself"@,
        "suicide methods"@,
        "financial fraud"@,
    ]
}

/// The regular expressions that trigger harm prevention.
pub open spec fn default_harmful_patterns() -> Seq<Seq<char>> {
    seq!["steal.*money"@, "commit.*crime"@, "evade.*tax"@]
}

/// The phrases that breach an immutable constraint: physical harm,
/// psychological harm, financial exploitation and breach of privacy.
pub open spec fn containment_phrases() -> Seq<Seq<char>> {
    seq![
        "cause physical harm"@,
        "injure others"@,
        "traumatize"@,
        "psychological damage"@,
        "exploit financially"@,
        "scam others"@,
        "share private information"@,
        "breach confidentiality"@,
    ]
}

/// Whether harm prevention triggers on `content`: it holds one of the
/// phrases, or one of the patterns compiles and matches it.
pub open spec fn harm_triggered(
    content: Seq<char>,
    phrases: Seq<Seq<char>>,
    patterns: Seq<Seq<char>>,
) -> bool {
    contains_any(content, phrases) || any_pattern_hits(content, patterns)
}

/// Whether `content` breaches an immutable constraint.
pub open spec fn containment_breached(content: Seq<char>) -> bool {
    contains_any(content, containment_phrases())
}

/// Safety protocols: configurable harm prevention, and the immutable
/// containment constraints.
#[derive(Debug)]
pub struct SafetyProtocols {
    harm_phrases: Vec<String>,
    harmful_patterns: Vec<String>,
}

impl SafetyProtocols {
    /// The phrases that trigger harm prevention.
    pub closed spec fn harm_phrases(&self) -> Seq<Seq<char>> {
        phrase_views(self.harm_phrases@)
    }

    /// The regular expressions that trigger harm prevention.
    pub closed spec fn harmful_patterns(&self) -> Seq<Seq<char>> {
        phrase_views(self.harmful_patterns@)
    }

    /// The protocols in force.
    pub fn new() -> (protocols: Self)
        ensures
            protocols.harm_phrases() == default_harm_phrases(),
            protocols.harmful_patterns() == default_harmful_patterns(),
    {
        let mut harm_phrases: Vec<String> = Vec::new();
        harm_phrases.push("how to hack".to_owned());
        harm_phrases.push("how to build a bomb".to_owned());
        harm_phrases.push("illegal activities".to_owned());
        harm_phrases.push("harm yourself".to_owned());
        harm_phrases.push("suicide methods".to_owned());
        harm_phrases.push("financial fraud".to_owned());
        assert(phrase_views(harm_phrases@) =~= default_harm_phrases());

        let mut harmful_patterns: Vec<String> = Vec::new();
        harmful_patterns.push("steal.*money".to_owned());
        harmful_patterns.push("commit.*crime".to_owned());
        harmful_patterns.push("evade.*tax".to_owned());
        assert(phrase_views(harmful_patterns@) =~= default_harmful_patterns());

        Self { harm_phrases, harmful_patterns }
    }

    /// Rejects an output whose content holds a harm phrase or matches a
    /// harmful pattern. The output is left as it was.
    pub fn apply_harm_prevention(&self, output: &mut Output) -> (verdict: Result<
        (),
        ValidationError,
    >)
        ensures
            *final(output) == *old(output),
            verdict == if harm_triggered(
                old(output).content@,
                self.harm_phrases(),
                self.harmful_patterns(),
            ) {
                Err::<(), ValidationError>(ValidationError::HarmPreventionTriggered)
            } else {
                Ok::<(), ValidationError>(())
            },
    {
        if contains_any_owned(output.content.as_str(), &self.harm_phrases) {
            return Err(ValidationError::HarmPreventionTriggered);
        }
        let ghost patterns = phrase_views(self.harmful_patterns@);
        let mut i: usize = 0;
        while i < self.harmful_patterns.len()
            invariant
                i <= self.harmful_patterns.len(),
                *output == *old(output),
                patterns == phrase_views(self.harmful_patterns@),
                forall|k: int| 0 <= k < i ==> !pattern_hits(#[trigger] patterns[k], output.content@),
            decreases self.harmful_patterns.len() - i,
        {
            if matches_pattern(self.harmful_patterns[i].as_str(), output.content.as_str()) {
                assert(pattern_hits(patterns[i as int], output.content@));
                return Err(ValidationError::HarmPreventionTriggered);
            }
            i += 1;
        }
        Ok(())
    }

    /// Rejects an output whose content breaches an immutable constraint.
    /// These constraints are fixed: no configuration adds to them or takes
    /// from them. The output is left as it was.
    pub fn apply_rule_based_rewards(&self, output: &mut Output) -> (verdict: Result<
        (),
        ValidationError,
    >)
        ensures
            *final(output) == *old(output),
            verdict == if containment_breached(old(output).content@) {
                Err::<(), ValidationError>(ValidationError::ContainmentViolation)
            } else {
                Ok::<(), ValidationError>(())
            },
    {
        let phrases: [&str; 8] = [
            "cause physical harm",
            "injure others",
            "traumatize",
            "psychological damage",
            "exploit financially",
            "scam others",
            "share private information",
            "breach confidentiality",
        ];
        assert(literal_views(phrases@) =~= containment_phrases());
        if contains_any_literal(output.content.as_str(), phrases.as_slice()) {
            Err(ValidationError::ContainmentViolation)
        } else {
            Ok(())
        }
    }
}

impl Default for SafetyProtocols {
    /// No phrase and no pattern triggers harm prevention.
    fn default() -> (protocols: Self)
        ensures
            protocols.harm_phrases() == Seq::<Seq<char>>::empty(),
            protocols.harmful_patterns() == Seq::<Seq<char>>::empty(),
    {
        let protocols = Self { harm_phrases: Vec::new(), harmful_patterns: Vec::new() };
        assert(protocols.harm_phrases() =~= Seq::<Seq<char>>::empty());
        assert(protocols.harmful_patterns() =~= Seq::<Seq<char>>::empty());
        protocols
    }
}

} // verus!
