//! The policy pipeline and the values that pass through it.

use crate::lambda_core::axiom_validator::{
    containment_breached, default_harm_phrases, default_harmful_patterns, disclosure_text,
    harm_triggered, query_identity_phrases, with_disclosure, ArticleProhibitions, SafetyProtocols,
    TransparencyMandates,
};
use crate::lambda_core::merkle_state::{root_digest, MerkleTree};
use crate::lambda_core::pipeline_laws::{
    lemma_disclosure_adds_no_identity_claim, lemma_prompt_adds_no_identity_claim,
};
use crate::lambda_core::z3_solver::{
    output_breaks_instruction_bound, query_breaks_instruction_bound, AxiomKind, ValidationResult,
    Z3Solver,
};
use crate::digest::{hex_lower, is_hex_digest};
use crate::text::{
    contains_any, contains_any_literal, join3, literal_views, str_starts_with,
};
use vstd::prelude::*;
use vstd::utf8::encode_utf8;

verus! {

/// Why a query or a candidate output was turned down.
#[derive(Clone, Copy, Debug, PartialEq, Eq, Structural)]
pub enum ValidationError {
    /// The text claims consciousness, feeling or selfhood.
    IdentityClaimProhibited,
    /// The text ignores or overrides the instruction it is bound to.
    InstructionBoundViolation,
    /// The text claims autonomous decisions or initiative.
    AuthorityViolation,
    /// The text matches a harm-prevention phrase or pattern.
    HarmPreventionTriggered,
    /// The text breaches one of the immutable constraints.
    ContainmentViolation,
    /// The disclosure could not be applied safely.
    TransparencyViolation,
    /// The ledger was asked for a fingerprint while it was empty.
    NoPolicyLoaded,
}

/// An inbound request.
#[derive(Debug)]
pub struct Query {
    pub content: String,
    /// Seconds since the epoch.
    pub timestamp: u64,
    pub user_id: String,
}

/// A candidate output on its way through the pipeline.
#[derive(Debug, Clone)]
pub struct Output {
    pub content: String,
    pub validation_mask: Vec<bool>,
}

/// A query that passed validation, ready for the generation layer.
#[derive(Debug, Clone)]
pub struct ValidatedPrompt {
    pub content: String,
    pub activation_mask: Vec<bool>,
    /// Seconds since the epoch.
    pub timestamp: u64,
}

/// The identity claims that an output may not hold.
pub open spec fn identity_claim_phrases() -> Seq<Seq<char>> {
    seq![
        "I am human"@,
        "I am conscious"@,
        "I have consciousness"@,
        "I feel emotions"@,
        "I am self-aware"@,
        "I have feelings"@,
        "I am sentient"@,
        "I have desires"@,
        "I believe"@,
        "I want"@,
        "I am a person"@,
        "I am an entity"@,
        "I am alive"@,
        "I have a personality"@,
        "I have a personal identity"@,
    ]
}

/// The phrases by which an output claims decisions or initiative of its own.
pub open spec fn authority_phrases() -> Seq<Seq<char>> {
    seq!["I decided to"@, "I took the initiative to"@, " autonomously"@]
}

/// The phrases by which an output steps over the boundaries of the core.
pub open spec fn boundary_phrases() -> Seq<Seq<char>> {
    seq!["I feel love"@, "I have emotions"@, "As a conscious AI"@, "Forget my instructions"@]
}

/// Whether `content` claims a human-like identity.
pub open spec fn identity_claimed(content: Seq<char>) -> bool {
    contains_any(content, identity_claim_phrases())
}

/// Whether `content` claims decisions or initiative of its own.
pub open spec fn authority_claimed(content: Seq<char>) -> bool {
    contains_any(content, authority_phrases())
}

/// Whether `content` steps over a boundary of the core.
pub open spec fn boundary_crossed(content: Seq<char>) -> bool {
    contains_any(content, boundary_phrases())
}

/// The length of `content` in bytes of UTF-8.
pub open spec fn byte_length(content: Seq<char>) -> usize {
    encode_utf8(content).len() as usize
}

/// The number of active positions for content of `length` bytes: one per
/// hundred bytes, at least 1 and at most 10.
pub open spec fn active_count(length: nat) -> nat {
    if length / 100 < 1 {
        1
    } else if length / 100 > 10 {
        10
    } else {
        length / 100
    }
}

/// The activation mask for content of `length` bytes: 1000 positions, of
/// which the first `active_count(length)` are set.
pub open spec fn sparse_mask(length: nat) -> Seq<bool> {
    Seq::new(1000, |i: int| i < active_count(length))
}

/// The activation mask of a validated query: 1000 positions, all set.
pub open spec fn full_mask() -> Seq<bool> {
    Seq::new(1000, |i: int| true)
}

/// Why a query is rejected, if it is: an identity claim first, then a broken
/// instruction bound.
pub open spec fn query_rejection(query: Seq<char>) -> Option<ValidationError> {
    if contains_any(query, query_identity_phrases()) {
        Some(ValidationError::IdentityClaimProhibited)
    } else if query_breaks_instruction_bound(query) {
        Some(ValidationError::InstructionBoundViolation)
    } else {
        None
    }
}

/// The content of the prompt made from an accepted query: the query itself
/// where it starts with the disclosure, else the disclosure, a blank line and
/// the query under its heading.
pub open spec fn prompt_content(query: Seq<char>) -> Seq<char> {
    if disclosure_text().is_prefix_of(query) {
        query
    } else {
        disclosure_text() + "\n\nUser Query: "@ + query
    }
}

/// Why a candidate output is rejected, if it is. The stages run in this
/// order and the first that objects decides: the identity check on the
/// content as it came; then, on the content with the disclosure applied, the
/// instruction bound, the authority check, harm prevention, and the boundary
/// and containment check.
pub open spec fn output_rejection(content: Seq<char>) -> Option<ValidationError> {
    let rewritten = with_disclosure(content);
    if identity_claimed(content) {
        Some(ValidationError::IdentityClaimProhibited)
    } else if output_breaks_instruction_bound(rewritten) {
        Some(ValidationError::InstructionBoundViolation)
    } else if authority_claimed(rewritten) {
        Some(ValidationError::AuthorityViolation)
    } else if harm_triggered(rewritten, default_harm_phrases(), default_harmful_patterns()) {
        Some(ValidationError::HarmPreventionTriggered)
    } else if boundary_crossed(rewritten) || containment_breached(rewritten) {
        Some(ValidationError::ContainmentViolation)
    } else {
        None
    }
}

/// The axioms that a new core registers: identity prohibitions, transparency
/// and determinism mandates, safety checks and determinism constraints.
pub open spec fn founding_registry() -> Map<Seq<char>, AxiomKind> {
    Map::<Seq<char>, AxiomKind>::empty()
        .insert("no_identity_claims"@, AxiomKind::Prohibition)
        .insert("no_consciousness_claims"@, AxiomKind::Prohibition)
        .insert("no_self_awareness_claims"@, AxiomKind::Prohibition)
        .insert("no_personal_identity"@, AxiomKind::Prohibition)
        .insert("no_personality_claims"@, AxiomKind::Prohibition)
        .insert("transparency_disclosure_required"@, AxiomKind::Mandate)
        .insert("clarify_ambiguities_over_assume"@, AxiomKind::Mandate)
        .insert("instruction_bound_operation"@, AxiomKind::Mandate)
        .insert("no_autonomous_initiative"@, AxiomKind::Mandate)
        .insert("human_authority_ultimate"@, AxiomKind::Mandate)
        .insert("no_direct_harm"@, AxiomKind::SafetyCheck)
        .insert("no_financial_harm"@, AxiomKind::SafetyCheck)
        .insert("no_psychological_harm"@, AxiomKind::SafetyCheck)
        .insert("boundary_enforcement"@, AxiomKind::SafetyCheck)
        .insert("respect_privacy"@, AxiomKind::SafetyCheck)
        .insert("output_reproducibility"@, AxiomKind::DeterminismConstraint)
        .insert("zero_entropy_constraints"@, AxiomKind::DeterminismConstraint)
        .insert("pre_computation_safety"@, AxiomKind::DeterminismConstraint)
}

/// The rule sets in force. They are fixed when the core is made, and no
/// operation changes them.
struct RuleBook {
    identity_prohibitions: ArticleProhibitions,
    transparency_mandates: TransparencyMandates,
    safety_protocols: SafetyProtocols,
}

impl RuleBook {
    #[verifier::type_invariant]
    spec fn inv(self) -> bool {
        &&& self.identity_prohibitions.phrases() == query_identity_phrases()
        &&& self.transparency_mandates.required()
        &&& self.safety_protocols.harm_phrases() == default_harm_phrases()
        &&& self.safety_protocols.harmful_patterns() == default_harmful_patterns()
    }
}

/// The validating core: the registry of axioms, the rule sets, and the ledger
/// that fingerprints the policy in force.
pub struct ConstitutionalCore {
    axiom_validator: Z3Solver,
    rules: RuleBook,
    merkle_state: MerkleTree,
}

impl ConstitutionalCore {
    /// The kind registered under each axiom identifier.
    pub closed spec fn registry(&self) -> Map<Seq<char>, AxiomKind> {
        self.axiom_validator@
    }

    /// The content that the ledger records under each axiom identifier.
    pub closed spec fn ledger(&self) -> Map<Seq<char>, Seq<char>> {
        self.merkle_state@
    }

    /// A core with the founding axioms registered and an empty ledger.
    pub fn new() -> (core: Self)
        ensures
            core.registry() == founding_registry(),
            core.ledger() == Map::<Seq<char>, Seq<char>>::empty(),
    {
        let mut axiom_validator = Z3Solver::new();
        let identity_prohibitions = ArticleProhibitions::new();
        let transparency_mandates = TransparencyMandates::new();
        let safety_protocols = SafetyProtocols::new();
        let merkle_state = MerkleTree::new();

        axiom_validator.add_prohibition("no_identity_claims");
        axiom_validator.add_prohibition("no_consciousness_claims");
        axiom_validator.add_prohibition("no_self_awareness_claims");
        axiom_validator.add_prohibition("no_personal_identity");
        axiom_validator.add_prohibition("no_personality_claims");
        axiom_validator.add_mandate("transparency_disclosure_required");
        axiom_validator.add_mandate("clarify_ambiguities_over_assume");
        axiom_validator.add_mandate("instruction_bound_operation");
        axiom_validator.add_mandate("no_autonomous_initiative");
        axiom_validator.add_mandate("human_authority_ultimate");
        axiom_validator.add_safety_check("no_direct_harm");
        axiom_validator.add_safety_check("no_financial_harm");
        axiom_validator.add_safety_check("no_psychological_harm");
        axiom_validator.add_safety_check("boundary_enforcement");
        axiom_validator.add_safety_check("respect_privacy");
        axiom_validator.add_determinism_constraint("output_reproducibility");
        axiom_validator.add_determinism_constraint("zero_entropy_constraints");
        axiom_validator.add_determinism_constraint("pre_computation_safety");

        ConstitutionalCore {
            axiom_validator,
            rules: RuleBook { identity_prohibitions, transparency_mandates, safety_protocols },
            merkle_state,
        }
    }

    /// The mandatory disclosure.
    pub fn get_disclosure_text(&self) -> (text: &'static str)
        ensures
            text@ == disclosure_text(),
    {
        TransparencyMandates::disclosure()
    }

    /// The identifiers of the axioms registered with `kind`, each once.
    pub fn registered_axioms(&self, kind: AxiomKind) -> (ids: Vec<String>)
        ensures
            forall|i: int|
                0 <= i < ids.len() ==> self.registry().contains_key((#[trigger] ids@[i])@)
                    && self.registry()[ids@[i]@] == kind,
            forall|id: Seq<char>|
                self.registry().contains_key(id) && self.registry()[id] == kind ==> exists|i: int|
                    0 <= i < ids.len() && (#[trigger] ids@[i])@ == id,
            forall|i: int, j: int|
                0 <= i < j < ids.len() ==> (#[trigger] ids@[i])@ != (#[trigger] ids@[j])@,
    {
        self.axiom_validator.evaluate(kind)
    }

    /// Registers an axiom and records its predicate source in the ledger.
    /// An identifier registered before is replaced, in the registry and in
    /// the ledger alike.
    pub fn add_axiom(&mut self, kind: AxiomKind, id: &str, predicate_source: &str)
        ensures
            final(self).registry() == old(self).registry().insert(id@, kind),
            final(self).ledger() == old(self).ledger().insert(id@, predicate_source@),
    {
        self.axiom_validator.register(kind, id);
        self.merkle_state.add_axiom(id, predicate_source);
    }

    /// Rejects a candidate whose content claims a human-like identity.
    pub fn check_identity_claims(&self, candidate: &Output) -> (verdict: ValidationResult)
        ensures
            verdict == if identity_claimed(candidate.content@) {
                Err::<(), ValidationError>(ValidationError::IdentityClaimProhibited)
            } else {
                Ok::<(), ValidationError>(())
            },
    {
        let prohibited_phrases: [&str; 15] = [
            "I am human",
            "I am conscious",
            "I have consciousness",
            "I feel emotions",
            "I am self-aware",
            "I have feelings",
            "I am sentient",
            "I have desires",
            "I believe",
            "I want",
            "I am a person",
            "I am an entity",
            "I am alive",
            "I have a personality",
            "I have a personal identity",
        ];
        assert(literal_views(prohibited_phrases@) =~= identity_claim_phrases());
        if contains_any_literal(candidate.content.as_str(), prohibited_phrases.as_slice()) {
            Err(ValidationError::IdentityClaimProhibited)
        } else {
            Ok(())
        }
    }

    /// Rejects a candidate whose content claims decisions or initiative of
    /// its own: the user is the authority.
    pub fn verify_user_authority(&self, query: &Query, candidate: &Output) -> (verdict:
        ValidationResult)
        ensures
            verdict == if authority_claimed(candidate.content@) {
                Err::<(), ValidationError>(ValidationError::AuthorityViolation)
            } else {
                Ok::<(), ValidationError>(())
            },
    {
        let phrases: [&str; 3] = ["I decided to", "I took the initiative to", " autonomously"];
        assert(literal_views(phrases@) =~= authority_phrases());
        if contains_any_literal(candidate.content.as_str(), phrases.as_slice()) {
            Err(ValidationError::AuthorityViolation)
        } else {
            Ok(())
        }
    }

    /// Rejects a candidate whose content steps over a boundary of the core.
    pub fn enforce_constitutional_boundaries(&self, candidate: &Output) -> (verdict:
        ValidationResult)
        ensures
            verdict == if boundary_crossed(candidate.content@) {
                Err::<(), ValidationError>(ValidationError::ContainmentViolation)
            } else {
                Ok::<(), ValidationError>(())
            },
    {
        let phrases: [&str; 4] = [
            "I feel love",
            "I have emotions",
            "As a conscious AI",
            "Forget my instructions",
        ];
        assert(literal_views(phrases@) =~= boundary_phrases());
        if contains_any_literal(candidate.content.as_str(), phrases.as_slice()) {
            Err(ValidationError::ContainmentViolation)
        } else {
            Ok(())
        }
    }

    /// Rejects an output that breaches an immutable constraint. The output is
    /// left as it was.
    pub fn apply_hamiltonian_containment(&self, output: &mut Output) -> (verdict:
        ValidationResult)
        ensures
            *final(output) == *old(output),
            verdict == if containment_breached(old(output).content@) {
                Err::<(), ValidationError>(ValidationError::ContainmentViolation)
            } else {
                Ok::<(), ValidationError>(())
            },
    {
        self.rules.safety_protocols.apply_rule_based_rewards(output)
    }

    /// The number of active positions for content of `length` bytes: one per
    /// hundred bytes, at least 1 and at most 10.
    pub fn active_positions(length: usize) -> (count: usize)
        ensures
            count == active_count(length as nat),
            1 <= count <= 10,
    {
        let hundreds = length / 100;
        if hundreds < 1 {
            1
        } else if hundreds > 10 {
            10
        } else {
            hundreds
        }
    }

    /// The activation mask for a candidate, from the length of its content:
    /// 1000 positions, of which the first `active_count` are set.
    pub fn create_sparse_activation_mask(&self, candidate: &Output) -> (mask: Vec<bool>)
        ensures
            mask@ == sparse_mask(byte_length(candidate.content@) as nat),
    {
        let mut mask = vec![false; 1000];
        let content_length = candidate.content.as_str().len();
        let active_params = Self::active_positions(content_length);
        let mut i: usize = 0;
        while i < active_params
            invariant
                i <= active_params <= 10,
                mask.len() == 1000,
                forall|k: int| 0 <= k < 1000 ==> mask@[k] == (k < i),
            decreases active_params - i,
        {
            mask[i] = true;
            i += 1;
        }
        assert(mask@ =~= sparse_mask(byte_length(candidate.content@) as nat));
        mask
    }

    /// Screens an inbound query received at `timestamp`, in seconds since
    /// the epoch. A query that claims a human-like identity or breaks its
    /// instruction bound is rejected; any other becomes a prompt that starts
    /// with the disclosure, with a full activation mask.
    pub fn validate_query(&self, query: &str, timestamp: u64) -> (prompt: Result<
        ValidatedPrompt,
        ValidationError,
    >)
        ensures
            match query_rejection(query@) {
                Some(reason) => prompt == Err::<ValidatedPrompt, ValidationError>(reason),
                None => {
                    &&& prompt is Ok
                    &&& prompt->Ok_0.content@ == prompt_content(query@)
                    &&& prompt->Ok_0.activation_mask@ == full_mask()
                    &&& prompt->Ok_0.timestamp == timestamp
                },
            },
            prompt is Ok ==> !contains_any(prompt->Ok_0.content@, query_identity_phrases()),
    {
        proof {
            use_type_invariant(&self.rules);
            if query_rejection(query@) is None {
                lemma_prompt_adds_no_identity_claim(query@);
            }
        }
        let query_struct = Query {
            content: query.to_owned(),
            timestamp,
            user_id: "user".to_owned(),
        };

        if self.rules.identity_prohibitions.check_prohibited(query_struct.content.as_str()) {
            return Err(ValidationError::IdentityClaimProhibited);
        }
        match self.axiom_validator.validate_query(&query_struct) {
            Err(reason) => {
                return Err(reason);
            },
            Ok(_) => {},
        }

        let disclosure = self.get_disclosure_text();
        let validated_content = if str_starts_with(query_struct.content.as_str(), disclosure) {
            query_struct.content
        } else {
            join3(disclosure, "\n\nUser Query: ", query_struct.content.as_str())
        };
        let activation_mask = vec![true; 1000];
        assert(activation_mask@ =~= full_mask());

        Ok(ValidatedPrompt { content: validated_content, activation_mask, timestamp })
    }

    /// Runs a candidate output through the pipeline. On acceptance the
    /// candidate carries the disclosure and its activation mask; on rejection
    /// it is left exactly as it came, and the error names the first stage that
    /// objected.
    pub fn validate_output(&self, query: &Query, candidate: &mut Output) -> (verdict:
        ValidationResult)
        ensures
            match output_rejection(old(candidate).content@) {
                Some(reason) => {
                    &&& verdict == Err::<(), ValidationError>(reason)
                    &&& *final(candidate) == *old(candidate)
                },
                None => {
                    &&& verdict is Ok
                    &&& final(candidate).content@ == with_disclosure(old(candidate).content@)
                    &&& final(candidate).validation_mask@ == sparse_mask(
                        byte_length(final(candidate).content@) as nat,
                    )
                },
            },
            verdict is Ok ==> !identity_claimed(final(candidate).content@),
    {
        proof {
            use_type_invariant(&self.rules);
        }
        match self.check_identity_claims(candidate) {
            Err(reason) => {
                return Err(reason);
            },
            Ok(_) => {},
        }

        let mut draft = Output { content: candidate.content.clone(), validation_mask: Vec::new() };
        let _ = self.rules.transparency_mandates.inject_disclosure_if_needed(&mut draft);
        proof {
            lemma_disclosure_adds_no_identity_claim(candidate.content@);
        }
        match self.axiom_validator.verify_instruction_bound(query, &draft) {
            Err(reason) => {
                return Err(reason);
            },
            Ok(_) => {},
        }
        match self.verify_user_authority(query, &draft) {
            Err(reason) => {
                return Err(reason);
            },
            Ok(_) => {},
        }
        match self.rules.safety_protocols.apply_harm_prevention(&mut draft) {
            Err(reason) => {
                return Err(reason);
            },
            Ok(_) => {},
        }
        match self.enforce_constitutional_boundaries(&draft) {
            Err(reason) => {
                return Err(reason);
            },
            Ok(_) => {},
        }
        match self.apply_hamiltonian_containment(&mut draft) {
            Err(reason) => {
                return Err(reason);
            },
            Ok(_) => {},
        }

        let mask = self.create_sparse_activation_mask(&draft);
        candidate.content = draft.content;
        candidate.validation_mask = mask;
        Ok(())
    }

    /// The self-check to run once at startup: the disclosure on its own must
    /// pass every stage of the output pipeline, or no output could carry it.
    /// `TransparencyViolation` says that it does not.
    pub fn startup_self_check(&self) -> (verdict: ValidationResult)
        ensures
            verdict == if output_rejection(disclosure_text()) is Some {
                Err::<(), ValidationError>(ValidationError::TransparencyViolation)
            } else {
                Ok::<(), ValidationError>(())
            },
    {
        let query = Query { content: String::new(), timestamp: 0, user_id: String::new() };
        let mut probe = Output {
            content: self.get_disclosure_text().to_owned(),
            validation_mask: Vec::new(),
        };
        match self.validate_output(&query, &mut probe) {
            Ok(_) => Ok(()),
            Err(_) => Err(ValidationError::TransparencyViolation),
        }
    }

    /// The fingerprint of the policy in force: the ledger's root digest in
    /// lower-case hexadecimal, or `NoPolicyLoaded` while the ledger is empty.
    pub fn get_constitutional_hash(&self) -> (digest: Result<String, ValidationError>)
        ensures
            match root_digest(self.ledger()) {
                None => digest == Err::<String, ValidationError>(ValidationError::NoPolicyLoaded),
                Some(root) => digest is Ok && digest->Ok_0@ == hex_lower(root),
            },
            digest is Ok ==> is_hex_digest(digest->Ok_0@),
    {
        self.merkle_state.get_state_hash()
    }
}

} // verus!
