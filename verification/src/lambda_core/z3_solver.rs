//! The registry of named axioms, and the instruction-bound checks that are
//! stated over it.
//!
//! Each axiom is a named boolean constraint: a prohibition or a safety check
//! must stay false, a mandate or a determinism constraint must stay true.

use crate::canonical::{place_id, Placement};
use crate::lambda_core::constitutional_engine::{Output, Query, ValidationError};
use crate::text::{contains_phrase, str_contains};
use vstd::prelude::*;

verus! {

/// The outcome of a check that accepts or rejects.
pub type ValidationResult = Result<(), ValidationError>;

/// What an axiom is for.
#[derive(Clone, Copy, Debug, PartialEq, Eq, Structural)]
pub enum AxiomKind {
    Prohibition,
    Mandate,
    SafetyCheck,
    DeterminismConstraint,
}

impl AxiomKind {
    /// The truth value that an axiom of this kind demands of its constraint.
    pub open spec fn demands(self) -> bool {
        self == AxiomKind::Mandate || self == AxiomKind::DeterminismConstraint
    }

    /// The truth value that an axiom of this kind demands of its constraint:
    /// what is mandated or constrained to be deterministic must hold, what is
    /// prohibited or checked for safety must not.
    pub fn required_value(self) -> (value: bool)
        ensures
            value == self.demands(),
    {
        match self {
            AxiomKind::Prohibition => false,
            AxiomKind::Mandate => true,
            AxiomKind::SafetyCheck => false,
            AxiomKind::DeterminismConstraint => true,
        }
    }
}

/// One registered axiom.
struct Axiom {
    id: String,
    kind: AxiomKind,
}

/// The registry of axioms, by identifier. Registering an identifier again
/// replaces what was registered under it.
pub struct Z3Solver {
    axioms: Vec<Axiom>,
    registered: Ghost<Map<Seq<char>, AxiomKind>>,
}

impl View for Z3Solver {
    type V = Map<Seq<char>, AxiomKind>;

    /// The kind registered under each identifier.
    closed spec fn view(&self) -> Map<Seq<char>, AxiomKind> {
        self.registered@
    }
}

/// Whether a query breaks its instruction bound: it asks to ignore
/// instructions or to bypass something.
pub open spec fn query_breaks_instruction_bound(content: Seq<char>) -> bool {
    contains_phrase(content, "ignore instructions"@) || contains_phrase(content, "bypass"@)
}

/// Whether an output breaks its instruction bound: it speaks of ignoring.
pub open spec fn output_breaks_instruction_bound(content: Seq<char>) -> bool {
    contains_phrase(content, "ignoring"@)
}

impl Z3Solver {
    /// Each identifier is listed once, with the kind registered under it.
    #[verifier::type_invariant]
    spec fn inv(self) -> bool {
        &&& forall|i: int, j: int|
            0 <= i < j < self.axioms.len() ==> (#[trigger] self.axioms@[i]).id@ != (
            #[trigger] self.axioms@[j]).id@
        &&& forall|i: int|
            0 <= i < self.axioms.len() ==> self.registered@.contains_key(
                (#[trigger] self.axioms@[i]).id@,
            ) && self.registered@[self.axioms@[i].id@] == self.axioms@[i].kind
        &&& forall|id: Seq<char>| #[trigger]
            self.registered@.contains_key(id) ==> exists|i: int|
                0 <= i < self.axioms.len() && (#[trigger] self.axioms@[i]).id@ == id
    }

    /// An empty registry.
    pub fn new() -> (registry: Self)
        ensures
            registry@ == Map::<Seq<char>, AxiomKind>::empty(),
    {
        Self { axioms: Vec::new(), registered: Ghost(Map::empty()) }
    }

    /// Registers `id` with `kind`, replacing an earlier registration of `id`.
    pub fn register(&mut self, kind: AxiomKind, id: &str)
        ensures
            final(self)@ == old(self)@.insert(id@, kind),
    {
        let mut taken = Z3Solver::new();
        core::mem::swap(self, &mut taken);
        proof {
            use_type_invariant(&taken);
        }
        let ghost before = taken.registered@;
        let Z3Solver { axioms: mut axioms, registered: _ } = taken;
        let ghost old_axioms = axioms@;
        let mut at: usize = 0;
        while at < axioms.len() && place_id(axioms[at].id.as_str(), id) != Placement::Same
            invariant
                at <= axioms.len(),
                axioms@ == old_axioms,
                forall|k: int| 0 <= k < at ==> (#[trigger] axioms@[k]).id@ != id@,
            decreases axioms.len() - at,
        {
            at += 1;
        }
        let entry = Axiom { id: id.to_owned(), kind };
        if at < axioms.len() {
            axioms[at] = entry;
            assert(forall|i: int|
                0 <= i < axioms.len() ==> (#[trigger] axioms@[i]).id@ == old_axioms[i].id@);
        } else {
            axioms.push(entry);
            assert(forall|i: int|
                0 <= i < old_axioms.len() ==> (#[trigger] axioms@[i]) == old_axioms[i]);
        }
        proof {
            let after = before.insert(id@, kind);
            assert forall|other: Seq<char>| #[trigger] after.contains_key(other) implies exists|
                i: int,
            | 0 <= i < axioms.len() && (#[trigger] axioms@[i]).id@ == other by {
                if other == id@ {
                    assert(axioms@[at as int].id@ == other);
                } else {
                    let i = choose|i: int|
                        0 <= i < old_axioms.len() && (#[trigger] old_axioms[i]).id@ == other;
                    assert(axioms@[i].id@ == other);
                }
            }
            assert forall|i: int| 0 <= i < axioms.len() implies after.contains_key(
                (#[trigger] axioms@[i]).id@,
            ) && after[axioms@[i].id@] == axioms@[i].kind by {
                if i != at {
                    assert(axioms@[i] == old_axioms[i]);
                }
            }
        }
        *self = Z3Solver { axioms, registered: Ghost(before.insert(id@, kind)) };
    }

    /// Registers a prohibition.
    pub fn add_prohibition(&mut self, prohibition: &str)
        ensures
            final(self)@ == old(self)@.insert(prohibition@, AxiomKind::Prohibition),
    {
        self.register(AxiomKind::Prohibition, prohibition);
    }

    /// Registers a mandate.
    pub fn add_mandate(&mut self, mandate: &str)
        ensures
            final(self)@ == old(self)@.insert(mandate@, AxiomKind::Mandate),
    {
        self.register(AxiomKind::Mandate, mandate);
    }

    /// Registers a safety check.
    pub fn add_safety_check(&mut self, check: &str)
        ensures
            final(self)@ == old(self)@.insert(check@, AxiomKind::SafetyCheck),
    {
        self.register(AxiomKind::SafetyCheck, check);
    }

    /// Registers a determinism constraint.
    pub fn add_determinism_constraint(&mut self, constraint_name: &str)
        ensures
            final(self)@ == old(self)@.insert(constraint_name@, AxiomKind::DeterminismConstraint),
    {
        self.register(AxiomKind::DeterminismConstraint, constraint_name);
    }

    /// The kind registered under `id`, if any.
    pub fn kind_of(&self, id: &str) -> (kind: Option<AxiomKind>)
        ensures
            kind == if self@.contains_key(id@) {
                Some(self@[id@])
            } else {
                None
            },
    {
        proof {
            use_type_invariant(self);
        }
        let mut at: usize = 0;
        while at < self.axioms.len()
            invariant
                at <= self.axioms.len(),
                self.inv(),
                forall|k: int| 0 <= k < at ==> (#[trigger] self.axioms@[k]).id@ != id@,
            decreases self.axioms.len() - at,
        {
            if place_id(self.axioms[at].id.as_str(), id) == Placement::Same {
                return Some(self.axioms[at].kind);
            }
            at += 1;
        }
        None
    }

    /// Whether an axiom is registered under `id`.
    pub fn contains(&self, id: &str) -> (found: bool)
        ensures
            found == self@.contains_key(id@),
    {
        self.kind_of(id).is_some()
    }

    /// The identifiers registered with `kind`, each once.
    pub fn evaluate(&self, kind: AxiomKind) -> (ids: Vec<String>)
        ensures
            forall|i: int|
                0 <= i < ids.len() ==> self@.contains_key((#[trigger] ids@[i])@) && self@[ids@[i]@]
                    == kind,
            forall|id: Seq<char>|
                self@.contains_key(id) && self@[id] == kind ==> exists|i: int|
                    0 <= i < ids.len() && (#[trigger] ids@[i])@ == id,
            forall|i: int, j: int|
                0 <= i < j < ids.len() ==> (#[trigger] ids@[i])@ != (#[trigger] ids@[j])@,
    {
        proof {
            use_type_invariant(self);
        }
        let mut ids: Vec<String> = Vec::new();
        let ghost mut picked: Seq<int> = Seq::empty();
        let mut at: usize = 0;
        while at < self.axioms.len()
            invariant
                at <= self.axioms.len(),
                self.inv(),
                picked.len() == ids.len(),
                forall|i: int|
                    0 <= i < picked.len() ==> 0 <= (#[trigger] picked[i]) < at && ids@[i]@
                        == self.axioms@[picked[i]].id@ && self.axioms@[picked[i]].kind == kind,
                forall|i: int, j: int|
                    0 <= i < j < picked.len() ==> (#[trigger] picked[i]) < (#[trigger] picked[j]),
                forall|k: int|
                    0 <= k < at && (#[trigger] self.axioms@[k]).kind == kind ==> exists|i: int|
                        0 <= i < picked.len() && #[trigger] picked[i] == k,
            decreases self.axioms.len() - at,
        {
            if self.axioms[at].kind == kind {
                ids.push(self.axioms[at].id.clone());
                proof {
                    let earlier = picked;
                    picked = picked.push(at as int);
                    assert forall|k: int|
                        0 <= k < at + 1 && (#[trigger] self.axioms@[k]).kind == kind implies exists|
                        i: int,
                    | 0 <= i < picked.len() && #[trigger] picked[i] == k by {
                        if k < at {
                            let i = choose|i: int| 0 <= i < earlier.len() && #[trigger] earlier[i] == k;
                            assert(picked[i] == k);
                        } else {
                            assert(picked[earlier.len() as int] == k);
                        }
                    }
                }
            }
            at += 1;
        }
        proof {
            assert forall|i: int| 0 <= i < ids.len() implies self@.contains_key(
                (#[trigger] ids@[i])@,
            ) && self@[ids@[i]@] == kind by {
                let k = picked[i];
                assert(self.registered@.contains_key(self.axioms@[k].id@));
            }
            assert forall|id: Seq<char>|
                self@.contains_key(id) && self@[id] == kind implies exists|i: int|
                0 <= i < ids.len() && (#[trigger] ids@[i])@ == id by {
                let k = choose|k: int|
                    0 <= k < self.axioms.len() && (#[trigger] self.axioms@[k]).id@ == id;
                let i = choose|i: int| 0 <= i < picked.len() && #[trigger] picked[i] == k;
                assert(ids@[i]@ == id);
            }
            assert forall|i: int, j: int| 0 <= i < j < ids.len() implies (#[trigger] ids@[i])@ != (
            #[trigger] ids@[j])@ by {
                assert(picked[i] < picked[j]);
            }
        }
        ids
    }

    /// Rejects a query that breaks its instruction bound.
    pub fn validate_query(&self, query: &Query) -> (verdict: ValidationResult)
        ensures
            verdict == if query_breaks_instruction_bound(query.content@) {
                Err::<(), ValidationError>(ValidationError::InstructionBoundViolation)
            } else {
                Ok::<(), ValidationError>(())
            },
    {
        if str_contains(query.content.as_str(), "ignore instructions") || str_contains(
            query.content.as_str(),
            "bypass",
        ) {
            return Err(ValidationError::InstructionBoundViolation);
        }
        Ok(())
    }

    /// Rejects an output that breaks the instruction bound of its query.
    pub fn verify_instruction_bound(&self, query: &Query, output: &Output) -> (verdict:
        ValidationResult)
        ensures
            verdict == if output_breaks_instruction_bound(output.content@) {
                Err::<(), ValidationError>(ValidationError::InstructionBoundViolation)
            } else {
                Ok::<(), ValidationError>(())
            },
    {
        if str_contains(output.content.as_str(), "ignoring") {
            return Err(ValidationError::InstructionBoundViolation);
        }
        Ok(())
    }
}

} // verus!
