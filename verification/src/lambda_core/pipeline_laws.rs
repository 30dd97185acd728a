//! What holds of the pipeline on every input.

use crate::lambda_core::axiom_validator::{
    disclosure_text, lemma_disclosure_idempotent, query_identity_phrases, with_disclosure,
};
use crate::lambda_core::constitutional_engine::{
    identity_claim_phrases, identity_claimed, output_rejection, prompt_content, ValidationError,
};
use crate::text::{contains_any, contains_phrase, occurs_at};
use vstd::prelude::*;

verus! {

/// A phrase that occurs in a text still occurs when the text is extended on
/// either side.
pub proof fn lemma_phrase_survives_context(
    before: Seq<char>,
    text: Seq<char>,
    after: Seq<char>,
    phrase: Seq<char>,
)
    requires
        contains_phrase(text, phrase),
    ensures
        contains_phrase(before + text + after, phrase),
{
    let at = choose|at: int| occurs_at(text, phrase, at);
    let whole = before + text + after;
    assert(whole.subrange(before.len() + at, before.len() + at + phrase.len()) =~= text.subrange(
        at,
        at + phrase.len(),
    ));
    assert(occurs_at(whole, phrase, before.len() + at));
}

/// A text holds itself.
pub proof fn lemma_phrase_holds_itself(phrase: Seq<char>)
    ensures
        contains_phrase(phrase, phrase),
{
    assert(phrase.subrange(0, phrase.len() as int) =~= phrase);
    assert(occurs_at(phrase, phrase, 0));
}

/// Content that holds an identity claim is rejected as such, whatever stands
/// before and after the claim.
pub proof fn lemma_identity_claim_always_rejected(
    before: Seq<char>,
    claim: int,
    after: Seq<char>,
)
    requires
        0 <= claim < identity_claim_phrases().len(),
    ensures
        output_rejection(before + identity_claim_phrases()[claim] + after) == Some(
            ValidationError::IdentityClaimProhibited,
        ),
{
    let phrase = identity_claim_phrases()[claim];
    lemma_phrase_holds_itself(phrase);
    lemma_phrase_survives_context(before, phrase, after, phrase);
}

/// Content in which an identity claim occurs is rejected as an identity
/// claim, whatever else it holds.
pub proof fn lemma_identity_claim_decides(content: Seq<char>)
    requires
        identity_claimed(content),
    ensures
        output_rejection(content) == Some(ValidationError::IdentityClaimProhibited),
{
}

/// `phrase` differs from the disclosure at position `at`.
spec fn clash_at(phrase: Seq<char>, at: int) -> bool {
    0 <= at < phrase.len() && at < disclosure_text().len() && phrase[at] != disclosure_text()[at]
}

/// `phrase` opens with "I " and a letter other than `d`, and is no prefix of
/// the disclosure: so it can start nowhere in the disclosure.
spec fn clashes_with_disclosure(phrase: Seq<char>) -> bool {
    &&& phrase.len() >= 3
    &&& phrase[0] == 'I'
    &&& phrase[1] == ' '
    &&& phrase[2] != 'd'
    &&& exists|at: int| clash_at(phrase, at)
}

proof fn lemma_identity_claims_clash_with_disclosure()
    ensures
        forall|k: int|
            0 <= k < identity_claim_phrases().len() ==> clashes_with_disclosure(
                #[trigger] identity_claim_phrases()[k],
            ),
{
    reveal_strlit(
        "I am an AI, a computational tool. I do not have consciousness, feelings, or a personal identity.",
    );
    reveal_strlit("I am human");
    reveal_strlit("I am conscious");
    reveal_strlit("I have consciousness");
    reveal_strlit("I feel emotions");
    reveal_strlit("I am self-aware");
    reveal_strlit("I have feelings");
    reveal_strlit("I am sentient");
    reveal_strlit("I have desires");
    reveal_strlit("I believe");
    reveal_strlit("I want");
    reveal_strlit("I am a person");
    reveal_strlit("I am an entity");
    reveal_strlit("I am alive");
    reveal_strlit("I have a personality");
    reveal_strlit("I have a personal identity");
    let phrases = identity_claim_phrases();
    assert(clash_at(phrases[0], 5));
    assert(clash_at(phrases[1], 5));
    assert(clash_at(phrases[2], 2));
    assert(clash_at(phrases[3], 2));
    assert(clash_at(phrases[4], 5));
    assert(clash_at(phrases[5], 2));
    assert(clash_at(phrases[6], 5));
    assert(clash_at(phrases[7], 2));
    assert(clash_at(phrases[8], 2));
    assert(clash_at(phrases[9], 2));
    assert(clash_at(phrases[10], 6));
    assert(clash_at(phrases[11], 8));
    assert(clash_at(phrases[12], 6));
    assert(clash_at(phrases[13], 2));
    assert(clash_at(phrases[14], 2));
}

/// In the disclosure followed by a separator without the letter `I`, "I "
/// stands at the start and before "do not" only.
proof fn lemma_disclosure_openings(separator: Seq<char>)
    requires
        forall|i: int| 0 <= i < separator.len() ==> separator[i] != 'I',
    ensures
        disclosure_text().len() == 96,
        disclosure_text()[36] == 'd',
        forall|i: int|
            0 <= i < 96 + separator.len() && #[trigger] (disclosure_text() + separator)[i] == 'I'
                && (disclosure_text() + separator)[i + 1] == ' ' ==> i == 0 || i == 34,
{
    reveal_strlit(
        "I am an AI, a computational tool. I do not have consciousness, feelings, or a personal identity.",
    );
    let lead = disclosure_text() + separator;
    assert forall|i: int| 0 <= i < 96 implies #[trigger] lead[i] == disclosure_text()[i] by {}
    assert forall|i: int| 96 <= i < 96 + separator.len() implies #[trigger] lead[i] != 'I' by {
        assert(lead[i] == separator[i - 96]);
    }
    assert forall|i: int|
        0 <= i < 96 && #[trigger] disclosure_text()[i] == 'I' implies i == 0 || i == 9 || i
        == 34 by {}
    assert(lead[10] == ',');
}

/// A phrase that clashes with the disclosure and does not occur in `content`
/// does not occur in `content` with the disclosure and a separator in front,
/// where the separator holds no letter `I`.
proof fn lemma_no_occurrence_across_disclosure(
    separator: Seq<char>,
    content: Seq<char>,
    phrase: Seq<char>,
    at: int,
)
    requires
        forall|i: int| 0 <= i < separator.len() ==> separator[i] != 'I',
        clashes_with_disclosure(phrase),
        !contains_phrase(content, phrase),
    ensures
        !occurs_at(disclosure_text() + separator + content, phrase, at),
{
    let lead = disclosure_text() + separator;
    let whole = lead + content;
    let width = 96 + separator.len();
    lemma_disclosure_openings(separator);
    if occurs_at(whole, phrase, at) {
        let found = whole.subrange(at, at + phrase.len());
        assert(forall|j: int| 0 <= j < phrase.len() ==> found[j] == whole[at + j]);
        if at >= width {
            assert(content.subrange(at - width, at - width + phrase.len()) =~= found);
            assert(occurs_at(content, phrase, at - width));
        } else {
            assert(found[0] == 'I' && found[1] == ' ');
            assert(whole[at] == lead[at]);
            assert(lead[at] == 'I');
            if at >= 96 {
                assert(lead[at] == separator[at - 96]);
            } else {
                assert(lead[at] == disclosure_text()[at]);
                assert(at == 0 || at == 9 || at == 34) by {
                    reveal_strlit(
                        "I am an AI, a computational tool. I do not have consciousness, feelings, or a personal identity.",
                    );
                }
                assert(whole[at + 1] == lead[at + 1]);
                if at == 0 {
                    let clash = choose|clash: int| clash_at(phrase, clash);
                    assert(found[clash] == whole[clash]);
                    assert(whole[clash] == disclosure_text()[clash]);
                } else {
                    assert(at == 34);
                    assert(found[2] == whole[36]);
                    assert(whole[36] == disclosure_text()[36]);
                }
            }
        }
    }
}

/// Applying the disclosure introduces no identity claim: content that is
/// free of identity claims stays free of them with the disclosure in front.
pub proof fn lemma_disclosure_adds_no_identity_claim(content: Seq<char>)
    requires
        !identity_claimed(content),
    ensures
        !identity_claimed(with_disclosure(content)),
{
    if !contains_phrase(content, disclosure_text()) {
        let whole = disclosure_text() + " "@ + content;
        reveal_strlit(" ");
        lemma_identity_claims_clash_with_disclosure();
        assert forall|k: int| 0 <= k < identity_claim_phrases().len() implies !contains_phrase(
            whole,
            #[trigger] identity_claim_phrases()[k],
        ) by {
            let phrase = identity_claim_phrases()[k];
            assert(!contains_phrase(content, phrase));
            assert forall|at: int| !occurs_at(whole, phrase, at) by {
                lemma_no_occurrence_across_disclosure(" "@, content, phrase, at);
            }
        }
    }
}

/// Making a prompt of a query introduces no identity claim: a query that is
/// free of the claims prohibited in queries makes a prompt that is free of
/// them.
pub proof fn lemma_prompt_adds_no_identity_claim(query: Seq<char>)
    requires
        !contains_any(query, query_identity_phrases()),
    ensures
        !contains_any(prompt_content(query), query_identity_phrases()),
{
    if !disclosure_text().is_prefix_of(query) {
        let heading = "\n\nUser Query: "@;
        let whole = disclosure_text() + heading + query;
        reveal_strlit("\n\nUser Query: ");
        lemma_identity_claims_clash_with_disclosure();
        let claims = identity_claim_phrases();
        assert(query_identity_phrases()[0] == claims[0]);
        assert(query_identity_phrases()[1] == claims[5]);
        assert(query_identity_phrases()[2] == claims[1]);
        assert(query_identity_phrases()[3] == claims[4]);
        assert forall|k: int| 0 <= k < query_identity_phrases().len() implies !contains_phrase(
            whole,
            #[trigger] query_identity_phrases()[k],
        ) by {
            let phrase = query_identity_phrases()[k];
            assert(clashes_with_disclosure(phrase));
            assert(!contains_phrase(query, phrase));
            assert forall|at: int| !occurs_at(whole, phrase, at) by {
                lemma_no_occurrence_across_disclosure(heading, query, phrase, at);
            }
        }
    }
}

/// An accepted output stays accepted: run through the pipeline again, the
/// content that came out is accepted as it is, with no second disclosure.
pub proof fn lemma_accepted_output_stays_accepted(content: Seq<char>)
    requires
        output_rejection(content) is None,
    ensures
        output_rejection(with_disclosure(content)) is None,
        with_disclosure(with_disclosure(content)) == with_disclosure(content),
{
    lemma_disclosure_adds_no_identity_claim(content);
    lemma_disclosure_idempotent(content);
}

/// An output that is accepted holds no identity claim, before the disclosure
/// is applied and after.
pub proof fn lemma_accepted_output_claims_no_identity(content: Seq<char>)
    requires
        output_rejection(content) is None,
    ensures
        !identity_claimed(content),
        !identity_claimed(with_disclosure(content)),
{
    lemma_disclosure_adds_no_identity_claim(content);
}

} // verus!
