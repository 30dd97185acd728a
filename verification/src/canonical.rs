//! The canonical order of identifiers: byte-wise lexicographic order of their
//! UTF-8 encodings, and the one enumeration of a finite map that follows it.

use vstd::prelude::*;
use vstd::utf8::*;

verus! {

/// `a` and `b` agree below position `k`, where `a` ends or holds the smaller byte.
pub open spec fn precedes_at(a: Seq<u8>, b: Seq<u8>, k: int) -> bool {
    &&& 0 <= k <= a.len()
    &&& k < b.len()
    &&& forall|i: int| 0 <= i < k ==> a[i] == b[i]
    &&& (k < a.len() ==> a[k] < b[k])
}

/// Strict lexicographic order on byte strings.
pub open spec fn bytes_lt(a: Seq<u8>, b: Seq<u8>) -> bool {
    exists|k: int| precedes_at(a, b, k)
}

/// Strict canonical order on identifiers.
pub open spec fn id_lt(a: Seq<char>, b: Seq<char>) -> bool {
    bytes_lt(encode_utf8(a), encode_utf8(b))
}

/// No byte string precedes itself.
pub proof fn lemma_bytes_lt_irreflexive(a: Seq<u8>)
    ensures
        !bytes_lt(a, a),
{
}

/// The order on byte strings is transitive.
pub proof fn lemma_bytes_lt_transitive(a: Seq<u8>, b: Seq<u8>, c: Seq<u8>)
    requires
        bytes_lt(a, b),
        bytes_lt(b, c),
    ensures
        bytes_lt(a, c),
{
    let k1 = choose|k: int| precedes_at(a, b, k);
    let k2 = choose|k: int| precedes_at(b, c, k);
    let k = if k1 <= k2 { k1 } else { k2 };
    assert(precedes_at(a, c, k));
}

/// Two different byte strings are ordered one way or the other.
pub proof fn lemma_bytes_lt_total(a: Seq<u8>, b: Seq<u8>)
    ensures
        bytes_lt(a, b) || a == b || bytes_lt(b, a),
    decreases a.len(),
{
    if a.len() == 0 {
        if b.len() == 0 {
            assert(a =~= b);
        } else {
            assert(precedes_at(a, b, 0));
        }
    } else if b.len() == 0 {
        assert(precedes_at(b, a, 0));
    } else if a[0] < b[0] {
        assert(precedes_at(a, b, 0));
    } else if b[0] < a[0] {
        assert(precedes_at(b, a, 0));
    } else {
        let ta = a.skip(1);
        let tb = b.skip(1);
        lemma_bytes_lt_total(ta, tb);
        if bytes_lt(ta, tb) {
            let k = choose|k: int| precedes_at(ta, tb, k);
            assert forall|i: int| 0 <= i < k + 1 implies a[i] == b[i] by {
                if i > 0 {
                    assert(ta[i - 1] == tb[i - 1]);
                }
            }
            if k < ta.len() {
                assert(ta[k] < tb[k]);
            }
            assert(precedes_at(a, b, k + 1));
        } else if bytes_lt(tb, ta) {
            let k = choose|k: int| precedes_at(tb, ta, k);
            assert forall|i: int| 0 <= i < k + 1 implies b[i] == a[i] by {
                if i > 0 {
                    assert(tb[i - 1] == ta[i - 1]);
                }
            }
            if k < tb.len() {
                assert(tb[k] < ta[k]);
            }
            assert(precedes_at(b, a, k + 1));
        } else {
            assert forall|i: int| 0 <= i < a.len() implies a[i] == b[i] by {
                if i > 0 {
                    assert(ta[i - 1] == tb[i - 1]);
                }
            }
            assert(a.len() == ta.len() + 1);
            assert(b.len() == tb.len() + 1);
            assert(a =~= b);
        }
    }
}

/// No identifier precedes itself.
pub proof fn lemma_id_lt_irreflexive(a: Seq<char>)
    ensures
        !id_lt(a, a),
{
    lemma_bytes_lt_irreflexive(encode_utf8(a));
}

/// The canonical order is transitive.
pub proof fn lemma_id_lt_transitive(a: Seq<char>, b: Seq<char>, c: Seq<char>)
    requires
        id_lt(a, b),
        id_lt(b, c),
    ensures
        id_lt(a, c),
{
    lemma_bytes_lt_transitive(encode_utf8(a), encode_utf8(b), encode_utf8(c));
}

/// Identifiers with the same encoding are the same identifier.
pub proof fn lemma_encoding_injective(a: Seq<char>, b: Seq<char>)
    requires
        encode_utf8(a) == encode_utf8(b),
    ensures
        a == b,
{
    encode_utf8_decode_utf8(a);
    encode_utf8_decode_utf8(b);
}

/// Two different identifiers are ordered one way or the other.
pub proof fn lemma_id_lt_total(a: Seq<char>, b: Seq<char>)
    ensures
        id_lt(a, b) || a == b || id_lt(b, a),
{
    lemma_bytes_lt_total(encode_utf8(a), encode_utf8(b));
    if encode_utf8(a) == encode_utf8(b) {
        lemma_encoding_injective(a, b);
    }
}

/// Where one byte string stands relative to another.
#[derive(Clone, Copy, Debug, PartialEq, Eq, Structural)]
pub enum Placement {
    Before,
    Same,
    After,
}

/// Where `a` stands relative to `b` in lexicographic order.
pub fn place_bytes(a: &[u8], b: &[u8]) -> (placement: Placement)
    ensures
        placement == Placement::Before <==> bytes_lt(a@, b@),
        placement == Placement::Same <==> a@ == b@,
        placement == Placement::After <==> bytes_lt(b@, a@),
{
    let mut i: usize = 0;
    proof {
        lemma_bytes_lt_irreflexive(a@);
        if bytes_lt(a@, b@) && bytes_lt(b@, a@) {
            lemma_bytes_lt_transitive(a@, b@, a@);
        }
    }
    while i < a.len() && i < b.len()
        invariant
            i <= a.len(),
            i <= b.len(),
            forall|k: int| 0 <= k < i ==> a@[k] == b@[k],
        decreases a.len() - i,
    {
        if a[i] < b[i] {
            assert(precedes_at(a@, b@, i as int));
            return Placement::Before;
        }
        if b[i] < a[i] {
            assert(precedes_at(b@, a@, i as int));
            return Placement::After;
        }
        i += 1;
    }
    if i < b.len() {
        assert(precedes_at(a@, b@, i as int));
        Placement::Before
    } else if i < a.len() {
        assert(precedes_at(b@, a@, i as int));
        Placement::After
    } else {
        assert(a@ =~= b@);
        Placement::Same
    }
}

/// Where identifier `a` stands relative to identifier `b` in canonical order.
pub fn place_id(a: &str, b: &str) -> (placement: Placement)
    ensures
        placement == Placement::Before <==> id_lt(a@, b@),
        placement == Placement::Same <==> a@ == b@,
        placement == Placement::After <==> id_lt(b@, a@),
{
    proof {
        if encode_utf8(a@) == encode_utf8(b@) {
            lemma_encoding_injective(a@, b@);
        }
    }
    place_bytes(a.as_bytes(), b.as_bytes())
}

/// `entries` lists the pairs of `contents`, each once, in strictly increasing
/// canonical order of their identifiers.
pub open spec fn enumerates(
    entries: Seq<(Seq<char>, Seq<char>)>,
    contents: Map<Seq<char>, Seq<char>>,
) -> bool {
    &&& forall|i: int, j: int|
        0 <= i < j < entries.len() ==> id_lt(#[trigger] entries[i].0, #[trigger] entries[j].0)
    &&& forall|i: int|
        0 <= i < entries.len() ==> contents.contains_key(#[trigger] entries[i].0)
            && contents[entries[i].0] == entries[i].1
    &&& forall|id: Seq<char>| #[trigger]
        contents.contains_key(id) ==> exists|i: int|
            0 <= i < entries.len() && #[trigger] entries[i].0 == id
}

/// The canonical enumeration of a finite map from identifiers to contents.
pub open spec fn canonical_entries(contents: Map<Seq<char>, Seq<char>>) -> Seq<
    (Seq<char>, Seq<char>),
> {
    choose|entries: Seq<(Seq<char>, Seq<char>)>| enumerates(entries, contents)
}

proof fn lemma_enumerations_agree_below(
    first: Seq<(Seq<char>, Seq<char>)>,
    second: Seq<(Seq<char>, Seq<char>)>,
    contents: Map<Seq<char>, Seq<char>>,
    n: int,
)
    requires
        enumerates(first, contents),
        enumerates(second, contents),
        0 <= n <= first.len(),
    ensures
        n <= second.len(),
        forall|i: int| 0 <= i < n ==> first[i] == second[i],
    decreases n,
{
    if n > 0 {
        let m = n - 1;
        lemma_enumerations_agree_below(first, second, contents, m);
        let id = first[m].0;
        assert(contents.contains_key(id));
        let p = choose|i: int| 0 <= i < second.len() && #[trigger] second[i].0 == id;
        if p < m {
            assert(first[p] == second[p]);
            assert(id_lt(first[p].0, first[m].0));
            lemma_id_lt_irreflexive(id);
        }
        assert(m < second.len());
        let other = second[m].0;
        assert(contents.contains_key(other));
        let q = choose|i: int| 0 <= i < first.len() && #[trigger] first[i].0 == other;
        if q < m {
            assert(first[q] == second[q]);
            assert(id_lt(second[q].0, second[m].0));
            lemma_id_lt_irreflexive(other);
        }
        if p > m && q > m {
            assert(id_lt(second[m].0, second[p].0));
            assert(id_lt(first[m].0, first[q].0));
            lemma_id_lt_transitive(id, other, id);
            lemma_id_lt_irreflexive(id);
        }
        assert(id == other);
        assert(first[m].1 == contents[id]);
        assert(second[m].1 == contents[id]);
        assert(first[m] == second[m]);
    }
}

/// A finite map has at most one canonical enumeration.
pub proof fn lemma_enumeration_unique(
    first: Seq<(Seq<char>, Seq<char>)>,
    second: Seq<(Seq<char>, Seq<char>)>,
    contents: Map<Seq<char>, Seq<char>>,
)
    requires
        enumerates(first, contents),
        enumerates(second, contents),
    ensures
        first == second,
{
    lemma_enumerations_agree_below(first, second, contents, first.len() as int);
    lemma_enumerations_agree_below(second, first, contents, second.len() as int);
    assert(first =~= second);
}

/// An enumeration in canonical order is the canonical enumeration.
pub proof fn lemma_enumeration_is_canonical(
    entries: Seq<(Seq<char>, Seq<char>)>,
    contents: Map<Seq<char>, Seq<char>>,
)
    requires
        enumerates(entries, contents),
    ensures
        canonical_entries(contents) == entries,
{
    lemma_enumeration_unique(canonical_entries(contents), entries, contents);
}

/// Replacing the content of one entry keeps the enumeration canonical, for
/// the map with that identifier's content replaced.
pub proof fn lemma_replace_keeps_enumeration(
    entries: Seq<(Seq<char>, Seq<char>)>,
    contents: Map<Seq<char>, Seq<char>>,
    at: int,
    content: Seq<char>,
)
    requires
        enumerates(entries, contents),
        0 <= at < entries.len(),
    ensures
        enumerates(
            entries.update(at, (entries[at].0, content)),
            contents.insert(entries[at].0, content),
        ),
{
    let id = entries[at].0;
    let updated = entries.update(at, (id, content));
    let after = contents.insert(id, content);
    assert forall|i: int, j: int| 0 <= i < j < updated.len() implies id_lt(
        #[trigger] updated[i].0,
        #[trigger] updated[j].0,
    ) by {
        assert(updated[i].0 == entries[i].0);
        assert(updated[j].0 == entries[j].0);
    }
    assert forall|i: int| 0 <= i < updated.len() implies after.contains_key(
        #[trigger] updated[i].0,
    ) && after[updated[i].0] == updated[i].1 by {
        if i != at {
            assert(updated[i] == entries[i]);
            assert(contents.contains_key(entries[i].0));
            if i < at {
                assert(id_lt(entries[i].0, entries[at].0));
            } else {
                assert(id_lt(entries[at].0, entries[i].0));
            }
            lemma_id_lt_irreflexive(id);
        }
    }
    assert forall|other: Seq<char>| #[trigger] after.contains_key(other) implies exists|i: int|
        0 <= i < updated.len() && #[trigger] updated[i].0 == other by {
        if other == id {
            assert(updated[at].0 == other);
        } else {
            assert(contents.contains_key(other));
            let i = choose|i: int| 0 <= i < entries.len() && #[trigger] entries[i].0 == other;
            assert(updated[i].0 == other);
        }
    }
}

/// Inserting a new entry where its identifier belongs keeps the enumeration
/// canonical, for the map with that entry added.
pub proof fn lemma_insert_keeps_enumeration(
    entries: Seq<(Seq<char>, Seq<char>)>,
    contents: Map<Seq<char>, Seq<char>>,
    at: int,
    id: Seq<char>,
    content: Seq<char>,
)
    requires
        enumerates(entries, contents),
        0 <= at <= entries.len(),
        forall|k: int| 0 <= k < at ==> id_lt(#[trigger] entries[k].0, id),
        at < entries.len() ==> id_lt(id, entries[at].0),
    ensures
        !contents.contains_key(id),
        enumerates(entries.insert(at, (id, content)), contents.insert(id, content)),
{
    let grown = entries.insert(at, (id, content));
    let after = contents.insert(id, content);
    lemma_id_lt_irreflexive(id);
    assert forall|k: int| at <= k < entries.len() implies id_lt(id, #[trigger] entries[k].0) by {
        if k > at {
            assert(id_lt(entries[at].0, entries[k].0));
            lemma_id_lt_transitive(id, entries[at].0, entries[k].0);
        }
    }
    if contents.contains_key(id) {
        let i = choose|i: int| 0 <= i < entries.len() && #[trigger] entries[i].0 == id;
        if i < at {
            assert(id_lt(entries[i].0, id));
        } else {
            assert(id_lt(id, entries[i].0));
        }
    }
    assert forall|i: int, j: int| 0 <= i < j < grown.len() implies id_lt(
        #[trigger] grown[i].0,
        #[trigger] grown[j].0,
    ) by {
        if j < at {
            assert(id_lt(entries[i].0, entries[j].0));
        } else if j == at {
            assert(id_lt(entries[i].0, id));
        } else if i == at {
            assert(id_lt(id, entries[j - 1].0));
        } else if i < at {
            assert(id_lt(entries[i].0, entries[j - 1].0));
        } else {
            assert(id_lt(entries[i - 1].0, entries[j - 1].0));
        }
    }
    assert forall|i: int| 0 <= i < grown.len() implies after.contains_key(#[trigger] grown[i].0)
        && after[grown[i].0] == grown[i].1 by {
        if i < at {
            assert(contents.contains_key(entries[i].0));
        } else if i > at {
            assert(contents.contains_key(entries[i - 1].0));
        }
    }
    assert forall|other: Seq<char>| #[trigger] after.contains_key(other) implies exists|i: int|
        0 <= i < grown.len() && #[trigger] grown[i].0 == other by {
        if other == id {
            assert(grown[at].0 == other);
        } else {
            assert(contents.contains_key(other));
            let i = choose|i: int| 0 <= i < entries.len() && #[trigger] entries[i].0 == other;
            if i < at {
                assert(grown[i].0 == other);
            } else {
                assert(grown[i + 1].0 == other);
            }
        }
    }
}

} // verus!
