//! The mathematical model of an ordered key/value bag: a sequence of
//! `(key, value)` pairs with the insertion policy of an insertion-ordered map.
use serde_json::Value;
use vstd::prelude::*;

verus! {

/// One wire entry, as the contracts see it.
pub type EntryView = (Seq<char>, Value);

/// The view of a vector of owned entries.
pub open spec fn entries_view(v: Seq<(String, Value)>) -> Seq<EntryView> {
    v.map_values(|e: (String, Value)| (e.0@, e.1))
}

/// Taking the first entry off a vector.
pub proof fn lemma_entries_view_remove_first(v: Seq<(String, Value)>)
    requires
        v.len() > 0,
    ensures
        entries_view(v).len() == v.len(),
        entries_view(v)[0] == (v[0].0@, v[0].1),
        entries_view(v.remove(0)) == entries_view(v).subrange(1, v.len() as int),
{
    assert(entries_view(v.remove(0)) =~= entries_view(v).subrange(1, v.len() as int));
}

/// Appending one vector to another.
pub proof fn lemma_entries_view_append(a: Seq<(String, Value)>, b: Seq<(String, Value)>)
    ensures
        entries_view(a + b) == entries_view(a) + entries_view(b),
{
    assert(entries_view(a + b) =~= entries_view(a) + entries_view(b));
}

/// Whether some entry of `s` carries the key `k`.
pub open spec fn has_key(s: Seq<EntryView>, k: Seq<char>) -> bool {
    exists|i: int| 0 <= i < s.len() && #[trigger] s[i].0 == k
}

/// No key occurs twice in `s`.
pub open spec fn keys_unique(s: Seq<EntryView>) -> bool {
    forall|i: int, j: int|
        0 <= i < s.len() && 0 <= j < s.len() && i != j ==> #[trigger] s[i].0 != #[trigger] s[j].0
}

/// Inserting into an insertion-ordered map: an existing key keeps its place
/// and takes the new value; a new key is appended.
pub open spec fn insert_entry(s: Seq<EntryView>, k: Seq<char>, v: Value) -> Seq<EntryView> {
    if has_key(s, k) {
        let i = choose|i: int| 0 <= i < s.len() && #[trigger] s[i].0 == k;
        s.update(i, (k, v))
    } else {
        s.push((k, v))
    }
}

/// Inserting every entry of `more`, in order, into `s`.
pub open spec fn insert_all(s: Seq<EntryView>, more: Seq<EntryView>) -> Seq<EntryView>
    decreases more.len(),
{
    if more.len() == 0 {
        s
    } else {
        let rest = insert_all(s, more.drop_last());
        insert_entry(rest, more.last().0, more.last().1)
    }
}

/// Inserting keeps keys unique.
pub proof fn lemma_insert_entry_unique(s: Seq<EntryView>, k: Seq<char>, v: Value)
    requires
        keys_unique(s),
    ensures
        keys_unique(insert_entry(s, k, v)),
        has_key(insert_entry(s, k, v), k),
{
    let r = insert_entry(s, k, v);
    if has_key(s, k) {
        let i = choose|i: int| 0 <= i < s.len() && #[trigger] s[i].0 == k;
        assert(r[i].0 == k);
    } else {
        assert(r[s.len() as int].0 == k);
    }
}

/// Inserting a sequence with unique keys, none of them present, into an
/// empty bag reproduces that sequence.
pub proof fn lemma_insert_all_fresh(more: Seq<EntryView>)
    requires
        keys_unique(more),
    ensures
        insert_all(Seq::empty(), more) == more,
    decreases more.len(),
{
    if more.len() > 0 {
        let init = more.drop_last();
        assert(keys_unique(init));
        lemma_insert_all_fresh(init);
        let k = more.last().0;
        if has_key(init, k) {
            let i = choose|i: int| 0 <= i < init.len() && #[trigger] init[i].0 == k;
            assert(more[i].0 == more[more.len() - 1].0);
        }
        assert(insert_all(Seq::empty(), more) =~= more);
    }
}

} // verus!

verus! {

/// The text of an optional string.
pub open spec fn opt_view(o: Option<String>) -> Option<Seq<char>> {
    match o {
        Some(s) => Some(s@),
        None => None,
    }
}

/// Reading `es` from left to right through `step`, starting from `init`;
/// the first error stops the reading.
pub open spec fn scan<P, E>(
    init: P,
    step: spec_fn(P, EntryView) -> Result<P, E>,
    es: Seq<EntryView>,
) -> Result<P, E>
    decreases es.len(),
{
    if es.len() == 0 {
        Ok(init)
    } else {
        match scan(init, step, es.drop_last()) {
            Ok(p) => step(p, es.last()),
            Err(e) => Err(e),
        }
    }
}

/// Reading one more entry.
pub proof fn lemma_scan_push<P, E>(
    init: P,
    step: spec_fn(P, EntryView) -> Result<P, E>,
    es: Seq<EntryView>,
    i: int,
)
    requires
        0 <= i < es.len(),
    ensures
        scan(init, step, es.subrange(0, i + 1)) == match scan(init, step, es.subrange(0, i)) {
            Ok(p) => step(p, es[i]),
            Err(e) => Err(e),
        },
{
    assert(es.subrange(0, i + 1).drop_last() =~= es.subrange(0, i));
}

/// Once a prefix fails, the whole reading fails with the same error.
pub proof fn lemma_scan_err_sticky<P, E>(
    init: P,
    step: spec_fn(P, EntryView) -> Result<P, E>,
    es: Seq<EntryView>,
    i: int,
)
    requires
        0 <= i <= es.len(),
        scan(init, step, es.subrange(0, i)) is Err,
    ensures
        scan(init, step, es) == scan(init, step, es.subrange(0, i)),
    decreases es.len() - i,
{
    if i == es.len() {
        assert(es.subrange(0, i) =~= es);
    } else {
        lemma_scan_push(init, step, es, i);
        lemma_scan_err_sticky(init, step, es, i + 1);
    }
}

/// The wire keys of the typed fields are distinct words.
pub proof fn lemma_wire_keys_distinct()
    ensures
        "name"@ != "description"@,
        "name"@ != "externalDocs"@,
        "name"@ != "url"@,
        "description"@ != "externalDocs"@,
        "description"@ != "url"@,
        "externalDocs"@ != "url"@,
        "externalDocs"@ != "external_docs"@,
        "name"@ != "external_docs"@,
        "description"@ != "external_docs"@,
{
    reveal_strlit("name");
    reveal_strlit("description");
    reveal_strlit("externalDocs");
    reveal_strlit("url");
    reveal_strlit("external_docs");
    assert("name"@.len() != "description"@.len());
    assert("name"@.len() != "externalDocs"@.len());
    assert("name"@.len() != "url"@.len());
    assert("description"@.len() != "externalDocs"@.len());
    assert("description"@.len() != "url"@.len());
    assert("externalDocs"@.len() != "url"@.len());
    assert("externalDocs"@[8] != "external_docs"@[8]);
    assert("name"@.len() != "external_docs"@.len());
    assert("description"@.len() != "external_docs"@.len());
}

} // verus!
