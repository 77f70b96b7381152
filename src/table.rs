//! Small tables keyed by a backend identifier: a `Vec` of entries read by
//! first match, whose keys are kept distinct.

use vstd::prelude::*;
use crate::text::same_text;

verus! {

/// One entry of a table: a backend identifier and what is held for it.
#[derive(Debug, Clone)]
pub struct Keyed<V> {
    pub key: String,
    pub value: V,
}

/// The position of the first entry of `es` for `id`, if any.
pub open spec fn first_key<V>(es: Seq<Keyed<V>>, id: Seq<char>) -> Option<int>
    decreases es.len(),
{
    if es.len() == 0 {
        None
    } else if es[0].key@ == id {
        Some(0)
    } else {
        match first_key(es.drop_first(), id) {
            Some(k) => Some(k + 1),
            None => None,
        }
    }
}

/// What the table holds for `id`.
pub open spec fn value_in<V>(es: Seq<Keyed<V>>, id: Seq<char>) -> Option<V> {
    match first_key(es, id) {
        Some(k) => Some(es[k].value),
        None => None,
    }
}

/// No two entries share a key.
pub open spec fn keys_unique<V>(es: Seq<Keyed<V>>) -> bool {
    forall|i: int, j: int| 0 <= i < j < es.len() ==> (#[trigger] es[i]).key@ != (#[trigger] es[j]).key@
}

pub proof fn lemma_first_key<V>(es: Seq<Keyed<V>>, id: Seq<char>)
    ensures
        match first_key(es, id) {
            Some(k) => 0 <= k < es.len() && es[k].key@ == id && forall|j: int| 0 <= j < k ==> es[j].key@ != id,
            None => forall|j: int| 0 <= j < es.len() ==> es[j].key@ != id,
        },
    decreases es.len(),
{
    if es.len() > 0 {
        lemma_first_key(es.drop_first(), id);
        assert forall|j: int| 1 <= j < es.len() implies es[j] == es.drop_first()[j - 1] by {}
    }
}

proof fn lemma_first_key_same_keys<V>(es: Seq<Keyed<V>>, fs: Seq<Keyed<V>>, id: Seq<char>)
    requires
        es.len() == fs.len(),
        forall|j: int| 0 <= j < es.len() ==> es[j].key@ == fs[j].key@,
    ensures
        first_key(es, id) == first_key(fs, id),
    decreases es.len(),
{
    if es.len() > 0 {
        lemma_first_key_same_keys(es.drop_first(), fs.drop_first(), id);
    }
}

proof fn lemma_first_key_push<V>(es: Seq<Keyed<V>>, e: Keyed<V>, id: Seq<char>)
    ensures
        first_key(es.push(e), id) == match first_key(es, id) {
            Some(k) => Some(k),
            None => if e.key@ == id {
                Some(es.len() as int)
            } else {
                None
            },
        },
    decreases es.len(),
{
    if es.len() > 0 {
        assert(es.push(e).drop_first() =~= es.drop_first().push(e));
        assert(es.push(e)[0] == es[0]);
        lemma_first_key_push(es.drop_first(), e, id);
    } else {
        assert(es.push(e).drop_first() =~= Seq::<Keyed<V>>::empty());
        assert(es.push(e)[0] == e);
        assert(first_key(es.push(e).drop_first(), id) is None);
    }
}

/// Replacing the entry for `key` changes what is held for `key` alone and
/// keeps the keys distinct.
pub proof fn lemma_value_after_set<V>(es: Seq<Keyed<V>>, k: int, e: Keyed<V>, key: Seq<char>)
    requires
        first_key(es, key) == Some(k),
        e.key@ == key,
    ensures
        forall|id: Seq<char>| #[trigger] value_in(es.update(k, e), id) == if id == key {
            Some(e.value)
        } else {
            value_in(es, id)
        },
        keys_unique(es) ==> keys_unique(es.update(k, e)),
{
    lemma_first_key(es, key);
    assert forall|id: Seq<char>| #[trigger] value_in(es.update(k, e), id) == if id == key {
        Some(e.value)
    } else {
        value_in(es, id)
    } by {
        lemma_first_key_same_keys(es, es.update(k, e), id);
        lemma_first_key(es, id);
    }
    if keys_unique(es) {
        let fs = es.update(k, e);
        assert forall|i: int, j: int| 0 <= i < j < fs.len() implies (#[trigger] fs[i]).key@ != (#[trigger] fs[j]).key@ by {
            assert(fs[i].key@ == es[i].key@);
            assert(fs[j].key@ == es[j].key@);
            assert(es[i].key@ != es[j].key@);
        }
    }
}

/// Appending an entry for an absent `key` adds what is held for `key` alone
/// and keeps the keys distinct.
pub proof fn lemma_value_after_push<V>(es: Seq<Keyed<V>>, e: Keyed<V>)
    requires
        first_key(es, e.key@) is None,
    ensures
        forall|id: Seq<char>| #[trigger] value_in(es.push(e), id) == if id == e.key@ {
            Some(e.value)
        } else {
            value_in(es, id)
        },
        keys_unique(es) ==> keys_unique(es.push(e)),
{
    lemma_first_key(es, e.key@);
    assert forall|id: Seq<char>| #[trigger] value_in(es.push(e), id) == if id == e.key@ {
        Some(e.value)
    } else {
        value_in(es, id)
    } by {
        lemma_first_key_push(es, e, id);
        lemma_first_key(es, id);
    }
    if keys_unique(es) {
        let fs = es.push(e);
        assert forall|i: int, j: int| 0 <= i < j < fs.len() implies (#[trigger] fs[i]).key@ != (#[trigger] fs[j]).key@ by {
            if j == es.len() {
                assert(es[i].key@ != e.key@);
            } else {
                assert(es[i].key@ != es[j].key@);
            }
        }
    }
}

/// The position of the first entry for `id`, as `first_key` states.
pub fn find_key<V>(es: &Vec<Keyed<V>>, id: &str) -> (r: Option<usize>)
    ensures
        r is Some <==> first_key(es@, id@) is Some,
        r is Some ==> first_key(es@, id@) == Some(r->Some_0 as int),
        r is Some ==> r->Some_0 < es@.len(),
{
    proof {
        lemma_first_key(es@, id@);
    }
    let mut k: usize = 0;
    while k < es.len()
        invariant
            k <= es@.len(),
            forall|j: int| 0 <= j < k ==> es@[j].key@ != id@,
        decreases es.len() - k,
    {
        if same_text(es[k].key.as_str(), id) {
            proof {
                lemma_first_key(es@, id@);
            }
            return Some(k);
        }
        k = k + 1;
    }
    None
}

} // verus!
