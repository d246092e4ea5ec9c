//! Sequences without repetitions.

use vstd::prelude::*;

verus! {

/// `keys` without repetitions: of equal keys the first stays, in its place.
pub open spec fn deduplicated<K>(keys: Seq<K>) -> Seq<K>
    decreases keys.len(),
{
    if keys.len() == 0 {
        Seq::empty()
    } else {
        let rest = deduplicated(keys.drop_last());
        if rest.contains(keys.last()) {
            rest
        } else {
            rest.push(keys.last())
        }
    }
}

/// Deduplication keeps every key once: the result has no key twice, and it
/// holds exactly the keys that were given. So a block that is asked for
/// twice, or by its name and with its whole file, is built once.
pub proof fn lemma_deduplicated<K>(keys: Seq<K>)
    ensures
        deduplicated(keys).no_duplicates(),
        forall|k: K| keys.contains(k) <==> deduplicated(keys).contains(k),
        deduplicated(keys).len() <= keys.len(),
    decreases keys.len(),
{
    if keys.len() > 0 {
        let front = keys.drop_last();
        let rest = deduplicated(front);
        lemma_deduplicated(front);
        let now = deduplicated(keys);
        assert forall|k: K| keys.contains(k) implies now.contains(k) by {
            let i = choose|i: int| 0 <= i < keys.len() && keys[i] == k;
            if i < keys.len() - 1 {
                assert(front[i] == k);
                assert(front.contains(k));
                assert(rest.contains(k));
                let j = choose|j: int| 0 <= j < rest.len() && rest[j] == k;
                assert(now[j] == k);
            } else if rest.contains(k) {
            } else {
                assert(now[now.len() - 1] == k);
            }
        }
        assert forall|k: K| now.contains(k) implies keys.contains(k) by {
            let j = choose|j: int| 0 <= j < now.len() && now[j] == k;
            if j < rest.len() {
                assert(rest[j] == k);
                assert(rest.contains(k));
                assert(front.contains(k));
                let i = choose|i: int| 0 <= i < front.len() && front[i] == k;
                assert(keys[i] == k);
            } else {
                assert(keys[keys.len() - 1] == k);
            }
        }
    }
}

/// Where no key occurs twice, deduplication changes nothing.
pub proof fn lemma_deduplicated_keeps_distinct<K>(keys: Seq<K>)
    requires
        keys.no_duplicates(),
    ensures
        deduplicated(keys) == keys,
    decreases keys.len(),
{
    if keys.len() > 0 {
        let front = keys.drop_last();
        lemma_deduplicated_keeps_distinct(front);
        if front.contains(keys.last()) {
            let i = choose|i: int| 0 <= i < front.len() && front[i] == keys.last();
            assert(keys[i] == keys[keys.len() - 1]);
        }
        assert(front.push(keys.last()) =~= keys);
    }
}

} // verus!
