//! Counting how often each text occurs, and finding the most frequent one.

use vstd::prelude::*;
use vstd::hash_map::StringHashMap;

verus! {

/// The characters of each text.
pub open spec fn texts(keys: Seq<String>) -> Seq<Seq<char>> {
    keys.map_values(|k: String| k@)
}

/// How often `key` occurs among `keys`.
pub open spec fn occurrences(keys: Seq<Seq<char>>, key: Seq<char>) -> nat {
    keys.to_multiset().count(key)
}

/// `w` is the place of the most frequent key. Where several keys are equally
/// frequent, it is the place of the one that appears first: no key occurs
/// more often than the one at `w`, and every key before `w` occurs less
/// often.
pub open spec fn is_first_most_frequent(keys: Seq<Seq<char>>, w: int) -> bool {
    &&& 0 <= w < keys.len()
    &&& forall|j: int|
        0 <= j < keys.len() ==> occurrences(keys, #[trigger] keys[j]) <= occurrences(keys, keys[w])
    &&& forall|j: int| 0 <= j < w ==> occurrences(keys, #[trigger] keys[j]) < occurrences(
        keys,
        keys[w],
    )
}

/// `table` holds, for each key that occurs among `keys`, how often it does,
/// and holds no other key.
pub open spec fn counts(table: Map<Seq<char>, usize>, keys: Seq<Seq<char>>) -> bool {
    forall|k: Seq<char>|
        #![trigger table.contains_key(k)]
        #![trigger occurrences(keys, k)]
        {
            &&& table.contains_key(k) <==> occurrences(keys, k) > 0
            &&& table.contains_key(k) ==> table[k] == occurrences(keys, k)
        }
}

/// One more occurrence of a key counts one more for that key, and leaves
/// the counts of all other keys as they were.
proof fn lemma_occurrences_push(keys: Seq<Seq<char>>, key: Seq<char>, k: Seq<char>)
    ensures
        occurrences(keys.push(key), k) == occurrences(keys, k) + if k == key {
            1nat
        } else {
            0nat
        },
        occurrences(keys, k) <= keys.len(),
{
    broadcast use vstd::multiset::group_multiset_axioms;

    vstd::seq_lib::to_multiset_build(keys, key);
    vstd::seq_lib::to_multiset_len(keys);
    assert(keys.to_multiset().count(k) <= keys.to_multiset().len());
}

/// A key at some place occurs at least once.
proof fn lemma_occurs(keys: Seq<Seq<char>>, i: int)
    requires
        0 <= i < keys.len(),
    ensures
        occurrences(keys, keys[i]) > 0,
{
    vstd::seq_lib::to_multiset_contains(keys, keys[i]);
    assert(keys.contains(keys[i]));
}

/// Records one more occurrence of `key` in the table.
fn count_key(table: &mut StringHashMap<usize>, key: &String, Ghost(seen): Ghost<Seq<Seq<char>>>)
    requires
        counts(old(table)@, seen),
        seen.len() < usize::MAX,
    ensures
        counts(final(table)@, seen.push(key@)),
{
    let so_far: usize = match table.get(key.as_str()) {
        Some(c) => *c,
        None => 0,
    };
    proof {
        lemma_occurrences_push(seen, key@, key@);
    }
    table.insert(key.clone(), so_far + 1);
    proof {
        assert forall|k: Seq<char>|
            #![trigger table@.contains_key(k)]
            #![trigger occurrences(seen.push(key@), k)]
            {
                &&& table@.contains_key(k) <==> occurrences(seen.push(key@), k) > 0
                &&& table@.contains_key(k) ==> table@[k] == occurrences(seen.push(key@), k)
            } by {
            lemma_occurrences_push(seen, key@, k);
        }
    }
}

/// The place of the most frequent text among `keys`, and of the one that
/// appears first where several are equally frequent. There is none only
/// where there is no text at all.
pub fn most_frequent(keys: &Vec<String>) -> (r: Option<usize>)
    ensures
        keys@.len() == 0 <==> r is None,
        r matches Some(w) ==> is_first_most_frequent(texts(keys@), w as int),
{
    let n = keys.len();
    if n == 0 {
        return None;
    }
    let ghost all = texts(keys@);
    let mut table: StringHashMap<usize> = StringHashMap::new();
    proof {
        broadcast use vstd::multiset::group_multiset_axioms;

        vstd::seq_lib::to_multiset_len(all.take(0));
        vstd::multiset::lemma_multiset_empty_len(all.take(0).to_multiset());
        assert forall|k: Seq<char>| occurrences(all.take(0), k) == 0 by {
            assert(all.take(0).to_multiset().count(k) == 0);
        }
    }
    for i in 0..n
        invariant
            n == keys@.len(),
            all == texts(keys@),
            counts(table@, all.take(i as int)),
    {
        proof {
            assert(all.take(i + 1) =~= all.take(i as int).push(keys@[i as int]@));
        }
        count_key(&mut table, &keys[i], Ghost(all.take(i as int)));
    }
    proof {
        assert(all.take(n as int) =~= all);
    }
    let mut best: usize = 0;
    let mut best_count: usize = 0;
    for i in 0..n
        invariant
            n == keys@.len(),
            n > 0,
            all == texts(keys@),
            counts(table@, all),
            i == 0 ==> best == 0 && best_count == 0,
            i > 0 ==> best < i && best_count == occurrences(all, all[best as int]),
            forall|j: int| 0 <= j < i ==> occurrences(all, #[trigger] all[j]) <= best_count,
            forall|j: int| 0 <= j < best ==> occurrences(all, #[trigger] all[j]) < best_count,
    {
        proof {
            lemma_occurs(all, i as int);
        }
        let here: usize = match table.get(keys[i].as_str()) {
            Some(c) => *c,
            None => 0,
        };
        if here > best_count {
            best = i;
            best_count = here;
        }
    }
    Some(best)
}

} // verus!
