//! Association lists keyed by strings: a `Vec` of key/value pairs in which the
//! last entry for a key is the one that counts.
use vstd::prelude::*;

use crate::text::chars_eq;
use crate::text::chars_of;

verus! {

/// The value of the last entry for `key`, if any.
pub open spec fn assoc_lookup<T>(entries: Seq<(String, T)>, key: Seq<char>) -> Option<T>
    decreases entries.len(),
{
    if entries.len() == 0 {
        None
    } else if entries.last().0@ == key {
        Some(entries.last().1)
    } else {
        assoc_lookup(entries.drop_last(), key)
    }
}

/// What a search for the last entry of `key` found.
pub open spec fn last_position<T>(entries: Seq<(String, T)>, key: Seq<char>, p: Option<usize>) -> bool {
    match p {
        Some(k) => k < entries.len() && entries[k as int].0@ == key && forall|j: int|
            k < j < entries.len() ==> entries[j].0@ != key,
        None => forall|j: int| 0 <= j < entries.len() ==> entries[j].0@ != key,
    }
}

/// The index of the last entry for `key`.
pub fn assoc_position<T>(entries: &Vec<(String, T)>, key: &[char]) -> (r: Option<usize>)
    ensures
        last_position(entries@, key@, r),
{
    let mut found: Option<usize> = None;
    let mut i: usize = 0;
    while i < entries.len()
        invariant
            i <= entries@.len(),
            last_position(entries@.take(i as int), key@, found),
        decreases entries@.len() - i,
    {
        let k = chars_of(entries[i].0.as_str());
        if chars_eq(k.as_slice(), key) {
            found = Some(i);
        }
        i = i + 1;
        proof {
            assert forall|j: int| 0 <= j < i implies entries@.take(i as int)[j] == entries@[j] by {}
        }
    }
    proof {
        assert(entries@.take(i as int) =~= entries@);
    }
    found
}

/// A found last position gives the looked-up value.
pub proof fn lemma_assoc_lookup<T>(entries: Seq<(String, T)>, key: Seq<char>, p: Option<usize>)
    requires
        last_position(entries, key, p),
    ensures
        assoc_lookup(entries, key) == match p {
            Some(k) => Some(entries[k as int].1),
            None => None,
        },
    decreases entries.len(),
{
    if entries.len() > 0 {
        match p {
            Some(k) => {
                if k as int != entries.len() - 1 {
                    lemma_assoc_lookup(entries.drop_last(), key, p);
                }
            },
            None => {
                lemma_assoc_lookup(entries.drop_last(), key, p);
            },
        }
    }
}

/// Replacing the last entry of a key changes that key's value and no other.
pub proof fn lemma_assoc_lookup_update<T>(entries: Seq<(String, T)>, k: int, key: Seq<char>, e: (String, T))
    requires
        0 <= k < entries.len(),
        entries[k].0@ == key,
        e.0@ == key,
        forall|j: int| k < j < entries.len() ==> entries[j].0@ != key,
    ensures
        assoc_lookup(entries.update(k, e), key) == Some(e.1),
        forall|n: Seq<char>|
            n != key ==> assoc_lookup(entries.update(k, e), n) == assoc_lookup(entries, n),
    decreases entries.len(),
{
    let u = entries.update(k, e);
    if k == entries.len() - 1 {
        assert(u.drop_last() == entries.drop_last());
        assert(u.last() == e);
        assert forall|n: Seq<char>| n != key implies assoc_lookup(u, n) == assoc_lookup(entries, n) by {
            assert(u.last().0@ != n);
            assert(entries.last().0@ != n);
        }
    } else {
        lemma_assoc_lookup_update(entries.drop_last(), k, key, e);
        assert(u.drop_last() == entries.drop_last().update(k, e));
        assert(u.last() == entries.last());
        assert forall|n: Seq<char>| n != key implies assoc_lookup(u, n) == assoc_lookup(entries, n) by {
            assert(assoc_lookup(entries.drop_last().update(k, e), n) == assoc_lookup(
                entries.drop_last(),
                n,
            ));
        }
    }
}

/// Appending an entry makes it the value of its key.
pub proof fn lemma_assoc_lookup_push<T>(entries: Seq<(String, T)>, e: (String, T))
    ensures
        forall|n: Seq<char>|
            #[trigger] assoc_lookup(entries.push(e), n) == if e.0@ == n {
                Some(e.1)
            } else {
                assoc_lookup(entries, n)
            },
{
    assert(entries.push(e).drop_last() == entries);
}

/// Sets the value of `key`: the last entry for it is replaced, or a new entry
/// is appended.
pub fn assoc_set<T>(entries: &mut Vec<(String, T)>, key: &[char], value: T)
    ensures
        assoc_lookup(final(entries)@, key@) == Some(value),
        forall|n: Seq<char>|
            n != key@ ==> assoc_lookup(final(entries)@, n) == assoc_lookup(old(entries)@, n),
        final(entries)@.len() == old(entries)@.len() + if assoc_lookup(old(entries)@, key@) is Some {
            0int
        } else {
            1int
        },
{
    let p = assoc_position(entries, key);
    proof {
        lemma_assoc_lookup(entries@, key@, p);
    }
    let ghost before = entries@;
    let e = (crate::text::string_of(key), value);
    match p {
        Some(k) => {
            proof {
                lemma_assoc_lookup_update(before, k as int, key@, e);
            }
            entries.set(k, e);
        },
        None => {
            proof {
                lemma_assoc_lookup_push(before, e);
            }
            entries.push(e);
        },
    }
}

/// A key has a value exactly when some entry has that key.
pub proof fn lemma_assoc_lookup_listed<T>(entries: Seq<(String, T)>, key: Seq<char>)
    ensures
        assoc_lookup(entries, key) is Some <==> exists|j: int|
            0 <= j < entries.len() && #[trigger] entries[j].0@ == key,
    decreases entries.len(),
{
    if entries.len() > 0 {
        let front = entries.drop_last();
        lemma_assoc_lookup_listed(front, key);
        if exists|j: int| 0 <= j < entries.len() && #[trigger] entries[j].0@ == key {
            let j = choose|j: int| 0 <= j < entries.len() && #[trigger] entries[j].0@ == key;
            if j < front.len() {
                assert(front[j].0@ == key);
            }
        }
        if exists|j: int| 0 <= j < front.len() && #[trigger] front[j].0@ == key {
            let j = choose|j: int| 0 <= j < front.len() && #[trigger] front[j].0@ == key;
            assert(entries[j].0@ == key);
        }
    }
}

/// A key's value is the value of an entry with that key.
pub proof fn lemma_assoc_lookup_entry<T>(entries: Seq<(String, T)>, key: Seq<char>)
    ensures
        assoc_lookup(entries, key) is Some ==> exists|j: int|
            0 <= j < entries.len() && #[trigger] entries[j].0@ == key && Some(entries[j].1)
                == assoc_lookup(entries, key),
    decreases entries.len(),
{
    if entries.len() > 0 {
        let front = entries.drop_last();
        lemma_assoc_lookup_entry(front, key);
        if entries.last().0@ == key {
            assert(entries[entries.len() - 1] == entries.last());
        } else if assoc_lookup(front, key) is Some {
            let j = choose|j: int|
                0 <= j < front.len() && #[trigger] front[j].0@ == key && Some(front[j].1)
                    == assoc_lookup(front, key);
            assert(entries[j] == front[j]);
        }
    }
}

} // verus!
