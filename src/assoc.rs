//! Association lists keyed by strings, with unique keys.
//!
//! Keys are compared by their character sequences, so what a table holds is
//! stated directly over `Seq<char>` keys; a hashed map keyed by `String`
//! gives no such view.
use vstd::prelude::*;

verus! {

/// No key occurs twice.
pub open spec fn keys_unique<T>(s: Seq<(String, T)>) -> bool {
    forall|i: int, j: int|
        0 <= i < s.len() && 0 <= j < s.len() && i != j ==> s[i].0@ != s[j].0@
}

pub open spec fn has_key<T>(s: Seq<(String, T)>, k: Seq<char>) -> bool {
    exists|i: int| 0 <= i < s.len() && s[i].0@ == k
}

/// The value stored under `k`, if any.
pub open spec fn lookup<T>(s: Seq<(String, T)>, k: Seq<char>) -> Option<T> {
    if has_key(s, k) {
        Some(s[choose|i: int| 0 <= i < s.len() && s[i].0@ == k].1)
    } else {
        None
    }
}

pub proof fn lemma_lookup_at<T>(s: Seq<(String, T)>, i: int)
    requires
        keys_unique(s),
        0 <= i < s.len(),
    ensures
        lookup(s, s[i].0@) == Some(s[i].1),
{
    let k = s[i].0@;
    assert(has_key(s, k));
    let j = choose|j: int| 0 <= j < s.len() && s[j].0@ == k;
    assert(j == i);
}

/// Index of the entry under `k`.
pub fn find_key<T>(s: &Vec<(String, T)>, k: &String) -> (r: Option<usize>)
    ensures
        match r {
            Some(i) => i < s.len() && s@[i as int].0@ == k@,
            None => !has_key(s@, k@),
        },
{
    let mut i: usize = 0;
    while i < s.len()
        invariant
            i <= s.len(),
            forall|j: int| 0 <= j < i ==> s@[j].0@ != k@,
        decreases s.len() - i,
    {
        if s[i].0 == *k {
            return Some(i);
        }
        i = i + 1;
    }
    None
}

/// Stores `v` under `k`, replacing and returning what was there.
pub fn insert_key<T>(s: &mut Vec<(String, T)>, k: String, v: T) -> (r: Option<T>)
    requires
        keys_unique(old(s)@),
    ensures
        keys_unique(final(s)@),
        r == lookup(old(s)@, k@),
        forall|q: Seq<char>|
            #[trigger] lookup(final(s)@, q) == if q == k@ {
                Some(v)
            } else {
                lookup(old(s)@, q)
            },
{
    let ghost s0 = s@;
    match find_key(s, &k) {
        Some(i) => {
            proof {
                lemma_lookup_at(s0, i as int);
            }
            let (_, prior) = s.remove(i);
            s.insert(i, (k, v));
            assert(s@ =~= s0.update(i as int, (k, v)));
            proof {
                lemma_lookup_at(s@, i as int);
                assert forall|q: Seq<char>| q != k@ implies lookup(s@, q) == lookup(s0, q) by {
                    if has_key(s0, q) {
                        let j = choose|j: int| 0 <= j < s0.len() && s0[j].0@ == q;
                        lemma_lookup_at(s0, j);
                        lemma_lookup_at(s@, j);
                    } else {
                        assert(!has_key(s@, q));
                    }
                }
            }
            Some(prior)
        },
        None => {
            s.push((k, v));
            assert(s@ =~= s0.push((k, v)));
            proof {
                let n = s0.len() as int;
                lemma_lookup_at(s@, n);
                assert forall|q: Seq<char>| q != k@ implies lookup(s@, q) == lookup(s0, q) by {
                    if has_key(s0, q) {
                        let j = choose|j: int| 0 <= j < s0.len() && s0[j].0@ == q;
                        lemma_lookup_at(s0, j);
                        lemma_lookup_at(s@, j);
                    } else {
                        assert(!has_key(s@, q));
                    }
                }
            }
            None
        },
    }
}

} // verus!
