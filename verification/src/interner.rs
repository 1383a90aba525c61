//! The literal pool: every string that a descriptor refers to, interned
//! once, in the order in which it was first met.

use vstd::prelude::*;
use lasso::{Key, Rodeo, Spur};
use std::collections::hash_map::RandomState;

verus! {

/// `lasso::Rodeo`: a string interner. Nothing inside it is visible here.
#[verifier::external_type_specification]
#[verifier::external_body]
#[verifier::reject_recursive_types(K)]
#[verifier::reject_recursive_types(S)]
pub struct ExRodeo<K, S>(Rodeo<K, S>);

/// `lasso::Spur`: the key type of the interner.
#[verifier::external_type_specification]
#[verifier::external_body]
pub struct ExSpur(Spur);

/// The strings that an interner holds, in the order of their keys.
pub uninterp spec fn interned(pool: Rodeo<Spur, RandomState>) -> Seq<Seq<char>>;

/// The pool after a string has been interned: unchanged where it holds
/// the string, else with the string behind the others.
pub open spec fn with_interned(pool: Seq<Seq<char>>, s: Seq<char>) -> Seq<Seq<char>> {
    if pool.contains(s) {
        pool
    } else {
        pool.push(s)
    }
}

/// The pool after the strings have been interned one after another.
pub open spec fn with_all_interned(pool: Seq<Seq<char>>, names: Seq<Seq<char>>) -> Seq<Seq<char>>
    decreases names.len(),
{
    if names.len() == 0 {
        pool
    } else {
        with_interned(with_all_interned(pool, names.drop_last()), names.last())
    }
}

/// `Rodeo::new`: an interner that holds no string.
#[verifier::external_body]
pub(crate) fn new_pool() -> (pool: Rodeo<Spur, RandomState>)
    ensures
        interned(pool) == Seq::<Seq<char>>::empty(),
{
    Rodeo::new()
}

/// `Rodeo::try_get_or_intern`, with the key turned into its number by
/// `Key::into_usize`. On success the pool holds the string: where it held
/// it before, nothing has changed; else the string is the last one. The key
/// is the place of the string in the pool. On failure, which comes when
/// the keys or the memory run out, the pool is as it was.
#[verifier::external_body]
pub(crate) fn try_intern(pool: &mut Rodeo<Spur, RandomState>, s: &str) -> (key: Option<usize>)
    ensures
        match key {
            Some(k) => interned(*final(pool)) == with_interned(interned(*old(pool)), s@) && k < interned(
                *final(pool),
            ).len() && interned(*final(pool))[k as int] == s@,
            None => interned(*final(pool)) == interned(*old(pool)),
        },
{
    match pool.try_get_or_intern(s) {
        Ok(key) => Some(key.into_usize()),
        Err(_) => None,
    }
}

/// Interns the strings one after another, and says whether all of them
/// found room. Where one did not, the pool holds those before it.
pub fn intern_all(pool: &mut Rodeo<Spur, RandomState>, names: &Vec<String>) -> (ok: bool)
    ensures
        ok ==> interned(*final(pool)) == with_all_interned(interned(*old(pool)), strings_of(names@)),
        !ok ==> exists|n: int|
            0 <= n < names@.len() && interned(*final(pool)) == #[trigger] with_all_interned(
                interned(*old(pool)),
                strings_of(names@).take(n),
            ),
{
    let mut i: usize = 0;
    proof {
        assert(strings_of(names@).take(0) =~= Seq::<Seq<char>>::empty());
    }
    while i < names.len()
        invariant
            i <= names@.len(),
            interned(*pool) == with_all_interned(interned(*old(pool)), strings_of(names@).take(i as int)),
        decreases names@.len() - i,
    {
        let key = try_intern(pool, names[i].as_str());
        if key.is_none() {
            return false;
        }
        proof {
            let all = strings_of(names@);
            assert(all.take(i + 1).drop_last() =~= all.take(i as int));
            assert(all.take(i + 1).last() == names@[i as int]@);
        }
        i = i + 1;
    }
    proof {
        assert(strings_of(names@).take(i as int) =~= strings_of(names@));
    }
    true
}

/// The strings of a vector of strings, as sequences of characters.
pub open spec fn strings_of(names: Seq<String>) -> Seq<Seq<char>> {
    Seq::new(names.len(), |i: int| names[i]@)
}

/// Interning one list of strings and then another is interning their
/// concatenation.
pub proof fn lemma_interned_concat(pool: Seq<Seq<char>>, a: Seq<Seq<char>>, b: Seq<Seq<char>>)
    ensures
        with_all_interned(pool, a + b) == with_all_interned(with_all_interned(pool, a), b),
    decreases b.len(),
{
    if b.len() == 0 {
        assert(a + b =~= a);
    } else {
        assert((a + b).drop_last() =~= a + b.drop_last());
        assert((a + b).last() == b.last());
        lemma_interned_concat(pool, a, b.drop_last());
    }
}

/// The pool is deduplicated. Interning keeps a pool of distinct strings
/// one, keeps every string that it holds, and leaves every string that was
/// interned in it.
pub proof fn lemma_pool_distinct(pool: Seq<Seq<char>>, names: Seq<Seq<char>>)
    requires
        pool.no_duplicates(),
    ensures
        with_all_interned(pool, names).no_duplicates(),
        forall|t: Seq<char>| pool.contains(t) ==> with_all_interned(pool, names).contains(t),
        forall|i: int| 0 <= i < names.len() ==> with_all_interned(pool, names).contains(#[trigger] names[i]),
    decreases names.len(),
{
    if names.len() > 0 {
        let front = names.drop_last();
        let before = with_all_interned(pool, front);
        let out = with_all_interned(pool, names);
        let s = names.last();
        lemma_pool_distinct(pool, front);
        if !before.contains(s) {
            assert(out[before.len() as int] == s);
        }
        assert forall|t: Seq<char>| before.contains(t) implies out.contains(t) by {
            let k = choose|k: int| 0 <= k < before.len() && before[k] == t;
            assert(out[k] == t);
        }
        assert forall|i: int| 0 <= i < names.len() implies out.contains(#[trigger] names[i]) by {
            if i < front.len() {
                assert(front[i] == names[i]);
                assert(before.contains(front[i]));
            }
        }
    }
}

} // verus!
