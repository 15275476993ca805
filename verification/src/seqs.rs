//! Small facts about sequences without repetitions.

use vstd::prelude::*;

verus! {

/// Lengthening a prefix by one element adds exactly that element.
pub proof fn lemma_take_contains<A>(s: Seq<A>, i: int, x: A)
    requires
        0 <= i < s.len(),
    ensures
        s.take(i + 1).contains(x) <==> s.take(i).contains(x) || s[i] == x,
{
    let longer = s.take(i + 1);
    if s[i] == x {
        assert(longer[i] == x);
    }
}

/// Appending an element adds exactly that element.
pub proof fn lemma_push_contains<A>(s: Seq<A>, a: A, x: A)
    ensures
        s.push(a).contains(x) <==> s.contains(x) || a == x,
{
    let longer = s.push(a);
    if s.contains(x) {
        let k = choose|k: int| 0 <= k < s.len() && s[k] == x;
        assert(longer[k] == x);
    }
    if a == x {
        assert(longer[s.len() as int] == x);
    }
}

/// In a sequence without repetitions no element occurs before itself.
pub proof fn lemma_not_in_earlier<A>(s: Seq<A>, i: int)
    requires
        s.no_duplicates(),
        0 <= i < s.len(),
    ensures
        !s.take(i).contains(s[i]),
{
}

/// Appending a new element keeps a sequence free of repetitions.
pub proof fn lemma_push_keeps_distinct<A>(s: Seq<A>, a: A)
    requires
        s.no_duplicates(),
        !s.contains(a),
    ensures
        s.push(a).no_duplicates(),
{
}

/// Whether `ids` holds `id`.
pub fn contains_id(ids: &Vec<u128>, id: u128) -> (found: bool)
    ensures
        found == ids@.contains(id),
{
    let mut i: usize = 0;
    while i < ids.len()
        invariant
            i <= ids.len(),
            !ids@.take(i as int).contains(id),
        decreases ids.len() - i,
    {
        if ids[i] == id {
            return true;
        }
        proof {
            lemma_take_contains(ids@, i as int, id);
        }
        i += 1;
    }
    assert(ids@.take(ids.len() as int) =~= ids@);
    false
}

} // verus!
