//! Name tables as association lists: the macro table of the parser and the
//! variable, array and scope tables of the virtual machine all denote finite
//! maps from a name to a value.

use vstd::prelude::*;

verus! {

/// The finite map an association list denotes: a later entry for the same
/// key shadows an earlier one.
pub open spec fn assoc<V>(s: Seq<(Seq<char>, V)>) -> Map<Seq<char>, V>
    decreases s.len(),
{
    if s.len() == 0 {
        Map::empty()
    } else {
        assoc(s.drop_last()).insert(s.last().0, s.last().1)
    }
}

pub proof fn lemma_assoc_push<V>(s: Seq<(Seq<char>, V)>, p: (Seq<char>, V))
    ensures
        assoc(s.push(p)) == assoc(s).insert(p.0, p.1),
{
    assert(s.push(p).drop_last() =~= s);
    assert(s.push(p).last() == p);
}

/// When no entry at or after `i` has the key, the prefix decides the lookup.
pub proof fn lemma_assoc_suffix_miss<V>(s: Seq<(Seq<char>, V)>, i: int, k: Seq<char>)
    requires
        0 <= i <= s.len(),
        forall|j: int| i <= j < s.len() ==> (#[trigger] s[j]).0 != k,
    ensures
        assoc(s).contains_key(k) == assoc(s.subrange(0, i)).contains_key(k),
        assoc(s).contains_key(k) ==> assoc(s)[k] == assoc(s.subrange(0, i))[k],
    decreases s.len() - i,
{
    if i == s.len() {
        assert(s.subrange(0, i) =~= s);
    } else {
        assert(s.last() == s[s.len() - 1]);
        lemma_assoc_suffix_miss(s.drop_last(), i, k);
        assert(s.drop_last().subrange(0, i) =~= s.subrange(0, i));
    }
}

} // verus!
