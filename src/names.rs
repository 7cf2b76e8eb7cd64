//! Sets of names held in vectors, each name once.
use vstd::prelude::*;

verus! {

/// The names that a vector of strings holds.
pub open spec fn names(v: Seq<String>) -> Set<Seq<char>> {
    Set::new(|x: Seq<char>| exists|i: int| 0 <= i < v.len() && (#[trigger] v[i])@ == x)
}

/// No name occurs twice.
pub open spec fn unique_names(v: Seq<String>) -> bool {
    forall|i: int, j: int| 0 <= i < j < v.len() ==> (#[trigger] v[i])@ != (#[trigger] v[j])@
}

/// Whether `v` holds the name `name`.
pub fn contains_name(v: &Vec<String>, name: &String) -> (r: bool)
    ensures
        r == names(v@).contains(name@),
{
    let mut i: usize = 0;
    while i < v.len()
        invariant
            i <= v@.len(),
            forall|j: int| 0 <= j < i ==> (#[trigger] v@[j])@ != name@,
        decreases v@.len() - i,
    {
        if v[i] == *name {
            assert(names(v@).contains(name@)) by {
                assert(v@[i as int]@ == name@);
            }
            return true;
        }
        i += 1;
    }
    false
}

/// Adds `name` to `v` unless it is there already.
pub fn insert_name(v: &mut Vec<String>, name: String)
    ensures
        names(final(v)@) == names(old(v)@).insert(name@),
        unique_names(old(v)@) ==> unique_names(final(v)@),
{
    if !contains_name(v, &name) {
        let ghost before = v@;
        v.push(name);
        assert(names(v@) =~= names(before).insert(name@)) by {
            assert forall|x: Seq<char>| names(before).insert(name@).contains(x) implies names(v@).contains(x) by {
                if x == name@ {
                    assert(v@[before.len() as int]@ == x);
                } else {
                    let i = choose|i: int| 0 <= i < before.len() && (#[trigger] before[i])@ == x;
                    assert(v@[i]@ == x);
                }
            }
            assert forall|x: Seq<char>| names(v@).contains(x) implies names(before).insert(name@).contains(x) by {
                let i = choose|i: int| 0 <= i < v@.len() && (#[trigger] v@[i])@ == x;
                if i < before.len() {
                    assert(before[i]@ == x);
                }
            }
        }
    } else {
        assert(names(v@) =~= names(v@).insert(name@));
    }
}

/// Adds to `v` each name of `other` that it does not hold yet.
pub fn extend_names(v: &mut Vec<String>, other: Vec<String>)
    ensures
        names(final(v)@) == names(old(v)@) + names(other@),
        unique_names(old(v)@) ==> unique_names(final(v)@),
{
    let ghost start = v@;
    let mut i: usize = 0;
    while i < other.len()
        invariant
            i <= other@.len(),
            names(v@) == names(start) + names(other@.subrange(0, i as int)),
            unique_names(start) ==> unique_names(v@),
        decreases other@.len() - i,
    {
        let ghost before = v@;
        insert_name(v, other[i].clone());
        assert(names(other@.subrange(0, i + 1)) =~= names(other@.subrange(0, i as int)).insert(other@[i as int]@)) by {
            let a = other@.subrange(0, i + 1);
            let b = other@.subrange(0, i as int);
            assert forall|x: Seq<char>| names(a).contains(x) implies names(b).insert(other@[i as int]@).contains(x) by {
                let k = choose|k: int| 0 <= k < a.len() && (#[trigger] a[k])@ == x;
                if k < i {
                    assert(b[k]@ == x);
                }
            }
            assert forall|x: Seq<char>| names(b).insert(other@[i as int]@).contains(x) implies names(a).contains(x) by {
                if x == other@[i as int]@ {
                    assert(a[i as int]@ == x);
                } else {
                    let k = choose|k: int| 0 <= k < b.len() && (#[trigger] b[k])@ == x;
                    assert(a[k]@ == x);
                }
            }
        }
        assert(names(v@) =~= names(start) + names(other@.subrange(0, i + 1)));
        i += 1;
    }
    assert(other@.subrange(0, other@.len() as int) =~= other@);
}

} // verus!
