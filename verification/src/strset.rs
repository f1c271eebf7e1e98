//! Sets of strings kept in a vector.
use vstd::prelude::*;
use crate::text::str_eq;

verus! {

/// The set of character sequences the strings of `v` hold.
pub open spec fn set_of(v: Seq<String>) -> Set<Seq<char>> {
    Set::new(|x: Seq<char>| exists|i: int| 0 <= i < v.len() && v[i]@ == x)
}

/// Membership test.
pub fn set_contains(v: &Vec<String>, x: &str) -> (r: bool)
    ensures
        r == set_of(v@).contains(x@),
{
    let mut i: usize = 0;
    while i < v.len()
        invariant
            i <= v.len(),
            forall|j: int| 0 <= j < i ==> v@[j]@ != x@,
        decreases v.len() - i,
    {
        if str_eq(v[i].as_str(), x) {
            assert(v@[i as int]@ == x@);
            return true;
        }
        i = i + 1;
    }
    false
}

/// Adds `x`.
pub fn set_insert(v: &mut Vec<String>, x: &str)
    ensures
        set_of(final(v)@) == set_of(old(v)@).insert(x@),
{
    if !set_contains(v, x) {
        let ghost prev = v@;
        v.push(x.to_owned());
        assert forall|y: Seq<char>| set_of(v@).contains(y) <==> set_of(prev).insert(x@).contains(y) by {
            if set_of(prev).contains(y) {
                let i = choose|i: int| 0 <= i < prev.len() && prev[i]@ == y;
                assert(v@[i]@ == y);
            }
            if y == x@ {
                assert(v@[prev.len() as int]@ == y);
            }
            if set_of(v@).contains(y) {
                let i = choose|i: int| 0 <= i < v@.len() && v@[i]@ == y;
                if i < prev.len() {
                    assert(prev[i]@ == y);
                }
            }
        }
        assert(set_of(v@) =~= set_of(prev).insert(x@));
    } else {
        assert(set_of(v@) =~= set_of(v@).insert(x@));
    }
}

/// Removes `x`.
pub fn set_remove(v: &mut Vec<String>, x: &str)
    ensures
        set_of(final(v)@) == set_of(old(v)@).remove(x@),
{
    let mut out: Vec<String> = Vec::new();
    let mut i: usize = 0;
    while i < v.len()
        invariant
            i <= v.len(),
            forall|y: Seq<char>| set_of(out@).contains(y) <==> (y != x@ && exists|j: int| 0 <= j < i && v@[j]@ == y),
        decreases v.len() - i,
    {
        let ghost prev = out@;
        if !str_eq(v[i].as_str(), x) {
            out.push(v[i].clone());
        }
        assert forall|y: Seq<char>| set_of(out@).contains(y) <==> (y != x@ && exists|j: int| 0 <= j < i + 1 && v@[j]@ == y) by {
            if set_of(out@).contains(y) {
                let a = choose|a: int| 0 <= a < out@.len() && out@[a]@ == y;
                if a < prev.len() {
                    assert(set_of(prev).contains(y));
                } else {
                    assert(v@[i as int]@ == y);
                }
            }
            if y != x@ && exists|j: int| 0 <= j < i + 1 && v@[j]@ == y {
                let j = choose|j: int| 0 <= j < i + 1 && v@[j]@ == y;
                if j < i {
                    assert(set_of(prev).contains(y));
                    let a = choose|a: int| 0 <= a < prev.len() && prev[a]@ == y;
                    assert(out@[a]@ == y);
                } else {
                    assert(out@[prev.len() as int]@ == y);
                }
            }
        }
        i = i + 1;
    }
    assert(set_of(out@) =~= set_of(v@).remove(x@));
    *v = out;
}

} // verus!
