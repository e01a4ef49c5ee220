use vstd::prelude::*;
use crate::model::names;

verus! {

/// The first position of `x` in `v`, if any.
pub fn index_of(v: &Vec<String>, x: &String) -> (r: Option<usize>)
    ensures
        match r {
            Some(i) => i < v.len() && v@[i as int]@ == x@ && forall|j: int|
                0 <= j < i ==> v@[j]@ != x@,
            None => !names(v@).contains(x@),
        },
{
    let mut i: usize = 0;
    while i < v.len()
        invariant
            i <= v.len(),
            forall|j: int| 0 <= j < i ==> v@[j]@ != x@,
        decreases v.len() - i,
    {
        if v[i] == *x {
            return Some(i);
        }
        i = i + 1;
    }
    proof {
        assert forall|j: int| 0 <= j < names(v@).len() implies names(v@)[j] != x@ by {
            assert(names(v@)[j] == v@[j]@);
        }
    }
    None
}

pub fn contains_name(v: &Vec<String>, x: &String) -> (r: bool)
    ensures
        r == names(v@).contains(x@),
{
    match index_of(v, x) {
        Some(i) => {
            proof {
                assert(names(v@)[i as int] == x@);
            }
            true
        },
        None => false,
    }
}

/// No name stands twice in `v`.
pub fn all_distinct(v: &Vec<String>) -> (r: bool)
    ensures
        r == names(v@).no_duplicates(),
{
    let ghost s = names(v@);
    let mut i: usize = 0;
    while i < v.len()
        invariant
            i <= v.len(),
            s == names(v@),
            forall|a: int, b: int| 0 <= a < b < v.len() && a < i ==> s[a] != s[b],
        decreases v.len() - i,
    {
        let mut j: usize = i + 1;
        while j < v.len()
            invariant
                i < v.len(),
                i + 1 <= j <= v.len(),
                s == names(v@),
                forall|a: int, b: int| 0 <= a < b < v.len() && a < i ==> s[a] != s[b],
                forall|b: int| i < b < j ==> s[i as int] != s[b],
            decreases v.len() - j,
        {
            if v[i] == v[j] {
                proof {
                    assert(s[i as int] == s[j as int]);
                }
                return false;
            }
            j = j + 1;
        }
        i = i + 1;
    }
    true
}

} // verus!
