//! Set operations on vectors of symbols, used by the free-variable calculus:
//! `Except` removes the elements of another vector, `Unite` forms the
//! duplicate-free union.

use vstd::prelude::*;

verus! {

broadcast use vstd::seq_lib::group_seq_properties;

/// Membership test for a vector of symbols.
pub fn contains_char(v: &Vec<char>, c: char) -> (r: bool)
    ensures
        r == v@.contains(c),
{
    let mut i: usize = 0;
    while i < v.len()
        invariant
            i <= v.len(),
            forall|j: int| 0 <= j < i ==> v@[j] != c,
        decreases v.len() - i,
    {
        if v[i] == c {
            return true;
        }
        i += 1;
    }
    false
}

/// Difference: the elements of `self` that `other` does not hold.
pub trait Except<T>: Sized {
    /// What `except` returns, as a relation between the operands and the result.
    spec fn except_post(&self, other: &Self, r: &Self) -> bool;

    fn except(&self, other: &Self) -> (r: Self)
        ensures
            self.except_post(other, &r),
    ;
}

/// Union: the elements of `self` together with those of `other`.
pub trait Unite<T>: Sized {
    /// What `unite` returns, as a relation between the operands and the result.
    spec fn unite_post(&self, other: &Self, r: &Self) -> bool;

    fn unite(&self, other: &Self) -> (r: Self)
        ensures
            self.unite_post(other, &r),
    ;
}

impl Except<Vec<char>> for Vec<char> {
    /// The result holds exactly the symbols of `self` that are not in `other`,
    /// without duplicates.
    open spec fn except_post(&self, other: &Self, r: &Self) -> bool {
        &&& forall|c: char|
            r@.contains(c) <==> (self@.contains(c) && !other@.contains(c))
        &&& r@.no_duplicates()
    }

    fn except(&self, other: &Self) -> (r: Self) {
        let mut res: Vec<char> = Vec::new();
        let mut i: usize = 0;
        while i < self.len()
            invariant
                i <= self.len(),
                forall|c: char|
                    res@.contains(c) <==> (self@.take(i as int).contains(c)
                        && !other@.contains(c)),
                res@.no_duplicates(),
            decreases self.len() - i,
        {
            let c = self[i];
            if !contains_char(other, c) && !contains_char(&res, c) {
                res.push(c);
            }
            i += 1;
        }
        res
    }
}

impl Unite<Vec<char>> for Vec<char> {
    /// The result holds exactly the symbols of `self` and of `other`, each once.
    open spec fn unite_post(&self, other: &Self, r: &Self) -> bool {
        &&& forall|c: char|
            r@.contains(c) <==> (self@.contains(c) || other@.contains(c))
        &&& r@.no_duplicates()
    }

    fn unite(&self, other: &Self) -> (r: Self) {
        let mut res: Vec<char> = Vec::new();
        let mut i: usize = 0;
        while i < self.len()
            invariant
                i <= self.len(),
                forall|c: char| res@.contains(c) <==> self@.take(i as int).contains(c),
                res@.no_duplicates(),
            decreases self.len() - i,
        {
            let c = self[i];
            if !contains_char(&res, c) {
                res.push(c);
            }
            i += 1;
        }
        let mut j: usize = 0;
        while j < other.len()
            invariant
                j <= other.len(),
                forall|c: char|
                    res@.contains(c) <==> (self@.contains(c)
                        || other@.take(j as int).contains(c)),
                res@.no_duplicates(),
            decreases other.len() - j,
        {
            let c = other[j];
            if !contains_char(&res, c) {
                res.push(c);
            }
            j += 1;
        }
        res
    }
}

} // verus!
