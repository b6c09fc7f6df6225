use vstd::prelude::*;

verus! {

/// A copy whose result is pinned down: it has the same mathematical image
/// as the original. Verified code copies through this trait, since nothing
/// is known about the derived `Clone` implementations.
pub trait DeepClone: Sized + DeepView {
    fn deep_clone(&self) -> (r: Self)
        ensures
            r.deep_view() == self.deep_view(),
    ;
}

impl DeepClone for String {
    fn deep_clone(&self) -> (r: Self)
        ensures
            r.deep_view() == self.deep_view(),
    {
        self.clone()
    }
}

impl DeepClone for Option<String> {
    fn deep_clone(&self) -> (r: Self)
        ensures
            r.deep_view() == self.deep_view(),
    {
        match self {
            Option::Some(s) => Option::Some(s.clone()),
            Option::None => Option::None,
        }
    }
}

/// Copies a vector element by element, keeping its mathematical image.
pub fn clone_vec<T: DeepClone>(v: &Vec<T>) -> (r: Vec<T>)
    ensures
        r.deep_view() == v.deep_view(),
{
    let mut r: Vec<T> = Vec::new();
    let n = v.len();
    let mut i: usize = 0;
    while i < n
        invariant
            0 <= i <= n,
            n == v@.len(),
            r.deep_view() == v.deep_view().subrange(0, i as int),
        decreases n - i,
    {
        let x = v[i].deep_clone();
        let ghost pre = r@;
        let ghost pred = r.deep_view();
        r.push(x);
        proof {
            assert(r@ == pre.push(x));
            assert(r.deep_view() =~= pred.push(x.deep_view()));
            assert(pred.push(x.deep_view()) =~= v.deep_view().subrange(0, i + 1));
        }
        i += 1;
    }
    proof {
        assert(v.deep_view().subrange(0, n as int) =~= v.deep_view());
    }
    r
}

/// Copies a byte vector, keeping its contents.
pub fn clone_bytes(v: &Vec<u8>) -> (r: Vec<u8>)
    ensures
        r@ == v@,
{
    let mut r: Vec<u8> = Vec::new();
    let n = v.len();
    let mut i: usize = 0;
    while i < n
        invariant
            0 <= i <= n,
            n == v@.len(),
            r@ == v@.subrange(0, i as int),
        decreases n - i,
    {
        r.push(v[i]);
        proof {
            assert(r@ =~= v@.subrange(0, i + 1));
        }
        i += 1;
    }
    proof {
        assert(v@.subrange(0, n as int) =~= v@);
    }
    r
}

} // verus!
