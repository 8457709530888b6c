use vstd::prelude::*;
use vstd::std_specs::iter::IteratorSpec;

verus! {

/// The code points of a sequence of characters.
pub open spec fn codes(s: Seq<char>) -> Seq<i32> {
    s.map_values(|c: char| (c as u32) as i32)
}

/// The code points of the characters of `s`, in order.
pub fn codes_of(s: &str) -> (r: Vec<i32>)
    ensures
        r@ == codes(s@),
{
    let mut r: Vec<i32> = Vec::new();
    let ghost all = s@;
    let mut it = s.chars();
    let ghost mut k: int = 0;
    loop
        invariant
            all == s@,
            0 <= k <= all.len(),
            it.obeys_prophetic_iter_laws(),
            it.remaining() == all.subrange(k, all.len() as int),
            r@ == codes(all.subrange(0, k)),
        decreases all.len() - k,
    {
        match it.next() {
            Some(c) => {
                r.push((c as u32) as i32);
                proof {
                    assert(codes(all.subrange(0, k + 1)) =~= codes(all.subrange(0, k)).push((c as u32) as i32));
                    k = k + 1;
                }
            },
            None => {
                proof {
                    assert(all.subrange(k, all.len() as int).len() == 0);
                    assert(all.subrange(0, k) =~= all);
                }
                return r;
            },
        }
    }
}

/// A copy of a sequence of codes.
pub fn copy_codes(v: &Vec<i32>) -> (r: Vec<i32>)
    ensures
        r@ == v@,
{
    let mut r: Vec<i32> = Vec::new();
    let mut k: usize = 0;
    while k < v.len()
        invariant
            0 <= k <= v.len(),
            r@ =~= v@.subrange(0, k as int),
        decreases v.len() - k,
    {
        r.push(v[k]);
        k = k + 1;
    }
    r
}

} // verus!
