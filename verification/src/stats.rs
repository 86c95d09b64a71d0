use vstd::prelude::*;

verus! {

/// `s` is in non-decreasing order.
pub open spec fn is_sorted(s: Seq<u64>) -> bool {
    forall|i: int, j: int| 0 <= i <= j < s.len() ==> s[i] <= s[j]
}

/// `t` is `s` sorted: the same values, in non-decreasing order.
pub open spec fn sorted_version(t: Seq<u64>, s: Seq<u64>) -> bool {
    &&& is_sorted(t)
    &&& t.to_multiset() == s.to_multiset()
    &&& t.len() == s.len()
}

/// Calls `slice::sort_unstable` on `v`, which sorts it in non-decreasing order;
/// sorting keeps the values and their number.
#[verifier::external_body]
fn sort_values(v: &mut Vec<u64>)
    ensures
        sorted_version(final(v)@, old(v)@),
{
    v.sort_unstable();
}

fn copy_values(v: &Vec<u64>) -> (r: Vec<u64>)
    ensures
        r@ == v@,
{
    let mut r: Vec<u64> = Vec::new();
    let mut i: usize = 0;
    while i < v.len()
        invariant
            i <= v@.len(),
            r@ == v@.take(i as int),
        decreases v@.len() - i,
    {
        r.push(v[i]);
        assert(r@ =~= v@.take(i + 1));
        i = i + 1;
    }
    assert(v@.take(v@.len() as int) =~= v@);
    r
}

/// The value at position `len / 2` of `values` once sorted (the upper of the two
/// middle values when there is an even number of them), or 0 when there are none.
pub fn upper_median(values: &Vec<u64>) -> (r: u64)
    ensures
        values@.len() == 0 ==> r == 0,
        values@.len() > 0 ==> exists|t: Seq<u64>| sorted_version(t, values@) && r == t[(values@.len() / 2) as int],
{
    let mut sorted = copy_values(values);
    sort_values(&mut sorted);
    if sorted.len() == 0 {
        0
    } else {
        let m = sorted[sorted.len() / 2];
        assert(sorted_version(sorted@, values@) && m == sorted@[(values@.len() / 2) as int]);
        m
    }
}

/// The median of a list of durations in nanoseconds: the middle value once
/// sorted, or the mean of the two middle values (rounded down) when there is an
/// even number of them; 0 when there are none.
pub fn calculate_median_duration(durations: Vec<u64>) -> (r: u64)
    ensures
        durations@.len() == 0 ==> r == 0,
        durations@.len() > 0 ==> exists|t: Seq<u64>|
            sorted_version(t, durations@) && r == (if durations@.len() % 2 == 0 {
                (t[durations@.len() / 2 - 1] + t[(durations@.len() / 2) as int]) / 2
            } else {
                t[(durations@.len() / 2) as int] as int
            }),
{
    let mut durations = durations;
    let ghost d0 = durations@;
    if durations.len() == 0 {
        return 0;
    }
    sort_values(&mut durations);
    let mid = durations.len() / 2;
    if durations.len() % 2 == 0 {
        let sum: u128 = durations[mid - 1] as u128 + durations[mid] as u128;
        let m = (sum / 2) as u64;
        assert(sorted_version(durations@, d0));
        m
    } else {
        let m = durations[mid];
        assert(sorted_version(durations@, d0));
        m
    }
}

} // verus!
