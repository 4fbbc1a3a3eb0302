use vstd::prelude::*;
use vstd::std_specs::cmp::PartialOrdIs;
use vstd::std_specs::cmp::PartialOrdSpec;

verus! {

/// What `clamp` returns for a type whose comparison operators follow its
/// `partial_cmp`: the bound that `val` falls short of or exceeds, else `val` itself.
pub open spec fn clamped<T: PartialOrd>(val: T, min: T, max: T) -> T {
    if val.is_lt(&min) {
        min
    } else if val.is_gt(&max) {
        max
    } else {
        val
    }
}

/// Restricts `val` to the interval from `min` to `max`.
///
/// The lower bound is tested first, so with `min > max` a value below both
/// yields `min`. A value that compares with neither bound comes back unchanged.
/// For a type whose operators follow no stated order, such as a real number kept
/// in floating point, the result is still tied to what `<` and `>` answer.
pub fn clamp<T: PartialOrd>(val: T, min: T, max: T) -> (r: T)
    ensures
        T::obeys_partial_cmp_spec() ==> r == clamped(val, min, max),
        exists|below: bool|
            {
                &&& #[trigger] call_ensures(T::lt, (&val, &min), below)
                &&& below ==> r == min
                &&& !below ==> exists|above: bool|
                    {
                        &&& #[trigger] call_ensures(T::gt, (&val, &max), above)
                        &&& above ==> r == max
                        &&& !above ==> r == val
                    }
            },
{
    if val < min {
        min
    } else if val > max {
        max
    } else {
        val
    }
}

/// On integers `clamp` is the usual saturation to `[min, max]`.
pub proof fn lemma_clamped_in_range(val: u32, min: u32, max: u32)
    requires
        min <= max,
    ensures
        min <= clamped(val, min, max) <= max,
        min <= val <= max ==> clamped(val, min, max) == val,
        val < min ==> clamped(val, min, max) == min,
        val > max ==> clamped(val, min, max) == max,
{
}

} // verus!
