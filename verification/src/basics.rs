//! Small utility functions over strings and integers.

use vstd::prelude::*;
use vstd::string::StringExecFns;
use vstd::string::StringSliceAdditionalSpecFns;
use vstd::utf8::encode_utf8;

verus! {

/// Sum of the integers in the half-open range `start..end`
/// (zero when the range is empty).
pub open spec fn sum_range_spec(start: int, end: int) -> int
    decreases end - start,
{
    if end <= start {
        0
    } else {
        sum_range_spec(start, end - 1) + (end - 1)
    }
}

/// The length of a string in bytes (its UTF-8 encoding); for ASCII text
/// this equals the number of characters.
pub fn string_len(s: &String) -> (n: usize)
    ensures
        n == encode_utf8(s@).len() as usize,
        vstd::string::string_is_ascii(s) ==> n == s@.len() as usize,
{
    let t: &str = s.as_str();
    let n: usize = t.len();
    proof {
        assert(t.spec_bytes() == encode_utf8(s@));
        if vstd::string::string_is_ascii(s) {
            vstd::string::is_ascii_spec_bytes(t);
            assert(t.spec_bytes().len() == s@.len());
        }
    }
    n
}

/// Appends the text `" world"` to the string.
pub fn append_world(s: &mut String)
    ensures
        final(s)@ == old(s)@ + " world"@,
{
    s.append(" world");
}

/// The sum of the two referenced integers.
pub fn add(a: &i32, b: &i32) -> (r: i32)
    requires
        i32::MIN <= *a + *b <= i32::MAX,
    ensures
        r == *a + *b,
{
    *a + *b
}

/// Whether the integer is even.
pub fn is_even(num: i32) -> (r: bool)
    ensures
        r == (num as int % 2 == 0),
{
    num % 2 == 0
}

/// Sums the integers in the half-open range `start..end` by a loop.
pub fn sum_from_to(start: i32, end: i32) -> (s: i32)
    requires
        forall|m: int|
            start <= m <= end ==> i32::MIN <= #[trigger] sum_range_spec(start as int, m)
                <= i32::MAX,
    ensures
        s == sum_range_spec(start as int, end as int),
{
    if start >= end {
        return 0;
    }
    let mut sum: i32 = 0;
    let mut curr: i32 = start;
    while curr < end
        invariant
            start <= curr <= end,
            sum == sum_range_spec(start as int, curr as int),
            forall|m: int|
                start <= m <= end ==> i32::MIN <= #[trigger] sum_range_spec(start as int, m)
                    <= i32::MAX,
        decreases end - curr,
    {
        proof {
            assert(i32::MIN <= sum_range_spec(start as int, curr + 1) <= i32::MAX);
        }
        sum = sum + curr;
        curr = curr + 1;
    }
    sum
}

} // verus!
