use vstd::prelude::*;
use vstd::utf8::*;
use vstd::string::*;

verus! {

/// The greatest char boundary of `bytes` that is at most `max`.
pub open spec fn floor_char_boundary(bytes: Seq<u8>, max: int) -> int
    decreases max,
{
    if max <= 0 {
        0
    } else if is_char_boundary(bytes, max) {
        max
    } else {
        floor_char_boundary(bytes, max - 1)
    }
}

/// Cuts `s` to at most `max` bytes without splitting a character: the
/// result is the longest prefix that ends on a char boundary at or before `max`.
pub fn truncate_utf8(s: &str, max: usize) -> (r: &str)
    ensures
        s.len() <= max ==> r@ == s@,
        s.len() > max ==> r.spec_bytes() == s.spec_bytes().subrange(
            0,
            floor_char_boundary(s.spec_bytes(), max as int),
        ),
{
    proof {
        broadcast use encode_utf8_valid_utf8;
    }
    if s.len() <= max {
        return s;
    }
    let mut end = max;
    while end > 0 && !s.is_char_boundary(end)
        invariant
            end <= max,
            max < s.spec_bytes().len(),
            floor_char_boundary(s.spec_bytes(), max as int) == floor_char_boundary(
                s.spec_bytes(),
                end as int,
            ),
        decreases end,
    {
        end -= 1;
    }
    proof {
        assert(is_char_boundary(s.spec_bytes(), 0));
    }
    let (head, _tail) = s.split_at(end);
    head
}

} // verus!
