use vstd::prelude::*;

verus! {

/// The cells of the Bresenham line from `(x1, y1)` to `(x2, y2)` that `bracket-lib`'s
/// `line2d` gives, in order.
pub uninterp spec fn bresenham_line(x1: i32, y1: i32, x2: i32, y2: i32) -> Seq<(i32, i32)>;

/// The smaller of two integers.
pub open spec fn min2(a: int, b: int) -> int {
    if a <= b { a } else { b }
}

/// The larger of two integers.
pub open spec fn max2(a: int, b: int) -> int {
    if a <= b { b } else { a }
}

/// The cells of the line from `(x1, y1)` to `(x2, y2)`, by
/// `line2d(LineAlg::Bresenham, ..)`, each as `(x, y)`.
/// Claimed of the outside code, whose source shows the iterator yielding the start and
/// the cells up to, but not including, the end, then appending the end: the line starts at
/// the start and ends at the end, and, as Bresenham's stepping does, keeps within the box
/// the two corners span. Which cells lie between is named, not stated.
#[verifier::external_body]
pub(crate) fn line_cells(x1: i32, y1: i32, x2: i32, y2: i32) -> (cells: Vec<(i32, i32)>)
    requires
        -1_000_000 <= x1 <= 1_000_000,
        -1_000_000 <= y1 <= 1_000_000,
        -1_000_000 <= x2 <= 1_000_000,
        -1_000_000 <= y2 <= 1_000_000,
    ensures
        cells@ == bresenham_line(x1, y1, x2, y2),
        cells@.len() >= 1,
        cells@[0] == (x1, y1),
        cells@.last() == (x2, y2),
        forall|i: int| #![trigger cells@[i]] 0 <= i < cells@.len() ==> {
            &&& min2(x1 as int, x2 as int) <= cells@[i].0 <= max2(x1 as int, x2 as int)
            &&& min2(y1 as int, y2 as int) <= cells@[i].1 <= max2(y1 as int, y2 as int)
        },
{
    bracket_lib::prelude::line2d(
        bracket_lib::prelude::LineAlg::Bresenham,
        bracket_lib::prelude::Point::new(x1, y1),
        bracket_lib::prelude::Point::new(x2, y2),
    ).iter().map(|p| (p.x, p.y)).collect()
}

} // verus!
