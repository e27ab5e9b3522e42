//! Building triangles from textual command-line arguments.

use vstd::prelude::*;

use crate::geometry::coord_ok;
use crate::geometry::COORD_LIMIT;
use crate::geometry::normalized;
use crate::geometry::Point;
use crate::geometry::Triangle;

verus! {

/// The value `str::parse::<i64>` reads from a string, `None` when the
/// string is not a valid decimal integer in range.
pub uninterp spec fn parsed_i64(s: Seq<char>) -> Option<i64>;

/// Relies on `str::parse::<i64>`: parses an optional sign followed by
/// decimal digits; the result depends on the characters alone.
#[verifier::external_body]
fn parse_i64(s: &String) -> (r: Option<i64>)
    ensures
        r == parsed_i64(s@),
{
    s.parse::<i64>().ok()
}

/// The point whose coordinates are parsed from the strings `a` and `b`;
/// meaningful only when both parse.
pub open spec fn parsed_point(a: Seq<char>, b: Seq<char>) -> Point {
    Point { x: parsed_i64(a).unwrap(), y: parsed_i64(b).unwrap() }
}

/// Arguments 1 through 6 of `args` all parse as in-range coordinates.
pub open spec fn args_parse(args: Seq<String>) -> bool {
    &&& args.len() >= 7
    &&& forall|n: int| 1 <= n < 7 ==> (#[trigger] parsed_i64(args[n]@)) is Some
    &&& forall|n: int| 1 <= n < 7 ==> coord_ok(#[trigger] parsed_i64(args[n]@).unwrap())
}

/// Builds a white triangle from six coordinate strings at argument
/// positions 1 through 6, normalizing the winding order.
pub fn get_triangle(args: &Vec<String>) -> (t: Triangle)
    requires
        args_parse(args@),
    ensures
        t == normalized(
            parsed_point(args@[1]@, args@[2]@),
            parsed_point(args@[3]@, args@[4]@),
            parsed_point(args@[5]@, args@[6]@),
            0xFFFFFF,
        ),
        t.wf(),
{
    let p1 = Point { x: parse_i64(&args[1]).unwrap(), y: parse_i64(&args[2]).unwrap() };
    let p2 = Point { x: parse_i64(&args[3]).unwrap(), y: parse_i64(&args[4]).unwrap() };
    let p3 = Point { x: parse_i64(&args[5]).unwrap(), y: parse_i64(&args[6]).unwrap() };
    Triangle::new(p1, p2, p3, 0xFFFFFF)
}

/// Tests the six coordinate arguments and builds the triangle only when
/// every one parses to an in-range coordinate; `None` says which inputs
/// [`get_triangle`] rejects.
pub fn try_get_triangle(args: &Vec<String>) -> (r: Option<Triangle>)
    ensures
        r is Some <==> args_parse(args@),
        r is Some ==> r.unwrap() == normalized(
            parsed_point(args@[1]@, args@[2]@),
            parsed_point(args@[3]@, args@[4]@),
            parsed_point(args@[5]@, args@[6]@),
            0xFFFFFF,
        ),
        r is Some ==> r.unwrap().wf(),
{
    if args.len() < 7 {
        return None;
    }
    let mut n: usize = 1;
    while n < 7
        invariant
            args@.len() >= 7,
            1 <= n <= 7,
            forall|m: int| 1 <= m < n ==> (#[trigger] parsed_i64(args@[m]@)) is Some,
            forall|m: int|
                1 <= m < n ==> coord_ok(#[trigger] parsed_i64(args@[m]@).unwrap()),
        decreases 7 - n,
    {
        match parse_i64(&args[n]) {
            Some(v) => {
                if v < -COORD_LIMIT || v > COORD_LIMIT {
                    return None;
                }
            },
            None => {
                return None;
            },
        }
        n = n + 1;
    }
    Some(get_triangle(args))
}

} // verus!
