//! Functions that take and give closures.
use vstd::prelude::*;

verus! {

/// Calls `closure` with the arguments 1 and 2 and returns what it returns.
pub fn receives_closure<F>(closure: F) -> (result: i32) where F: Fn(i32, i32) -> i32
    requires
        closure.requires((1i32, 2i32)),
    ensures
        closure.ensures((1i32, 2i32), result),
{
    closure(1, 2)
}

/// Returns a closure that adds four to its argument. The closure accepts
/// every argument that leaves room for the sum.
pub fn return_closues() -> (closure: impl Fn(i32) -> i32)
    ensures
        forall|x: i32| x + 4 <= i32::MAX ==> closure.requires((x,)),
        forall|x: i32, y: i32| closure.ensures((x,), y) ==> y == x + 4,
{
    |x: i32| -> (y: i32)
        requires
            x + 4 <= i32::MAX,
        ensures
            y == x + 4,
        { x + 4 }
}

} // verus!
