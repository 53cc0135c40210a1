//! A Fibonacci number stream with two numbers of state. Each step yields the
//! sum of the pair and shifts it along, stopping cleanly at the edge of the
//! integer range instead of wrapping.

use vstd::prelude::*;

verus! {

/// The stream's state: the next number to add and the one before it.
#[derive(Debug)]
pub struct Fibonacci {
    /// The larger of the pair, returned next (after adding `b`).
    pub a: u32,
    /// The smaller of the pair.
    pub b: u32,
}

/// The stream positioned at its start: the first number yielded is 1.
pub fn fibonacci_numbers() -> (f: Fibonacci)
    ensures
        f.a == 1,
        f.b == 0,
{
    Fibonacci { a: 1, b: 0 }
}

impl Fibonacci {
    /// Yields the next Fibonacci number and advances the pair, or yields
    /// nothing and stays put once the next number would not fit.
    pub fn next(&mut self) -> (r: Option<u32>)
        ensures
            old(self).a + old(self).b <= u32::MAX ==> {
                &&& r == Some(((old(self).a + old(self).b) as u32))
                &&& final(self).a == old(self).a + old(self).b
                &&& final(self).b == old(self).a
            },
            old(self).a + old(self).b > u32::MAX ==> {
                &&& r is None
                &&& *final(self) == *old(self)
            },
    {
        let n = self.a.checked_add(self.b);
        if let Some(x) = n {
            self.b = self.a;
            self.a = x;
        }
        n
    }
}

} // verus!
