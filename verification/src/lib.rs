//! Client-side logic for the DevStats contribution-statistics API: building
//! the query payload, encoding and decoding the JSON wire format, mapping an
//! HTTP reply to a success or error value, and aggregating the rows that
//! belong to one user.

use vstd::prelude::*;

pub mod codec;
pub mod json;
pub mod present;
pub mod types;

verus! {

/// Builds a `Vec<char>` holding exactly the characters of a literal.
pub fn lit_chars(l: &str) -> (v: Vec<char>)
    ensures
        v@ == l@,
{
    let n: usize = l.unicode_len();
    let mut v: Vec<char> = Vec::new();
    let mut j: usize = 0;
    while j < n
        invariant
            j <= n,
            n == l@.len(),
            v@ == l@.take(j as int),
        decreases n - j,
    {
        v.push(l.get_char(j));
        j = j + 1;
        proof {
            assert(v@ =~= l@.take(j as int));
        }
    }
    proof {
        assert(v@ =~= l@);
    }
    v
}

} // verus!
