use vstd::prelude::*;

verus! {

/// The name of the generated function that checks every element of a list.
pub const EXPECT_ON_LIST: &'static str = "__expect_on_list";

} // verus!
