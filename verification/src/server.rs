use vstd::prelude::*;

verus! {

/// The greeting served at the root of the web front end.
pub fn index() -> (r: &'static str)
    ensures
        r@ == "Hello, world!"@,
{
    "Hello, world!"
}

/// The greeting served at the root of the CORS-enabled mount.
pub fn cors<'a>() -> (r: &'a str)
    ensures
        r@ == "Hello CORS"@,
{
    "Hello CORS"
}

} // verus!
