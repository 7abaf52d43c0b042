//! Plain request and reply values of the service endpoints.

use vstd::prelude::*;
use vstd::string::StringExecFns;

verus! {

/// The greeting endpoint's query: an optional name to greet.
#[derive(Debug)]
pub struct Hello {
    pub input: Option<String>,
}

/// The greeting for a query; a missing name is greeted as `Test`.
pub fn hello(query: &Hello) -> (r: String)
    ensures
        match query.input {
            Some(who) => r@ == "Hello, "@ + who@ + "!"@,
            None => r@ == "Hello, "@ + "Test"@ + "!"@,
        },
{
    let mut s: String = "Hello, ".to_owned();
    match &query.input {
        Some(who) => s.append(who.as_str()),
        None => s.append("Test"),
    }
    s.append("!");
    s
}

} // verus!
