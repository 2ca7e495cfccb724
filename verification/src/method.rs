//! The HTTP methods that routes can be registered under.

use vstd::prelude::*;

verus! {

/// An HTTP request method. Routes are registered per method, and dispatch
/// looks a path up in the matcher of the request's method only.
#[derive(Clone, Copy, Debug, PartialEq, Eq, Hash, Structural)]
pub enum Method {
    Get,
    Post,
    Put,
    Delete,
    Head,
    Patch,
    Options,
}

/// The fixed order in which OPTIONS aggregation scans the methods.
pub open spec fn method_order() -> Seq<Method> {
    seq![
        Method::Get,
        Method::Post,
        Method::Put,
        Method::Delete,
        Method::Head,
        Method::Patch,
        Method::Options,
    ]
}

/// Every method occurs in the scan order.
pub proof fn lemma_method_order_complete(m: Method)
    ensures
        method_order().contains(m),
{
    match m {
        Method::Get => assert(method_order()[0] == m),
        Method::Post => assert(method_order()[1] == m),
        Method::Put => assert(method_order()[2] == m),
        Method::Delete => assert(method_order()[3] == m),
        Method::Head => assert(method_order()[4] == m),
        Method::Patch => assert(method_order()[5] == m),
        Method::Options => assert(method_order()[6] == m),
    }
}

/// The methods in scan order, as a vector.
pub fn all_methods() -> (r: Vec<Method>)
    ensures
        r@ == method_order(),
{
    let mut r: Vec<Method> = Vec::new();
    r.push(Method::Get);
    r.push(Method::Post);
    r.push(Method::Put);
    r.push(Method::Delete);
    r.push(Method::Head);
    r.push(Method::Patch);
    r.push(Method::Options);
    proof {
        assert(r@ =~= method_order());
    }
    r
}

} // verus!
