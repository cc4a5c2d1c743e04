use vstd::prelude::*;
use crate::node::Node;

verus! {

/// `std::io::Error`, carried through as it is.
#[verifier::external_type_specification]
#[verifier::external_body]
pub struct ExIoError(std::io::Error);

/// The answer of one node to a request, or why there is none; `node` is the
/// node that answered, where there is one.
pub struct Response<'a, T, NIDT> {
    pub response: Result<T, std::io::Error>,
    pub node: Option<&'a Node<NIDT>>,
}

} // verus!
