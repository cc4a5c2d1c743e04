use vstd::prelude::*;
use vstd::string::StringExecFns;

verus! {

/// Why a request was not answered.
#[derive(Debug)]
pub enum HandleError {
    /// No handler is registered under the route that the request names.
    UnhandledRoute(String),
    /// A handler failed, for the reason given.
    Failed(String),
}

impl HandleError {
    /// The text that tells what went wrong.
    pub fn message(&self) -> (m: String)
        ensures
            match self {
                HandleError::UnhandledRoute(route) => m@ == "unhandled route: "@ + route@,
                HandleError::Failed(reason) => m@ == reason@,
            },
    {
        match self {
            HandleError::UnhandledRoute(route) => {
                let mut m = String::from_str("unhandled route: ");
                m.append(route.as_str());
                m
            },
            HandleError::Failed(reason) => reason.clone(),
        }
    }
}

/// Something that answers requests: a service, or a router that passes each
/// request on to the service that its route names.
pub trait ServerHandler: Send {
    /// Whether `res` is an answer that this handler gives to `request`. A
    /// handler that says nothing of its answers gives any.
    closed spec fn answers(&self, request: Seq<u8>, res: Result<Vec<u8>, HandleError>) -> bool {
        true
    }

    /// Answers `request`.
    fn handle(&mut self, request: &[u8]) -> (res: Result<Vec<u8>, HandleError>)
        ensures
            old(self).answers(request@, res),
    ;
}

} // verus!

verus! {

/// A server that answers each request on its connections with `handler`.
/// Serving it (which reads and writes sockets) is up to the caller.
pub struct Server<Handler: ServerHandler + 'static> {
    pub handler: Box<Handler>,
}

impl<Handler: ServerHandler + 'static> Server<Handler> {
    /// A server that answers with `handler`.
    pub fn new(handler: Box<Handler>) -> (server: Self)
        ensures
            server.handler == handler,
    {
        Server { handler: handler }
    }
}

} // verus!
