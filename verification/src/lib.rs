//! A small library for sending one request to many servers and collecting
//! their answers, and for routing requests on the server side by a chain of
//! route names written in front of them.

pub mod configuration;
pub mod node;
pub mod proto;
pub mod response;
pub mod route;
pub mod server;

pub use crate::configuration::Configuration;
pub use crate::configuration::ResponseRouter;
pub use crate::configuration::SendOptions;
pub use crate::node::Node;
pub use crate::proto::Generator;
pub use crate::response::Response;
pub use crate::route::add_route;
pub use crate::route::get_route;
pub use crate::route::RouteHandler;
pub use crate::server::HandleError;
pub use crate::server::Server;
pub use crate::server::ServerHandler;
