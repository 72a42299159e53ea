pub mod bytes;
pub mod fields;
pub mod pool;
pub mod request;
pub mod response;
pub mod router;
pub mod server;
pub mod text;

pub use fields::FieldMap;
pub use pool::JobQueue;
pub use request::{ParseError, Request};
pub use response::{Response, Status};
pub use router::Router;
pub use server::{dispatch, App, Step};
