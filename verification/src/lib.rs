//! A minimal HTTP/1.1 message model: typed status codes, methods, header
//! fields, and a response value that can be built fluently, serialized to its
//! textual wire form, and parsed back from wire text.

pub mod error;
pub mod header;
pub mod method;
pub mod response;
pub mod status;
pub mod text;

pub use error::Error;
pub use error::ErrorType;
pub use header::Header;
pub use method::Method;
pub use response::Response;
pub use status::Status;
