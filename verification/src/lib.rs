//! The request pipeline of a key-value store that is reached over a
//! connection: the frames that requests and responses travel in, the
//! dispatcher that carries a request out on a storage backend, and the
//! service that lets listeners follow each request.
//!
//! Nothing here reads or writes a connection. Frames are taken from and added
//! to buffers, and whoever owns the connection moves the bytes.

pub mod ae;
pub mod error;
pub mod net;
pub mod pb;
pub mod store;

pub use ae::service::{Listener, ListenerMut, Notify, NotifyMut, Service, ServiceInner, Signal};
pub use ae::{dispatch, CommandHandler};
pub use error::HikvError;
pub use net::frame::{decode_header, FrameCodec, LEN_LEN};
pub use net::{ProstClientStream, ProstServerStream};
pub use pb::abi::command_request;
pub use pb::abi::value;
pub use pb::abi::{CommandRequest, CommandResponse, Del, Exist, Get, KvSet, Value};
pub use store::memory::MemTable;
pub use store::sleddb::{flip, SledDb};
pub use store::Storage;
