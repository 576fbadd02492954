//! The decision core of a dual-lane multiplexed session over a reliable UDP
//! transport: admission, pairing, path exploration, session recycling, stream
//! migration and the accounting around them, on plain values.

pub mod accept_error;
pub mod addr;
pub mod admission;
pub mod assoc;
pub mod bidirectional;
pub mod byte_count;
pub mod client_stream;
pub mod connector;
pub mod error;
pub mod explorer;
pub mod group;
pub mod key;
pub mod lane;
pub mod lane_rejection;
pub mod lane_transport;
pub mod migrating_write_half;
pub mod poll;
pub mod random;
pub mod retain;
pub mod server;
pub mod session;
pub mod shared;
pub mod stream;
pub mod task_scope;
pub mod testkit;
pub mod text;

pub use addr::SocketAddrPair;
pub use bidirectional::BidirectionalSession;
pub use byte_count::SessionStats;
pub use client_stream::ClientStream;
pub use connector::session::{OpenedStream, SessionProbe};
pub use connector::RtpMuxConnector;
pub use explorer::path_score::{MigrationRule, MigrationVerdict, PathScore};
pub use explorer::tuple_stats::TupleReport;
pub use explorer::{ExplorerConfig, ExplorerReport};
pub use key::ObfuscationKey;
pub use lane::LaneClass;
pub use migrating_write_half::{ControlKind, MigratingWriteHalf};
pub use server::ServeError;
pub use session::SessionSpawner;
pub use stream::ServerStream;
