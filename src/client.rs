pub mod projection;
pub mod state;
pub mod stateclient;
pub mod storage;

pub use state::{ChannelState, ConnectionState, ConnectionStatus};
pub use stateclient::StateClient;
pub use storage::{InMemoryStorage, StateStorage};
