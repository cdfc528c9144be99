//! Running a program on a remote host over one newline-framed byte stream:
//! the wire records, the server's session logic and the client's routing of
//! the result stream into stdout, stderr and exit channels.

pub mod codec;
pub mod demux;
pub mod executor;
pub mod framing;
pub mod json;
pub mod launch;
pub mod protocol;
pub mod remote_command;

pub use protocol::{CommandRequest, OutputType, ResultMessage, StreamLine};
pub use remote_command::RemoteCommand;
