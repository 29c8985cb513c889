//! The container engine: what it is asked, and what its answers mean.

pub mod clock;
pub mod events;
pub mod http;
pub mod json;
pub mod laws;
pub mod stream;
pub mod wire;

pub use self::clock::normalize_ts;
pub use self::http::ContainerInfo;
pub use self::wire::{DockerLogMsg, StreamType};

use vstd::prelude::*;

verus! {

/// Where the engine listens.
pub const DOCKER_SOCKET: &'static str = "/var/run/docker.sock";

/// The way to the engine.
pub struct DockerClient {
    socket_path: String,
}

impl DockerClient {
    pub closed spec fn path(&self) -> Seq<char> {
        self.socket_path@
    }

    pub fn new() -> (r: DockerClient)
        ensures
            r.path() == DOCKER_SOCKET@,
    {
        DockerClient { socket_path: DOCKER_SOCKET.to_owned() }
    }

    /// The path of the engine's socket.
    pub fn socket_path(&self) -> (r: &str)
        ensures
            r@ == self.path(),
    {
        self.socket_path.as_str()
    }
}

} // verus!
