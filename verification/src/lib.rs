//! The logic of a UDP tunnel over a TUN interface.

pub mod addr;
pub mod client;
pub mod clock;
pub mod command;
pub mod linux_routes;
pub mod packet;
pub mod relay;
pub mod server;
pub mod setup;
pub mod text;
pub mod tun;
pub mod windows_routes;

pub use clock::ts_ms;
pub use tun::TunParams;
