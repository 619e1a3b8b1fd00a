pub mod acceptor;
pub mod bytebuf;
pub mod codec;
pub mod config;
pub mod connection;
