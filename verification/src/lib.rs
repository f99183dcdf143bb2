//! The decisions of the privileged helper of NulConnect.
//!
//! The helper carries the packets of a machine to a tunnel service and sets up
//! the network for it. Everything that it decides on the way is here, with a
//! contract: what becomes of a packet or a flow, which commands, routes and
//! rules put the network up and take it down again, and how requests, starts
//! and stops follow each other. The application around it moves the bytes.
pub mod encoding;
pub mod error;
pub mod helper;
pub mod helper_runtime;
pub mod ipv4;
pub mod networksetup;
pub mod number;
pub mod packet;
pub mod resolver;
pub mod routes;
pub mod settings;
pub mod sockets;
pub mod sorted;
pub mod text;
pub mod traffic;
pub mod tun_proxy;
pub mod tun_stack;
pub mod tun_tcp;
pub mod tun_udp;
pub mod vpn_engine;
pub mod windows;
pub mod windows_ipc;
pub mod windows_log;
pub mod windows_net;
pub mod windows_plan;
pub mod windows_service_host;
