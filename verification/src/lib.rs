//! Egress inspection for Docker containers: the verified core.
//!
//! Probes in the kernel record connections, closed sockets and DNS packets.
//! The library decodes these records, learns names from DNS answers, attributes
//! connections to containers, keeps the feed of connections and says what is
//! printed or drawn.

pub mod addr;
pub mod addr_laws;
pub mod clock;
pub mod commands;
pub mod delivery_laws;
pub mod dns;
pub mod dns_laws;
pub mod docker;
pub mod docker_laws;
pub mod events;
pub mod feed_laws;
pub mod order;
pub mod probe;
pub mod record_laws;
pub mod render;
pub mod screen_laws;
pub mod session;
pub mod session_laws;
pub mod stream;
pub mod text;
pub mod text_laws;
pub mod traffic;
pub mod traffic_laws;
pub mod ui;
pub mod ui_laws;
