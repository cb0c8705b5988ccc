//! The verified core of an acoustic network stack: bit packing, hexbit
//! framing, the physical-frame header codec, MAC frames and the MAC
//! protocol's state machine, IPv4 and ICMP packet codecs with their
//! checksums, and the routing decisions of the IP adapter.

pub mod bits;
pub mod hexbit;
pub mod byte_order;
pub mod checksum;
pub mod ip_packet;
pub mod icmp;
pub mod mac_frame;
pub mod mac_framer;
pub mod mac_protocol;
pub mod number;
pub mod address_translation;
pub mod router;
pub mod phy_config;
pub mod phy_frame;
pub mod demodulation;
pub mod args;
pub mod expr;
pub mod expr_reading;
pub mod text;
