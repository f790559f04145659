//! Wake-on-LAN: turning a textual hardware address into a magic packet.
pub mod hex;
pub mod mac;
pub mod packet;
