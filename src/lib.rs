//! Decoding of radiotap-wrapped 802.11 management frames and Ethernet
//! packets, and aggregation of observed wireless networks.

pub mod ip_text;
pub mod packet_sniffer;
pub mod radiotap;
pub mod text;
pub mod wifi_scanner;
