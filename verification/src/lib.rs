pub mod bytebuf;
pub mod codec;
pub mod connack;
pub mod connect;
pub mod disconnect;
pub mod error;
pub mod header;
pub mod pingreq;
pub mod pingresp;
pub mod property;
pub mod puback;
pub mod publish;
pub mod reason_code;
pub mod suback;
pub mod subscribe;
pub mod types;
pub mod unsuback;
pub mod unsubscribe;
pub mod utils;
pub mod variable_integer;
pub mod websocket;
pub mod wire;
