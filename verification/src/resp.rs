//! The RESP wire protocol: values, their byte form, and the commands they spell.

pub mod command;
pub mod decode;
pub mod encode;
pub mod laws;
pub mod number;
pub mod text;
pub mod value;
pub mod wire;

pub use crate::connection::Connection;
pub use command::{Command, CommandView, InterpretError};
pub use decode::{
    decode_array, decode_bulk_string, decode_error, decode_integer, decode_message,
    decode_simple_string, read_line, Decoded,
};
pub use number::read_number;
pub use value::{Value, ValueView};
pub use wire::ProtocolError;
