//! Driver core for ST7735/ST7789-class TFT panel controllers.
//!
//! The controller is addressed over a two-channel serial bus (command bytes
//! versus data bytes, distinguished by a mode line), with an extra reset pin
//! and mandatory settle delays.  Everything the driver emits on that bus is
//! modelled here as a sequence of [`protocol::TxEvent`] values, and every
//! drawing primitive carries a contract pinning down exactly which events it
//! appends to the transport's log.
//!
//! The bus itself is behind the [`transport::Transport`] trait; an in-memory
//! [`transport::Recorder`] implements it for inspection and testing, and a
//! hardware adapter can implement it over a real SPI/GPIO stack.

pub mod circle;
pub mod geometry;
pub mod glyph;
pub mod laws;
pub mod protocol;
pub mod raster;
pub mod session;
pub mod streamer;
pub mod transport;
