//! Decoder for a one-way broadcast conditional-access scheme.
//!
//! The crate holds the decoder's logic without its peripherals: the framing
//! of messages on the serial link, the subscription store over a page
//! image of the flash, the key ladder that opens a frame, and the
//! dispatcher that answers list, install and decode requests. A driver
//! moves bytes between the link and a [`console::Console`], runs the
//! integrity probes that the dispatcher asks for, and mirrors the flash
//! image to the device. What holds over more than one move of the
//! dispatcher is stated and proved in [`laws`].

pub mod bytes;
pub mod console;
pub mod crypto;
pub mod dispatcher;
pub mod flash;
pub mod integrity;
pub mod laws;
pub mod resources;
pub mod subscription;
