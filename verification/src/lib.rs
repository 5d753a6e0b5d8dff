//! Bring-up and pixel streaming for a 480x480 RGB panel behind an ST7701-class
//! controller.
//!
//! The crate holds the decisions: which frames go to the panel and in what
//! order, how a frame looks on the wire of either transport, when the reset
//! line moves and how long it rests, and how the streaming ring buffer
//! accounts for its space. It touches no pin, timer or DMA engine. The
//! caller carries out what the library asks for and reports back what the
//! hardware did.
//!
//! - [`frame`]: frames and their nine-bit words.
//! - [`transport`]: the transport capability, [`SpiProvider`].
//! - [`hardware`]: the transport over a bus peripheral, [`HardwareSpi`].
//! - [`line`], [`bitbang`]: the transport over three lines, [`ManualSpi`].
//! - [`sequence`], [`vendor`]: panel commands and the programming sequence.
//! - [`panel`]: the panel controller, [`St7701`].
//! - [`ring`], [`stream`]: the ring buffer and the streaming handle.
//! - [`phase`]: the phases of the device.
//! - [`pixel`]: colours and their bytes.

pub mod bitbang;
pub mod frame;
pub mod hardware;
pub mod line;
pub mod panel;
pub mod phase;
pub mod pixel;
pub mod ring;
pub mod sequence;
pub mod stream;
pub mod transport;
pub mod vendor;

pub use bitbang::ManualSpi;
pub use hardware::HardwareSpi;
pub use panel::St7701;
pub use ring::RingBuffer;
pub use stream::Transfer;
pub use transport::SpiProvider;
