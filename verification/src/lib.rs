//! Drivers for the Raspberry Pi's USB host, GPU, VideoCore transport and
//! watchdog, with what each one does to its hardware stated and proved.

pub mod bytes;
pub mod mmal;
pub mod program;
pub mod registers;
pub mod watchdog;
pub mod usb;
pub mod v3d;
pub mod vchiq;
pub mod video_decode;
