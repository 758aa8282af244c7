//! A multi-process libretro host: a frontend process owns the window, audio
//! sink and input devices, while a backend process owns the emulator core.
//! The two talk over a framed byte stream.  This crate is the verified heart
//! of that design: the message schema and its binary codec, the framing
//! layer, the request/response correlation engine, the pixel-format and
//! variable parsing helpers, and the decision logic both processes run.
//! Process plumbing (sockets, threads, the C ABI of the core) lives outside.

pub mod adapter;
pub mod audio;
pub mod codec;
pub mod dispatch;
pub mod errors;
pub mod framing;
pub mod graphics;
pub mod input;
pub mod messages;
pub mod pixel;
pub mod retro_types;
pub mod text;
