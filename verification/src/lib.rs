//! A Nostr timeline client's core: content rendering rules, timeline state,
//! image-cache bookkeeping and editor cursor logic, each stated and proved.

pub mod app;
pub mod cache;
pub mod chrome;
pub mod editor;
pub mod emoji;
pub mod entities;
pub mod event;
pub mod keyed;
pub mod layout;
pub mod media;
pub mod mentions;
pub mod nip05;
pub mod nostr_calls;
pub mod picture;
pub mod present;
pub mod publish;
pub mod reactions;
pub mod readback;
pub mod text;
pub mod threads;
pub mod timeline;
