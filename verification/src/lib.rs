//! Interactive screen-capture core: an interaction state machine that drives
//! a selection overlay, a pixel compositor that dims everything outside the
//! current selection and draws rectangular outlines, and a save pipeline that
//! crops the captured bitmap and encodes it as lossless WebP under a
//! deterministic file name.

pub mod geom;
pub mod bitmap;
pub mod cache;
pub mod fsm;
pub mod input;
pub mod naming;
pub mod save;
