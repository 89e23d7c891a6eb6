//! Dextryx Images core: workplace/asset domain rules, application and platform
//! contracts, the embedded-preview image engine and the viewport's pixel
//! adaptation.

pub mod application;
pub mod domain;
pub mod engine;
pub mod outside;
pub mod platform;
pub mod viewport;
