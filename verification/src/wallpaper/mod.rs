//! The wallpaper behind the greeter and the locker.

pub mod catalog;
pub mod relay;
pub mod worker;
pub mod video;
pub mod presentation;
