//! The decision logic of the Genkan greeter: session files, the dynamic
//! wallpaper format, wallpaper playback, and the session locker.

pub mod arguments;
pub mod dynamic_wallpaper;
pub mod geoclue;
pub mod locker;
pub mod outputs;
pub mod paths;
pub mod power;
pub mod sessions;
pub mod stable_file;
pub mod text;
pub mod theme;
pub mod wallpaper;
pub mod wire;
