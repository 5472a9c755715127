pub mod setting;
pub mod util;
pub mod wildcard;
pub mod matcher;
pub mod request;
pub mod var;
pub mod base64;
pub mod compress;
pub mod options;
pub mod config;
pub mod dispatch;
pub mod conf;
pub mod loader;
pub mod directory;
