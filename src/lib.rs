//! Discovery, classification and grouping of the browser's processes, the
//! debugging-protocol logic that recovers the tabs each browser instance
//! shows, and the pure parts of the surrounding developer tools: installed
//! channels, launch presets, checkouts and scheduled scripts.
pub mod text;
pub mod classify;
pub mod grouping;
pub mod ports;
pub mod http;
pub mod cdp;
pub mod scripts;
pub mod repos;
pub mod launcher;
pub mod installs;
