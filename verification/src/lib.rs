//! Verified core of the Sonde sounding viewer: the application state machine (which sounding is
//! shown, which drawing layers must be redrawn, which plot has the focus), the ordering of loaded
//! soundings, the choice of file loaders, the console log queue, the tab layout, the provider's
//! weather symbol and table order, and the small decision tables behind the drawing code.

pub mod app_context;
pub mod ordering;
pub mod config;
pub mod file_formats;
pub mod channel;
pub mod logger;
pub mod cloud_drawing;
pub mod tabs;
pub mod provider;
