//! The logic of a desktop client for coding agents: how a transcript folds
//! into rows, how driver events change a session, how the sidebar, settings
//! and updater decide what to do.
pub mod text;
pub mod paths;
pub mod i18n;
pub mod model;
pub mod session;
pub mod transcript;
pub mod duration;
pub mod text_laws;
pub mod layout;
pub mod navigation;
pub mod transcript_laws;
pub mod response;
pub mod streaming;
pub mod streaming_laws;
pub mod user_input;
pub mod analytics;
pub mod events;
pub mod event_laws;
pub mod reply_laws;
pub mod activity;
pub mod calendar;
pub mod sidebar;
pub mod sidebar_state;
pub mod sidebar_view;
pub mod sidebar_laws;
pub mod task_laws;
pub mod tasks;
pub mod control_laws;
pub mod decision_laws;
pub mod controls;
pub mod settings;
pub mod messages;
pub mod activity_laws;
pub mod todo;
pub mod memory;
pub mod updater;
pub mod settings_laws;
pub mod swap;
pub mod daemon;
pub mod driver;
pub mod cache;
pub mod system_laws;
pub mod interface_laws;
pub mod surface_laws;
