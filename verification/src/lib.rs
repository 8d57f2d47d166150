//! nyado: a terminal todo list. This crate holds the application's logic:
//! the task store, ordering and filtering, the command state machine, the
//! text editors behind the popups, localisation lookup and the layout rules
//! of the interface.

pub mod text;
pub mod width;
pub mod todo;
pub mod storage;
pub mod order;
pub mod i18n;
pub mod app;
pub mod datetime;
pub mod commands;
pub mod popup;
pub mod multiline;
pub mod layout;
pub mod record;
