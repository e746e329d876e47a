//! `programs`: what software is installed on this machine, the local
//! equivalent of Add/Remove Programs, extended to user-local installs.
//!
//! Every entry is one record in a shared schema (`source`, `name`, `version`,
//! `publisher`, `location`, `scope`). What the machine holds is read by the
//! host and handed in as plain values; this library turns it into listings,
//! screens, row actions and report documents.
//!
//! ```text
//!   entry      the shared record, and what can be done with one
//!   inventory  the envelope a listing fills, sorted by name
//!   linux/     what is installed, as Linux records it
//!   windows/   what is installed, as Windows records it
//!   handler    what a call does, and what is remembered between calls
//!   view       the results, pager and detail screens
//!   report     handing the last scan to a report provider
//!   clipboard  which tools put a path on the clipboard
//!   i18n       the module's phrases, in English and Ukrainian
//!   ui         the widgets a screen is made of
//!   text       strings as sequences of characters
//! ```

use vstd::prelude::*;

pub mod clipboard;
pub mod entry;
pub mod handler;
pub mod i18n;
pub mod inventory;
pub mod linux;
pub mod report;
pub mod text;
pub mod ui;
pub mod view;
pub mod windows;

verus! {
} // verus!
