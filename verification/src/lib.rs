//! Core logic of LeanSticky, a file-based sticky-note application:
//! the note, config and session model, localized messages, the storage
//! rules (paths, schema checks, ordering, history pruning, bootstrap
//! decisions, window restore) and the desktop state machines (autosave,
//! activation requests, open note windows).

pub mod text;
pub mod path;
pub mod model;
pub mod messages;
pub mod order;
pub mod storage;
pub mod stamp;
pub mod autosave;
pub mod activation;
pub mod desk;
pub mod fonts;
