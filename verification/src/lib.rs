//! Metadata tagging for MP4 and M4V movies.
//!
//! - `model` holds what is known about a title; `error`, `text`, `dates` and `rating` serve the
//!   rest.
//! - `tmdb` makes the requests to TMDB and reads titles out of its replies; `episodes` searches
//!   through shows; `naming` reads titles out of file names; `artwork` prepares pictures.
//! - `tag` maps titles onto the atoms of a file and back, with `atoms` and `plist`; it also leads
//!   through a save, and `save` says what becomes of the files in the end. `mp4rewrite` lays files
//!   out anew, and `mp4dim` finds the size of the video.
//! - `worker` plans what the disk and the service are asked for. `editor` is the state behind the
//!   window, made of `form`, `history` and `gallery`.
//! - `commands` is the command line; `license`, `paths`, `colors`, `winassoc` and `installer` are
//!   about the desktop.

pub mod artwork;
pub mod atoms;
pub mod colors;
pub mod commands;
pub mod dates;
pub mod editor;
pub mod episodes;
pub mod error;
pub mod form;
pub mod gallery;
pub mod history;
pub mod installer;
pub mod license;
pub mod model;
pub mod mp4dim;
pub mod mp4rewrite;
pub mod naming;
pub mod paths;
pub mod plist;
pub mod rating;
pub mod save;
pub mod tag;
pub mod text;
pub mod tmdb;
pub mod winassoc;
pub mod worker;
