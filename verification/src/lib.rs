use vstd::prelude::*;

pub mod text;
pub mod triggers;
pub mod midi;
pub mod osc;
pub mod scripture_query;
pub mod scripture_books;
pub mod scripture;
pub mod scripture_import;
pub mod project;
pub mod network;
pub mod song_import;
pub mod logging;
pub mod media;
pub mod broadcast;
pub mod audio;
pub mod ndi_receive;
pub mod commands;
pub mod xml;
pub mod bible_xml;
pub mod pro_xml;
pub mod playlist;
pub mod library_edit;
pub mod stage_message;
pub mod displays;
pub mod templates;
pub mod bibles;
pub mod presets;
pub mod browse;
pub mod outro;
pub mod looks;

verus! {
}
