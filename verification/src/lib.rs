//! An editor for the tags of image datasets: captions and their tags, filters
//! and batch edits with history, the tag picker, dataset metadata, file
//! operations, and the selection of predicted tags.

pub mod actions;
pub mod batch;
pub mod control_laws;
pub mod dataset;
pub mod dataset_laws;
pub mod download;
pub mod editor;
pub mod editor_laws;
pub mod edits;
pub mod file_laws;
pub mod file_ops;
pub mod filter;
pub mod filter_laws;
pub mod frequency;
pub mod grid;
pub mod history;
pub mod imaging;
pub mod item;
pub mod json;
pub mod laws;
pub mod match_laws;
pub mod metadata;
pub mod metadata_laws;
pub mod order;
pub mod panel_laws;
pub mod panels;
pub mod path_laws;
pub mod paths;
pub mod pattern;
pub mod session;
pub mod settings;
pub mod sorting;
pub mod sorting_laws;
pub mod storage;
pub mod suggestions;
pub mod tag_laws;
pub mod tag_picker;
pub mod tag_set;
pub mod tagger;
pub mod tagger_laws;
pub mod tagging;
pub mod tags;
pub mod text;
pub mod text_laws;
pub mod thumbnails;
pub mod transfer;
pub mod update_laws;
pub mod work_laws;
