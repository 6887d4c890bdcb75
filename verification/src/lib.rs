//! Verified core of a terminal table viewer.

pub mod adapter;
pub mod cli;
pub mod column_modal;
pub mod delimited;
pub mod delimited_preview;
pub mod delimited_table;
pub mod encoding;
pub mod interaction;
pub mod json_layout;
pub mod json_lazy;
pub mod json_preview;
pub mod json_rows;
pub mod json_scan;
pub mod json_schema;
pub mod json_select;
pub mod json_table;
pub mod json_value;
pub mod keys;
pub mod numerals;
pub mod options;
pub mod output;
pub mod patterns;
pub mod row_sources;
pub mod saved_colors;
pub mod saved_columns;
pub mod saved_selection;
pub mod saved_views;
pub mod source;
pub mod source_modal;
pub mod startup;
pub mod status;
pub mod table;
pub mod text;
pub mod view_comments;
pub mod walks;
