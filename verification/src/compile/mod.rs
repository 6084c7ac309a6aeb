//! The statement compilers.

pub mod assignments;
pub mod binding;
pub mod copy_law;
pub mod emit_json;
pub mod error_law;
pub mod instead_of;
pub mod limit;
pub mod meaning;
pub mod minmax_index;
pub mod minmax_law;
pub mod notes;
pub mod notes_law;
pub mod ordering;
pub mod order_law;
pub mod order_scan;
pub mod pragma_tvf;
pub mod query_law;
pub mod returning;
pub mod select;
pub mod stored;
pub mod subquery;
pub mod subquery_law;
pub mod trigger;
pub mod trigger_law;
pub mod update;
pub mod update_law;
pub mod values;
pub mod view;
pub mod view_law;
pub mod width_law;
pub mod window;
pub mod window_chain;
pub mod window_law;
