pub mod text;
pub mod smap;
pub mod variable_store;
pub mod content;
pub mod state;
pub mod chance;
pub mod reducer;
pub mod narrative;
pub mod turn_policies;
pub mod roles;
pub mod panels;
pub mod closure;
pub mod stage_assignment;
pub mod runtime;
