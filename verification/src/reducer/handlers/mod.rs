pub mod movement;
pub mod items;
pub mod observation;
pub mod lifecycle;
pub mod party;
pub mod menus;
