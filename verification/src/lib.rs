pub mod components;
pub mod prefab;
pub mod store;
pub mod ui;
