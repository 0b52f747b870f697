pub mod text;
pub mod paths;
pub mod data_management;
pub mod settings;
pub mod hotkey;
pub mod clipboard;
pub mod image_library;
pub mod editor_window;
pub mod database;
pub mod focus;
pub mod store;
pub mod main_window;
