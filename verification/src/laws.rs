//! What the library promises of whole operations: each law relates what goes into an
//! operation to what comes out of it.

pub mod drawing;
pub mod feed;
pub mod maps;
pub mod menus;
pub mod panels;
pub mod published;
pub mod reading;
pub mod scene;
pub mod settings;
pub mod trains;
pub mod wire;
