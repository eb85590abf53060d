pub mod backup;
pub mod domain;
pub mod error;
pub mod history;
pub mod imports;
pub mod inventory;
pub mod locale;
pub mod machines;
pub mod media;
pub mod parser;
pub mod pet;
pub mod printers;
pub mod settlement;
pub mod slots;
pub mod text;
