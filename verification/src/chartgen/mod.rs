pub mod charts;
pub mod draw;
pub mod order;
pub mod sorted;
pub mod svg;
pub mod table;
pub mod text;
pub mod theme;
