pub mod app;
pub mod widgets;
