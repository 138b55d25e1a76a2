pub mod text;
pub mod assoc;
pub mod names;
pub mod days;
pub mod clock;
pub mod naming;
pub mod wrap;
pub mod data;
pub mod aggregate;
pub mod ui;
pub mod laws;
pub mod sessions;
pub mod calls;
pub mod figures;
