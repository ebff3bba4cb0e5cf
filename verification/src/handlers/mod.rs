//! What clients ask for.
pub mod capture;
pub mod compositor;
pub mod lock;
pub mod scale;
pub mod wlr_shell;
pub mod workspace;
pub mod xdg_shell;
