pub mod action_laws;
pub mod animation;
pub mod client_laws;
pub mod config;
pub mod cursor;
pub mod effect;
pub mod gesture;
pub mod handlers;
pub mod layer;
pub mod layout;
pub mod layout_laws;
pub mod laws;
pub mod output;
pub mod placement_laws;
pub mod plane_laws;
pub mod scalar;
pub mod session_laws;
pub mod settled_laws;
pub mod state;
pub mod swipe_laws;
pub mod table;
pub mod window;
pub mod window_laws;
pub mod world;
pub mod world_actions;
pub mod world_events;
pub mod world_laws;
