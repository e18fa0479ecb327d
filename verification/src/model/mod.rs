pub mod state;
pub mod vision;
pub mod game;
pub mod resolve_effect;
pub mod animations;
pub mod script;
pub mod phases;
pub mod gen;
pub mod shift;
pub mod turn;
pub mod lookup;
pub mod flow;
pub mod effects;
pub mod action;
