//! Game logic of a falling-block puzzle game.
pub mod controls;
pub mod game;
pub mod menus;
pub mod playfield;
pub mod rustomino;
pub mod rustris_controller;
pub mod rustris_view;
pub mod util;
