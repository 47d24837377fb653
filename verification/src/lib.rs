pub mod position;
pub mod tile;
pub mod door;
pub mod random;
pub mod room;
pub mod map;
pub mod pathfinding;
pub mod map_view_areas;
pub mod items;
pub mod container;
pub mod text;
pub mod errors;
pub mod io_error_utils;
pub mod character;
pub mod equipment;
pub mod progress;
pub mod settings;
pub mod option_list_selection;
pub mod input;
pub mod menu;
pub mod container_view;
pub mod map_generator;
pub mod characters;
pub mod level;
pub mod spawning;
pub mod list_selection;
pub mod command;
pub mod weapon;
pub mod look;
pub mod container_util;
pub mod character_creation;
pub mod open;
