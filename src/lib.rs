//! A verified game-state engine for four-colour Blokus on a 20x20 board.

pub mod board;
pub mod color;
pub mod coordinate_set;
pub mod data;
pub mod corner;
pub mod error;
pub mod field;
pub mod game_state;
pub mod laws;
pub mod logic;
pub mod moves;
pub mod node;
pub mod piece;
pub mod piece_shape;
pub mod player;
pub mod rotation;
pub mod serial;
pub mod team;
mod text;
pub mod vec2;

pub use board::Board;
pub use color::Color;
pub use coordinate_set::CoordinateSet;
pub use corner::Corner;
pub use data::Data;
pub use error::GameError;
pub use field::Field;
pub use game_state::GameState;
pub use logic::OwnGameLogic;
pub use moves::Move;
pub use node::Node;
pub use piece::Piece;
pub use piece_shape::PieceShape;
pub use player::Player;
pub use rotation::Rotation;
pub use team::Team;
pub use vec2::Vec2;
