//! Classification and ranking of poker hands of up to seven cards.
pub mod card;
pub mod hand_result;
pub mod player;
pub mod theorems;
