pub mod brainiac;
pub mod cadence;
pub mod delivery;
pub mod konan;
pub mod text;
pub mod titans_tower;
