pub mod block_adornment;
pub mod markdown;
