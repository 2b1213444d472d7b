pub mod text;
pub mod number;
pub mod types;
pub mod selector;
pub mod external;
pub mod utils;
pub mod output;
pub mod youtube;
pub mod player;
pub mod hls;
pub mod download;
pub mod cli;
pub mod cookies;
pub mod postprocess;
pub mod innertube;
