//! Core logic of the Rocket League stats overlay: session tallies, streaks,
//! local-account detection, Stats API payload decoding and the small rules
//! behind the settings commands. I/O, windows and the network live in `app/`.

pub mod clock;
pub mod commands;
pub mod http_server;
pub mod ini_patcher;
pub mod match_recorder;
pub mod text;
pub mod settings;
pub mod theme_manifest;
pub mod session;
pub mod storage;
pub mod platform_detect;
pub mod rl_process;
pub mod state;
pub mod stats_api;
pub mod ws_client;
