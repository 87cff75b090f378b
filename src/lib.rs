//! Turns ICMPv6 echo packets into pixels on a shared 512×512 canvas.
//!
//! The library holds the verified core: the packet decoder, the pixel
//! address layout, the canvas aggregator with its rate counters, the
//! per-source rate tracker and the client session state machine.
pub mod canvas;
pub mod canvas_processor;
pub mod cli_args;
pub mod fx_map;
pub mod packet;
pub mod per_user_pps;
pub mod pixel;
pub mod real_ip;
pub mod websocket_handler;
