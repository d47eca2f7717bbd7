//! Verified core of an earthquake-driven LED light installation: the Art-Net
//! frames sent to the lights, the polling of the earthquake feed, the layout of
//! the rendered pixel buffer, and the messages pushed to web clients.

pub mod art_net;
pub mod earthquakes;
pub mod renderer;
pub mod websocket;
