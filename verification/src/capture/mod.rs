//! What is on the screen and what is heard: monitors, frames, the cursor, sound.
pub mod cursor;
pub mod cursor_laws;
pub mod desktop;
pub mod loopback;
pub mod outputs;
