pub mod debug;
pub mod loudspeaker;
