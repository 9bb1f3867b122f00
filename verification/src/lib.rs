//! Music-theory core of a piano and guitar harmony explorer: scales, chords
//! built on scale degrees, guitar voicings, and the keyboard layout.

pub mod app_state;
pub mod fretboard;
pub mod keyboard;
pub mod labels;
pub mod palette;
pub mod selection;
pub mod shapes;
pub mod theory;
pub mod voicing_laws;
pub mod voicings;
