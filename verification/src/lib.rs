//! Converters for legacy game-audio containers: sample banks (ADS, VAG, MUL,
//! VAB, SND/SMP, MUS) and music sequences (MSQ, CDS, SEQ).
//!
//! Every function takes the bytes of a file and gives back the bytes, the
//! tables or the text made from them; reading and writing files is left to
//! the caller.

pub mod adpcm;
pub mod adsheader;
pub mod adsloopfind;
pub mod adsunloop;
pub mod bytes;
pub mod cds2seq;
pub mod demul;
pub mod demus;
pub mod demus_out;
pub mod demus_tables;
pub mod desnd;
pub mod desnd_out;
pub mod msqsplit;
pub mod reader;
pub mod seqrepeat;
pub mod sequence;
pub mod sf2panlaw;
pub mod sound;
pub mod sound_out;
pub mod text;
pub mod vabfine;
pub mod vabsmp;
pub mod vagheader;
pub mod vagsanitizer;
pub mod vagunloop;
