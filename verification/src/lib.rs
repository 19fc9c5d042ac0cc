//! Two classical teaching ciphers: a turning grille over 4×4 blocks of Latin
//! letters and a progressive Vigenère cipher over the 33-letter Russian alphabet.

pub mod block_text;
pub mod grille_laws;
pub mod grille_model;
pub mod rotating_grille;
pub mod stencil;
pub mod text;
pub mod vigener_laws;
pub mod vigener_progressive;
