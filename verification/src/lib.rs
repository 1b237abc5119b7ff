//! Parsing, formatting and bookkeeping for rotation values written as text.
//!
//! The crate reads vectors and matrices pasted in many common notations
//! (bracketed or bare, comma/semicolon/tab/newline/space separated, wrapped
//! in call syntax such as `np.array(...)` or `vec![...]`), records the exact
//! notation in a [`format::TextFormat`], and renders numbers back in the same
//! style.  It also keeps the least-recently-used recency order that drives
//! constrained re-normalization of unit vectors and quaternions while one
//! component is being edited.
//!
//! Numbers travel through this crate as validated decimal literals (strings),
//! so every step of the text pipeline is exact; binary floating-point
//! conversion is left to the caller.

pub mod brackets;
pub mod chars;
pub mod errors;
pub mod format;
pub mod laws;
pub mod matrix;
pub mod normalize;
pub mod number;
pub mod quaternion;
pub mod vector;
pub mod wrapper;
