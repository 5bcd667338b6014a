//! Outline-driven refinement of shaped glyph runs.
//!
//! After generic shaping has chosen glyphs and advances, the modules here
//! tighten the spacing between neighbouring letterforms and move diacritic
//! dots out of the ink of their neighbours. All geometry is carried out on
//! integer coordinates in device units, so every result is exact. Where a
//! distance to a curve is needed, which takes a numeric search, the caller
//! supplies it.
//!
//! The engine: `geometry` holds points, segments and rectangles;
//! `proximity` and `measure` find how far apart two outlines are; `kern`
//! turns a distance into a kern; `collision` and `glyph` tell whether two
//! glyphs collide; `marks` moves colliding dots; `reach` marks the glyphs
//! over a tail; `store` keeps what was read from the font; `kerning` and
//! `pipeline` run these over a buffer.
//!
//! The styles: `nastaliq`, `gulzar`, `ruqaa` with `words`, `bubblekern`,
//! `hieroglyphs` with `tokenizer` and `ast`, `shadow`, `network` and
//! `debugglyph`.

pub mod ast;
pub mod bubblekern;
pub mod collision;
pub mod debugglyph;
pub mod geometry;
pub mod glyph;
pub mod gulzar;
pub mod hieroglyphs;
pub mod kern;
pub mod kerning;
pub mod marks;
pub mod measure;
pub mod nastaliq;
pub mod network;
pub mod pipeline;
pub mod proximity;
pub mod reach;
pub mod ruqaa;
pub mod shadow;
pub mod store;
pub mod tokenizer;
pub mod words;
