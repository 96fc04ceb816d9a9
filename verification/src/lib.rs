//! Decoders for the STL surface-mesh format.
//!
//! An STL file stores a list of triangular facets, each a normal vector
//! and three corner vertices, in either a line-oriented text variant or
//! a fixed-layout little-endian binary variant.  This crate classifies a
//! file's bytes as one variant or the other and decodes either variant
//! into an in-memory mesh that can be walked triangle by triangle.
//!
//! Coordinates are carried as the raw 32-bit patterns of the
//! single-precision values the file encodes; turning a pattern into a
//! machine float, and deriving one from a decimal token or a cross
//! product, is the caller's side of the boundary.  Decoders hand back
//! the normals the file stored; recomputing them is a separate, explicit
//! step built on [`Model::set_normals`].

mod binary;
mod error;
mod load;
mod model;
mod sniff;
mod text;
mod utf8;

pub use binary::bin_count;
pub use binary::bin_triangle;
pub use binary::bin_vertex;
pub use binary::binary_complete;
pub use binary::binary_decode;
pub use binary::le32;
pub use binary::load_binary;
pub use binary::load_vertex;
pub use binary::read_u32_le;
pub use error::Error;
pub use load::load_bytes;
pub use load::load_decode;
pub use model::lemma_recompute_idempotent;
pub use model::lemma_recompute_pass;
pub use model::recompute_spec;
pub use model::Model;
pub use model::Triangle;
pub use model::TriangleIterator;
pub use model::Vertex;
pub use sniff::fold_lower;
pub use sniff::get_format;
pub use sniff::is_ascii_ws;
pub use sniff::sniff;
pub use sniff::starts_with_solid;
pub use sniff::trim_start;
pub use sniff::FileFormat;
pub use sniff::PROBE_LEN;
pub use text::coord3;
pub use text::coord3_ok;
pub use text::coord_tokens;
pub use text::endfacet_count;
pub use text::first_nl;
pub use text::init_state;
pub use text::is_endfacet_line;
pub use text::kw_endfacet;
pub use text::kw_facet;
pub use text::kw_vertex;
pub use text::lemma_text_complete;
pub use text::lemma_text_count;
pub use text::load_text;
pub use text::scan_ok;
pub use text::scan_run;
pub use text::scan_step;
pub use text::scan_tokens;
pub use text::text_decode;
pub use text::text_run;
pub use text::text_step;
pub use text::token_len;
pub use text::tokenize;
pub use text::tokens_of;
pub use text::views_of;
pub use text::ScanState;
pub use text::TextState;
pub use utf8::check_utf8_range;
pub use utf8::is_cont;
pub use utf8::is_utf8;
