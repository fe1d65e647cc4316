//! Composition of text fragments with line-level provenance tracking, and
//! attribution of compiler diagnostics back to the fragment that produced
//! the offending line.

pub mod diagnostics;
pub mod driver;
pub mod identifier;
pub mod line_index;
pub mod numeral;
pub mod storage;
pub mod template;
pub mod text;

pub use diagnostics::{back_map, RawDiagnostic, ShaderErrors};
pub use driver::{generate_shader_code, SceneModel};
pub use identifier::{ErrId, ErrorId};
pub use line_index::{LineNumbersByKey, LineRange};
pub use storage::StringStorage;
pub use template::{apply_template, NamedStorages};
pub use text::count_newlines;
