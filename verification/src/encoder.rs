//! Encoder configuration: output form, file-format version and array
//! compression threshold.

use vstd::prelude::*;

verus! {

/// Which form the encoder emits.
#[derive(Clone, Copy, Debug, PartialEq, Eq, Structural)]
pub enum FbxOutputForm {
    /// The Kaydara binary container (the default).
    Binary,
    /// `; FBX <version>` ASCII text.
    Ascii,
}

impl Default for FbxOutputForm {
    fn default() -> (f: Self)
        ensures f == FbxOutputForm::Binary,
    {
        FbxOutputForm::Binary
    }
}

/// Encoder settings.
#[derive(Clone, Copy, Debug)]
pub struct FbxEncoder {
    /// File-format version; `7500` and above selects the 64-bit binary
    /// Node Record layout.
    pub version: u32,
    /// Arrays whose raw payload is at least this many bytes are
    /// zlib-deflated in the binary form; `None` stores every array raw.
    pub compress_arrays_threshold: Option<usize>,
    /// Binary or ASCII output.
    pub form: FbxOutputForm,
}

impl Default for FbxEncoder {
    fn default() -> (e: Self)
        ensures
            e.version == 7400,
            e.compress_arrays_threshold is None,
            e.form == FbxOutputForm::Binary,
    {
        FbxEncoder { version: 7400, compress_arrays_threshold: None, form: FbxOutputForm::Binary }
    }
}

impl FbxEncoder {
    /// A binary-output encoder with default settings.
    pub fn new() -> (e: Self)
        ensures
            e.version == 7400,
            e.compress_arrays_threshold is None,
            e.form == FbxOutputForm::Binary,
    {
        FbxEncoder::default()
    }

    /// These settings with the output form replaced.
    pub fn form(self, form: FbxOutputForm) -> (e: Self)
        ensures
            e.form == form,
            e.version == self.version,
            e.compress_arrays_threshold == self.compress_arrays_threshold,
    {
        FbxEncoder { form, ..self }
    }

    /// These settings with the file-format version replaced.
    pub fn version(self, version: u32) -> (e: Self)
        ensures
            e.version == version,
            e.form == self.form,
            e.compress_arrays_threshold == self.compress_arrays_threshold,
    {
        FbxEncoder { version, ..self }
    }

    /// These settings with arrays of at least `threshold` raw bytes
    /// compressed.
    pub fn compress_arrays_at(self, threshold: usize) -> (e: Self)
        ensures
            e.compress_arrays_threshold == Some(threshold),
            e.form == self.form,
            e.version == self.version,
    {
        FbxEncoder { compress_arrays_threshold: Some(threshold), ..self }
    }
}

} // verus!
