//! File-type detection results and errors.
//!
//! The detector itself runs a bundled model over the input bytes; what the
//! library keeps here is the shape of its answers: which source resolved a
//! type, the metadata of that type, and what can go wrong.

use vstd::prelude::*;

use crate::std_types::io_error_text;

verus! {

/// The source that resolved a file type.
#[derive(Clone, Copy, Debug, PartialEq, Eq, Structural)]
pub enum DetectionOrigin {
    /// A deterministic rule resolved the type without model inference.
    Rule,
    /// The bundled model resolved the type.
    Model,
}

/// Static metadata of one content type in the detector's label table.
#[derive(Debug)]
pub struct TypeInfo {
    /// Unique label for this file type.
    pub label: &'static str,
    /// MIME type for this file type.
    pub mime_type: &'static str,
    /// Broad file type group.
    pub group: &'static str,
    /// Human-readable file type description.
    pub description: &'static str,
    /// Known filename extensions.
    pub extensions: &'static [&'static str],
    /// Whether the file type is text-like.
    pub is_text: bool,
}

/// Metadata describing a detected file type.
#[derive(Clone, Debug, PartialEq, Eq)]
pub struct FileTypeInfo {
    /// Unique label for this file type.
    pub label: String,
    /// MIME type for this file type.
    pub mime_type: String,
    /// Broad file type group.
    pub group: String,
    /// Human-readable file type description.
    pub description: String,
    /// Known filename extensions.
    pub extensions: Vec<String>,
    /// Whether the file type is text-like.
    pub is_text: bool,
}

impl FileTypeInfo {
    /// Whether this owned metadata holds exactly the text of a table entry.
    pub open spec fn copies(&self, value: &TypeInfo) -> bool {
        &&& self.label@ == value.label@
        &&& self.mime_type@ == value.mime_type@
        &&& self.group@ == value.group@
        &&& self.description@ == value.description@
        &&& self.extensions@.len() == value.extensions@.len()
        &&& forall|i: int|
            0 <= i < self.extensions@.len() ==> #[trigger] self.extensions@[i]@ == value.extensions@[i]@
        &&& self.is_text == value.is_text
    }

    /// Converts the label table's metadata at the detection boundary.
    pub fn from_vendor(value: &TypeInfo) -> (info: Self)
        ensures
            info.copies(value),
    {
        let mut extensions: Vec<String> = Vec::new();
        let mut i: usize = 0;
        while i < value.extensions.len()
            invariant
                i <= value.extensions@.len(),
                extensions@.len() == i,
                forall|k: int| 0 <= k < i ==> #[trigger] extensions@[k]@ == value.extensions@[k]@,
            decreases value.extensions@.len() - i,
        {
            extensions.push(value.extensions[i].to_owned());
            i = i + 1;
        }
        FileTypeInfo {
            label: value.label.to_owned(),
            mime_type: value.mime_type.to_owned(),
            group: value.group.to_owned(),
            description: value.description.to_owned(),
            extensions,
            is_text: value.is_text,
        }
    }
}

/// Errors raised while detecting file types.
#[derive(Debug)]
pub enum DetectionError {
    /// Reading an input file failed.
    Io {
        /// The underlying I/O error.
        source: std::io::Error,
    },
    /// Loading or running the bundled model failed.
    Model {
        /// The operation that failed.
        operation: &'static str,
        /// What the model reported.
        message: String,
    },
    /// The bundled model produced invalid data.
    InvalidModel {
        /// Details of the invalid data.
        message: String,
    },
}

/// The message of a detection error, for every kind but I/O errors,
/// whose text comes from the operating system.
pub open spec fn detection_error_text(error: DetectionError) -> Option<Seq<char>> {
    match error {
        DetectionError::Io { .. } => None,
        DetectionError::Model { operation, message } => Some(
            "model "@ + operation@ + " failed: "@ + message@,
        ),
        DetectionError::InvalidModel { message } => Some("invalid model data: "@ + message@),
    }
}

impl DetectionError {
    /// The error's message (its display text).
    pub fn to_string(&self) -> (text: String)
        ensures
            match detection_error_text(*self) {
                Some(expected) => text@ == expected,
                None => "I/O error: "@.is_prefix_of(text@),
            },
    {
        match self {
            DetectionError::Io { source } => {
                let mut text = "I/O error: ".to_owned();
                text.append(io_error_text(source).as_str());
                proof {
                    assert(text@.subrange(0, "I/O error: "@.len() as int) =~= "I/O error: "@);
                }
                text
            },
            DetectionError::Model { operation, message } => {
                let mut text = "model ".to_owned();
                text.append(operation);
                text.append(" failed: ");
                text.append(message.as_str());
                text
            },
            DetectionError::InvalidModel { message } => {
                let mut text = "invalid model data: ".to_owned();
                text.append(message.as_str());
                text
            },
        }
    }
}

} // verus!
