//! Document extraction decisions: which extractor a detected type goes to,
//! what extension a temporary copy needs, and the unsupported-type error.

use vstd::prelude::*;
use vstd::utf8::*;

use crate::extraction::errors::FileExtractionError;
use crate::chunking::PartKind;
use crate::extraction::markup::{extract_bytes, markup_type, markup_visible_text, DIRECT_ENGINE};
use crate::extraction::parts::{document_text, TextDocument};
use crate::extraction::pipeline::{is_parsing_step, parsing_step};
use crate::extraction::parts::TextPart;
use crate::extraction::types::{ExtractionConfig, ExtractionMetadata, ExtractionPipelineStep};
use crate::text::{ends_with_text, text_equals};

verus! {

/// The extractor that handles a detected content type.
#[derive(Clone, Copy, Debug, PartialEq, Eq, Structural)]
pub enum ContentRoute {
    /// Structural page extraction from a PDF file.
    Pdf,
    /// Document-level extraction from a Word or PowerPoint file.
    Office,
    /// Chapter rendering from an EPUB file.
    Epub,
    /// Direct text reading, with markup turned into visible text.
    Direct,
    /// No extractor: the type is reported as unsupported.
    Unsupported,
}

/// The extractor for a MIME type, given whether detection found it
/// text-like.
pub open spec fn content_route(mime_type: Seq<char>, is_text: bool) -> ContentRoute {
    if mime_type == "application/pdf"@ {
        ContentRoute::Pdf
    } else if mime_type == "application/msword"@ || mime_type
        == "application/vnd.openxmlformats-officedocument.presentationml.presentation"@ || mime_type
        == "application/vnd.openxmlformats-officedocument.wordprocessingml.document"@ {
        ContentRoute::Office
    } else if mime_type == "application/epub+zip"@ {
        ContentRoute::Epub
    } else if mime_type == "application/rss+xml"@ || mime_type == "application/xhtml+xml"@
        || mime_type == "application/xml"@ || mime_type == "text/html"@ || mime_type
        == "text/markdown"@ || mime_type == "text/xml"@ || "+xml"@.is_suffix_of(mime_type) {
        ContentRoute::Direct
    } else if mime_type == "application/zip"@ || mime_type
        == "application/vnd.oasis.opendocument.text"@ {
        ContentRoute::Unsupported
    } else if is_text {
        ContentRoute::Direct
    } else {
        ContentRoute::Unsupported
    }
}

/// Dispatches a detected type to its extractor: PDF and Office documents
/// and EPUB books to their engines, markup and other text to the direct
/// reader, known archives and everything else to none.
pub fn route_for(metadata: &ExtractionMetadata) -> (route: ContentRoute)
    ensures
        route == content_route(metadata.mime_type@, metadata.is_text),
{
    let mime_type = metadata.mime_type.as_str();
    if text_equals(mime_type, "application/pdf") {
        ContentRoute::Pdf
    } else if text_equals(mime_type, "application/msword") || text_equals(
        mime_type,
        "application/vnd.openxmlformats-officedocument.presentationml.presentation",
    ) || text_equals(
        mime_type,
        "application/vnd.openxmlformats-officedocument.wordprocessingml.document",
    ) {
        ContentRoute::Office
    } else if text_equals(mime_type, "application/epub+zip") {
        ContentRoute::Epub
    } else if text_equals(mime_type, "application/rss+xml") || text_equals(
        mime_type,
        "application/xhtml+xml",
    ) || text_equals(mime_type, "application/xml") || text_equals(mime_type, "text/html")
        || text_equals(mime_type, "text/markdown") || text_equals(mime_type, "text/xml")
        || ends_with_text(mime_type, "+xml") {
        ContentRoute::Direct
    } else if text_equals(mime_type, "application/zip") || text_equals(
        mime_type,
        "application/vnd.oasis.opendocument.text",
    ) {
        ContentRoute::Unsupported
    } else if metadata.is_text {
        ContentRoute::Direct
    } else {
        ContentRoute::Unsupported
    }
}

/// Whether an extractor reads from a file path rather than from bytes.
pub open spec fn needs_path(route: ContentRoute) -> bool {
    route == ContentRoute::Pdf || route == ContentRoute::Office || route == ContentRoute::Epub
}

/// Whether the extractor reads from a file path, so that bytes without one
/// need a temporary copy.
pub fn route_needs_path(route: ContentRoute) -> (needed: bool)
    ensures
        needed == needs_path(route),
{
    match route {
        ContentRoute::Pdf | ContentRoute::Office | ContentRoute::Epub => true,
        ContentRoute::Direct | ContentRoute::Unsupported => false,
    }
}

/// The extension a path-based extractor expects for a MIME type.
pub open spec fn mime_extension(mime_type: Seq<char>) -> Option<Seq<char>> {
    if mime_type == "application/pdf"@ {
        Some("pdf"@)
    } else if mime_type == "application/msword"@ {
        Some("doc"@)
    } else if mime_type
        == "application/vnd.openxmlformats-officedocument.presentationml.presentation"@ {
        Some("pptx"@)
    } else if mime_type
        == "application/vnd.openxmlformats-officedocument.wordprocessingml.document"@ {
        Some("docx"@)
    } else if mime_type == "application/epub+zip"@ {
        Some("epub"@)
    } else {
        None
    }
}

/// Returns an extension for path-based extractors when input bytes have no
/// path.
pub fn extension_from_mime(mime_type: &str) -> (extension: Option<&'static str>)
    ensures
        match extension {
            Some(e) => mime_extension(mime_type@) == Some(e@),
            None => mime_extension(mime_type@) is None,
        },
{
    if text_equals(mime_type, "application/pdf") {
        Some("pdf")
    } else if text_equals(mime_type, "application/msword") {
        Some("doc")
    } else if text_equals(
        mime_type,
        "application/vnd.openxmlformats-officedocument.presentationml.presentation",
    ) {
        Some("pptx")
    } else if text_equals(
        mime_type,
        "application/vnd.openxmlformats-officedocument.wordprocessingml.document",
    ) {
        Some("docx")
    } else if text_equals(mime_type, "application/epub+zip") {
        Some("epub")
    } else {
        None
    }
}

/// The extension of a temporary copy: the source path's, else the detected
/// metadata's, else the one the MIME type calls for.
pub open spec fn copy_extension(path_extension: Option<Seq<char>>, metadata: ExtractionMetadata) -> Option<
    Seq<char>,
> {
    match path_extension {
        Some(e) => Some(e),
        None => match metadata.extension {
            Some(e) => Some(e@),
            None => mime_extension(metadata.mime_type@),
        },
    }
}

/// Chooses the extension of the temporary file that a path-based extractor
/// reads.
pub fn temporary_extension(path_extension: Option<&str>, metadata: &ExtractionMetadata) -> (extension: Option<String>)
    ensures
        match extension {
            Some(e) => copy_extension(
                match path_extension {
                    Some(p) => Some(p@),
                    None => None,
                },
                *metadata,
            ) == Some(e@),
            None => copy_extension(
                match path_extension {
                    Some(p) => Some(p@),
                    None => None,
                },
                *metadata,
            ) is None,
        },
{
    match path_extension {
        Some(extension) => Some(extension.to_owned()),
        None => match &metadata.extension {
            Some(extension) => Some(extension.clone()),
            None => match extension_from_mime(metadata.mime_type.as_str()) {
                Some(extension) => Some(extension.to_owned()),
                None => None,
            },
        },
    }
}

/// What an extraction request does with a document's bytes.
#[derive(Clone, Copy, Debug, PartialEq, Eq, Structural)]
pub struct ExtractionPlan {
    /// Detect the file type (needed for metadata and to read content).
    pub detect: bool,
    /// Read the content with the extractor of the detected type.
    pub read_content: bool,
    /// Return the detected metadata.
    pub return_metadata: bool,
    /// Return the content's text.
    pub return_text: bool,
    /// Return the content's parts.
    pub return_parts: bool,
}

/// Plans the extraction of `byte_count` bytes: empty input has no contents;
/// otherwise detection runs when metadata or content is wanted, content is
/// read when its text or parts are wanted, and each output is returned only
/// when asked for.
pub fn plan_extraction(config: &ExtractionConfig, byte_count: usize) -> (plan: Result<
    ExtractionPlan,
    FileExtractionError,
>)
    ensures
        byte_count == 0 ==> plan matches Err(FileExtractionError::NoContents),
        byte_count > 0 ==> plan == Ok::<ExtractionPlan, FileExtractionError>(
            ExtractionPlan {
                detect: config.wants_metadata(),
                read_content: config.wants_content(),
                return_metadata: config.return_metadata,
                return_text: config.return_content,
                return_parts: config.return_parts,
            },
        ),
{
    if byte_count == 0 {
        return Err(FileExtractionError::NoContents);
    }
    Ok(
        ExtractionPlan {
            detect: config.needs_metadata(),
            read_content: config.needs_content(),
            return_metadata: config.return_metadata,
            return_text: config.return_content,
            return_parts: config.return_parts,
        },
    )
}

/// The outcome of an extraction request.
#[derive(Debug)]
pub struct ExtractionResult {
    /// Detected file metadata, when requested.
    pub metadata: Option<ExtractionMetadata>,
    /// Processing steps applied to the document.
    pub pipeline: Vec<ExtractionPipelineStep>,
    /// Extracted text, when requested.
    pub text: Option<String>,
    /// The content's parts, when requested and content was read.
    pub parts: Option<Vec<TextPart>>,
}

/// The steps of an extraction: the detection step, when detection ran,
/// before the steps of the content, when it was read.
pub open spec fn result_pipeline(
    detection: Option<ExtractionPipelineStep>,
    content: Option<TextDocument>,
) -> Seq<ExtractionPipelineStep> {
    let detected = match detection {
        Some(step) => seq![step],
        None => Seq::empty(),
    };
    match content {
        Some(document) => detected + document.pipeline@,
        None => detected,
    }
}

/// Assembles the result of an extraction that followed `plan`: the metadata
/// when it is to be returned, the pipeline steps in order, the content's
/// text when it is to be returned and the content has some, and its parts
/// when they are to be returned.
pub fn extraction_result(
    plan: &ExtractionPlan,
    metadata: Option<ExtractionMetadata>,
    detection: Option<ExtractionPipelineStep>,
    content: Option<TextDocument>,
) -> (result: ExtractionResult)
    ensures
        result.metadata == (if plan.return_metadata {
            metadata
        } else {
            None
        }),
        result.pipeline@ == result_pipeline(detection, content),
        match content {
            Some(document) if plan.return_text => match result.text {
                Some(t) => document_text(document.canonical_text, document.parts@) == Some(t@),
                None => document_text(document.canonical_text, document.parts@) is None,
            },
            _ => result.text is None,
        },
        match content {
            Some(document) if plan.return_parts => result.parts matches Some(p) && p@ == document.parts@,
            _ => result.parts is None,
        },
{
    let ghost detection_given = detection;
    let ghost content_given = content;
    let mut pipeline: Vec<ExtractionPipelineStep> = Vec::new();
    if let Some(step) = detection {
        pipeline.push(step);
    }
    let (text, parts) = match content {
        Some(document) => {
            let text = if plan.return_text {
                document.text()
            } else {
                None
            };
            let TextDocument { canonical_text: _, parts, pipeline: mut steps } = document;
            pipeline.append(&mut steps);
            let parts = if plan.return_parts {
                Some(parts)
            } else {
                None
            };
            (text, parts)
        },
        None => (None, None),
    };
    assert(pipeline@ =~= result_pipeline(detection_given, content_given));
    let metadata = if plan.return_metadata {
        metadata
    } else {
        None
    };
    ExtractionResult { metadata, pipeline, text, parts }
}

/// What an extraction does next.
#[derive(Clone, Copy, Debug, PartialEq, Eq, Structural)]
pub enum ExtractionAction {
    /// Detect the file type.
    Detect,
    /// Read the content with the extractor of the detected type.
    ReadContent,
    /// Assemble the result.
    Finish,
}

/// An extraction in progress: its plan and what it has gathered so far.
#[derive(Debug)]
pub struct ExtractionRun {
    /// What the request does with the bytes.
    pub plan: ExtractionPlan,
    /// The detected metadata, once detection ran.
    pub metadata: Option<ExtractionMetadata>,
    /// The detection step, once detection ran.
    pub detection: Option<ExtractionPipelineStep>,
    /// The content, once it was read.
    pub content: Option<TextDocument>,
}

/// The action an extraction takes next: detection first when the plan
/// asks for it, then reading the content once the type is known, then the
/// result.
pub open spec fn next_extraction_action(run: ExtractionRun) -> ExtractionAction {
    if run.plan.detect && run.metadata is None {
        ExtractionAction::Detect
    } else if run.plan.read_content && run.metadata is Some && run.content is None {
        ExtractionAction::ReadContent
    } else {
        ExtractionAction::Finish
    }
}

impl ExtractionRun {
    /// An extraction that has gathered nothing yet.
    pub fn start(plan: ExtractionPlan) -> (run: Self)
        ensures
            run.plan == plan,
            run.metadata is None,
            run.detection is None,
            run.content is None,
    {
        ExtractionRun { plan, metadata: None, detection: None, content: None }
    }

    /// The action to take next.
    pub fn next_action(&self) -> (action: ExtractionAction)
        ensures
            action == next_extraction_action(*self),
    {
        if self.plan.detect && self.metadata.is_none() {
            ExtractionAction::Detect
        } else if self.plan.read_content && self.metadata.is_some() && self.content.is_none() {
            ExtractionAction::ReadContent
        } else {
            ExtractionAction::Finish
        }
    }

    /// Records what detection found, with its step.
    pub fn detected(&mut self, metadata: ExtractionMetadata, step: ExtractionPipelineStep)
        ensures
            final(self).plan == old(self).plan,
            final(self).metadata == Some(metadata),
            final(self).detection == Some(step),
            final(self).content == old(self).content,
    {
        self.metadata = Some(metadata);
        self.detection = Some(step);
    }

    /// Records the content that was read.
    pub fn content_read(&mut self, document: TextDocument)
        ensures
            final(self).plan == old(self).plan,
            final(self).metadata == old(self).metadata,
            final(self).detection == old(self).detection,
            final(self).content == Some(document),
    {
        self.content = Some(document);
    }

    /// The result of the extraction, from what it gathered.
    pub fn finish(self) -> (result: ExtractionResult)
        ensures
            result.metadata == (if self.plan.return_metadata {
                self.metadata
            } else {
                None
            }),
            result.pipeline@ == result_pipeline(self.detection, self.content),
            match self.content {
                Some(document) if self.plan.return_text => match result.text {
                    Some(t) => document_text(document.canonical_text, document.parts@) == Some(t@),
                    None => document_text(document.canonical_text, document.parts@) is None,
                },
                _ => result.text is None,
            },
            match self.content {
                Some(document) if self.plan.return_parts => result.parts matches Some(p) && p@
                    == document.parts@,
                _ => result.parts is None,
            },
    {
        let ExtractionRun { plan, metadata, detection, content } = self;
        extraction_result(&plan, metadata, detection, content)
    }
}

/// Preserves detected metadata on unsupported type errors.
pub fn unsupported_file_type(metadata: &ExtractionMetadata) -> (error: FileExtractionError)
    ensures
        error matches FileExtractionError::UnsupportedFileType { metadata: m } && *m == *metadata,
{
    FileExtractionError::UnsupportedFileType { metadata: Box::new(metadata.clone()) }
}

/// Reads text-like bytes as a plain text document (the direct extractor).
pub fn direct_document(metadata: &ExtractionMetadata, bytes: &[u8]) -> (document: Result<TextDocument, FileExtractionError>)
    ensures
        !valid_utf8(bytes@) ==> (document matches Err(FileExtractionError::ExtractionEngine { engine: e, .. })
            && e == DIRECT_ENGINE),
        valid_utf8(bytes@) && !markup_type(metadata.mime_type@) ==> (document matches Ok(d)
            && d.parts@[0].text matches Some(t) && t@ == decode_utf8(bytes@)),
        valid_utf8(bytes@) && markup_type(metadata.mime_type@) ==> (match document {
            Ok(d) => d.parts@[0].text matches Some(t) && markup_visible_text(bytes@) == Some(t@),
            Err(FileExtractionError::ExtractionEngine { engine: e, .. }) => e == DIRECT_ENGINE
                && markup_visible_text(bytes@) is None,
            Err(_) => false,
        }),
        document matches Ok(d) ==> d.canonical_text is None && d.parts@.len() == 1
            && d.parts@[0].kind == PartKind::Text && d.parts@[0].byte_range is None
            && d.pipeline@.len() == 0,
{
    match extract_bytes(metadata, bytes) {
        Ok(text) => Ok(TextDocument::from_text(text)),
        Err(error) => Err(error),
    }
}

/// Puts the parsing step of `engine` at the front of a document's
/// pipeline, counting its parts and whether it has text.
pub fn record_parsing(document: &mut TextDocument, engine: &str, duration_ms: u64)
    ensures
        final(document).canonical_text == old(document).canonical_text,
        final(document).parts == old(document).parts,
        final(document).pipeline@.len() == old(document).pipeline@.len() + 1,
        final(document).pipeline@.skip(1) == old(document).pipeline@,
        is_parsing_step(
            final(document).pipeline@[0],
            engine@,
            duration_ms,
            old(document).parts@.len() as usize,
            document_text(old(document).canonical_text, old(document).parts@) is Some,
        ),
{
    let has_text = document.text().is_some();
    let built = parsing_step(engine, duration_ms, document.parts.len(), has_text);
    document.pipeline.insert(0, built);
    proof {
        assert(document.pipeline@.skip(1) =~= old(document).pipeline@);
    }
}

} // verus!
