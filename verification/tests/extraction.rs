use akuna_core::detection::{DetectionError, FileTypeInfo, TypeInfo};
use akuna_core::extraction::document::{
    extension_from_mime, plan_extraction, route_for, route_needs_path, temporary_extension,
    unsupported_file_type, ContentRoute, ExtractionPlan,
};
use akuna_core::extraction::markup::{
    after_hidden_element, entity_text, extract_bytes, is_hidden_element, is_markup,
    plain_text_from_markup, push_space, push_text, tag_name_matches,
};
use akuna_core::extraction::code::code_document;
use akuna_core::extraction::markup::epub_text;
use akuna_core::extraction::office::office_document;
use akuna_core::extraction::pdf::{pdf_document, pdf_parts, PdfElement, PdfPart};
use akuna_core::extraction::document::{
    direct_document, extraction_result, record_parsing, ExtractionAction, ExtractionRun,
};
use akuna_core::extraction::pipeline::{detection_step, parts_step, step};
use akuna_core::extraction::{
    ExtractionConfig, ExtractionMetadata, ExtractionPipelineStepKind, FileExtractionError,
};
use std::collections::BTreeMap;
use akuna_core::extraction::parts::{from_text, TextDocument, TextPart};
use akuna_core::extraction::{ExtractionByteRange, PartKind};

/// Builds test-only extraction metadata.
fn test_metadata(mime_type: &str) -> ExtractionMetadata {
    ExtractionMetadata {
        stem: None,
        extension: None,
        label: "test".to_string(),
        mime_type: mime_type.to_string(),
        description: "test".to_string(),
        is_text: true,
        hash: "test".to_string(),
    }
}

#[test]
fn extracts_markup_bytes_as_text() -> Result<(), FileExtractionError> {
    let text = extract_bytes(
        &test_metadata("text/html"),
        b"<article><h1>Title</h1><p>life &amp; substance</p></article>",
    )?;

    assert_eq!(text, "Title life & substance");
    Ok(())
}

#[test]
fn extracts_xml_suffix_bytes_as_text() -> Result<(), FileExtractionError> {
    let text = extract_bytes(
        &test_metadata("application/rdf+xml"),
        b"<rdf><label>life &amp; substance</label></rdf>",
    )?;

    assert_eq!(text, "life & substance");
    Ok(())
}

#[test]
fn extracts_markup_bytes_without_over_decoding_entities() -> Result<(), FileExtractionError> {
    let text = extract_bytes(
        &test_metadata("text/html"),
        b"<p>&amp;lt;tag&amp;gt; &lt;real&gt;</p>",
    )?;

    assert_eq!(text, "&lt;tag&gt; <real>");
    Ok(())
}

#[test]
fn extracts_markup_bytes_with_quoted_delimiters() -> Result<(), FileExtractionError> {
    let text = extract_bytes(
        &test_metadata("text/html"),
        b"<p title=\"a > b\">first</p><p title='c > d'>second</p>",
    )?;

    assert_eq!(text, "first second");
    Ok(())
}

#[test]
fn extracts_visible_markup_text() -> Result<(), FileExtractionError> {
    let text = extract_bytes(
        &test_metadata("text/html"),
        b"<style>.hidden::before { content: 'a < b'; }</style><p><![CDATA[visible <text>]]></p><SCRIPT type='text/javascript'>if (a < b) hidden()</SCRIPT>",
    )?;

    assert_eq!(text, "visible <text>");
    Ok(())
}

#[test]
fn trims_decoded_markup_entities() -> Result<(), FileExtractionError> {
    let text = extract_bytes(&test_metadata("text/html"), b"<p>&nbsp; text &nbsp;</p>")?;

    assert_eq!(text, "text");
    Ok(())
}

#[test]
fn detection_io_errors_remain_io() {
    let error = FileExtractionError::from(DetectionError::Io {
        source: std::io::Error::new(std::io::ErrorKind::NotFound, "missing test input"),
    });

    assert!(matches!(
        error,
        FileExtractionError::Io { source }
            if source.kind() == std::io::ErrorKind::NotFound
    ));
}

#[test]
fn detection_model_errors_name_the_engine() {
    let error = FileExtractionError::from(DetectionError::InvalidModel {
        message: "bad labels".to_string(),
    });
    match error {
        FileExtractionError::DetectionEngine { engine, source } => {
            assert_eq!(engine, "magika");
            assert!(matches!(*source, DetectionError::InvalidModel { .. }));
        }
        other => panic!("unexpected error: {other:?}"),
    }
    let io = FileExtractionError::from(std::io::Error::other("disk"));
    assert!(matches!(io, FileExtractionError::Io { .. }));
}

#[test]
fn plain_text_passes_through_unchanged() -> Result<(), FileExtractionError> {
    let text = extract_bytes(&test_metadata("text/plain"), b"  keep <b>tags</b> &amp; spaces  ")?;
    assert_eq!(text, "  keep <b>tags</b> &amp; spaces  ");
    Ok(())
}

#[test]
fn invalid_utf8_is_an_engine_error() {
    let error = extract_bytes(&test_metadata("text/plain"), &[0x66, 0xff, 0x6f]).unwrap_err();
    assert!(matches!(
        error,
        FileExtractionError::ExtractionEngine { engine: "direct", .. }
    ));
}

#[test]
fn markup_text_collapses_whitespace_and_resolves_references() {
    let text = plain_text_from_markup("<p>  one\n\n two&#x21; &#65;&unknown;</p>\n<br/>three").unwrap();
    assert_eq!(text, "one two! A&unknown; three");
    assert_eq!(plain_text_from_markup("   ").unwrap(), "");
    assert_eq!(plain_text_from_markup("<script>only code</script>").unwrap(), "");
}

#[test]
fn markup_types_are_recognized() {
    assert!(is_markup("text/html"));
    assert!(is_markup("image/svg+xml"));
    assert!(is_markup("application/xml"));
    assert!(!is_markup("text/markdown"));
    assert!(!is_markup("text/plain"));
}

#[test]
fn hidden_elements_ignore_case() {
    assert!(is_hidden_element(b"SCRIPT"));
    assert!(is_hidden_element(b"style"));
    assert!(!is_hidden_element(b"p"));
    assert!(!is_hidden_element(b"scripts"));
}

#[test]
fn closing_tags_match_names_and_boundaries() {
    assert!(tag_name_matches(b"</Style>", 2, b"style"));
    assert!(tag_name_matches(b"</style", 2, b"style"));
    assert!(!tag_name_matches(b"</styles>", 2, b"style"));
    assert!(!tag_name_matches(b"</st", 2, b"style"));
    assert_eq!(after_hidden_element("a < b</script>rest", 0, b"script"), Some("rest"));
    assert_eq!(after_hidden_element("</scripts></script >tail", 0, b"script"), Some("tail"));
    assert_eq!(after_hidden_element("never closed", 0, b"script"), None);
    assert_eq!(after_hidden_element("short", 99, b"script"), None);
}

#[test]
fn whitespace_is_collapsed_while_appending() {
    let mut text = String::new();
    let mut last = true;
    push_text(&mut text, &mut last, "  a \t b ");
    push_space(&mut text, &mut last);
    push_text(&mut text, &mut last, "c");
    assert_eq!(text, "a b c");
    assert!(!last);
}

#[test]
fn entities_resolve_to_text() {
    assert_eq!(entity_text("amp"), "&");
    assert_eq!(entity_text("quot"), "\"");
    assert_eq!(entity_text("nbsp"), " ");
    assert_eq!(entity_text("copy"), "&copy;");
}

#[test]
fn detected_types_route_to_extractors() {
    let mut metadata = test_metadata("application/pdf");
    assert_eq!(route_for(&metadata), ContentRoute::Pdf);
    metadata.mime_type =
        "application/vnd.openxmlformats-officedocument.wordprocessingml.document".to_string();
    assert_eq!(route_for(&metadata), ContentRoute::Office);
    metadata.mime_type = "application/epub+zip".to_string();
    assert_eq!(route_for(&metadata), ContentRoute::Epub);
    metadata.mime_type = "application/atom+xml".to_string();
    assert_eq!(route_for(&metadata), ContentRoute::Direct);
    metadata.mime_type = "application/zip".to_string();
    assert_eq!(route_for(&metadata), ContentRoute::Unsupported);
    metadata.mime_type = "text/x-rust".to_string();
    assert_eq!(route_for(&metadata), ContentRoute::Direct);
    metadata.is_text = false;
    metadata.mime_type = "image/webp".to_string();
    assert_eq!(route_for(&metadata), ContentRoute::Unsupported);
    assert!(route_needs_path(ContentRoute::Epub));
    assert!(!route_needs_path(ContentRoute::Direct));
}

#[test]
fn temporary_copies_get_extensions() {
    assert_eq!(extension_from_mime("application/pdf"), Some("pdf"));
    assert_eq!(extension_from_mime("application/msword"), Some("doc"));
    assert_eq!(extension_from_mime("text/plain"), None);
    let mut metadata = test_metadata("application/epub+zip");
    assert_eq!(temporary_extension(None, &metadata), Some("epub".to_string()));
    metadata.extension = Some("book".to_string());
    assert_eq!(temporary_extension(None, &metadata), Some("book".to_string()));
    assert_eq!(temporary_extension(Some("EPUB"), &metadata), Some("EPUB".to_string()));
}

#[test]
fn unsupported_types_keep_metadata() {
    let metadata = test_metadata("application/zip");
    match unsupported_file_type(&metadata) {
        FileExtractionError::UnsupportedFileType { metadata: kept } => {
            assert_eq!(kept.mime_type, "application/zip");
            assert_eq!(kept.label, "test");
        }
        other => panic!("unexpected error: {other:?}"),
    }
}

#[test]
fn plans_follow_output_flags() {
    assert!(matches!(
        plan_extraction(&ExtractionConfig::default(), 0),
        Err(FileExtractionError::NoContents)
    ));
    let plan = plan_extraction(&ExtractionConfig::default(), 3).unwrap();
    assert_eq!(
        plan,
        ExtractionPlan {
            detect: true,
            read_content: false,
            return_metadata: true,
            return_text: false,
            return_parts: false,
        }
    );
    let parts_only = ExtractionConfig {
        return_metadata: false,
        return_content: false,
        return_parts: true,
    };
    let plan = plan_extraction(&parts_only, 3).unwrap();
    assert!(plan.detect && plan.read_content && !plan.return_metadata && plan.return_parts);
    let nothing = ExtractionConfig {
        return_metadata: false,
        return_content: false,
        return_parts: false,
    };
    let plan = plan_extraction(&nothing, 3).unwrap();
    assert!(!plan.detect && !plan.read_content);
}

#[test]
fn pipeline_steps_keep_their_fields() {
    let mut outputs = BTreeMap::new();
    outputs.insert("types".to_string(), 1u64);
    let built = step(ExtractionPipelineStepKind::Detection, "magika", 7, outputs);
    assert_eq!(built.step, ExtractionPipelineStepKind::Detection);
    assert_eq!(built.engine, "magika");
    assert_eq!(built.duration_ms, 7);
    assert_eq!(built.outputs.get("types"), Some(&1));
}

#[test]
fn vendor_metadata_is_copied() {
    let info = TypeInfo {
        label: "txt",
        mime_type: "text/plain",
        group: "text",
        description: "Generic text document",
        extensions: &["txt", "text"],
        is_text: true,
    };
    let copied = FileTypeInfo::from_vendor(&info);
    assert_eq!(copied.label, "txt");
    assert_eq!(copied.mime_type, "text/plain");
    assert_eq!(copied.group, "text");
    assert_eq!(copied.description, "Generic text document");
    assert_eq!(copied.extensions, vec!["txt".to_string(), "text".to_string()]);
    assert!(copied.is_text);
}

#[test]
fn preserves_plain_text_as_one_part() {
    let text = " first paragraph\n\nsecond paragraph ";
    let content = TextDocument::from_text(text.to_string());

    assert_eq!(content.text().as_deref(), Some(text));
    assert_eq!(content.parts.len(), 1);
    assert_eq!(content.parts[0].kind, PartKind::Text);
    assert_eq!(content.parts[0].text.as_deref(), Some(text));
    assert!(content.parts[0].byte_range.is_none());
}

#[test]
fn resolves_document_text() {
    for (canonical_text, parts, expected) in [
        (None, &[] as &[Option<&str>], None),
        (Some("canonical"), &[Some("part")], Some("canonical")),
        (Some(""), &[], Some("")),
        (Some(""), &[Some("part")], Some("")),
        (None, &[None, None], None),
        (None, &[Some("")], None),
        (None, &[None, Some(""), None], None),
        (None, &[Some(""), None, Some("")], Some("\n\n")),
        (None, &[Some(""), Some(""), Some("")], Some("\n\n\n\n")),
        (None, &[Some(" ")], Some(" ")),
        (None, &[None, Some("text"), None], Some("text")),
        (None, &[Some(""), Some("text"), Some("")], Some("\n\ntext\n\n")),
        (None, &[Some("first"), Some("second")], Some("first\n\nsecond")),
    ] {
        let content = TextDocument {
            canonical_text: canonical_text.map(str::to_owned),
            parts: parts
                .iter()
                .enumerate()
                .map(|(index, text)| TextPart {
                    index,
                    kind: PartKind::Text,
                    text: text.map(str::to_owned),
                    byte_range: None,
                    page: None,
                })
                .collect(),
            pipeline: Vec::new(),
        };
        let text = content.text();

        assert_eq!(text.as_deref(), expected);
    }
}

#[test]
fn paragraph_text_splits_into_numbered_parts() {
    let text = "alpha\n\n  \n\nbeta gamma";
    let parts = from_text(text);
    assert_eq!(parts.len(), 2);
    assert_eq!(parts[0].index, 0);
    assert_eq!(parts[1].index, 1);
    assert_eq!(parts[0].kind, PartKind::Paragraph);
    assert_eq!(parts[1].text.as_deref(), Some("beta gamma"));
    let ExtractionByteRange { start, end } = parts[0].byte_range.unwrap();
    assert_eq!(Some(&text[start..end]), parts[0].text.as_deref());
    let document = TextDocument::from_text(text.to_string());
    assert!(document.canonical_text.is_none());
    assert_eq!(document.parts.len(), 1);
    assert_eq!(document.text().as_deref(), Some(text));
}

#[test]
fn code_documents_keep_text_and_leaf_parts() {
    let source = "fn main() {\n    let answer = 42;\n}\n";
    let document = code_document(source, Some("rs"), 7).expect("rust is supported");
    assert_eq!(document.canonical_text.as_deref(), Some(source));
    assert_eq!(document.pipeline.len(), 1);
    assert_eq!(document.pipeline[0].step, ExtractionPipelineStepKind::Parsing);
    assert_eq!(document.pipeline[0].engine, "tree-sitter");
    assert_eq!(document.pipeline[0].duration_ms, 7);
    assert_eq!(document.pipeline[0].outputs.get("parts"), Some(&(document.parts.len() as u64)));
    assert!(document.parts.len() > 1);
    for (index, part) in document.parts.iter().enumerate() {
        assert_eq!(part.index, index);
        assert_eq!(part.kind, PartKind::Code);
        assert!(!part.text.as_deref().unwrap().trim().is_empty());
        let range = part.byte_range.as_ref().unwrap();
        assert_eq!(part.text.as_deref(), Some(&source[range.start..range.end]));
    }
    assert_eq!(document.parts[0].text.as_deref(), Some("main"));
    assert!(code_document(source, Some("txt"), 7).is_none());
    let broken = code_document("fn main( {\n\nstill text", Some("rs"), 7).expect("rust is supported");
    assert!(broken.parts.iter().all(|part| part.kind == PartKind::Paragraph));
}

#[test]
fn direct_documents_record_their_parsing() {
    let metadata = test_metadata("text/html");
    let mut document = direct_document(&metadata, b"<p>one</p><p>two</p>").unwrap();
    assert_eq!(document.text().as_deref(), Some("one two"));
    record_parsing(&mut document, "direct", 3);
    assert_eq!(document.pipeline.len(), 1);
    let step = &document.pipeline[0];
    assert_eq!(step.step, ExtractionPipelineStepKind::Parsing);
    assert_eq!(step.engine, "direct");
    assert_eq!(step.outputs.get("parts"), Some(&1));
    assert_eq!(step.outputs.get("texts"), Some(&1));
    let detection = detection_step(9);
    assert_eq!(detection.engine, "magika");
    assert_eq!(detection.outputs.get("types"), Some(&1));
    let parts = parts_step("tree-sitter", 1, 4);
    assert_eq!(parts.outputs.get("parts"), Some(&4));
    assert_eq!(parts.outputs.len(), 1);
}

#[test]
fn errors_display_their_kind() {
    assert_eq!(FileExtractionError::NoContents.to_string(), "File has no contents");
    assert_eq!(
        FileExtractionError::MissingTextContent { engine: "ocr" }.to_string(),
        "Extraction engine 'ocr' returned no text content"
    );
    assert_eq!(
        FileExtractionError::ExtractionEngine { engine: "direct", message: "bad".to_string() }
            .to_string(),
        "Extraction engine 'direct' failed"
    );
    let detection = DetectionError::Model { operation: "load", message: "no weights".to_string() };
    assert_eq!(detection.to_string(), "model load failed: no weights");
    assert_eq!(
        DetectionError::InvalidModel { message: "labels".to_string() }.to_string(),
        "invalid model data: labels"
    );
    assert_eq!(
        FileExtractionError::from(detection).to_string(),
        "Detection engine 'magika' failed"
    );
    let io = FileExtractionError::from(std::io::Error::other("disk full"));
    assert_eq!(io.to_string(), "I/O error: \"disk full\"");
    let mut metadata = test_metadata("application/zip");
    metadata.stem = Some("archive".to_string());
    assert_eq!(
        unsupported_file_type(&metadata).to_string(),
        "No extractor available for this file type:\nExtractionMetadata { stem: Some(\"archive\"), extension: None, label: \"test\", mime_type: \"application/zip\", description: \"test\", is_text: true, hash: \"test\" }"
    );
}

#[test]
fn office_text_with_paragraphs_becomes_parts() {
    let document = office_document("First paragraph.\n\nSecond paragraph.".to_string(), 7);
    assert!(document.canonical_text.is_none());
    assert_eq!(document.parts.len(), 2);
    assert_eq!(document.parts[1].text.as_deref(), Some("Second paragraph."));
    assert_eq!(document.parts[1].kind, PartKind::Paragraph);
    assert_eq!(document.pipeline.len(), 1);
    assert_eq!(document.pipeline[0].engine, "office_oxide");
    assert_eq!(document.pipeline[0].outputs.get("parts"), Some(&2));

    let single = office_document("Only one.".to_string(), 7);
    assert_eq!(single.parts.len(), 1);
    assert_eq!(single.parts[0].kind, PartKind::Text);
    assert!(single.pipeline.is_empty());
}

#[test]
fn pdf_elements_flatten_into_trimmed_parts() {
    let pages = vec![
        vec![
            PdfElement::Header { text: " Title ".to_string() },
            PdfElement::Paragraph { text: "   ".to_string() },
            PdfElement::List { items: vec!["one".to_string(), " two".to_string()] },
        ],
        vec![PdfElement::Table {
            cells: vec![vec!["a".to_string(), "".to_string()], vec!["b ".to_string()]],
        }],
    ];
    let parts = pdf_parts(&pages);
    let part = |kind, text: &str, page, element| PdfPart { kind, text: text.to_string(), page, element };
    assert_eq!(
        parts,
        vec![
            part(PartKind::Heading, "Title", 1, 0),
            part(PartKind::ListItem, "one", 1, 2),
            part(PartKind::ListItem, "two", 1, 2),
            part(PartKind::Table, "a", 2, 0),
            part(PartKind::Table, "b", 2, 0),
        ]
    );

    let document = pdf_document(&parts, "Title one two a b".to_string(), 2, 3);
    assert_eq!(document.canonical_text.as_deref(), Some("Title one two a b"));
    assert_eq!(document.parts.len(), 5);
    assert_eq!(document.parts[3].index, 3);
    assert_eq!(document.parts[3].kind, PartKind::Table);
    assert_eq!(document.parts[0].page, Some(1));
    assert_eq!(document.parts[3].page, Some(2));
    assert_eq!(document.pipeline[0].engine, "pdf_oxide");
    assert_eq!(document.pipeline[0].outputs.get("pages"), Some(&2));
    assert_eq!(document.pipeline[0].outputs.get("parts"), Some(&5));

    let empty = pdf_document(&Vec::new(), "scanned".to_string(), 1, 3);
    assert!(empty.canonical_text.is_none());
    assert_eq!(empty.parts[0].text.as_deref(), Some("scanned"));
    assert_eq!(empty.parts[0].page, None);
    assert_eq!(empty.pipeline.len(), 1);
    assert_eq!(empty.pipeline[0].outputs.get("parts"), Some(&0));
}

#[test]
fn epub_chapters_join_as_lines() {
    let chapters = vec![
        "<html><body><p>Chapter one</p></body></html>".to_string(),
        "<html><body><p>Chapter  two</p></body></html>".to_string(),
    ];
    assert_eq!(epub_text(&chapters).ok().as_deref(), Some("Chapter one\nChapter two"));
    assert_eq!(epub_text(&Vec::new()).ok().as_deref(), Some(""));
    let broken = vec!["<p>open".to_string(), "<a></b>".to_string()];
    match epub_text(&broken) {
        Ok(_) => {}
        Err(FileExtractionError::ExtractionEngine { engine, .. }) => assert_eq!(engine, "rbook-epub"),
        Err(other) => panic!("unexpected error {other:?}"),
    }
}

#[test]
fn extraction_results_keep_what_the_plan_returns() {
    let metadata = test_metadata("text/html");
    let mut document = direct_document(&metadata, b"<p>one</p><p>two</p>").unwrap();
    record_parsing(&mut document, "direct", 3);
    let everything = ExtractionPlan {
        detect: true,
        read_content: true,
        return_metadata: true,
        return_text: true,
        return_parts: true,
    };
    let result = extraction_result(&everything, Some(test_metadata("text/html")), Some(detection_step(2)), Some(document));
    assert_eq!(result.metadata.map(|m| m.mime_type), Some("text/html".to_string()));
    assert_eq!(result.text.as_deref(), Some("one two"));
    assert_eq!(result.parts.map(|parts| parts.len()), Some(1));
    assert_eq!(result.pipeline.len(), 2);
    assert_eq!(result.pipeline[0].step, ExtractionPipelineStepKind::Detection);
    assert_eq!(result.pipeline[0].duration_ms, 2);
    assert_eq!(result.pipeline[1].step, ExtractionPipelineStepKind::Parsing);
    assert_eq!(result.pipeline[1].duration_ms, 3);

    let text_only = ExtractionPlan { return_metadata: false, return_parts: false, ..everything };
    let document = direct_document(&metadata, b"plain words").unwrap();
    let result = extraction_result(&text_only, Some(test_metadata("text/plain")), Some(detection_step(1)), Some(document));
    assert!(result.metadata.is_none());
    assert!(result.parts.is_none());
    assert_eq!(result.text.as_deref(), Some("plain words"));
    assert_eq!(result.pipeline.len(), 1);

    let metadata_only = ExtractionPlan {
        read_content: false,
        return_text: false,
        return_parts: false,
        ..everything
    };
    let result = extraction_result(&metadata_only, Some(test_metadata("text/plain")), Some(detection_step(1)), None);
    assert!(result.metadata.is_some());
    assert!(result.text.is_none());
    assert!(result.parts.is_none());
    assert_eq!(result.pipeline.len(), 1);
}

#[test]
fn extraction_runs_detect_then_read_then_finish() {
    let plan = plan_extraction(&ExtractionConfig { return_metadata: false, return_content: true, return_parts: false }, 5)
        .unwrap();
    let mut run = ExtractionRun::start(plan);
    assert_eq!(run.next_action(), ExtractionAction::Detect);
    run.detected(test_metadata("text/plain"), detection_step(1));
    assert_eq!(run.next_action(), ExtractionAction::ReadContent);
    let document = direct_document(&test_metadata("text/plain"), b"hello").unwrap();
    run.content_read(document);
    assert_eq!(run.next_action(), ExtractionAction::Finish);
    let result = run.finish();
    assert!(result.metadata.is_none());
    assert_eq!(result.text.as_deref(), Some("hello"));
    assert!(result.parts.is_none());
    assert_eq!(result.pipeline.len(), 1);

    let metadata_only =
        plan_extraction(&ExtractionConfig { return_metadata: true, return_content: false, return_parts: false }, 5)
            .unwrap();
    let mut run = ExtractionRun::start(metadata_only);
    assert_eq!(run.next_action(), ExtractionAction::Detect);
    run.detected(test_metadata("text/plain"), detection_step(1));
    assert_eq!(run.next_action(), ExtractionAction::Finish);
    assert!(run.finish().metadata.is_some());
}
