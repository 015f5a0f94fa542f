//! PDF documents: how the structured page elements a PDF engine reads
//! become document parts, and how those parts become document content.

use vstd::prelude::*;

use crate::chunking::PartKind;
use crate::extraction::parts::{TextDocument, TextPart};
use crate::extraction::pipeline::{outputs_from, step, entries_map, string_maps_specified};
use crate::extraction::types::{ExtractionPipelineStep, ExtractionPipelineStepKind};
use crate::text::{trim, trim_chars};

verus! {

/// The engine name of PDF parsing steps.
pub const PDF_ENGINE: &'static str = "pdf_oxide";

/// A structured element of a PDF page.
#[derive(Clone, Debug)]
pub enum PdfElement {
    /// A heading.
    Header {
        /// Heading text.
        text: String,
    },
    /// A paragraph.
    Paragraph {
        /// Paragraph text.
        text: String,
    },
    /// A list.
    List {
        /// Item texts, in order.
        items: Vec<String>,
    },
    /// A table.
    Table {
        /// Cell texts, row by row.
        cells: Vec<Vec<String>>,
    },
}

/// A part read from a PDF page: its kind, trimmed text, one-based page
/// number, and the index of the element it came from on that page.
#[derive(Clone, Debug, PartialEq, Eq)]
pub struct PdfPart {
    /// Semantic part kind.
    pub kind: PartKind,
    /// Trimmed part text.
    pub text: String,
    /// One-based page number.
    pub page: usize,
    /// Index of the source element on its page.
    pub element: usize,
}

/// The sequences of a sequence of sequences, one after another.
pub open spec fn concat<A>(parts: Seq<Seq<A>>) -> Seq<A>
    decreases parts.len(),
{
    if parts.len() == 0 {
        Seq::empty()
    } else {
        concat(parts.drop_last()) + parts.last()
    }
}

/// The texts of an element, with the part kind each becomes, in order:
/// a list gives one per item, a table one per cell, row by row.
pub open spec fn element_pieces(element: PdfElement) -> Seq<(PartKind, Seq<char>)> {
    match element {
        PdfElement::Header { text } => seq![(PartKind::Heading, text@)],
        PdfElement::Paragraph { text } => seq![(PartKind::Paragraph, text@)],
        PdfElement::List { items } => items@.map_values(|item: String| (PartKind::ListItem, item@)),
        PdfElement::Table { cells } => concat(
            cells@.map_values(|row: Vec<String>| row@.map_values(|cell: String| (PartKind::Table, cell@))),
        ),
    }
}

/// Pieces placed on a page (one-based) and at an element index.
pub open spec fn placed(pieces: Seq<(PartKind, Seq<char>)>, page: int, element: int) -> Seq<
    (PartKind, Seq<char>, int, int),
> {
    pieces.map_values(|piece: (PartKind, Seq<char>)| (piece.0, piece.1, page, element))
}

/// The placed pieces of the first `count` elements of a page.
pub open spec fn page_pieces(elements: Seq<PdfElement>, page: int, count: int) -> Seq<
    (PartKind, Seq<char>, int, int),
> {
    concat(Seq::new(count as nat, |e: int| placed(element_pieces(elements[e]), page, e)))
}

/// The placed pieces of the first `count` pages.
pub open spec fn document_pieces(pages: Seq<Vec<PdfElement>>, count: int) -> Seq<(PartKind, Seq<char>, int, int)> {
    concat(Seq::new(count as nat, |p: int| page_pieces(pages[p]@, p + 1, pages[p]@.len() as int)))
}

/// The pieces that become parts: each text trimmed, the empty ones left
/// out, in order.
pub open spec fn kept(pieces: Seq<(PartKind, Seq<char>, int, int)>) -> Seq<(PartKind, Seq<char>, int, int)>
    decreases pieces.len(),
{
    if pieces.len() == 0 {
        Seq::empty()
    } else {
        let last = pieces.last();
        let text = trim_chars(last.1);
        if text.len() > 0 {
            kept(pieces.drop_last()).push((last.0, text, last.2, last.3))
        } else {
            kept(pieces.drop_last())
        }
    }
}

/// A part's plain values.
pub open spec fn part_view(part: PdfPart) -> (PartKind, Seq<char>, int, int) {
    (part.kind, part.text@, part.page as int, part.element as int)
}

proof fn lemma_kept_append(a: Seq<(PartKind, Seq<char>, int, int)>, b: Seq<(PartKind, Seq<char>, int, int)>)
    ensures
        kept(a + b) == kept(a) + kept(b),
    decreases b.len(),
{
    if b.len() == 0 {
        assert(a + b =~= a);
        assert(kept(a) + kept(b) =~= kept(a));
    } else {
        lemma_kept_append(a, b.drop_last());
        assert((a + b).drop_last() =~= a + b.drop_last());
        assert((a + b).last() == b.last());
        let text = trim_chars(b.last().1);
        if text.len() > 0 {
            assert(kept(a) + kept(b.drop_last()).push((b.last().0, text, b.last().2, b.last().3)) =~= (kept(a)
                + kept(b.drop_last())).push((b.last().0, text, b.last().2, b.last().3)));
        }
    }
}

proof fn lemma_concat_new_push<A>(count: int, f: spec_fn(int) -> Seq<A>)
    requires
        0 <= count,
    ensures
        concat(Seq::new((count + 1) as nat, f)) == concat(Seq::new(count as nat, f)) + f(count),
{
    assert(Seq::new((count + 1) as nat, f).drop_last() =~= Seq::new(count as nat, f));
}

/// The texts of one element with their part kinds, in order.
fn element_texts(element: &PdfElement) -> (texts: Vec<(PartKind, String)>)
    ensures
        texts@.map_values(|t: (PartKind, String)| (t.0, t.1@)) == element_pieces(*element),
{
    let mut texts: Vec<(PartKind, String)> = Vec::new();
    match element {
        PdfElement::Header { text } => {
            texts.push((PartKind::Heading, text.clone()));
            assert(texts@.map_values(|t: (PartKind, String)| (t.0, t.1@)) =~= element_pieces(*element));
        },
        PdfElement::Paragraph { text } => {
            texts.push((PartKind::Paragraph, text.clone()));
            assert(texts@.map_values(|t: (PartKind, String)| (t.0, t.1@)) =~= element_pieces(*element));
        },
        PdfElement::List { items } => {
            let mut i: usize = 0;
            while i < items.len()
                invariant
                    i <= items@.len(),
                    texts@.map_values(|t: (PartKind, String)| (t.0, t.1@)) == items@.take(i as int).map_values(
                        |item: String| (PartKind::ListItem, item@),
                    ),
                decreases items@.len() - i,
            {
                let ghost old_texts = texts@;
                texts.push((PartKind::ListItem, items[i].clone()));
                proof {
                    assert(texts@.map_values(|t: (PartKind, String)| (t.0, t.1@)) =~= old_texts.map_values(
                        |t: (PartKind, String)| (t.0, t.1@),
                    ).push((PartKind::ListItem, items@[i as int]@)));
                    assert(items@.take(i + 1) =~= items@.take(i as int).push(items@[i as int]));
                    assert(texts@.map_values(|t: (PartKind, String)| (t.0, t.1@)) =~= items@.take(
                        i + 1,
                    ).map_values(|item: String| (PartKind::ListItem, item@)));
                }
                i = i + 1;
            }
            assert(items@.take(items@.len() as int) =~= items@);
        },
        PdfElement::Table { cells } => {
            let ghost rows = cells@.map_values(
                |row: Vec<String>| row@.map_values(|cell: String| (PartKind::Table, cell@)),
            );
            let mut r: usize = 0;
            while r < cells.len()
                invariant
                    r <= cells@.len(),
                    rows == cells@.map_values(
                        |row: Vec<String>| row@.map_values(|cell: String| (PartKind::Table, cell@)),
                    ),
                    texts@.map_values(|t: (PartKind, String)| (t.0, t.1@)) == concat(rows.take(r as int)),
                decreases cells@.len() - r,
            {
                let row = &cells[r];
                let ghost before = texts@.map_values(|t: (PartKind, String)| (t.0, t.1@));
                let mut c: usize = 0;
                while c < row.len()
                    invariant
                        c <= row@.len(),
                        texts@.map_values(|t: (PartKind, String)| (t.0, t.1@)) == before + row@.take(
                            c as int,
                        ).map_values(|cell: String| (PartKind::Table, cell@)),
                    decreases row@.len() - c,
                {
                    let ghost old_texts = texts@;
                    texts.push((PartKind::Table, row[c].clone()));
                    proof {
                        assert(texts@.map_values(|t: (PartKind, String)| (t.0, t.1@)) =~= old_texts.map_values(
                            |t: (PartKind, String)| (t.0, t.1@),
                        ).push((PartKind::Table, row@[c as int]@)));
                        assert(row@.take(c + 1) =~= row@.take(c as int).push(row@[c as int]));
                        assert(texts@.map_values(|t: (PartKind, String)| (t.0, t.1@)) =~= before + row@.take(
                            c + 1,
                        ).map_values(|cell: String| (PartKind::Table, cell@)));
                    }
                    c = c + 1;
                }
                proof {
                    assert(row@.take(row@.len() as int) =~= row@);
                    assert(rows.take(r + 1).drop_last() =~= rows.take(r as int));
                    assert(rows.take(r + 1).last() == rows[r as int]);
                }
                r = r + 1;
            }
            assert(rows.take(cells@.len() as int) =~= rows);
        },
    }
    texts
}

/// The parts of a PDF's pages: every text of every element, trimmed, with
/// its part kind, one-based page number and element index; texts that trim
/// to nothing are left out.
pub fn pdf_parts(pages: &Vec<Vec<PdfElement>>) -> (parts: Vec<PdfPart>)
    requires
        pages@.len() < usize::MAX,
    ensures
        parts@.map_values(|part: PdfPart| part_view(part)) == kept(document_pieces(pages@, pages@.len() as int)),
{
    let mut parts: Vec<PdfPart> = Vec::new();
    let mut p: usize = 0;
    while p < pages.len()
        invariant
            p <= pages@.len() < usize::MAX,
            parts@.map_values(|part: PdfPart| part_view(part)) == kept(document_pieces(pages@, p as int)),
        decreases pages@.len() - p,
    {
        let elements = &pages[p];
        let ghost done = document_pieces(pages@, p as int);
        let mut e: usize = 0;
        while e < elements.len()
            invariant
                p < pages@.len() < usize::MAX,
                *elements == pages@[p as int],
                e <= elements@.len(),
                done == document_pieces(pages@, p as int),
                parts@.map_values(|part: PdfPart| part_view(part)) == kept(
                    done + page_pieces(elements@, p + 1, e as int),
                ),
            decreases elements@.len() - e,
        {
            let texts = element_texts(&elements[e]);
            let ghost pieces = element_pieces(elements@[e as int]);
            let ghost before = done + page_pieces(elements@, p + 1, e as int);
            let mut k: usize = 0;
            while k < texts.len()
                invariant
                    p < pages@.len() < usize::MAX,
                    e < elements@.len(),
                    k <= texts@.len(),
                    texts@.map_values(|t: (PartKind, String)| (t.0, t.1@)) == pieces,
                    parts@.map_values(|part: PdfPart| part_view(part)) == kept(
                        before + placed(pieces, p + 1, e as int).take(k as int),
                    ),
                decreases texts@.len() - k,
            {
                let ghost piece = placed(pieces, p + 1, e as int)[k as int];
                let ghost upto = before + placed(pieces, p + 1, e as int).take(k as int);
                proof {
                    assert((before + placed(pieces, p + 1, e as int).take(k + 1)) =~= upto.push(piece));
                    assert(upto.push(piece).drop_last() =~= upto);
                    assert(pieces[k as int] == (texts@[k as int].0, texts@[k as int].1@));
                }
                let text = trim(texts[k].1.as_str());
                if !text.is_empty() {
                    let ghost before_parts = parts@;
                    parts.push(PdfPart { kind: texts[k].0, text: text.to_owned(), page: p + 1, element: e });
                    proof {
                        assert(parts@.map_values(|part: PdfPart| part_view(part)) =~= before_parts.map_values(
                            |part: PdfPart| part_view(part),
                        ).push(part_view(parts@.last())));
                    }
                }
                k = k + 1;
            }
            proof {
                assert(placed(pieces, p + 1, e as int).take(texts@.len() as int) =~= placed(
                    pieces,
                    p + 1,
                    e as int,
                ));
                lemma_concat_new_push(e as int, |j: int| placed(element_pieces(elements@[j]), p + 1, j));
                assert(done + page_pieces(elements@, p + 1, e + 1) =~= before + placed(pieces, p + 1, e as int));
            }
            e = e + 1;
        }
        proof {
            lemma_concat_new_push(
                p as int,
                |q: int| page_pieces(pages@[q]@, q + 1, pages@[q]@.len() as int),
            );
        }
        p = p + 1;
    }
    parts
}

/// Whether a step is the PDF parsing step that read `page_count` pages and
/// emitted `part_count` parts.
pub open spec fn is_pdf_step(built: ExtractionPipelineStep, duration_ms: u64, page_count: usize, part_count: usize) -> bool {
    &&& built.step == ExtractionPipelineStepKind::Parsing
    &&& built.engine@ == PDF_ENGINE@
    &&& built.duration_ms == duration_ms
    &&& string_maps_specified() ==> exists|pages: String, parts: String|
        #![trigger pages@, parts@]
        pages@ == "pages"@ && parts@ == "parts"@ && built.outputs@ == Map::<String, u64>::empty().insert(
            pages,
            page_count as u64,
        ).insert(parts, part_count as u64)
}

/// The PDF parsing step.
fn pdf_step(duration_ms: u64, page_count: usize, part_count: usize) -> (built: ExtractionPipelineStep)
    ensures
        is_pdf_step(built, duration_ms, page_count, part_count),
{
    let pages = "pages".to_owned();
    let parts = "parts".to_owned();
    let ghost pages_key = pages;
    let ghost parts_key = parts;
    let mut entries: Vec<(String, u64)> = Vec::new();
    entries.push((pages, page_count as u64));
    entries.push((parts, part_count as u64));
    let outputs = outputs_from(entries);
    proof {
        assert(entries@.drop_last() =~= seq![(pages_key, page_count as u64)]);
        assert(entries@.drop_last().drop_last() =~= Seq::<(String, u64)>::empty());
        assert(pages_key@ == "pages"@ && parts_key@ == "parts"@);
        reveal_with_fuel(entries_map, 3);
        assert(entries_map(entries@) =~= Map::<String, u64>::empty().insert(
            pages_key,
            page_count as u64,
        ).insert(parts_key, part_count as u64));
    }
    step(ExtractionPipelineStepKind::Parsing, PDF_ENGINE, duration_ms, outputs)
}

/// Whether a document part carries a PDF part at an index.
pub open spec fn carries(part: TextPart, index: int, pdf_part: PdfPart) -> bool {
    &&& part.index == index
    &&& part.kind == pdf_part.kind
    &&& part.text matches Some(t) && t@ == pdf_part.text@
    &&& part.byte_range is None
    &&& part.page == Some(pdf_part.page)
}

/// Builds the content of a PDF from its parts and its whole text. With
/// parts, the document keeps them, numbered in order, beside the whole text;
/// without, the whole text is one text part. Either way the pipeline is the
/// PDF parsing step.
pub fn pdf_document(parts: &Vec<PdfPart>, text: String, page_count: usize, duration_ms: u64) -> (document:
    TextDocument)
    ensures
        document.pipeline@.len() == 1,
        is_pdf_step(document.pipeline@[0], duration_ms, page_count, parts@.len() as usize),
        parts@.len() > 0 ==> {
            &&& document.canonical_text matches Some(t) && t@ == text@
            &&& document.parts@.len() == parts@.len()
            &&& forall|i: int| 0 <= i < parts@.len() ==> carries(#[trigger] document.parts@[i], i, parts@[i])
        },
        parts@.len() == 0 ==> {
            &&& document.canonical_text is None
            &&& document.parts@.len() == 1
            &&& document.parts@[0].index == 0
            &&& document.parts@[0].kind == PartKind::Text
            &&& document.parts@[0].text matches Some(t) && t@ == text@
            &&& document.parts@[0].byte_range is None
        },
{
    let audit = pdf_step(duration_ms, page_count, parts.len());
    if parts.len() > 0 {
        let mut document_parts: Vec<TextPart> = Vec::new();
        let mut i: usize = 0;
        while i < parts.len()
            invariant
                i <= parts@.len(),
                document_parts@.len() == i,
                forall|j: int| 0 <= j < i ==> carries(#[trigger] document_parts@[j], j, parts@[j]),
            decreases parts@.len() - i,
        {
            document_parts.push(
                TextPart {
                    index: i,
                    kind: parts[i].kind,
                    text: Some(parts[i].text.clone()),
                    byte_range: None,
                    page: Some(parts[i].page),
                },
            );
            i = i + 1;
        }
        let mut pipeline = Vec::new();
        pipeline.push(audit);
        return TextDocument { canonical_text: Some(text), parts: document_parts, pipeline };
    }
    let mut document = TextDocument::from_text(text);
    document.pipeline.push(audit);
    document
}

} // verus!
