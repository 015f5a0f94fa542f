//! Shared extraction pipeline helpers: the audit steps of an extraction.

use std::collections::BTreeMap;

use vstd::prelude::*;
use vstd::laws_cmp::obeys_cmp;

use crate::extraction::types::{ExtractionPipelineStep, ExtractionPipelineStepKind};

verus! {

/// The engine name of detection steps.
pub const DETECTION_STEP_ENGINE: &'static str = "magika";

/// Builds a pipeline step with its output counts.
pub fn step(
    kind: ExtractionPipelineStepKind,
    engine: &str,
    duration_ms: u64,
    outputs: BTreeMap<String, u64>,
) -> (built: ExtractionPipelineStep)
    ensures
        built.step == kind,
        built.engine@ == engine@,
        built.duration_ms == duration_ms,
        built.outputs == outputs,
{
    ExtractionPipelineStep { step: kind, engine: engine.to_owned(), duration_ms, outputs }
}

/// The map that inserting the entries in order builds: later entries win.
pub open spec fn entries_map(entries: Seq<(String, u64)>) -> Map<String, u64>
    decreases entries.len(),
{
    if entries.len() == 0 {
        Map::empty()
    } else {
        entries_map(entries.drop_last()).insert(entries.last().0, entries.last().1)
    }
}

/// Whether std's ordered map keeps its specified contents for string keys:
/// whether `String`'s ordering obeys the laws of a total order, as vstd
/// models them.
pub open spec fn string_maps_specified() -> bool {
    obeys_cmp::<String>()
}

/// Collects output counts into a map.
pub fn outputs_from(entries: Vec<(String, u64)>) -> (outputs: BTreeMap<String, u64>)
    ensures
        string_maps_specified() ==> outputs@ == entries_map(entries@),
{
    let ghost all = entries@;
    let mut outputs: BTreeMap<String, u64> = BTreeMap::new();
    let rest = entries;
    let ghost mut done: Seq<(String, u64)> = Seq::empty();
    let mut i: usize = 0;
    while i < rest.len()
        invariant
            rest@ == all,
            i <= rest@.len(),
            done == all.take(i as int),
            string_maps_specified() ==> outputs@ == entries_map(done),
        decreases rest@.len() - i,
    {
        let key = rest[i].0.clone();
        let count = rest[i].1;
        outputs.insert(key, count);
        proof {
            assert(all.take(i + 1) =~= done.push(all[i as int]));
            assert(all.take(i + 1).drop_last() =~= done);
            done = all.take(i + 1);
        }
        i = i + 1;
    }
    proof {
        assert(all.take(all.len() as int) =~= all);
    }
    outputs
}

/// The detection step: one content type detected.
pub fn detection_step(duration_ms: u64) -> (built: ExtractionPipelineStep)
    ensures
        built.step == ExtractionPipelineStepKind::Detection,
        built.engine@ == DETECTION_STEP_ENGINE@,
        built.duration_ms == duration_ms,
        string_maps_specified() ==> exists|types: String|
            #![trigger types@]
            types@ == "types"@ && built.outputs@ == Map::<String, u64>::empty().insert(types, 1u64),
{
    let types = "types".to_owned();
    let ghost key = types;
    let mut entries: Vec<(String, u64)> = Vec::new();
    entries.push((types, 1));
    let outputs = outputs_from(entries);
    proof {
        assert(entries@ =~= seq![(key, 1u64)]);
        assert(entries@.drop_last() =~= Seq::<(String, u64)>::empty());
        assert(key@ == "types"@);
        reveal_with_fuel(entries_map, 2);
        assert(entries_map(entries@) =~= Map::<String, u64>::empty().insert(key, 1u64));
    }
    step(ExtractionPipelineStepKind::Detection, DETECTION_STEP_ENGINE, duration_ms, outputs)
}

/// Whether a step is the parsing step of `engine` that emitted
/// `part_count` parts and produced text or not.
pub open spec fn is_parsing_step(
    built: ExtractionPipelineStep,
    engine: Seq<char>,
    duration_ms: u64,
    part_count: usize,
    has_text: bool,
) -> bool {
    &&& built.step == ExtractionPipelineStepKind::Parsing
    &&& built.engine@ == engine
    &&& built.duration_ms == duration_ms
    &&& string_maps_specified() ==> exists|parts: String, texts: String|
        #![trigger parts@, texts@]
        parts@ == "parts"@ && texts@ == "texts"@ && built.outputs@ == Map::<String, u64>::empty().insert(
            parts,
            part_count as u64,
        ).insert(texts, if has_text { 1u64 } else { 0u64 })
}

/// A parsing step of `engine`: how many parts it emitted, and whether it
/// produced text (one text, or none).
pub fn parsing_step(engine: &str, duration_ms: u64, part_count: usize, has_text: bool) -> (built: ExtractionPipelineStep)
    ensures
        is_parsing_step(built, engine@, duration_ms, part_count, has_text),
{
    let parts = "parts".to_owned();
    let texts = "texts".to_owned();
    let ghost parts_key = parts;
    let ghost texts_key = texts;
    let text_count: u64 = if has_text { 1 } else { 0 };
    let mut entries: Vec<(String, u64)> = Vec::new();
    entries.push((parts, part_count as u64));
    entries.push((texts, text_count));
    let outputs = outputs_from(entries);
    proof {
        assert(entries@.drop_last() =~= seq![(parts_key, part_count as u64)]);
        assert(entries@.drop_last().drop_last() =~= Seq::<(String, u64)>::empty());
        assert(parts_key@ == "parts"@ && texts_key@ == "texts"@);
        reveal_with_fuel(entries_map, 3);
        assert(entries_map(entries@) =~= Map::<String, u64>::empty().insert(
            parts_key,
            part_count as u64,
        ).insert(texts_key, text_count));
    }
    step(ExtractionPipelineStepKind::Parsing, engine, duration_ms, outputs)
}

/// Whether a step is the parsing step of `engine` that reports only that it
/// emitted `part_count` parts.
pub open spec fn is_parts_step(built: ExtractionPipelineStep, engine: Seq<char>, duration_ms: u64, part_count: usize) -> bool {
    &&& built.step == ExtractionPipelineStepKind::Parsing
    &&& built.engine@ == engine
    &&& built.duration_ms == duration_ms
    &&& string_maps_specified() ==> exists|parts: String|
        #![trigger parts@]
        parts@ == "parts"@ && built.outputs@ == Map::<String, u64>::empty().insert(parts, part_count as u64)
}

/// A parsing step of `engine` that reports only how many parts it emitted.
pub fn parts_step(engine: &str, duration_ms: u64, part_count: usize) -> (built: ExtractionPipelineStep)
    ensures
        is_parts_step(built, engine@, duration_ms, part_count),
{
    let parts = "parts".to_owned();
    let ghost key = parts;
    let mut entries: Vec<(String, u64)> = Vec::new();
    entries.push((parts, part_count as u64));
    let outputs = outputs_from(entries);
    proof {
        assert(entries@ =~= seq![(key, part_count as u64)]);
        assert(key@ == "parts"@);
        reveal_with_fuel(entries_map, 2);
        assert(entries_map(entries@) =~= Map::<String, u64>::empty().insert(key, part_count as u64));
    }
    step(ExtractionPipelineStepKind::Parsing, engine, duration_ms, outputs)
}

} // verus!
