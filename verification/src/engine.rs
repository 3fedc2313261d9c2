//! The combined front door: script text in, story graph out.

use vstd::prelude::*;

use crate::errors::{BuildError, EngineError, ParseError};
use crate::graph::{
    build, build_outcome, dangling_target, duplicated_id, graph_matches, BuildOutcome, StoryGraph,
};
use crate::parser::{blocks_view, parse, spec_parse, BlockModel};

verus! {

/// Parses a whole script text and resolves it into a story graph. Fails with
/// the parser's first error on malformed text, and with the builder's first
/// structural fault otherwise; no partial graph is ever returned.
pub fn parse_and_build(source_text: &str) -> (r: Result<StoryGraph, EngineError>)
    ensures
        match r {
            Ok(g) => spec_parse(source_text@) matches Ok(bm) && build_outcome(bm)
                == BuildOutcome::Valid && g@.wf() && graph_matches(g@, bm),
            Err(e) => match e {
                EngineError::Parse(pe) => spec_parse(source_text@) == Err::<
                    Seq<BlockModel>,
                    ParseError,
                >(pe),
                EngineError::Build(be) => spec_parse(source_text@) matches Ok(bm) && (match be {
                    BuildError::DuplicateId(id) => build_outcome(bm) == BuildOutcome::DuplicateId
                        && duplicated_id(bm, id@),
                    BuildError::DanglingReference(t) => build_outcome(bm)
                        == BuildOutcome::DanglingReference && dangling_target(bm, t@),
                    BuildError::NoEntryPoint => build_outcome(bm) == BuildOutcome::NoEntryPoint,
                }),
                _ => false,
            },
        },
{
    match parse(source_text) {
        Ok(blocks) => match build(&blocks) {
            Ok(g) => {
                proof {
                    assert(spec_parse(source_text@) == Ok::<Seq<BlockModel>, ParseError>(
                        blocks_view(blocks@),
                    ));
                }
                Ok(g)
            },
            Err(e) => Err(EngineError::Build(e)),
        },
        Err(e) => Err(EngineError::Parse(e)),
    }
}

} // verus!
