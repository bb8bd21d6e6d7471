//! The whole way from source text to circuit.
use crate::ast::node_views;
use crate::ast::Node;
use crate::ast::NodeView;
use crate::circuit::Circuit;
use crate::circuit::CircuitView;
use crate::error::LoweringError;
use crate::lower::lemma_failure_kind;
use crate::lower::lemma_lowering_reads_views;
use crate::lower::lower;
use crate::lower::lower_program;
use crate::preprocess::process;
use crate::preprocess::process_spec;
use crate::preprocess::IncludeFile;
use crate::syntax::parsable;
use crate::syntax::parsed_program;
use crate::syntax::parse_program;
use vstd::prelude::*;

verus! {

/// Whether the outcome `r` of a pass is the outcome `expected`: the same
/// failure, or a circuit that stands for the expected one.
pub open spec fn agrees(
    r: Result<Circuit, LoweringError>,
    expected: Result<CircuitView, LoweringError>,
) -> bool {
    match r {
        Ok(c) => expected == Ok::<CircuitView, LoweringError>(c@),
        Err(e) => expected == Err::<CircuitView, LoweringError>(e),
    }
}

/// What lowering makes of the outcome of parsing: a parsing failure is
/// passed on, a program is lowered.
pub open spec fn outcome_of(parsed: Result<Seq<Node>, LoweringError>) -> Result<
    CircuitView,
    LoweringError,
> {
    match parsed {
        Err(e) => Err(e),
        Ok(nodes) => lower_program(nodes),
    }
}

/// The statements of a parsed program, or the failure of parsing.
pub open spec fn parsed_view(parsed: Result<Vec<Node>, LoweringError>) -> Result<
    Seq<Node>,
    LoweringError,
> {
    match parsed {
        Err(e) => Err(e),
        Ok(nodes) => Ok(nodes@),
    }
}

/// Lowers the outcome of parsing: see [`outcome_of`]. A circuit that comes
/// out is well formed.
pub fn lower_parsed(parsed: &Result<Vec<Node>, LoweringError>) -> (r: Result<Circuit, LoweringError>)
    ensures
        agrees(r, outcome_of(parsed_view(*parsed))),
        r is Ok ==> r->Ok_0@.well_formed(),
{
    match parsed {
        Err(e) => Err(*e),
        Ok(nodes) => lower(nodes),
    }
}

/// What lowering makes of a program that is given by what it stands for.
pub open spec fn lowered(program: Seq<NodeView>) -> Result<CircuitView, LoweringError> {
    lower_program(choose|nodes: Seq<Node>| node_views(nodes) == program)
}

/// Every program is lowered as [`lowered`] says of what it stands for.
pub proof fn lemma_lowered(nodes: Seq<Node>)
    ensures
        lowered(node_views(nodes)) == lower_program(nodes),
{
    let chosen = choose|other: Seq<Node>| node_views(other) == node_views(nodes);
    lemma_lowering_reads_views(chosen, nodes, chosen.len());
}

/// The circuit of a preprocessed source text. Text that is not [`parsable`],
/// and text that the parser rejects, is an `InvalidNodeType` failure;
/// otherwise the statements that the parser makes of the text are lowered.
pub open spec fn circuit_of(text: Seq<char>) -> Result<CircuitView, LoweringError> {
    if !parsable(text) {
        Err(LoweringError::InvalidNodeType)
    } else {
        match parsed_program(text) {
            None => Err(LoweringError::InvalidNodeType),
            Some(program) => lowered(program),
        }
    }
}

/// The circuit of a source text, given the files that it may name. Where
/// preprocessing fails, the pass fails with `IOFailure`; otherwise the
/// outcome is [`circuit_of`] the preprocessed text.
pub open spec fn pipeline_spec(source: Seq<char>, files: Seq<IncludeFile>) -> Result<
    CircuitView,
    LoweringError,
> {
    match process_spec(source, files) {
        Err(_) => Err(LoweringError::IOFailure),
        Ok(text) => circuit_of(text),
    }
}

/// Turns source text into a circuit: preprocesses it with the files that it
/// may name, parses the result and lowers the program. See
/// [`pipeline_spec`]. The pass fails with `IOFailure` where preprocessing
/// fails, and in no other case. A circuit that comes out is well formed: its
/// handles can be followed without a check.
pub fn qasm_ast_to_circuit(source: &str, files: &Vec<IncludeFile>) -> (r: Result<
    Circuit,
    LoweringError,
>)
    ensures
        agrees(r, pipeline_spec(source@, files@)),
        r is Err && r->Err_0 == LoweringError::IOFailure <==> process_spec(source@, files@) is Err,
        r is Ok ==> r->Ok_0@.well_formed(),
{
    match process(source, files) {
        Err(e) => Err(e),
        Ok(text) => {
            let parsed = parse_program(text.as_str());
            let r = lower_parsed(&parsed);
            proof {
                if parsed is Ok {
                    lemma_failure_kind(parsed->Ok_0@, parsed->Ok_0@.len());
                    lemma_lowered(parsed->Ok_0@);
                }
            }
            r
        },
    }
}

} // verus!
