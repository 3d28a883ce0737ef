//! Code generation: each `exit` statement lowers to one syscall-exit
//! instruction carrying the exit expression's literal text verbatim, with no
//! arithmetic evaluation. Variable and general expression statements have no
//! lowering rule yet: one reaching this stage is an explicit, fatal
//! unsupported-construct condition, not a silent drop.

use vstd::prelude::*;

use crate::assembly::{AssemblyInstruction, AssemblySysCalls, SpecInstruction, SpecSysCall};
use crate::parser::{Node, SpecNode};

verus! {

/// What generation yields from the remaining nodes, with the instructions
/// collected so far: one syscall-exit per `Exit` node, in order, or the
/// unsupported-construct error on the first node of any other kind.
pub open spec fn spec_generate_from(
    nodes: Seq<SpecNode>,
    instrs: Seq<SpecInstruction>,
) -> Result<Seq<SpecInstruction>, Seq<char>>
    decreases nodes.len(),
{
    if nodes.len() == 0 {
        Ok(instrs)
    } else {
        match nodes[0] {
            SpecNode::Exit(v) => spec_generate_from(
                nodes.skip(1),
                instrs.push(SpecInstruction::Syscall(SpecSysCall::Exit(v))),
            ),
            _ => Err("Unsupported construct"@),
        }
    }
}

/// The result of generating code for a whole statement sequence.
pub open spec fn spec_generate(nodes: Seq<SpecNode>) -> Result<Seq<SpecInstruction>, Seq<char>> {
    spec_generate_from(nodes, Seq::empty())
}

/// Walks the statement nodes and emits the abstract instructions: one
/// syscall-exit per `Exit` statement, carrying the exit expression's literal
/// text verbatim. A variable or expression statement has no lowering rule
/// and is a fatal unsupported-construct error.
pub fn parse_to_assembly(nodes: &Vec<Node>) -> (r: Result<Vec<AssemblyInstruction>, String>)
    ensures
        match r {
            Ok(instrs) => spec_generate(nodes.deep_view()) == Ok::<
                Seq<SpecInstruction>,
                Seq<char>,
            >(instrs.deep_view()),
            Err(m) => spec_generate(nodes.deep_view()) == Err::<
                Seq<SpecInstruction>,
                Seq<char>,
            >(m@),
        },
{
    let ghost nv = nodes.deep_view();
    let mut instructions: Vec<AssemblyInstruction> = Vec::new();
    let mut i: usize = 0;
    proof {
        assert(nv.skip(0) =~= nv);
        assert(instructions.deep_view() =~= Seq::<SpecInstruction>::empty());
    }
    while i < nodes.len()
        invariant
            nv == nodes.deep_view(),
            nv.len() == nodes@.len(),
            i <= nodes@.len(),
            spec_generate(nv) == spec_generate_from(
                nv.skip(i as int),
                instructions.deep_view(),
            ),
        decreases nodes@.len() - i,
    {
        let ghost ib = instructions.deep_view();
        proof {
            assert(nv.skip(i as int)[0] == nv[i as int]);
            assert(nv.skip(i as int).skip(1) =~= nv.skip(i as int + 1));
        }
        match &nodes[i] {
            Node::Exit(exit) => {
                let instr = AssemblyInstruction::Syscall(
                    AssemblySysCalls::Exit(exit.expr.value.clone()),
                );
                let ghost instr_v = instr@;
                instructions.push(instr);
                proof {
                    assert(instructions.deep_view() =~= ib.push(instr_v));
                }
            },
            _ => {
                return Err("Unsupported construct".to_owned());
            },
        }
        i += 1;
    }
    proof {
        assert(nv.skip(nodes@.len() as int) =~= Seq::<SpecNode>::empty());
    }
    Ok(instructions)
}

} // verus!
