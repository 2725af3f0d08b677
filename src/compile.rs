//! What a compile produces depends on the Runefile's text alone.
use vstd::prelude::*;
use crate::ast::{Instruction, Path, Runefile};
use crate::codegen::{generate_source, source_text};
use crate::deps::{DependencyConflict, base_deps, insert_all};
use crate::lower::{LowerError, lower_failed, process_instructions};
use crate::manifest::{Manifest, generate_manifest, is_manifest};
use crate::deps::{block_entries, path_model, resolve, strings_view};
use crate::lower::{
    Pipeline, config_of, declared, declared_configs, declared_loads, decl_of, load_of, has_duplicate, last_out, lowered, nodes_view, proc_block_deps,
    run_steps, sink_of,
};
use crate::parser::{instr_model, models, parse_runefile};

verus! {

/// Each proc-block's name and path, in order: what the manifest's
/// dependencies are made from.
pub fn proc_blocks(runefile: &Runefile) -> (r: Vec<(String, Path)>)
    ensures
        forall|dir: Seq<char>|
            #[trigger] block_entries(r@, dir) == proc_block_deps(runefile.instructions@, dir),
{
    let ghost s = runefile.instructions@;
    let mut r: Vec<(String, Path)> = Vec::new();
    let mut i: usize = 0;
    while i < runefile.instructions.len()
        invariant
            s == runefile.instructions@,
            i <= s.len(),
            forall|dir: Seq<char>|
                #[trigger] block_entries(r@, dir) == proc_block_deps(s.subrange(0, i as int), dir),
        decreases s.len() - i,
    {
        let ghost before = r@;
        let ghost next = s.subrange(0, i + 1);
        assert(next.drop_last() =~= s.subrange(0, i as int));
        assert(next.last() == s[i as int]);
        match &runefile.instructions[i] {
            Instruction::ProcBlock(p) => {
                r.push((p.name.value.clone(), p.path.copy()));
                assert forall|dir: Seq<char>| #[trigger]
                    block_entries(r@, dir) == proc_block_deps(next, dir) by {
                    assert(block_entries(r@, dir) =~= block_entries(before, dir).push(
                        (p.name.value@, resolve(path_model(&p.path), dir)),
                    ));
                }
            },
            _ => {
                assert forall|dir: Seq<char>| #[trigger]
                    block_entries(r@, dir) == proc_block_deps(next, dir) by {
                    assert(proc_block_deps(next, dir) =~= proc_block_deps(s.subrange(0, i as int), dir));
                }
            },
        }
        i = i + 1;
    }
    assert(s.subrange(0, s.len() as int) =~= s);
    r
}

/// Two instruction lists that read the same, name for name and path for
/// path, declare the same stages, ask for the same dependencies, run the
/// same steps and have the same sink.
proof fn lemma_same_reading(s1: Seq<Instruction>, s2: Seq<Instruction>, dir: Seq<char>)
    requires
        models(s1) == models(s2),
    ensures
        declared(s1) == declared(s2),
        proc_block_deps(s1, dir) == proc_block_deps(s2, dir),
        last_out(s1) == last_out(s2),
        declared_configs(s1) == declared_configs(s2),
        declared_loads(s1) == declared_loads(s2),
        run_steps(s1).len() == run_steps(s2).len(),
        forall|k: int| 0 <= k < run_steps(s1).len() ==> #[trigger] run_steps(s1)[k].0 == run_steps(s2)[k].0,
    decreases s1.len(),
{
    let m1 = models(s1);
    let m2 = models(s2);
    assert(s1.len() == m1.len() && s2.len() == m2.len());
    if s1.len() > 0 {
        let a = s1.drop_last();
        let b = s2.drop_last();
        assert(models(a) =~= models(b)) by {
            assert forall|k: int| 0 <= k < a.len() implies instr_model(a[k]) == instr_model(b[k]) by {
                assert(a[k] == s1[k] && b[k] == s2[k]);
                assert(m1[k] == m2[k]);
                assert(m1[k] == instr_model(s1[k]));
                assert(m2[k] == instr_model(s2[k]));
            }
        }
        lemma_same_reading(a, b, dir);
        let x = s1.last();
        let y = s2.last();
        assert(instr_model(x) == instr_model(y)) by {
            assert(m1[s1.len() - 1] == m2[s2.len() - 1]);
        }
        assert(decl_of(x, s1.len() - 1) == decl_of(y, s2.len() - 1));
        assert(config_of(x) == config_of(y));
        assert(load_of(x) == load_of(y));
        let ra = run_steps(a);
        let r1 = run_steps(s1);
        let r2 = run_steps(s2);
        match (x, y) {
            (Instruction::Run(p), Instruction::Run(q)) => {
                let n1 = p.steps@.map_values(|st: crate::ast::Ident| st.value@);
                let n2 = q.steps@.map_values(|st: crate::ast::Ident| st.value@);
                assert(n1 == n2);
                assert forall|k: int| 0 <= k < r1.len() implies #[trigger] r1[k].0 == r2[k].0 by {
                    if k >= ra.len() {
                        assert(n1[k - ra.len()] == n2[k - ra.len()]);
                    }
                }
            },
            _ => {
                assert forall|k: int| 0 <= k < r1.len() implies #[trigger] r1[k].0 == r2[k].0 by {
                }
            },
        }
    }
}

/// Compiling one text twice gives the same result: the two readings of
/// `text` lower to pipelines with the same dependencies and the same
/// generated source.
pub proof fn lemma_compile_deterministic(
    text: Seq<char>,
    s1: Seq<Instruction>,
    s2: Seq<Instruction>,
    dir: Seq<char>,
    first: Pipeline,
    second: Pipeline,
)
    requires
        parse_runefile(text) == Ok::<Seq<crate::parser::StepModel>, Seq<char>>(
            models(s1),
        ),
        parse_runefile(text) == Ok::<Seq<crate::parser::StepModel>, Seq<char>>(
            models(s2),
        ),
        lowered(s1, dir, first),
        lowered(s2, dir, second),
    ensures
        first.dependencies@ == second.dependencies@,
        nodes_view(first.nodes@) == nodes_view(second.nodes@),
        first.order@ == second.order@,
        first.sink@ == second.sink@,
        strings_view(first.configs@) == strings_view(second.configs@),
        strings_view(first.loads@) == strings_view(second.loads@),
        source_text(
            nodes_view(first.nodes@),
            strings_view(first.loads@),
            strings_view(first.configs@),
            first.order@,
            first.sink@,
        ) == source_text(
            nodes_view(second.nodes@),
            strings_view(second.loads@),
            strings_view(second.configs@),
            second.order@,
            second.sink@,
        ),
{
    lemma_same_reading(s1, s2, dir);
    let ds = declared(s1);
    let steps1 = run_steps(s1);
    let steps2 = run_steps(s2);
    assert(sink_of(s1) == sink_of(s2));
    assert forall|k: int| 0 <= k < first.order@.len() implies first.order@[k] == second.order@[k] by {
        let i = first.order@[k] as int;
        let j = second.order@[k] as int;
        assert(ds[i].0 == steps1[k].0);
        assert(ds[j].0 == steps2[k].0);
        assert(steps1[k].0 == steps2[k].0);
        if i < j {
            assert(has_duplicate(ds));
        } else if j < i {
            assert(has_duplicate(ds));
        }
    }
    assert(first.order@ =~= second.order@);
}

/// What one compile produces.
#[derive(Debug, Clone)]
pub struct Compiled {
    pub pipeline: Pipeline,
    pub manifest: Manifest,
    pub source: String,
}

/// Compiles a Runefile into its pipeline graph, its package manifest under
/// the name `name`, and its generated source, with the dependencies
/// resolved in `current_dir`.
pub fn compile(runefile: &Runefile, name: &str, current_dir: &str) -> (r: Result<Compiled, LowerError>)
    ensures
        match r {
            Ok(c) => {
                &&& lowered(runefile.instructions@, current_dir@, c.pipeline)
                &&& is_manifest(
                    c.manifest,
                    name@,
                    base_deps() + proc_block_deps(runefile.instructions@, current_dir@),
                )
                &&& c.source@ == source_text(
                    nodes_view(c.pipeline.nodes@),
                    strings_view(c.pipeline.loads@),
                    strings_view(c.pipeline.configs@),
                    c.pipeline.order@,
                    c.pipeline.sink@,
                )
            },
            Err(e) => lower_failed(runefile.instructions@, current_dir@, e),
        },
{
    let pipeline = match process_instructions(runefile, current_dir) {
        Ok(p) => p,
        Err(e) => {
            return Err(e);
        },
    };
    let blocks = proc_blocks(runefile);
    assert(block_entries(blocks@, current_dir@) == proc_block_deps(runefile.instructions@, current_dir@));
    let manifest = match generate_manifest(&blocks, name, current_dir) {
        Ok(m) => m,
        Err(DependencyConflict { name }) => {
            // lowering already found these dependencies free of conflicts
            return Err(LowerError::ConflictingDependency { name });
        },
    };
    let source = generate_source(&pipeline);
    Ok(Compiled { pipeline, manifest, source })
}

} // verus!
