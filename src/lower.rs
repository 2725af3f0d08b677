//! Lowering: from the instructions of a Runefile to a checked pipeline graph
//! with its dependencies and its sink.
use vstd::prelude::*;
use crate::ast::{Argument, Instruction, Path, Runefile, Span};
use crate::codegen::{args_text, render_args};
use crate::parser::args_model;
use crate::deps::{
    DependencyConflict, DependencyModel, DepsSet, base_deps, block_entries, dependencies,
    insert_all, keys_unique, path_model, resolve, str_eq,
};

verus! {

/// What a stage of the pipeline is.
#[derive(Debug, Clone, Copy, PartialEq, Eq, Hash, Structural)]
pub enum StageKind {
    Capability,
    Model,
    ProcBlock,
}

/// A declared stage: its name, what it is, and the position of the
/// instruction that declared it.
#[derive(Debug, Clone)]
pub struct Node {
    pub name: String,
    pub kind: StageKind,
    pub instruction: usize,
}

pub open spec fn node_view(n: Node) -> (Seq<char>, StageKind, int) {
    (n.name@, n.kind, n.instruction as int)
}

/// The stage that one instruction declares, if it declares one.
pub open spec fn decl_of(ins: Instruction, idx: int) -> Seq<(Seq<char>, StageKind, int)> {
    match ins {
        Instruction::Model(m) => seq![(m.name.value@, StageKind::Model, idx)],
        Instruction::Capability(c) => seq![(c.name.value@, StageKind::Capability, idx)],
        Instruction::ProcBlock(p) => seq![(p.name.value@, StageKind::ProcBlock, idx)],
        _ => Seq::empty(),
    }
}

/// The stages declared by `s`, in order.
pub open spec fn declared(s: Seq<Instruction>) -> Seq<(Seq<char>, StageKind, int)>
    decreases s.len(),
{
    if s.len() == 0 {
        Seq::empty()
    } else {
        declared(s.drop_last()) + decl_of(s.last(), s.len() - 1)
    }
}

/// The call-site configuration of the stage that one instruction declares.
pub open spec fn config_of(ins: Instruction) -> Seq<Seq<char>> {
    match ins {
        Instruction::Model(m) => seq![args_text(args_model(m.parameters@))],
        Instruction::Capability(c) => seq![args_text(args_model(c.parameters@))],
        Instruction::ProcBlock(p) => seq![args_text(args_model(p.params@))],
        _ => Seq::empty(),
    }
}

/// The line of the generated source that embeds a model's file.
pub open spec fn load_line(name: Seq<char>, file: Seq<char>) -> Seq<char> {
    "static MODEL_"@ + name + ": &[u8] = include_bytes!(\""@ + file + "\");\n"@
}

/// The model-loading line of the stage that one instruction declares.
pub open spec fn load_of(ins: Instruction) -> Seq<Seq<char>> {
    match ins {
        Instruction::Model(m) => seq![load_line(m.name.value@, m.file@)],
        Instruction::Capability(c) => seq![Seq::empty()],
        Instruction::ProcBlock(p) => seq![Seq::empty()],
        _ => Seq::empty(),
    }
}

/// The model-loading lines of the declared stages, in order.
pub open spec fn declared_loads(s: Seq<Instruction>) -> Seq<Seq<char>>
    decreases s.len(),
{
    if s.len() == 0 {
        Seq::empty()
    } else {
        declared_loads(s.drop_last()) + load_of(s.last())
    }
}

/// The call-site configurations of the declared stages, in order.
pub open spec fn declared_configs(s: Seq<Instruction>) -> Seq<Seq<char>>
    decreases s.len(),
{
    if s.len() == 0 {
        Seq::empty()
    } else {
        declared_configs(s.drop_last()) + config_of(s.last())
    }
}

/// Each proc-block's name with what its path resolves to, in order.
pub open spec fn proc_block_deps(s: Seq<Instruction>, dir: Seq<char>) -> Seq<(Seq<char>, DependencyModel)>
    decreases s.len(),
{
    if s.len() == 0 {
        Seq::empty()
    } else {
        proc_block_deps(s.drop_last(), dir) + match s.last() {
            Instruction::ProcBlock(p) => seq![(p.name.value@, resolve(path_model(&p.path), dir))],
            _ => Seq::empty(),
        }
    }
}

/// The kind of the last `out` instruction of `s`.
pub open spec fn last_out(s: Seq<Instruction>) -> Option<Seq<char>>
    decreases s.len(),
{
    if s.len() == 0 {
        None
    } else {
        match s.last() {
            Instruction::Out(o) => Some(o.out_type.value@),
            _ => last_out(s.drop_last()),
        }
    }
}

/// The sink of a pipeline: the last `out` instruction's kind, else `serial`.
pub open spec fn sink_of(s: Seq<Instruction>) -> Seq<char> {
    match last_out(s) {
        Some(k) => k,
        None => "serial"@,
    }
}

/// Every step of every `run` instruction, in order, with the span of its
/// instruction.
pub open spec fn run_steps(s: Seq<Instruction>) -> Seq<(Seq<char>, Span)>
    decreases s.len(),
{
    if s.len() == 0 {
        Seq::empty()
    } else {
        run_steps(s.drop_last()) + match s.last() {
            Instruction::Run(r) => r.steps@.map_values(|st: crate::ast::Ident| (st.value@, r.span)),
            _ => Seq::empty(),
        }
    }
}

pub open spec fn has_name(ds: Seq<(Seq<char>, StageKind, int)>, n: Seq<char>) -> bool {
    exists|i: int| 0 <= i < ds.len() && ds[i].0 == n
}

pub open spec fn has_duplicate(ds: Seq<(Seq<char>, StageKind, int)>) -> bool {
    exists|i: int, j: int| 0 <= i < j < ds.len() && ds[i].0 == ds[j].0
}

/// Why a Runefile does not lower.
#[derive(Debug, Clone, PartialEq, Eq)]
pub enum LowerError {
    /// Two stages were declared under one name.
    DuplicateName { name: String },
    /// Two different dependencies were asked for under one name.
    ConflictingDependency { name: String },
    /// A `run` step names no declared stage.
    DanglingReference { name: String, span: Span },
}

/// The checked pipeline graph.
#[derive(Debug, Clone)]
pub struct Pipeline {
    /// The declared stages, in order of declaration.
    pub nodes: Vec<Node>,
    /// Each declared stage's parameters as its call site writes them, in
    /// the order of `nodes`.
    pub configs: Vec<String>,
    /// For each declared stage, the line of the generated source that loads
    /// its model file: empty but for models.
    pub loads: Vec<String>,
    /// The stages to run, as positions in `nodes`, in the order of the `run`
    /// steps.
    pub order: Vec<usize>,
    pub dependencies: DepsSet,
    /// The kind of the sink that the last stage's output goes to.
    pub sink: String,
}

/// `p` is the pipeline graph of the instructions `s`, with the dependencies
/// resolved in `dir`: the declared stages without a name twice, the
/// dependencies, the stages to run in the order of the `run` steps, and the
/// sink.
pub open spec fn lowered(s: Seq<Instruction>, dir: Seq<char>, p: Pipeline) -> bool {
    let ds = declared(s);
    let steps = run_steps(s);
    &&& p.wf()
    &&& !has_duplicate(ds)
    &&& insert_all(Seq::empty(), base_deps() + proc_block_deps(s, dir)) == Ok::<
        Seq<(Seq<char>, DependencyModel)>,
        Seq<char>,
    >(p.dependencies@)
    &&& keys_unique(p.dependencies@)
    &&& nodes_view(p.nodes@) == ds
    &&& p.order@.len() == steps.len()
    &&& forall|k: int|
        0 <= k < steps.len() ==> p.order@[k] < ds.len() && ds[#[trigger] p.order@[k] as int].0
            == steps[k].0
    &&& p.sink@ == sink_of(s)
    &&& crate::deps::strings_view(p.configs@) == declared_configs(s)
    &&& crate::deps::strings_view(p.loads@) == declared_loads(s)
}

/// Why lowering the instructions `s` fails, with the dependencies resolved
/// in `dir`: in this order, a stage name declared twice, two different
/// dependencies under one name, a `run` step naming no declared stage (the
/// first such step, with its instruction's span).
pub open spec fn lower_failed(s: Seq<Instruction>, dir: Seq<char>, e: LowerError) -> bool {
    let ds = declared(s);
    let deps = insert_all(Seq::empty(), base_deps() + proc_block_deps(s, dir));
    let steps = run_steps(s);
    match e {
        LowerError::DuplicateName { name } => {
                    &&& has_duplicate(ds)
                    &&& exists|i: int, j: int|
                        0 <= i < j < ds.len() && ds[i].0 == name@ && ds[j].0 == name@
                },
        LowerError::ConflictingDependency { name } => {
                    &&& !has_duplicate(ds)
                    &&& deps == Err::<Seq<(Seq<char>, DependencyModel)>, Seq<char>>(name@)
                },
        LowerError::DanglingReference { name, span } => {
                    &&& !has_duplicate(ds)
                    &&& deps is Ok
                    &&& exists|k: int|
                        0 <= k < steps.len() && steps[k] == (name@, span) && !has_name(ds, name@)
                            && forall|k2: int| 0 <= k2 < k ==> has_name(ds, #[trigger] steps[k2].0)
                },
    }
}

/// The line of the generated source that embeds the model file `file`.
fn model_load_line(name: &String, file: &String) -> (r: String)
    ensures
        r@ == load_line(name@, file@),
{
    let mut r = String::from_str("static MODEL_");
    r.append(name.as_str());
    r.append(": &[u8] = include_bytes!(\"");
    r.append(file.as_str());
    r.append("\");\n");
    r
}

/// Position of the node named `name`.
fn find_node(nodes: &Vec<Node>, name: &str) -> (r: Option<usize>)
    ensures
        match r {
            Some(i) => i < nodes@.len() && nodes@[i as int].name@ == name@,
            None => forall|i: int| 0 <= i < nodes@.len() ==> nodes@[i].name@ != name@,
        },
{
    let mut i: usize = 0;
    while i < nodes.len()
        invariant
            i <= nodes@.len(),
            forall|j: int| 0 <= j < i ==> nodes@[j].name@ != name@,
        decreases nodes@.len() - i,
    {
        if str_eq(nodes[i].name.as_str(), name) {
            return Some(i);
        }
        i = i + 1;
    }
    None
}

pub open spec fn nodes_view(v: Seq<Node>) -> Seq<(Seq<char>, StageKind, int)> {
    v.map_values(|n: Node| node_view(n))
}

proof fn lemma_declared_prefix(s: Seq<Instruction>, k: int)
    requires
        0 <= k <= s.len(),
    ensures
        declared(s.subrange(0, k)).len() <= declared(s).len(),
        declared(s.subrange(0, k)) == declared(s).subrange(0, declared(s.subrange(0, k)).len() as int),
    decreases s.len() - k,
{
    if k < s.len() {
        lemma_declared_prefix(s, k + 1);
        assert(s.subrange(0, k + 1).drop_last() =~= s.subrange(0, k));
        let a = declared(s.subrange(0, k));
        let b = declared(s.subrange(0, k + 1));
        assert(b.subrange(0, a.len() as int) =~= a);
        assert(declared(s).subrange(0, a.len() as int) =~= b.subrange(0, a.len() as int));
    } else {
        assert(s.subrange(0, k) =~= s);
        assert(declared(s).subrange(0, declared(s).len() as int) =~= declared(s));
    }
}

proof fn lemma_run_steps_prefix(s: Seq<Instruction>, k: int)
    requires
        0 <= k <= s.len(),
    ensures
        run_steps(s.subrange(0, k)).len() <= run_steps(s).len(),
        run_steps(s.subrange(0, k)) == run_steps(s).subrange(0, run_steps(s.subrange(0, k)).len() as int),
    decreases s.len() - k,
{
    if k < s.len() {
        lemma_run_steps_prefix(s, k + 1);
        assert(s.subrange(0, k + 1).drop_last() =~= s.subrange(0, k));
        let a = run_steps(s.subrange(0, k));
        let b = run_steps(s.subrange(0, k + 1));
        assert(b.subrange(0, a.len() as int) =~= a);
        assert(run_steps(s).subrange(0, a.len() as int) =~= b.subrange(0, a.len() as int));
    } else {
        assert(s.subrange(0, k) =~= s);
        assert(run_steps(s).subrange(0, run_steps(s).len() as int) =~= run_steps(s));
    }
}

/// Checks the instructions and builds the pipeline graph, with the
/// dependencies of its proc-blocks resolved in `current_dir`.
///
/// The checks come in this order: no stage name declared twice, no two
/// different dependencies under one name, no `run` step naming an
/// undeclared stage.
pub fn process_instructions(runefile: &Runefile, current_dir: &str) -> (r: Result<Pipeline, LowerError>)
    ensures
        ({
            let s = runefile.instructions@;
            let ds = declared(s);
            let deps = insert_all(Seq::empty(), base_deps() + proc_block_deps(s, current_dir@));
            let steps = run_steps(s);
            match r {
                Ok(p) => lowered(s, current_dir@, p),
                Err(e) => lower_failed(s, current_dir@, e),
            }
        }),
{
    let instrs = &runefile.instructions;
    let ghost s = instrs@;
    let mut nodes: Vec<Node> = Vec::new();
    let mut configs: Vec<String> = Vec::new();
    let mut loads: Vec<String> = Vec::new();
    let mut blocks: Vec<(String, Path)> = Vec::new();
    let mut sink = String::from_str("serial");
    let mut i: usize = 0;
    while i < instrs.len()
        invariant
            s == instrs@,
            s == runefile.instructions@,
            i <= s.len(),
            nodes_view(nodes@) == declared(s.subrange(0, i as int)),
            !has_duplicate(nodes_view(nodes@)),
            block_entries(blocks@, current_dir@) == proc_block_deps(s.subrange(0, i as int), current_dir@),
            sink@ == sink_of(s.subrange(0, i as int)),
            crate::deps::strings_view(configs@) == declared_configs(s.subrange(0, i as int)),
            configs@.len() == nodes@.len(),
            crate::deps::strings_view(loads@) == declared_loads(s.subrange(0, i as int)),
            loads@.len() == nodes@.len(),
        decreases s.len() - i,
    {
        let ghost prev = s.subrange(0, i as int);
        let ghost next = s.subrange(0, i + 1);
        assert(next.drop_last() =~= prev);
        assert(next.last() == s[i as int]);
        let ghost old_nodes = nodes@;
        let ghost old_blocks = blocks@;
        let declared_name: Option<(&String, StageKind, &Vec<Argument>)> = match &instrs[i] {
            Instruction::Model(m) => Some((&m.name.value, StageKind::Model, &m.parameters)),
            Instruction::Capability(c) => Some((&c.name.value, StageKind::Capability, &c.parameters)),
            Instruction::ProcBlock(p) => Some((&p.name.value, StageKind::ProcBlock, &p.params)),
            _ => None,
        };
        let ghost old_configs = configs@;
        let ghost old_loads = loads@;
        let load: Option<String> = match &instrs[i] {
            Instruction::Model(m) => Some(model_load_line(&m.name.value, &m.file)),
            Instruction::Capability(_) => Some(String::new()),
            Instruction::ProcBlock(_) => Some(String::new()),
            _ => None,
        };
        match load {
            Some(line) => {
                loads.push(line);
            },
            None => {},
        }
        assert(crate::deps::strings_view(loads@) =~= crate::deps::strings_view(old_loads) + load_of(s[i as int]));
        assert(declared_loads(next) == declared_loads(prev) + load_of(s[i as int]));
        if let Some((name, kind, args)) = declared_name {
            let config = render_args(args);
            configs.push(config);
            assert(config_of(s[i as int]) =~= seq![args_text(args_model(args@))]);
            assert(crate::deps::strings_view(configs@) =~= crate::deps::strings_view(old_configs).push(
                args_text(args_model(args@)),
            ));
            assert(decl_of(s[i as int], i as int) =~= seq![(name@, kind, i as int)]);
            assert(declared(next) == declared(prev) + decl_of(s[i as int], i as int));
            match find_node(&nodes, name.as_str()) {
                Some(j) => {
                    proof {
                        let ds = declared(s);
                        lemma_declared_prefix(s, i + 1);
                        let dn = declared(next);
                        assert(dn == nodes_view(old_nodes).push((name@, kind, i as int)));
                        assert(dn[j as int] == ds[j as int]);
                        assert(dn[old_nodes.len() as int] == ds[old_nodes.len() as int]);
                        assert(ds[j as int].0 == name@);
                        assert(ds[old_nodes.len() as int].0 == name@);
                        assert(j < old_nodes.len());
                        assert(0 <= j < old_nodes.len() < ds.len() && ds[j as int].0 == name@ && ds[old_nodes.len() as int].0 == name@);
                        assert(exists|a: int, b: int| 0 <= a < b < ds.len() && ds[a].0 == name@ && ds[b].0 == name@);
                        assert(has_duplicate(ds));
                    }
                    return Err(LowerError::DuplicateName { name: name.clone() });
                },
                None => {},
            }
            nodes.push(Node { name: name.clone(), kind, instruction: i });
            assert(nodes_view(nodes@) =~= nodes_view(old_nodes).push((name@, kind, i as int)));
            assert forall|a: int, b: int| 0 <= a < b < nodes_view(nodes@).len() implies nodes_view(nodes@)[a].0 != nodes_view(nodes@)[b].0 by {
                if b == old_nodes.len() {
                    assert(nodes_view(nodes@)[a] == nodes_view(old_nodes)[a]);
                    assert(nodes@[a].name@ != name@);
                } else {
                    assert(nodes_view(nodes@)[a] == nodes_view(old_nodes)[a]);
                    assert(nodes_view(nodes@)[b] == nodes_view(old_nodes)[b]);
                }
            }
        } else {
            assert(nodes_view(nodes@) =~= nodes_view(old_nodes) + decl_of(s[i as int], i as int));
            assert(declared_configs(next) =~= declared_configs(prev));
        }
        match &instrs[i] {
            Instruction::ProcBlock(p) => {
                blocks.push((p.name.value.clone(), p.path.copy()));
                assert(block_entries(blocks@, current_dir@) =~= block_entries(old_blocks, current_dir@).push((p.name.value@, resolve(path_model(&p.path), current_dir@))));
            },
            Instruction::Out(o) => {
                sink = o.out_type.value.clone();
                assert(block_entries(blocks@, current_dir@) =~= proc_block_deps(next, current_dir@));
            },
            _ => {
                assert(block_entries(blocks@, current_dir@) =~= proc_block_deps(next, current_dir@));
            },
        }
        i = i + 1;
    }
    assert(s.subrange(0, s.len() as int) =~= s);
    let ghost ds = declared(s);
    let deps = match dependencies(&blocks, current_dir) {
        Ok(d) => d,
        Err(DependencyConflict { name }) => {
            return Err(LowerError::ConflictingDependency { name });
        },
    };
    let mut order: Vec<usize> = Vec::new();
    let mut i: usize = 0;
    while i < instrs.len()
        invariant
            s == instrs@,
            s == runefile.instructions@,
            ds == declared(s),
            nodes_view(nodes@) == ds,
            !has_duplicate(ds),
            insert_all(Seq::empty(), base_deps() + proc_block_deps(s, current_dir@)) == Ok::<
                Seq<(Seq<char>, DependencyModel)>,
                Seq<char>,
            >(deps@),
            keys_unique(deps@),
            sink@ == sink_of(s),
            crate::deps::strings_view(configs@) == declared_configs(s),
            configs@.len() == nodes@.len(),
            crate::deps::strings_view(loads@) == declared_loads(s),
            loads@.len() == nodes@.len(),
            i <= s.len(),
            order@.len() == run_steps(s.subrange(0, i as int)).len(),
            forall|k: int|
                0 <= k < order@.len() ==> order@[k] < ds.len() && ds[#[trigger] order@[k] as int].0
                    == run_steps(s.subrange(0, i as int))[k].0,
        decreases s.len() - i,
    {
        let ghost prev = s.subrange(0, i as int);
        let ghost next = s.subrange(0, i + 1);
        assert(next.drop_last() =~= prev);
        assert(next.last() == s[i as int]);
        match &instrs[i] {
            Instruction::Run(r) => {
                let ghost added = r.steps@.map_values(|st: crate::ast::Ident| (st.value@, r.span));
                assert(run_steps(next) == run_steps(prev) + added);
                let ghost base_len = order@.len();
                assert forall|k: int| 0 <= k < order@.len() implies order@[k] < ds.len() && ds[#[trigger] order@[k] as int].0
                    == (run_steps(prev) + added)[k].0 by {
                    assert((run_steps(prev) + added)[k] == run_steps(prev)[k]);
                }
                let mut j: usize = 0;
                while j < r.steps.len()
                    invariant
                        s == instrs@,
                        s == runefile.instructions@,
                        0 <= i < s.len(),
                        prev == s.subrange(0, i as int),
                        next == s.subrange(0, i + 1),
                        ds == declared(s),
                        nodes_view(nodes@) == ds,
                        !has_duplicate(ds),
                        crate::deps::strings_view(configs@) == declared_configs(s),
                        configs@.len() == nodes@.len(),
                        crate::deps::strings_view(loads@) == declared_loads(s),
                        loads@.len() == nodes@.len(),
                        sink@ == sink_of(s),
                        insert_all(Seq::empty(), base_deps() + proc_block_deps(s, current_dir@)) == Ok::<
                            Seq<(Seq<char>, DependencyModel)>,
                            Seq<char>,
                        >(deps@),
                        j <= r.steps@.len(),
                        added == r.steps@.map_values(|st: crate::ast::Ident| (st.value@, r.span)),
                        run_steps(next) == run_steps(prev) + added,
                        base_len == run_steps(prev).len(),
                        order@.len() == base_len + j,
                        forall|k: int|
                            0 <= k < order@.len() ==> order@[k] < ds.len() && ds[#[trigger] order@[k] as int].0
                                == (run_steps(prev) + added)[k].0,
                    decreases r.steps@.len() - j,
                {
                    let step = &r.steps[j];
                    assert(added[j as int] == (step.value@, r.span));
                    match find_node(&nodes, step.value.as_str()) {
                        Some(n) => {
                            assert(nodes_view(nodes@)[n as int].0 == nodes@[n as int].name@);
                            order.push(n);
                        },
                        None => {
                            proof {
                                let steps = run_steps(s);
                                let k = base_len + j;
                                lemma_run_steps_prefix(s, i + 1);
                                assert(run_steps(next) == run_steps(prev) + added);
                                assert(steps[k] == (run_steps(prev) + added)[k]);
                                assert(added[j as int] == (step.value@, r.span));
                                assert forall|k2: int| 0 <= k2 < k implies has_name(ds, #[trigger] steps[k2].0) by {
                                    assert(steps[k2] == (run_steps(prev) + added)[k2]);
                                    assert(ds[order@[k2] as int].0 == steps[k2].0);
                                }
                                assert forall|q: int| 0 <= q < ds.len() implies ds[q].0 != step.value@ by {
                                    assert(nodes_view(nodes@)[q].0 == nodes@[q].name@);
                                }
                            }
                            return Err(LowerError::DanglingReference { name: step.value.clone(), span: r.span });
                        },
                    }
                    j = j + 1;
                }
                assert(run_steps(next) =~= run_steps(prev) + added);
            },
            _ => {
                assert(run_steps(next) =~= run_steps(prev));
            },
        }
        i = i + 1;
    }
    assert(s.subrange(0, s.len() as int) =~= s);
    Ok(Pipeline { nodes, configs, loads, order, dependencies: deps, sink })
}

/// Each proc-block's name with its parameters, in order of declaration.
pub open spec fn block_params(s: Seq<Instruction>) -> Seq<(Seq<char>, Vec<Argument>)>
    decreases s.len(),
{
    if s.len() == 0 {
        Seq::empty()
    } else {
        block_params(s.drop_last()) + match s.last() {
            Instruction::ProcBlock(p) => seq![(p.name.value@, p.params)],
            _ => Seq::empty(),
        }
    }
}

/// The parameter table of a Runefile: each proc-block's parameters under its
/// name, in order of declaration.
pub fn proc_block_params<'a>(runefile: &'a Runefile) -> (r: Vec<(&'a String, &'a Vec<Argument>)>)
    ensures
        r@.map_values(|e: (&String, &Vec<Argument>)| (e.0@, *e.1)) == block_params(
            runefile.instructions@,
        ),
{
    let ghost s = runefile.instructions@;
    let mut r: Vec<(&'a String, &'a Vec<Argument>)> = Vec::new();
    let mut i: usize = 0;
    while i < runefile.instructions.len()
        invariant
            s == runefile.instructions@,
            i <= s.len(),
            r@.map_values(|e: (&String, &Vec<Argument>)| (e.0@, *e.1)) == block_params(
                s.subrange(0, i as int),
            ),
        decreases s.len() - i,
    {
        let ghost before = r@;
        let ghost next = s.subrange(0, i + 1);
        assert(next.drop_last() =~= s.subrange(0, i as int));
        assert(next.last() == s[i as int]);
        match &runefile.instructions[i] {
            Instruction::ProcBlock(p) => {
                r.push((&p.name.value, &p.params));
                assert(r@.map_values(|e: (&String, &Vec<Argument>)| (e.0@, *e.1)) =~= before.map_values(
                    |e: (&String, &Vec<Argument>)| (e.0@, *e.1),
                ).push((p.name.value@, p.params)));
            },
            _ => {
                assert(block_params(next) =~= block_params(s.subrange(0, i as int)));
            },
        }
        i = i + 1;
    }
    assert(s.subrange(0, s.len() as int) =~= s);
    r
}

} // verus!
