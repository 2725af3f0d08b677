//! The generated pipeline source: a manifest entry point that registers the
//! stages and the sink, and a call entry point that runs the stages in order.
use vstd::prelude::*;
use crate::ast::{Argument, ArgumentValue, LiteralKind};
use crate::deps::strings_view;
use crate::lower::{Node, Pipeline, StageKind, node_view, nodes_view};
use crate::parser::{ValueModel, args_model, value_model};
use crate::text::decimal;
use crate::text;

verus! {

pub open spec fn kind_word(k: StageKind) -> Seq<char> {
    match k {
        StageKind::Capability => "capability"@,
        StageKind::Model => "model"@,
        StageKind::ProcBlock => "proc_block"@,
    }
}

pub open spec fn header() -> Seq<char> {
    "#![no_std]\nextern crate alloc;\n\n"@
}

/// The line of the manifest entry point that registers one stage.
pub open spec fn register_line(n: (Seq<char>, StageKind, int)) -> Seq<char> {
    "    register_"@ + kind_word(n.1) + "(\""@ + n.0 + "\");\n"@
}

pub open spec fn register_lines(ds: Seq<(Seq<char>, StageKind, int)>) -> Seq<char>
    decreases ds.len(),
{
    if ds.len() == 0 {
        Seq::empty()
    } else {
        register_lines(ds.drop_last()) + register_line(ds.last())
    }
}

pub open spec fn manifest_fn(ds: Seq<(Seq<char>, StageKind, int)>, sink: Seq<char>) -> Seq<char> {
    "#[no_mangle]\npub extern \"C\" fn _manifest() -> u32 {\n"@ + register_lines(ds)
        + "    register_output(\""@ + sink + "\");\n    1\n}\n\n"@
}

/// Texts one after the other.
pub open spec fn concat(xs: Seq<Seq<char>>) -> Seq<char>
    decreases xs.len(),
{
    if xs.len() == 0 {
        Seq::empty()
    } else {
        concat(xs.drop_last()) + xs.last()
    }
}

/// Texts joined with `, ` between them.
pub open spec fn join(xs: Seq<Seq<char>>) -> Seq<char>
    decreases xs.len(),
{
    if xs.len() == 0 {
        Seq::empty()
    } else if xs.len() == 1 {
        xs[0]
    } else {
        join(xs.drop_last()) + ", "@ + xs.last()
    }
}

/// A parameter's value as the generated source writes it.
pub open spec fn value_text(v: ValueModel) -> Seq<char> {
    match v {
        ValueModel::Int(n) => if n < 0 {
            "-"@ + decimal((-n) as nat)
        } else {
            decimal(n as nat)
        },
        ValueModel::Float(bits) => decimal(bits as nat),
        ValueModel::Str(s) => s,
        ValueModel::List(items) => "["@ + join(items) + "]"@,
    }
}

/// One parameter as the generated source writes it: `("name", "value")`.
pub open spec fn arg_text(p: (Seq<char>, ValueModel)) -> Seq<char> {
    "(\""@ + p.0 + "\", \""@ + value_text(p.1) + "\")"@
}

/// The parameters of one stage, as the generated source writes them.
pub open spec fn args_text(ps: Seq<(Seq<char>, ValueModel)>) -> Seq<char>
    decreases ps.len(),
{
    if ps.len() == 0 {
        Seq::empty()
    } else if ps.len() == 1 {
        arg_text(ps[0])
    } else {
        args_text(ps.drop_last()) + ", "@ + arg_text(ps.last())
    }
}

/// The line of the call entry point that runs one stage, configured with
/// its parameters `config`, on the data so far.
pub open spec fn stage_line(name: Seq<char>, config: Seq<char>) -> Seq<char> {
    "    let data = stage_"@ + name + "(data, &["@ + config + "]);\n"@
}

/// The stages' lines, in the order given.
pub open spec fn stage_lines(
    ds: Seq<(Seq<char>, StageKind, int)>,
    cfgs: Seq<Seq<char>>,
    order: Seq<usize>,
) -> Seq<char>
    decreases order.len(),
{
    if order.len() == 0 {
        Seq::empty()
    } else {
        stage_lines(ds, cfgs, order.drop_last()) + stage_line(
            ds[order.last() as int].0,
            cfgs[order.last() as int],
        )
    }
}

pub open spec fn call_fn(
    ds: Seq<(Seq<char>, StageKind, int)>,
    cfgs: Seq<Seq<char>>,
    order: Seq<usize>,
    sink: Seq<char>,
) -> Seq<char> {
    "#[no_mangle]\npub extern \"C\" fn _call(capability_type: i32, input_type: i32, capability_idx: i32) -> i32 {\n    let data = ();\n"@
        + stage_lines(ds, cfgs, order) + "    sink_"@ + sink + "(data);\n    0\n}\n"@
}

/// The whole generated source of a pipeline: header, the models' files,
/// the manifest entry point and the call entry point.
pub open spec fn source_text(
    ds: Seq<(Seq<char>, StageKind, int)>,
    loads: Seq<Seq<char>>,
    cfgs: Seq<Seq<char>>,
    order: Seq<usize>,
    sink: Seq<char>,
) -> Seq<char> {
    header() + concat(loads) + "\n"@ + manifest_fn(ds, sink) + call_fn(ds, cfgs, order, sink)
}

impl Pipeline {
    /// Every stage to run is a declared one.
    pub open spec fn wf(&self) -> bool {
        &&& self.configs@.len() == self.nodes@.len()
        &&& forall|k: int| 0 <= k < self.order@.len() ==> #[trigger] self.order@[k] < self.nodes@.len()
    }
}

fn kind_name(k: StageKind) -> (r: &'static str)
    ensures
        r@ == kind_word(k),
{
    match k {
        StageKind::Capability => "capability",
        StageKind::Model => "model",
        StageKind::ProcBlock => "proc_block",
    }
}

/// The source of the pipeline: its header, its manifest entry point and its
/// call entry point, which threads the data through the stages in the order
/// of the `run` steps and hands it to the sink.
pub fn generate_source(p: &Pipeline) -> (r: String)
    requires
        p.wf(),
    ensures
        r@ == source_text(
            nodes_view(p.nodes@),
            strings_view(p.loads@),
            strings_view(p.configs@),
            p.order@,
            p.sink@,
        ),
{
    let ghost ds = nodes_view(p.nodes@);
    let ghost cfgs = strings_view(p.configs@);
    let mut out = String::new();
    out.append("#![no_std]\nextern crate alloc;\n\n");
    let ghost top = out@;
    let ghost ls = strings_view(p.loads@);
    let mut m: usize = 0;
    while m < p.loads.len()
        invariant
            m <= p.loads@.len(),
            ls == strings_view(p.loads@),
            out@ == top + concat(ls.subrange(0, m as int)),
        decreases p.loads@.len() - m,
    {
        out.append(p.loads[m].as_str());
        proof {
            let t = ls.subrange(0, m + 1);
            assert(t.drop_last() =~= ls.subrange(0, m as int));
            assert(t.last() == p.loads@[m as int]@);
        }
        assert(out@ =~= top + concat(ls.subrange(0, m + 1)));
        m = m + 1;
    }
    assert(ls.subrange(0, p.loads@.len() as int) =~= ls);
    out.append("\n");
    out.append("#[no_mangle]\npub extern \"C\" fn _manifest() -> u32 {\n");
    let ghost before = out@;
    let mut i: usize = 0;
    while i < p.nodes.len()
        invariant
            i <= p.nodes@.len(),
            ds == nodes_view(p.nodes@),
            out@ == before + register_lines(ds.subrange(0, i as int)),
        decreases p.nodes@.len() - i,
    {
        let n: &Node = &p.nodes[i];
        out.append("    register_");
        out.append(kind_name(n.kind));
        out.append("(\"");
        out.append(n.name.as_str());
        out.append("\");\n");
        proof {
            let t = ds.subrange(0, i + 1);
            assert(t.drop_last() =~= ds.subrange(0, i as int));
            assert(t.last() == node_view(*n));
        }
        assert(out@ =~= before + register_lines(ds.subrange(0, i + 1)));
        i = i + 1;
    }
    assert(ds.subrange(0, p.nodes@.len() as int) =~= ds);
    out.append("    register_output(\"");
    out.append(p.sink.as_str());
    out.append("\");\n    1\n}\n\n");
    out.append(
        "#[no_mangle]\npub extern \"C\" fn _call(capability_type: i32, input_type: i32, capability_idx: i32) -> i32 {\n    let data = ();\n",
    );
    let ghost middle = out@;
    let mut k: usize = 0;
    while k < p.order.len()
        invariant
            k <= p.order@.len(),
            p.wf(),
            ds == nodes_view(p.nodes@),
            cfgs == strings_view(p.configs@),
            out@ == middle + stage_lines(ds, cfgs, p.order@.subrange(0, k as int)),
        decreases p.order@.len() - k,
    {
        let idx = p.order[k];
        out.append("    let data = stage_");
        out.append(p.nodes[idx].name.as_str());
        out.append("(data, &[");
        out.append(p.configs[idx].as_str());
        out.append("]);\n");
        proof {
            let t = p.order@.subrange(0, k + 1);
            assert(t.drop_last() =~= p.order@.subrange(0, k as int));
            assert(t.last() == idx);
            assert(ds[idx as int].0 == p.nodes@[idx as int].name@);
            assert(cfgs[idx as int] == p.configs@[idx as int]@);
        }
        assert(out@ =~= middle + stage_lines(ds, cfgs, p.order@.subrange(0, k + 1)));
        k = k + 1;
    }
    assert(p.order@.subrange(0, p.order@.len() as int) =~= p.order@);
    out.append("    sink_");
    out.append(p.sink.as_str());
    out.append("(data);\n    0\n}\n");
    assert(out@ =~= source_text(ds, strings_view(p.loads@), cfgs, p.order@, p.sink@));
    out
}

/// Appends a parameter's value as the generated source writes it.
fn write_value(out: &mut String, v: &ArgumentValue)
    ensures
        final(out)@ == old(out)@ + value_text(value_model(*v)),
{
    match v {
        ArgumentValue::Literal(l) => match &l.kind {
            LiteralKind::Integer(n) => {
                if *n < 0 {
                    out.append("-");
                    let m: u64 = ((-(*n + 1)) as u64) + 1;
                    assert(m as int == -(*n as int));
                    text::write_decimal(out, m);
                } else {
                    text::write_decimal(out, *n as u64);
                }
            },
            LiteralKind::Float(bits) => {
                text::write_decimal(out, *bits);
            },
            LiteralKind::String(s) => {
                out.append(s.as_str());
            },
        },
        ArgumentValue::List(items) => {
            out.append("[");
            let ghost start = out@;
            let ghost xs = strings_view(items@);
            let mut i: usize = 0;
            while i < items.len()
                invariant
                    i <= items@.len(),
                    xs == strings_view(items@),
                    out@ == start + join(xs.subrange(0, i as int)),
                decreases items@.len() - i,
            {
                if i > 0 {
                    out.append(", ");
                }
                out.append(items[i].as_str());
                proof {
                    let t = xs.subrange(0, i + 1);
                    assert(t.drop_last() =~= xs.subrange(0, i as int));
                    assert(t.last() == items@[i as int]@);
                    if i == 0 {
                        assert(join(xs.subrange(0, 0)) =~= Seq::<char>::empty());
                    }
                }
                assert(out@ =~= start + join(xs.subrange(0, i + 1)));
                i = i + 1;
            }
            assert(xs.subrange(0, items@.len() as int) =~= xs);
            out.append("]");
        },
    }
    assert(final(out)@ =~= old(out)@ + value_text(value_model(*v)));
}

/// The parameters of one stage as the generated source writes them.
pub fn render_args(args: &Vec<Argument>) -> (r: String)
    ensures
        r@ == args_text(args_model(args@)),
{
    let ghost ps = args_model(args@);
    let mut out = String::new();
    let mut i: usize = 0;
    while i < args.len()
        invariant
            i <= args@.len(),
            ps == args_model(args@),
            out@ == args_text(ps.subrange(0, i as int)),
        decreases args@.len() - i,
    {
        let ghost before = out@;
        if i > 0 {
            out.append(", ");
        }
        let ghost mid = out@;
        out.append("(\"");
        out.append(args[i].name.value.as_str());
        out.append("\", \"");
        write_value(&mut out, &args[i].value);
        out.append("\")");
        proof {
            let t = ps.subrange(0, i + 1);
            assert(t.drop_last() =~= ps.subrange(0, i as int));
            assert(t.last() == (args@[i as int].name.value@, value_model(args@[i as int].value)));
            assert(out@ =~= mid + arg_text(t.last()));
            if i == 0 {
                assert(args_text(ps.subrange(0, 0)) =~= Seq::<char>::empty());
                assert(before =~= Seq::<char>::empty());
            }
        }
        assert(out@ =~= args_text(ps.subrange(0, i + 1)));
        i = i + 1;
    }
    assert(ps.subrange(0, args@.len() as int) =~= ps);
    out
}

} // verus!
