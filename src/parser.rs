//! Reading a Runefile's text into instructions.
//!
//! A Runefile holds one step per line; blank lines are skipped, and spaces
//! around each line and each word are ignored:
//!
//! ```text
//! from <path>
//! capability <name> <kind>; out <type>; <param> <value>
//! model <name> <file>; in <type>; out <type>; <param> <value>
//! proc-block <name> <path>; in <type>; out <type>; <param> <value>
//! run <name>, <name>, ...
//! out <kind>
//! ```
//!
//! A path is written `base@version#sub_path`. The options after a `;` may
//! come in any order and each may be left out; a type not given is
//! inferred. A type is `_`, a buffer `elementtype[d0, d1, ...]`, or one word
//! naming it; a value is a list `[a, b, ...]`, an integer, or else a string.
//! A step takes exactly the words shown: anything more is an error.
use vstd::prelude::*;
use crate::ast::{
    Argument, ArgumentValue, CapabilityInstruction, FromInstruction, Ident, Instruction, Literal,
    LiteralKind, ModelInstruction, OutInstruction, Path, ProcBlockInstruction, RunInstruction,
    Runefile, Span, Type, TypeKind,
};
use crate::deps::{PathModel, parse_path, path_model, strings_view};
use crate::shape::{Shape, parse_shape};
use crate::text::{find_first, find_last, first_ws, parse_usize, split_trim, trim};
use crate::text;

verus! {

/// A type annotation, as plain values.
pub enum TypeModel {
    Inferred,
    Named(Seq<char>),
    Buffer(Seq<char>, Seq<usize>),
}

/// A parameter's value, as plain values.
pub enum ValueModel {
    Int(int),
    Float(u64),
    Str(Seq<char>),
    List(Seq<Seq<char>>),
}

/// One step, as plain values.
pub enum StepModel {
    From(PathModel),
    Capability { name: Seq<char>, kind: Seq<char>, output: TypeModel, params: Seq<(Seq<char>, ValueModel)> },
    Model {
        name: Seq<char>,
        file: Seq<char>,
        input: TypeModel,
        output: TypeModel,
        params: Seq<(Seq<char>, ValueModel)>,
    },
    ProcBlock {
        name: Seq<char>,
        path: PathModel,
        input: TypeModel,
        output: TypeModel,
        params: Seq<(Seq<char>, ValueModel)>,
    },
    Run(Seq<Seq<char>>),
    Out(Seq<char>),
}

pub open spec fn type_model(t: Type) -> TypeModel {
    match t.kind {
        TypeKind::Inferred => TypeModel::Inferred,
        TypeKind::Named(id) => TypeModel::Named(id.value@),
        TypeKind::Buffer { element_type, dimensions } => TypeModel::Buffer(element_type.value@, dimensions@),
    }
}

pub open spec fn value_model(v: ArgumentValue) -> ValueModel {
    match v {
        ArgumentValue::Literal(l) => match l.kind {
            LiteralKind::Integer(n) => ValueModel::Int(n as int),
            LiteralKind::Float(bits) => ValueModel::Float(bits),
            LiteralKind::String(s) => ValueModel::Str(s@),
        },
        ArgumentValue::List(items) => ValueModel::List(strings_view(items@)),
    }
}

pub open spec fn args_model(a: Seq<Argument>) -> Seq<(Seq<char>, ValueModel)> {
    a.map_values(|x: Argument| (x.name.value@, value_model(x.value)))
}

pub open spec fn instr_model(i: Instruction) -> StepModel {
    match i {
        Instruction::From(f) => StepModel::From(path_model(&f.image)),
        Instruction::Capability(c) => StepModel::Capability {
            name: c.name.value@,
            kind: c.kind.value@,
            output: type_model(c.output_type),
            params: args_model(c.parameters@),
        },
        Instruction::Model(m) => StepModel::Model {
            name: m.name.value@,
            file: m.file@,
            input: type_model(m.input_type),
            output: type_model(m.output_type),
            params: args_model(m.parameters@),
        },
        Instruction::ProcBlock(p) => StepModel::ProcBlock {
            name: p.name.value@,
            path: path_model(&p.path),
            input: type_model(p.input_type),
            output: type_model(p.output_type),
            params: args_model(p.params@),
        },
        Instruction::Run(r) => StepModel::Run(r.steps@.map_values(|st: Ident| st.value@)),
        Instruction::Out(o) => StepModel::Out(o.out_type.value@),
    }
}

/// What each instruction says.
pub open spec fn models(s: Seq<Instruction>) -> Seq<StepModel> {
    s.map_values(|i: Instruction| instr_model(i))
}

/// The first word of `t`.
pub open spec fn head(t: Seq<char>) -> Seq<char> {
    match first_ws(t) {
        Some(k) => t.subrange(0, k),
        None => t,
    }
}

/// What follows the first word of `t`, trimmed.
pub open spec fn tail(t: Seq<char>) -> Seq<char> {
    match first_ws(t) {
        Some(k) => trim(t.subrange(k, t.len() as int)),
        None => Seq::empty(),
    }
}

/// Exactly two words.
pub open spec fn two_words(t: Seq<char>) -> Option<(Seq<char>, Seq<char>)> {
    if head(t).len() > 0 && tail(t).len() > 0 && first_ws(tail(t)) is None {
        Some((head(t), tail(t)))
    } else {
        None
    }
}

/// The step that the words `t` before any option write, with types
/// inferred and no parameters.
pub open spec fn parse_head(t: Seq<char>) -> Option<StepModel> {
    let kw = head(t);
    let rest = tail(t);
    if kw == "from"@ {
        match parse_path(rest) {
            Ok(p) => Some(StepModel::From(p)),
            Err(_) => None,
        }
    } else if kw == "capability"@ {
        match two_words(rest) {
            Some((a, b)) => Some(
                StepModel::Capability {
                    name: a,
                    kind: b,
                    output: TypeModel::Inferred,
                    params: Seq::empty(),
                },
            ),
            None => None,
        }
    } else if kw == "model"@ {
        match two_words(rest) {
            Some((a, b)) => Some(
                StepModel::Model {
                    name: a,
                    file: b,
                    input: TypeModel::Inferred,
                    output: TypeModel::Inferred,
                    params: Seq::empty(),
                },
            ),
            None => None,
        }
    } else if kw == "proc-block"@ {
        match two_words(rest) {
            Some((a, b)) => match parse_path(b) {
                Ok(p) => Some(
                    StepModel::ProcBlock {
                        name: a,
                        path: p,
                        input: TypeModel::Inferred,
                        output: TypeModel::Inferred,
                        params: Seq::empty(),
                    },
                ),
                Err(_) => None,
            },
            None => None,
        }
    } else if kw == "run"@ {
        let names = split_trim(rest, ',');
        if rest.len() > 0 && forall|k: int| 0 <= k < names.len() ==> #[trigger] names[k].len() > 0 {
            Some(StepModel::Run(names))
        } else {
            None
        }
    } else if kw == "out"@ {
        if rest.len() > 0 && first_ws(rest) is None {
            Some(StepModel::Out(rest))
        } else {
            None
        }
    } else {
        None
    }
}

/// A type: `_` to be inferred, `elementtype[d0, d1, ...]` a buffer, or a
/// single word naming it.
pub open spec fn parse_type(t: Seq<char>) -> Option<TypeModel> {
    if t == seq!['_'] {
        Some(TypeModel::Inferred)
    } else if find_first(t, '[') is Some {
        match parse_shape(t) {
            Ok((e, d)) => Some(TypeModel::Buffer(e.spec_name(), d)),
            Err(_) => None,
        }
    } else if t.len() > 0 && first_ws(t) is None {
        Some(TypeModel::Named(t))
    } else {
        None
    }
}

/// A parameter's value: `[a, b, ...]` a list, a number up to `i64::MAX` an
/// integer, anything else a string.
pub open spec fn parse_value(t: Seq<char>) -> ValueModel {
    if t.len() >= 2 && t[0] == '[' && t.last() == ']' {
        let inner = t.subrange(1, t.len() - 1);
        if trim(inner).len() == 0 {
            ValueModel::List(Seq::empty())
        } else {
            ValueModel::List(split_trim(inner, ','))
        }
    } else {
        match parse_usize(t) {
            Ok(n) => if n <= i64::MAX {
                ValueModel::Int(n as int)
            } else {
                ValueModel::Str(t)
            },
            Err(_) => ValueModel::Str(t),
        }
    }
}

/// What the options of a line say so far.
pub struct OptState {
    pub input: TypeModel,
    pub output: TypeModel,
    pub params: Seq<(Seq<char>, ValueModel)>,
    pub has_input: bool,
}

pub open spec fn no_options() -> OptState {
    OptState { input: TypeModel::Inferred, output: TypeModel::Inferred, params: Seq::empty(), has_input: false }
}

/// One option: `in <type>`, `out <type>`, or `<name> <value>`.
pub open spec fn apply_option(st: OptState, o: Seq<char>) -> Option<OptState> {
    let key = head(o);
    let val = tail(o);
    if o.len() == 0 {
        None
    } else if key == "in"@ {
        match parse_type(val) {
            Some(ty) => Some(OptState { input: ty, has_input: true, ..st }),
            None => None,
        }
    } else if key == "out"@ {
        match parse_type(val) {
            Some(ty) => Some(OptState { output: ty, ..st }),
            None => None,
        }
    } else if val.len() == 0 {
        None
    } else {
        Some(OptState { params: st.params.push((key, parse_value(val))), ..st })
    }
}

/// The options one after the other; a later type replaces an earlier one.
pub open spec fn apply_options(os: Seq<Seq<char>>) -> Option<OptState>
    decreases os.len(),
{
    if os.len() == 0 {
        Some(no_options())
    } else {
        match apply_options(os.drop_last()) {
            None => None,
            Some(st) => apply_option(st, os.last()),
        }
    }
}

/// The step with its options: a capability takes an output type, a model
/// and a proc-block input and output types, and all three take parameters;
/// the other steps take no option.
pub open spec fn with_options(h: StepModel, st: OptState, n: nat) -> Option<StepModel> {
    match h {
        StepModel::Capability { name, kind, .. } => if st.has_input {
            None
        } else {
            Some(StepModel::Capability { name, kind, output: st.output, params: st.params })
        },
        StepModel::Model { name, file, .. } => Some(
            StepModel::Model { name, file, input: st.input, output: st.output, params: st.params },
        ),
        StepModel::ProcBlock { name, path, .. } => Some(
            StepModel::ProcBlock { name, path, input: st.input, output: st.output, params: st.params },
        ),
        _ => if n == 0 {
            Some(h)
        } else {
            None
        },
    }
}

/// The step that the trimmed line `t` writes: its words, then options each
/// after a `;`.
pub open spec fn parse_step(t: Seq<char>) -> Option<StepModel> {
    let segs = split_trim(t, ';');
    match parse_head(segs[0]) {
        None => None,
        Some(h) => match apply_options(segs.drop_first()) {
            None => None,
            Some(st) => with_options(h, st, (segs.len() - 1) as nat),
        },
    }
}

/// The steps of the trimmed lines, blank ones skipped; the first line that
/// is not a step is the error.
pub open spec fn parse_lines(lines: Seq<Seq<char>>) -> Result<Seq<StepModel>, Seq<char>>
    decreases lines.len(),
{
    if lines.len() == 0 {
        Ok(Seq::empty())
    } else {
        match parse_lines(lines.drop_last()) {
            Err(e) => Err(e),
            Ok(ms) => if lines.last().len() == 0 {
                Ok(ms)
            } else {
                match parse_step(lines.last()) {
                    Some(m) => Ok(ms.push(m)),
                    None => Err(lines.last()),
                }
            },
        }
    }
}

/// What the text of a Runefile says.
pub open spec fn parse_runefile(s: Seq<char>) -> Result<Seq<StepModel>, Seq<char>> {
    parse_lines(split_trim(s, '\n'))
}

/// A line that is not a step.
#[derive(Debug, Clone, PartialEq, Eq)]
pub struct SyntaxError {
    /// The line, trimmed.
    pub text: String,
    /// Where the line stands, as character offsets.
    pub span: Span,
}

fn inferred(span: Span) -> (r: Type)
    ensures
        type_model(r) == TypeModel::Inferred,
{
    Type { kind: TypeKind::Inferred, span }
}

fn no_args() -> (r: Vec<Argument>)
    ensures
        args_model(r@) == Seq::<(Seq<char>, ValueModel)>::empty(),
{
    let r: Vec<Argument> = Vec::new();
    assert(args_model(r@) =~= Seq::<(Seq<char>, ValueModel)>::empty());
    r
}

fn ident_of(v: &Vec<char>, a: usize, b: usize, span: Span) -> (r: Ident)
    requires
        a <= b <= v@.len(),
    ensures
        r.value@ == v@.subrange(a as int, b as int),
{
    Ident::new(text::string_of(v, a, b), span)
}

/// Bounds of the first word of `v[a..b]` and of the trimmed rest.
fn split_head(v: &Vec<char>, a: usize, b: usize) -> (r: (usize, usize, usize))
    requires
        a <= b <= v@.len(),
    ensures
        a <= r.0 <= r.1 <= r.2 <= b,
        v@.subrange(a as int, r.0 as int) == head(v@.subrange(a as int, b as int)),
        v@.subrange(r.1 as int, r.2 as int) == tail(v@.subrange(a as int, b as int)),
        (first_ws(v@.subrange(a as int, b as int)) is None) == (r.0 == b),
{
    let ghost t = v@.subrange(a as int, b as int);
    proof {
        text::lemma_first_ws(t);
    }
    match text::find_whitespace(v, a, b) {
        Some(k) => {
            let (c, d) = text::trim_bounds(v, k, b);
            assert(t.subrange(0, k - a) =~= v@.subrange(a as int, k as int));
            assert(t.subrange(k - a, t.len() as int) =~= v@.subrange(k as int, b as int));
            (k, c, d)
        },
        None => {
            assert(v@.subrange(b as int, b as int) =~= Seq::<char>::empty());
            (b, b, b)
        },
    }
}

/// Reads the words of a line before its options.
fn parse_head_in(v: &Vec<char>, a: usize, b: usize, span: Span) -> (r: Option<Instruction>)
    requires
        a <= b <= v@.len(),
    ensures
        match r {
            Some(i) => parse_head(v@.subrange(a as int, b as int)) == Some(instr_model(i)),
            None => parse_head(v@.subrange(a as int, b as int)) is None,
        },
{
    let ghost t = v@.subrange(a as int, b as int);
    let (k, c, d) = split_head(v, a, b);
    let ghost rest = v@.subrange(c as int, d as int);
    if text::equals_at(v, a, k, "from") {
        let s = text::string_of(v, c, d);
        return match Path::parse(s.as_str(), span) {
            Ok(p) => Some(Instruction::From(FromInstruction { image: p, span })),
            Err(_) => None,
        };
    }
    let is_capability = text::equals_at(v, a, k, "capability");
    let is_model = text::equals_at(v, a, k, "model");
    let is_proc_block = text::equals_at(v, a, k, "proc-block");
    if is_capability || is_model || is_proc_block {
        let (k2, c2, d2) = split_head(v, c, d);
        if k2 == c || c2 == d2 {
            return None;
        }
        let (k3, _, _) = split_head(v, c2, d2);
        if k3 != d2 {
            return None;
        }
        assert(two_words(rest) == Some((v@.subrange(c as int, k2 as int), v@.subrange(c2 as int, d2 as int))));
        let name = ident_of(v, c, k2, span);
        if is_capability {
            let kind = ident_of(v, c2, d2, span);
            return Some(
                Instruction::Capability(
                    CapabilityInstruction {
                        kind,
                        name,
                        output_type: inferred(span),
                        parameters: no_args(),
                        span,
                    },
                ),
            );
        } else if is_model {
            let file = text::string_of(v, c2, d2);
            return Some(
                Instruction::Model(
                    ModelInstruction {
                        name,
                        file,
                        input_type: inferred(span),
                        output_type: inferred(span),
                        parameters: no_args(),
                        span,
                    },
                ),
            );
        } else {
            let s = text::string_of(v, c2, d2);
            return match Path::parse(s.as_str(), span) {
                Ok(path) => Some(
                    Instruction::ProcBlock(
                        ProcBlockInstruction {
                            path,
                            input_type: inferred(span),
                            output_type: inferred(span),
                            name,
                            params: no_args(),
                            span,
                        },
                    ),
                ),
                Err(_) => None,
            };
        }
    }
    if text::equals_at(v, a, k, "run") {
        if c == d {
            return None;
        }
        let bounds = text::split_bounds(v, c, d, ',');
        let ghost names = split_trim(rest, ',');
        assert(parse_head(t) == (if rest.len() > 0 && forall|k: int|
            0 <= k < names.len() ==> #[trigger] names[k].len() > 0 {
            Some(StepModel::Run(names))
        } else {
            None
        }));
        let mut steps: Vec<Ident> = Vec::new();
        let mut j: usize = 0;
        while j < bounds.len()
            invariant
                j <= bounds@.len(),
                bounds@.len() == names.len(),
                names == split_trim(v@.subrange(c as int, d as int), ','),
                forall|q: int|
                    0 <= q < bounds@.len() ==> c <= (#[trigger] bounds@[q]).0 <= bounds@[q].1 <= d
                        && v@.subrange(bounds@[q].0 as int, bounds@[q].1 as int) == names[q],
                steps@.len() == j,
                forall|q: int| 0 <= q < j ==> (#[trigger] steps@[q]).value@ == names[q],
                forall|q: int| 0 <= q < j ==> (#[trigger] names[q]).len() > 0,
                d <= v@.len(),
                rest.len() > 0,
                t == v@.subrange(a as int, b as int),
                parse_head(t) == (if rest.len() > 0 && forall|k: int|
                    0 <= k < names.len() ==> #[trigger] names[k].len() > 0 {
                    Some(StepModel::Run(names))
                } else {
                    None
                }),
            decreases bounds@.len() - j,
        {
            let (p, q) = bounds[j];
            if p == q {
                assert(names[j as int].len() == 0);
                return None;
            }
            steps.push(ident_of(v, p, q, span));
            j = j + 1;
        }
        let r = RunInstruction { steps, span };
        assert(r.steps@.map_values(|st: Ident| st.value@) =~= names);
        return Some(Instruction::Run(r));
    }
    if text::equals_at(v, a, k, "out") {
        if c == d {
            return None;
        }
        let (k2, _, _) = split_head(v, c, d);
        if k2 != d {
            return None;
        }
        return Some(Instruction::Out(OutInstruction { out_type: ident_of(v, c, d, span), span }));
    }
    None
}

/// Reads a type annotation in `v[a..b]`.
fn parse_type_in(v: &Vec<char>, a: usize, b: usize, span: Span) -> (r: Option<Type>)
    requires
        a <= b <= v@.len(),
    ensures
        match r {
            Some(t) => parse_type(v@.subrange(a as int, b as int)) == Some(type_model(t)),
            None => parse_type(v@.subrange(a as int, b as int)) is None,
        },
{
    let ghost t = v@.subrange(a as int, b as int);
    if b - a == 1 && v[a] == '_' {
        assert(t =~= seq!['_']);
        return Some(Type { kind: TypeKind::Inferred, span });
    }
    assert(t != seq!['_']) by {
        if t == seq!['_'] {
            assert(t[0] == v@[a as int]);
        }
    }
    assert(v@.subrange(a as int, b as int) =~= t);
    if text::find_char(v, a, b, '[').is_some() {
        let s = text::string_of(v, a, b);
        return match Shape::parse(s.as_str()) {
            Ok(shape) => {
                let name = String::from_str(shape.element_type().name());
                let e = shape.element_type();
                let dimensions = shape.into_dimensions();
                Some(Type { kind: TypeKind::Buffer { element_type: Ident::new(name, span), dimensions }, span })
            },
            Err(_) => None,
        };
    }
    if a < b && text::find_whitespace(v, a, b).is_none() {
        return Some(Type { kind: TypeKind::Named(Ident::new(text::string_of(v, a, b), span)), span });
    }
    None
}

/// Reads a parameter's value in `v[a..b]`.
fn parse_value_in(v: &Vec<char>, a: usize, b: usize, span: Span) -> (r: ArgumentValue)
    requires
        a <= b <= v@.len(),
    ensures
        value_model(r) == parse_value(v@.subrange(a as int, b as int)),
{
    let ghost t = v@.subrange(a as int, b as int);
    if b - a >= 2 && v[a] == '[' && v[b - 1] == ']' {
        assert(t.subrange(1, t.len() - 1) =~= v@.subrange(a + 1, b - 1));
        let (ia, ib) = text::trim_bounds(v, a + 1, b - 1);
        let mut items: Vec<String> = Vec::new();
        if ia == ib {
            assert(strings_view(items@) =~= Seq::<Seq<char>>::empty());
            return ArgumentValue::List(items);
        }
        let bounds = text::split_bounds(v, a + 1, b - 1, ',');
        let ghost parts = split_trim(v@.subrange(a + 1, b - 1), ',');
        let mut j: usize = 0;
        while j < bounds.len()
            invariant
                j <= bounds@.len(),
                bounds@.len() == parts.len(),
                a + 1 <= b - 1 <= v@.len(),
                forall|q: int|
                    0 <= q < bounds@.len() ==> a + 1 <= (#[trigger] bounds@[q]).0 <= bounds@[q].1 <= b - 1
                        && v@.subrange(bounds@[q].0 as int, bounds@[q].1 as int) == parts[q],
                items@.len() == j,
                forall|q: int| 0 <= q < j ==> (#[trigger] items@[q])@ == parts[q],
            decreases bounds@.len() - j,
        {
            let (p, q) = bounds[j];
            items.push(text::string_of(v, p, q));
            j = j + 1;
        }
        assert(strings_view(items@) =~= parts);
        return ArgumentValue::List(items);
    }
    match text::parse_usize_in(v, a, b) {
        Ok(n) => if (n as u64) <= (i64::MAX as u64) {
            return ArgumentValue::Literal(Literal { kind: LiteralKind::Integer(n as i64), span });
        },
        Err(_) => {},
    }
    ArgumentValue::Literal(Literal { kind: LiteralKind::String(text::string_of(v, a, b)), span })
}

/// A list of pieces split on some character has at least one piece.
proof fn lemma_split_nonempty(s: Seq<char>, c: char)
    ensures
        split_trim(s, c).len() >= 1,
    decreases s.len(),
{
    text::lemma_find_last(s, c);
    match find_last(s, c) {
        Some(i) => {
            lemma_split_nonempty(s.subrange(0, i), c);
        },
        None => {},
    }
}

/// An option that fails among the first ones fails them all.
proof fn lemma_options_none(os: Seq<Seq<char>>, k: int)
    requires
        0 <= k <= os.len(),
        apply_options(os.subrange(0, k)) is None,
    ensures
        apply_options(os) is None,
    decreases os.len() - k,
{
    if k < os.len() {
        assert(os.subrange(0, k + 1).drop_last() =~= os.subrange(0, k));
        lemma_options_none(os, k + 1);
    } else {
        assert(os.subrange(0, k) =~= os);
    }
}

pub open spec fn opt_state(input: Type, output: Type, params: Seq<Argument>, has_input: bool) -> OptState {
    OptState { input: type_model(input), output: type_model(output), params: args_model(params), has_input }
}

/// Reads one trimmed line: its words, then its options.
fn parse_step_in(v: &Vec<char>, a: usize, b: usize) -> (r: Option<Instruction>)
    requires
        a <= b <= v@.len(),
        b <= u32::MAX,
    ensures
        match r {
            Some(i) => parse_step(v@.subrange(a as int, b as int)) == Some(instr_model(i)),
            None => parse_step(v@.subrange(a as int, b as int)) is None,
        },
{
    let ghost t = v@.subrange(a as int, b as int);
    let span = Span::new(a as u32, b as u32);
    let bounds = text::split_bounds(v, a, b, ';');
    let ghost segs = split_trim(t, ';');
    proof {
        lemma_split_nonempty(t, ';');
    }
    let (ha, hb) = bounds[0];
    let head = match parse_head_in(v, ha, hb, span) {
        Some(h) => h,
        None => {
            return None;
        },
    };
    let ghost os = segs.drop_first();
    let mut input = Type { kind: TypeKind::Inferred, span };
    let mut output = Type { kind: TypeKind::Inferred, span };
    let mut params: Vec<Argument> = Vec::new();
    let mut has_input = false;
    assert(os.subrange(0, 0) =~= Seq::<Seq<char>>::empty());
    assert(args_model(params@) =~= Seq::<(Seq<char>, ValueModel)>::empty());
    let mut j: usize = 1;
    while j < bounds.len()
        invariant
            1 <= j <= bounds@.len(),
            bounds@.len() == segs.len(),
            segs == split_trim(v@.subrange(a as int, b as int), ';'),
            os == segs.drop_first(),
            b <= v@.len(),
            forall|q: int|
                0 <= q < bounds@.len() ==> a <= (#[trigger] bounds@[q]).0 <= bounds@[q].1 <= b
                    && v@.subrange(bounds@[q].0 as int, bounds@[q].1 as int) == segs[q],
            apply_options(os.subrange(0, j - 1)) == Some(opt_state(input, output, params@, has_input)),
        decreases bounds@.len() - j,
    {
        let (p, q) = bounds[j];
        let ghost o = segs[j as int];
        assert(os.subrange(0, j as int).drop_last() =~= os.subrange(0, j - 1));
        assert(os.subrange(0, j as int).last() == o);
        if p == q {
            proof {
                lemma_options_none(os, j as int);
            }
            return None;
        }
        let (k, c, d) = split_head(v, p, q);
        if text::equals_at(v, p, k, "in") {
            match parse_type_in(v, c, d, span) {
                Some(ty) => {
                    input = ty;
                    has_input = true;
                },
                None => {
                    proof {
                        lemma_options_none(os, j as int);
                    }
                    return None;
                },
            }
        } else if text::equals_at(v, p, k, "out") {
            match parse_type_in(v, c, d, span) {
                Some(ty) => {
                    output = ty;
                },
                None => {
                    proof {
                        lemma_options_none(os, j as int);
                    }
                    return None;
                },
            }
        } else {
            if c == d {
                proof {
                    lemma_options_none(os, j as int);
                }
                return None;
            }
            let ghost before = params@;
            let value = parse_value_in(v, c, d, span);
            let name = ident_of(v, p, k, span);
            params.push(Argument { name, value, span });
            assert(args_model(params@) =~= args_model(before).push(
                (v@.subrange(p as int, k as int), parse_value(v@.subrange(c as int, d as int))),
            ));
        }
        j = j + 1;
    }
    assert(os.subrange(0, os.len() as int) =~= os);
    let n = bounds.len() - 1;
    match head {
        Instruction::Capability(cap) => {
            if has_input {
                return None;
            }
            Some(Instruction::Capability(CapabilityInstruction { output_type: output, parameters: params, ..cap }))
        },
        Instruction::Model(m) => Some(
            Instruction::Model(ModelInstruction { input_type: input, output_type: output, parameters: params, ..m }),
        ),
        Instruction::ProcBlock(pb) => Some(
            Instruction::ProcBlock(ProcBlockInstruction { input_type: input, output_type: output, params, ..pb }),
        ),
        other => if n == 0 {
            Some(other)
        } else {
            None
        },
    }
}

/// Reads the instructions of a Runefile, in the order of its lines.
pub fn parse(contents: &str) -> (r: Result<Runefile, SyntaxError>)
    requires
        contents@.len() <= u32::MAX,
    ensures
        match r {
            Ok(rf) => parse_runefile(contents@) == Ok::<Seq<StepModel>, Seq<char>>(
                models(rf.instructions@),
            ),
            Err(e) => parse_runefile(contents@) == Err::<Seq<StepModel>, Seq<char>>(e.text@)
                && e.span.start <= e.span.end <= contents@.len() && contents@.subrange(
                e.span.start as int,
                e.span.end as int,
            ) == e.text@,
        },
{
    let v = text::chars_of(contents);
    let n = v.len();
    assert(v@.subrange(0, n as int) =~= v@);
    let lines = text::split_bounds(&v, 0, n, '\n');
    let ghost ls = split_trim(v@, '\n');
    let mut instructions: Vec<Instruction> = Vec::new();
    assert(ls.subrange(0, 0) =~= Seq::<Seq<char>>::empty());
    assert(models(instructions@) =~= Seq::<StepModel>::empty());
    let mut i: usize = 0;
    while i < lines.len()
        invariant
            n == v@.len() <= u32::MAX,
            ls == split_trim(v@, '\n'),
            v@ == contents@,
            i <= lines@.len(),
            lines@.len() == ls.len(),
            forall|q: int|
                0 <= q < lines@.len() ==> (#[trigger] lines@[q]).0 <= lines@[q].1 <= n
                    && v@.subrange(lines@[q].0 as int, lines@[q].1 as int) == ls[q],
            parse_lines(ls.subrange(0, i as int)) == Ok::<Seq<StepModel>, Seq<char>>(
                models(instructions@),
            ),
        decreases lines@.len() - i,
    {
        let (a, b) = lines[i];
        let ghost prefix = ls.subrange(0, i + 1);
        assert(prefix.drop_last() =~= ls.subrange(0, i as int));
        assert(prefix.last() == ls[i as int]);
        if a < b {
            match parse_step_in(&v, a, b) {
                Some(ins) => {
                    let ghost before = instructions@;
                    instructions.push(ins);
                    assert(models(instructions@) =~= models(before).push(instr_model(ins)));
                },
                None => {
                    proof {
                        lemma_parse_lines_err(ls, i as int + 1);
                    }
                    let span = Span::new(a as u32, b as u32);
                    return Err(SyntaxError { text: text::string_of(&v, a, b), span });
                },
            }
        } else {
            assert(v@.subrange(a as int, b as int).len() == 0);
        }
        i = i + 1;
    }
    assert(ls.subrange(0, ls.len() as int) =~= ls);
    Ok(Runefile { instructions, span: Span::new(0, n as u32) })
}

/// An error among the first lines is the error of them all.
proof fn lemma_parse_lines_err(ls: Seq<Seq<char>>, k: int)
    requires
        0 <= k <= ls.len(),
        parse_lines(ls.subrange(0, k)) is Err,
    ensures
        parse_lines(ls) == parse_lines(ls.subrange(0, k)),
    decreases ls.len() - k,
{
    if k < ls.len() {
        assert(ls.subrange(0, k + 1).drop_last() =~= ls.subrange(0, k));
        lemma_parse_lines_err(ls, k + 1);
    } else {
        assert(ls.subrange(0, k) =~= ls);
    }
}

} // verus!
