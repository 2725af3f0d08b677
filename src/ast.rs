//! The abstract syntax tree of a Runefile.
use vstd::prelude::*;

verus! {

/// A region of the source text, as offsets in characters.
#[derive(Debug, Clone, Copy, PartialEq, Eq, Hash, Structural)]
pub struct Span {
    pub start: u32,
    pub end: u32,
}

impl Span {
    pub fn new(start: u32, end: u32) -> (r: Span)
        ensures
            r.start == start && r.end == end,
    {
        Span { start, end }
    }
}

#[derive(Debug, Clone)]
pub struct Runefile {
    pub instructions: Vec<Instruction>,
    pub span: Span,
}

#[derive(Debug, Clone)]
pub enum Instruction {
    From(FromInstruction),
    Model(ModelInstruction),
    Capability(CapabilityInstruction),
    Run(RunInstruction),
    ProcBlock(ProcBlockInstruction),
    Out(OutInstruction),
}

impl Instruction {
    pub open spec fn spec_span(&self) -> Span {
        match self {
            Instruction::From(f) => f.span,
            Instruction::Model(m) => m.span,
            Instruction::Capability(c) => c.span,
            Instruction::Run(r) => r.span,
            Instruction::ProcBlock(p) => p.span,
            Instruction::Out(o) => o.span,
        }
    }

    pub fn span(&self) -> (r: Span)
        ensures
            r == self.spec_span(),
    {
        match self {
            Instruction::From(f) => f.span,
            Instruction::Model(m) => m.span,
            Instruction::Capability(c) => c.span,
            Instruction::Run(r) => r.span,
            Instruction::ProcBlock(p) => p.span,
            Instruction::Out(o) => o.span,
        }
    }
}

#[derive(Debug, Clone)]
pub struct FromInstruction {
    pub image: Path,
    pub span: Span,
}

#[derive(Debug, Clone)]
pub struct ModelInstruction {
    pub name: Ident,
    pub file: String,
    pub input_type: Type,
    pub output_type: Type,
    pub parameters: Vec<Argument>,
    pub span: Span,
}

/// A name and where it was written. Two identifiers are equal when their
/// names are: the span takes no part.
#[derive(Debug, Clone)]
pub struct Ident {
    pub value: String,
    pub span: Span,
}

impl Ident {
    pub fn new(value: String, span: Span) -> (r: Ident)
        ensures
            r.value@ == value@ && r.span == span,
    {
        Ident { value, span }
    }
}

impl PartialEq for Ident {
    fn eq(&self, other: &Ident) -> (r: bool) {
        self.value == other.value
    }
}

impl vstd::std_specs::cmp::PartialEqSpecImpl for Ident {
    open spec fn obeys_eq_spec() -> bool {
        true
    }

    open spec fn eq_spec(&self, other: &Ident) -> bool {
        self.value@ == other.value@
    }
}

impl Eq for Ident {

}

#[derive(Debug, Clone)]
pub struct CapabilityInstruction {
    pub kind: Ident,
    pub name: Ident,
    pub output_type: Type,
    pub parameters: Vec<Argument>,
    pub span: Span,
}

#[derive(Debug, Clone)]
pub struct Type {
    pub kind: TypeKind,
    pub span: Span,
}

#[derive(Debug, Clone)]
pub enum TypeKind {
    Inferred,
    Named(Ident),
    Buffer { element_type: Ident, dimensions: Vec<usize> },
}

#[derive(Debug, Clone)]
pub struct RunInstruction {
    pub steps: Vec<Ident>,
    pub span: Span,
}

#[derive(Debug, Clone)]
pub struct ProcBlockInstruction {
    pub path: Path,
    pub input_type: Type,
    pub output_type: Type,
    pub name: Ident,
    pub params: Vec<Argument>,
    pub span: Span,
}

#[derive(Debug, Clone)]
pub struct OutInstruction {
    pub out_type: Ident,
    pub span: Span,
}

#[derive(Debug, Clone)]
pub struct Literal {
    pub kind: LiteralKind,
    pub span: Span,
}

impl Literal {
    pub fn new(kind: LiteralKind, span: Span) -> (r: Literal)
        ensures
            r.kind == kind && r.span == span,
    {
        Literal { kind, span }
    }
}

/// A literal value. A floating-point literal is kept as the bits of its
/// IEEE 754 double.
#[derive(Debug, Clone)]
pub enum LiteralKind {
    Integer(i64),
    Float(u64),
    String(String),
}

#[derive(Debug, Clone)]
pub struct Argument {
    pub name: Ident,
    pub value: ArgumentValue,
    pub span: Span,
}

impl Argument {
    pub fn literal(name: Ident, value: Literal, span: Span) -> (r: Argument)
        ensures
            r.name == name && r.value == ArgumentValue::Literal(value) && r.span == span,
    {
        Argument { name, value: ArgumentValue::Literal(value), span }
    }

    pub fn list(name: Ident, values: Vec<String>, span: Span) -> (r: Argument)
        ensures
            r.name == name && r.value == ArgumentValue::List(values) && r.span == span,
    {
        Argument { name, value: ArgumentValue::List(values), span }
    }
}

#[derive(Debug, Clone)]
pub enum ArgumentValue {
    Literal(Literal),
    List(Vec<String>),
}

/// Where to find a dependency, written `base@version#sub_path`.
///
/// - `base` is a URL, the name of a repository on GitHub (`hotg-ai/rune`),
///   a package name, or a directory starting with `.`
/// - `version` optionally names a version (a git tag for a repository)
/// - `sub_path` optionally names the directory in `base` that holds the item
#[derive(Debug, Clone)]
pub struct Path {
    pub base: String,
    pub sub_path: Option<String>,
    pub version: Option<String>,
    pub span: Span,
}

impl Path {
    pub fn new(base: String, sub_path: Option<String>, version: Option<String>, span: Span) -> (r:
        Path)
        ensures
            r.base@ == base@ && r.sub_path == sub_path && r.version == version && r.span == span,
    {
        Path { base, sub_path, version, span }
    }
}

} // verus!
