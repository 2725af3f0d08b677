//! Tensor shapes: an element type and a fixed list of dimensions, with the
//! text form `f32[1, 2, 3]`.
use vstd::prelude::*;
use crate::text::{
    lemma_find_first, lemma_find_last,
    IntErrorKind, decimal, find_first, find_last, is_digit, is_whitespace, lacks,
    parse_usize, trim, trim_end, trim_start,
};
use crate::text;

verus! {

/// The type of a tensor's elements.
#[derive(Debug, Clone, Copy, PartialEq, Eq, Hash, Structural)]
pub enum ElementType {
    U8,
    I8,
    U16,
    I16,
    U32,
    I32,
    F32,
    U64,
    I64,
    F64,
    Utf8,
}

impl ElementType {
    pub open spec fn spec_name(self) -> Seq<char> {
        match self {
            ElementType::U8 => seq!['u', '8'],
            ElementType::I8 => seq!['i', '8'],
            ElementType::U16 => seq!['u', '1', '6'],
            ElementType::I16 => seq!['i', '1', '6'],
            ElementType::U32 => seq!['u', '3', '2'],
            ElementType::I32 => seq!['i', '3', '2'],
            ElementType::F32 => seq!['f', '3', '2'],
            ElementType::U64 => seq!['u', '6', '4'],
            ElementType::I64 => seq!['i', '6', '4'],
            ElementType::F64 => seq!['f', '6', '4'],
            ElementType::Utf8 => seq!['u', 't', 'f', '8'],
        }
    }

    /// Bytes taken by one element, where that is fixed.
    pub open spec fn spec_size_of(self) -> Option<nat> {
        match self {
            ElementType::U8 | ElementType::I8 => Some(1),
            ElementType::U16 | ElementType::I16 => Some(2),
            ElementType::U32 | ElementType::I32 | ElementType::F32 => Some(4),
            ElementType::U64 | ElementType::I64 | ElementType::F64 => Some(8),
            ElementType::Utf8 => None,
        }
    }

    /// The element type whose name is `s`.
    pub open spec fn spec_from_name(s: Seq<char>) -> Option<ElementType> {
        if s == ElementType::U8.spec_name() {
            Some(ElementType::U8)
        } else if s == ElementType::I8.spec_name() {
            Some(ElementType::I8)
        } else if s == ElementType::U16.spec_name() {
            Some(ElementType::U16)
        } else if s == ElementType::I16.spec_name() {
            Some(ElementType::I16)
        } else if s == ElementType::U32.spec_name() {
            Some(ElementType::U32)
        } else if s == ElementType::I32.spec_name() {
            Some(ElementType::I32)
        } else if s == ElementType::F32.spec_name() {
            Some(ElementType::F32)
        } else if s == ElementType::U64.spec_name() {
            Some(ElementType::U64)
        } else if s == ElementType::I64.spec_name() {
            Some(ElementType::I64)
        } else if s == ElementType::F64.spec_name() {
            Some(ElementType::F64)
        } else if s == ElementType::Utf8.spec_name() {
            Some(ElementType::Utf8)
        } else {
            None
        }
    }

    pub fn name(&self) -> (r: &'static str)
        ensures
            r@ == self.spec_name(),
    {
        match self {
            ElementType::U8 => {
                proof {
                    reveal_strlit("u8");
                }
                "u8"
            },
            ElementType::I8 => {
                proof {
                    reveal_strlit("i8");
                }
                "i8"
            },
            ElementType::U16 => {
                proof {
                    reveal_strlit("u16");
                }
                "u16"
            },
            ElementType::I16 => {
                proof {
                    reveal_strlit("i16");
                }
                "i16"
            },
            ElementType::U32 => {
                proof {
                    reveal_strlit("u32");
                }
                "u32"
            },
            ElementType::I32 => {
                proof {
                    reveal_strlit("i32");
                }
                "i32"
            },
            ElementType::F32 => {
                proof {
                    reveal_strlit("f32");
                }
                "f32"
            },
            ElementType::U64 => {
                proof {
                    reveal_strlit("u64");
                }
                "u64"
            },
            ElementType::I64 => {
                proof {
                    reveal_strlit("i64");
                }
                "i64"
            },
            ElementType::F64 => {
                proof {
                    reveal_strlit("f64");
                }
                "f64"
            },
            ElementType::Utf8 => {
                proof {
                    reveal_strlit("utf8");
                }
                "utf8"
            },
        }
    }

    pub fn size_of(&self) -> (r: Option<usize>)
        ensures
            r is Some <==> self.spec_size_of() is Some,
            r is Some ==> r->0 == self.spec_size_of()->0,
    {
        match self {
            ElementType::U8 | ElementType::I8 => Some(1),
            ElementType::U16 | ElementType::I16 => Some(2),
            ElementType::U32 | ElementType::I32 | ElementType::F32 => Some(4),
            ElementType::U64 | ElementType::I64 | ElementType::F64 => Some(8),
            ElementType::Utf8 => None,
        }
    }

    /// The element type named by `v[lo..hi]`.
    pub fn from_name_in(v: &Vec<char>, lo: usize, hi: usize) -> (r: Option<ElementType>)
        requires
            lo <= hi <= v@.len(),
        ensures
            r == ElementType::spec_from_name(v@.subrange(lo as int, hi as int)),
    {
        if text::equals_at(v, lo, hi, ElementType::U8.name()) {
            Some(ElementType::U8)
        } else if text::equals_at(v, lo, hi, ElementType::I8.name()) {
            Some(ElementType::I8)
        } else if text::equals_at(v, lo, hi, ElementType::U16.name()) {
            Some(ElementType::U16)
        } else if text::equals_at(v, lo, hi, ElementType::I16.name()) {
            Some(ElementType::I16)
        } else if text::equals_at(v, lo, hi, ElementType::U32.name()) {
            Some(ElementType::U32)
        } else if text::equals_at(v, lo, hi, ElementType::I32.name()) {
            Some(ElementType::I32)
        } else if text::equals_at(v, lo, hi, ElementType::F32.name()) {
            Some(ElementType::F32)
        } else if text::equals_at(v, lo, hi, ElementType::U64.name()) {
            Some(ElementType::U64)
        } else if text::equals_at(v, lo, hi, ElementType::I64.name()) {
            Some(ElementType::I64)
        } else if text::equals_at(v, lo, hi, ElementType::F64.name()) {
            Some(ElementType::F64)
        } else if text::equals_at(v, lo, hi, ElementType::Utf8.name()) {
            Some(ElementType::Utf8)
        } else {
            None
        }
    }
}

/// Product of all dimensions.
pub open spec fn product(d: Seq<usize>) -> nat
    decreases d.len(),
{
    if d.len() == 0 {
        1
    } else {
        (product(d.drop_last()) * d.last()) as nat
    }
}

/// `d0, d1, ...`: the dimensions as the text form writes them.
pub open spec fn format_dims(d: Seq<usize>) -> Seq<char>
    decreases d.len(),
{
    if d.len() == 0 {
        Seq::empty()
    } else if d.len() == 1 {
        decimal(d[0] as nat)
    } else {
        format_dims(d.drop_last()) + seq![',', ' '] + decimal(d.last() as nat)
    }
}

/// The text form of a shape: `elementtype[d0, d1, ...]`.
pub open spec fn shape_text(e: ElementType, d: Seq<usize>) -> Seq<char> {
    e.spec_name() + seq!['['] + format_dims(d) + seq![']']
}

/// A shape's text, as the parser reports it when it is not understood.
pub enum FormatErrorModel {
    Malformed,
    UnknownElementType(Seq<char>),
    BadDimension(Seq<char>, IntErrorKind),
}

/// One dimension: the trimmed text read as a `usize`.
pub open spec fn parse_dim(tok: Seq<char>) -> Result<usize, FormatErrorModel> {
    match parse_usize(trim(tok)) {
        Ok(x) => Ok(x),
        Err(k) => Err(FormatErrorModel::BadDimension(trim(tok), k)),
    }
}

/// The comma separated dimensions of `s`, the leftmost bad one reported.
pub open spec fn parse_dims(s: Seq<char>) -> Result<Seq<usize>, FormatErrorModel>
    decreases s.len(),
{
    match find_last(s, ',') {
        None => match parse_dim(s) {
            Ok(x) => Ok(seq![x]),
            Err(e) => Err(e),
        },
        Some(i) => if 0 <= i < s.len() {
            match parse_dims(s.subrange(0, i)) {
                Err(e) => Err(e),
                Ok(d) => match parse_dim(s.subrange(i + 1, s.len() as int)) {
                    Ok(x) => Ok(d.push(x)),
                    Err(e) => Err(e),
                },
            }
        } else {
            Err(FormatErrorModel::Malformed)
        },
    }
}

/// What the text `s` means as a shape.
pub open spec fn parse_shape(s: Seq<char>) -> Result<(ElementType, Seq<usize>), FormatErrorModel> {
    match find_first(s, '[') {
        None => Err(FormatErrorModel::Malformed),
        Some(ob) => match ElementType::spec_from_name(trim(s.subrange(0, ob))) {
            None => Err(FormatErrorModel::UnknownElementType(trim(s.subrange(0, ob)))),
            Some(e) => match find_last(s, ']') {
                None => Err(FormatErrorModel::Malformed),
                Some(cb) => if cb < ob + 1 {
                    Err(FormatErrorModel::Malformed)
                } else if trim(s.subrange(ob + 1, cb)).len() == 0 {
                    Ok((e, Seq::empty()))
                } else {
                    match parse_dims(s.subrange(ob + 1, cb)) {
                        Ok(d) => Ok((e, d)),
                        Err(err) => Err(err),
                    }
                },
            },
        },
    }
}

/// A tensor's shape.
#[derive(Debug, Clone, PartialEq, Eq, Hash)]
pub struct Shape {
    element_type: ElementType,
    dimensions: Vec<usize>,
}

impl View for Shape {
    type V = (ElementType, Seq<usize>);

    closed spec fn view(&self) -> (ElementType, Seq<usize>) {
        (self.element_type, self.dimensions@)
    }
}

/// Why a shape's text was not understood.
#[derive(Debug, Clone, PartialEq, Eq)]
pub enum FormatError {
    Malformed,
    UnknownElementType { found: String },
    BadDimension { found: String, reason: IntErrorKind },
}

impl View for FormatError {
    type V = FormatErrorModel;

    open spec fn view(&self) -> FormatErrorModel {
        match self {
            FormatError::Malformed => FormatErrorModel::Malformed,
            FormatError::UnknownElementType { found } => FormatErrorModel::UnknownElementType(
                found@,
            ),
            FormatError::BadDimension { found, reason } => FormatErrorModel::BadDimension(
                found@,
                *reason,
            ),
        }
    }
}

impl FormatError {
    /// A message for people.
    pub fn message(&self) -> (r: String)
        ensures
            r@ == (match self {
                FormatError::Malformed => "Malformed shape"@,
                FormatError::UnknownElementType { found } => "Couldn't recognise the \""@ + found@
                    + "\" element type"@,
                FormatError::BadDimension { found, .. } => "\""@ + found@ + "\" isn't a valid dimension"@,
            }),
    {
        let mut r = String::new();
        match self {
            FormatError::Malformed => {
                r.append("Malformed shape");
            },
            FormatError::UnknownElementType { found } => {
                r.append("Couldn't recognise the \"");
                r.append(found.as_str());
                r.append("\" element type");
            },
            FormatError::BadDimension { found, .. } => {
                r.append("\"");
                r.append(found.as_str());
                r.append("\" isn't a valid dimension");
            },
        }
        r
    }
}

impl Shape {
    pub open spec fn spec_size(&self) -> Option<nat> {
        match self@.0.spec_size_of() {
            None => None,
            Some(w) => Some(product(self@.1) * w),
        }
    }

    pub fn new(element_type: ElementType, dimensions: Vec<usize>) -> (r: Shape)
        ensures
            r@ == (element_type, dimensions@),
    {
        Shape { element_type, dimensions }
    }

    pub fn element_type(&self) -> (r: ElementType)
        ensures
            r == self@.0,
    {
        self.element_type
    }

    pub fn dimensions(&self) -> (r: &[usize])
        ensures
            r@ == self@.1,
    {
        self.dimensions.as_slice()
    }

    /// The number of bytes this tensor takes up, if it has a fixed size.
    pub fn size(&self) -> (r: Option<usize>)
        requires
            self.spec_size() is Some ==> self.spec_size()->0 <= usize::MAX,
        ensures
            r is Some <==> self.spec_size() is Some,
            r is Some ==> r->0 == self.spec_size()->0,
    {
        let w = match self.element_type.size_of() {
            None => {
                return None;
            },
            Some(w) => w,
        };
        let d = &self.dimensions;
        let n = d.len();
        let mut k: usize = 0;
        while k < n
            invariant
                n == d@.len(),
                k <= n,
                d@ == self@.1,
                self@.0.spec_size_of() == Some(w as nat),
                forall|j: int| 0 <= j < k ==> d@[j] != 0,
            decreases n - k,
        {
            if d[k] == 0 {
                proof {
                    lemma_product_zero(d@, k as int);
                }
                return Some(0);
            }
            k = k + 1;
        }
        let mut acc: usize = 1;
        let mut i: usize = 0;
        while i < n
            invariant
                n == d@.len(),
                i <= n,
                w >= 1,
                d@ == self@.1,
                self@.0.spec_size_of() == Some(w as nat),
                forall|j: int| 0 <= j < n ==> d@[j] != 0,
                acc == product(d@.subrange(0, i as int)),
                product(d@) * w <= usize::MAX,
            decreases n - i,
        {
            proof {
                lemma_product_prefix(d@, i + 1);
                assert(d@.subrange(0, i + 1).drop_last() =~= d@.subrange(0, i as int));
                assert(product(d@.subrange(0, i + 1)) <= product(d@) * w) by (nonlinear_arith)
                    requires
                        product(d@.subrange(0, i + 1)) <= product(d@),
                        w >= 1,
                ;
            }
            acc = acc * d[i];
            i = i + 1;
        }
        assert(d@.subrange(0, n as int) =~= d@);
        assert(acc * w <= usize::MAX);
        Some(acc * w)
    }

    /// The dimensions, taken out of the shape.
    pub fn into_dimensions(self) -> (r: Vec<usize>)
        ensures
            r@ == self@.1,
    {
        self.dimensions
    }

    pub fn to_owned(&self) -> (r: Shape)
        ensures
            r@ == self@,
    {
        Shape::new(self.element_type, self.dimensions.clone())
    }

    /// The text form, `elementtype[d0, d1, ...]`.
    pub fn to_string(&self) -> (r: String)
        ensures
            r@ == shape_text(self@.0, self@.1),
    {
        let mut out = String::new();
        out.append(self.element_type.name());
        proof {
            reveal_strlit("[");
            reveal_strlit(", ");
            reveal_strlit("]");
        }
        out.append("[");
        let ghost head = out@;
        let d = &self.dimensions;
        let mut i: usize = 0;
        while i < d.len()
            invariant
                i <= d@.len(),
                out@ == head + format_dims(d@.subrange(0, i as int)),
            decreases d@.len() - i,
        {
            let ghost before = d@.subrange(0, i as int);
            proof {
                reveal_strlit(", ");
            }
            if i > 0 {
                out.append(", ");
            }
            text::write_decimal(&mut out, d[i] as u64);
            proof {
                let after = d@.subrange(0, i + 1);
                assert(after.drop_last() =~= before);
                if i == 0 {
                    assert(format_dims(before) =~= Seq::<char>::empty());
                }
            }
            assert(out@ =~= head + format_dims(d@.subrange(0, i + 1)));
            i = i + 1;
        }
        assert(d@.subrange(0, d@.len() as int) =~= d@);
        out.append("]");
        assert(out@ =~= shape_text(self@.0, self@.1));
        out
    }

    /// Reads a shape from its text form.
    pub fn parse(s: &str) -> (r: Result<Shape, FormatError>)
        ensures
            match r {
                Ok(sh) => parse_shape(s@) == Ok::<(ElementType, Seq<usize>), FormatErrorModel>(sh@),
                Err(e) => parse_shape(s@) == Err::<(ElementType, Seq<usize>), FormatErrorModel>(e@),
            },
    {
        let v = text::chars_of(s);
        let n = v.len();
        proof {
            lemma_find_first(v@, '[');
            lemma_find_last(v@, ']');
        }
        assert(v@.subrange(0, n as int) =~= v@);
        let ob = match text::find_char(&v, 0, n, '[') {
            None => {
                return Err(FormatError::Malformed);
            },
            Some(i) => i,
        };
        assert(v@.subrange(0, n as int) =~= v@);
        let (a, b) = text::trim_bounds(&v, 0, ob);
        let e = match ElementType::from_name_in(&v, a, b) {
            None => {
                return Err(FormatError::UnknownElementType { found: text::string_of(&v, a, b) });
            },
            Some(e) => e,
        };
        let cb = match text::find_last_char(&v, 0, n, ']') {
            None => {
                return Err(FormatError::Malformed);
            },
            Some(i) => i,
        };
        if cb < ob + 1 {
            return Err(FormatError::Malformed);
        }
        let (ia, ib) = text::trim_bounds(&v, ob + 1, cb);
        if ia == ib {
            let d: Vec<usize> = Vec::new();
            assert(d@ =~= Seq::<usize>::empty());
            return Ok(Shape { element_type: e, dimensions: d });
        }
        match parse_dims_in(&v, ob + 1, cb) {
            Ok(d) => Ok(Shape { element_type: e, dimensions: d }),
            Err(err) => Err(err),
        }
    }
}

impl std::str::FromStr for Shape {
    type Err = FormatError;

    fn from_str(s: &str) -> Result<Shape, FormatError> {
        Shape::parse(s)
    }
}

/// Reads the comma separated dimensions in `v[lo..hi]`.
fn parse_dims_in(v: &Vec<char>, lo: usize, hi: usize) -> (r: Result<Vec<usize>, FormatError>)
    requires
        lo <= hi <= v@.len(),
    ensures
        match r {
            Ok(d) => parse_dims(v@.subrange(lo as int, hi as int)) == Ok::<
                Seq<usize>,
                FormatErrorModel,
            >(d@),
            Err(e) => parse_dims(v@.subrange(lo as int, hi as int)) == Err::<
                Seq<usize>,
                FormatErrorModel,
            >(e@),
        },
{
    let ghost whole = v@.subrange(lo as int, hi as int);
    let mut dims: Vec<usize> = Vec::new();
    let mut start: usize = lo;
    loop
        invariant
            lo <= start <= hi <= v@.len(),
            whole == v@.subrange(lo as int, hi as int),
            start == lo ==> dims@.len() == 0,
            start > lo ==> v@[start - 1] == ',' && parse_dims(v@.subrange(lo as int, start - 1))
                == Ok::<Seq<usize>, FormatErrorModel>(dims@),
        decreases hi - start,
    {
        let next = text::find_char(v, start, hi, ',');
        let end: usize = match next {
            Some(j) => j,
            None => hi,
        };
        let ghost prefix = v@.subrange(lo as int, end as int);
        proof {
            text::lemma_last_sep(v@, lo as int, start as int, end as int, ',');
        }
        let (a, b) = text::trim_bounds(v, start, end);
        let x = match text::parse_usize_in(v, a, b) {
            Err(k) => {
                let found = text::string_of(v, a, b);
                proof {
                    lemma_dims_prefix_same(v@, lo as int, end as int, hi as int);
                }
                return Err(FormatError::BadDimension { found, reason: k });
            },
            Ok(x) => x,
        };
        dims.push(x);
        proof {
            if start == lo {
                assert(dims@ =~= seq![x]);
            }
        }
        match next {
            None => {
                assert(prefix =~= whole);
                return Ok(dims);
            },
            Some(j) => {
                start = j + 1;
            },
        }
    }
}

/// A bad dimension before the comma at `end` is the first error of the whole.
proof fn lemma_dims_prefix_same(v: Seq<char>, lo: int, end: int, hi: int)
    requires
        0 <= lo <= end <= hi <= v.len(),
        end < hi ==> v[end] == ',',
        parse_dims(v.subrange(lo, end)) is Err,
    ensures
        parse_dims(v.subrange(lo, hi)) == parse_dims(v.subrange(lo, end)),
    decreases hi - end,
{
    if end < hi {
        let s = v.subrange(lo, hi);
        lemma_find_last(s, ',');
        assert(s[end - lo] == ',');
        let i = find_last(s, ',')->0;
        if i < end - lo {
            assert(s.subrange(i + 1, s.len() as int)[end - lo - (i + 1)] == ',');
        }
        assert(s.subrange(0, i) =~= v.subrange(lo, lo + i));
        if i > end - lo {
            lemma_dims_prefix_same(v, lo, end, lo + i);
        }
    } else {
        assert(v.subrange(lo, hi) =~= v.subrange(lo, end));
    }
}

proof fn lemma_product_zero(d: Seq<usize>, k: int)
    requires
        0 <= k < d.len(),
        d[k] == 0,
    ensures
        product(d) == 0,
    decreases d.len(),
{
    if k < d.len() - 1 {
        assert(d.drop_last()[k] == d[k]);
        lemma_product_zero(d.drop_last(), k);
        assert(product(d) == (product(d.drop_last()) * d.last()) as nat);
    } else {
        assert(d.last() == 0);
        assert(product(d) == (product(d.drop_last()) * 0) as nat);
    }
}

/// With no zero dimension, a prefix has no larger product than the whole.
proof fn lemma_product_prefix(d: Seq<usize>, i: int)
    requires
        0 <= i <= d.len(),
        forall|j: int| 0 <= j < d.len() ==> d[j] != 0,
    ensures
        product(d.subrange(0, i)) <= product(d),
    decreases d.len() - i,
{
    if i < d.len() {
        lemma_product_prefix(d, i + 1);
        let t = d.subrange(0, i + 1);
        assert(t.drop_last() =~= d.subrange(0, i));
        assert(product(t.drop_last()) <= product(t.drop_last()) * t.last()) by (nonlinear_arith)
            requires
                t.last() >= 1,
        ;
    } else {
        assert(d.subrange(0, i) =~= d);
    }
}


/// A name has no `[` and no whitespace, and is never empty.
proof fn lemma_name_chars(e: ElementType)
    ensures
        e.spec_name().len() > 0,
        lacks(e.spec_name(), '['),
        forall|i: int| 0 <= i < e.spec_name().len() ==> !is_whitespace(#[trigger] e.spec_name()[i]),
{
}

/// Each element type is found again from its name.
pub proof fn lemma_name_round_trip(e: ElementType)
    ensures
        ElementType::spec_from_name(e.spec_name()) == Some(e),
{
    let names = seq![
        ElementType::U8.spec_name(),
        ElementType::I8.spec_name(),
        ElementType::U16.spec_name(),
        ElementType::I16.spec_name(),
        ElementType::U32.spec_name(),
        ElementType::I32.spec_name(),
        ElementType::F32.spec_name(),
        ElementType::U64.spec_name(),
        ElementType::I64.spec_name(),
        ElementType::F64.spec_name(),
        ElementType::Utf8.spec_name(),
    ];
    assert forall|a: int, b: int| 0 <= a < b < 11 implies #[trigger] names[a] != #[trigger] names[b] by {
        let x = names[a];
        let y = names[b];
        if x.len() == y.len() {
            assert(x[0] != y[0] || x[1] != y[1] || x[2] != y[2]);
        }
    }
    assert(names[0] != names[1]);
}

/// The dimensions' text holds only digits, commas and spaces, and no brackets.
proof fn lemma_format_dims_chars(d: Seq<usize>)
    ensures
        forall|i: int| 0 <= i < format_dims(d).len() ==> {
            let c = #[trigger] format_dims(d)[i];
            is_digit(c) || c == ',' || c == ' '
        },
    decreases d.len(),
{
    if d.len() == 1 {
        text::lemma_decimal_digits(d[0] as nat);
    } else if d.len() > 1 {
        lemma_format_dims_chars(d.drop_last());
        text::lemma_decimal_digits(d.last() as nat);
        let f = format_dims(d.drop_last());
        let g = decimal(d.last() as nat);
        assert forall|i: int| 0 <= i < format_dims(d).len() implies {
            let c = #[trigger] format_dims(d)[i];
            is_digit(c) || c == ',' || c == ' '
        } by {
            if i < f.len() {
                assert(format_dims(d)[i] == f[i]);
            } else if i >= f.len() + 2 {
                assert(format_dims(d)[i] == g[i - f.len() - 2]);
            }
        }
    }
}

/// Trimming the decimal text of a number, with or without one space before it,
/// gives that text.
proof fn lemma_trim_decimal(n: nat)
    ensures
        trim(decimal(n)) == decimal(n),
        trim(seq![' '] + decimal(n)) == decimal(n),
{
    let g = decimal(n);
    text::lemma_decimal_digits(n);
    assert(is_digit(g[0]));
    assert(is_digit(g[g.len() - 1]));
    assert(trim_start(g) == g);
    assert(trim_end(g) == g);
    let h = seq![' '] + g;
    assert(h.drop_first() =~= g);
    assert(trim_start(h) == trim_start(g));
}

/// Reading back the text of a non-empty list of dimensions gives that list.
pub proof fn lemma_dims_round_trip(d: Seq<usize>)
    requires
        d.len() > 0,
    ensures
        parse_dims(format_dims(d)) == Ok::<Seq<usize>, FormatErrorModel>(d),
    decreases d.len(),
{
    let s = format_dims(d);
    lemma_format_dims_chars(d);
    lemma_find_last(s, ',');
    if d.len() == 1 {
        text::lemma_decimal_digits(d[0] as nat);
        lemma_trim_decimal(d[0] as nat);
        text::lemma_parse_decimal(d[0]);
        match find_last(s, ',') {
            Some(i) => {
                assert(is_digit(s[i]));
            },
            None => {},
        }
        assert(seq![d[0]] =~= d);
    } else {
        let f = format_dims(d.drop_last());
        let g = decimal(d.last() as nat);
        let k = f.len() as int;
        lemma_dims_round_trip(d.drop_last());
        text::lemma_decimal_digits(d.last() as nat);
        lemma_trim_decimal(d.last() as nat);
        text::lemma_parse_decimal(d.last());
        assert(s[k] == ',');
        let i = find_last(s, ',')->0;
        if i < k {
            assert(s.subrange(i + 1, s.len() as int)[k - (i + 1)] == ',');
        } else if i > k {
            if i == k + 1 {
                assert(s[i] == ' ');
            } else {
                assert(s[i] == g[i - k - 2]);
            }
        }
        assert(s.subrange(0, k) =~= f);
        assert(s.subrange(k + 1, s.len() as int) =~= seq![' '] + g);
        assert(d.drop_last().push(d.last()) =~= d);
    }
}

/// Trimming keeps a text whose last character is not whitespace non-empty.
proof fn lemma_trim_keeps_last(s: Seq<char>)
    requires
        s.len() > 0,
        !is_whitespace(s.last()),
    ensures
        trim(s).len() > 0,
    decreases s.len(),
{
    if is_whitespace(s[0]) {
        assert(s.drop_first().last() == s.last());
        assert(s.len() > 1);
        lemma_trim_keeps_last(s.drop_first());
        lemma_trim_start_keeps_last(s.drop_first());
    } else {
        assert(trim_start(s) == s);
    }
}

proof fn lemma_trim_start_keeps_last(s: Seq<char>)
    requires
        s.len() > 0,
        !is_whitespace(s.last()),
    ensures
        trim_start(s).len() > 0,
        trim_start(s).last() == s.last(),
    decreases s.len(),
{
    if is_whitespace(s[0]) {
        assert(s.len() > 1);
        assert(s.drop_first().last() == s.last());
        lemma_trim_start_keeps_last(s.drop_first());
    }
}

/// Formatting a shape and reading the text back gives the same shape, for
/// every shape, a scalar with no dimensions included.
pub proof fn lemma_shape_round_trip(e: ElementType, d: Seq<usize>)
    ensures
        parse_shape(shape_text(e, d)) == Ok::<(ElementType, Seq<usize>), FormatErrorModel>((e, d)),
{
    let name = e.spec_name();
    let f = format_dims(d);
    let t = shape_text(e, d);
    let k = name.len() as int;
    lemma_name_chars(e);
    lemma_name_round_trip(e);
    if d.len() > 0 {
        lemma_dims_round_trip(d);
        text::lemma_decimal_digits(d.last() as nat);
        let g = decimal(d.last() as nat);
        assert(is_digit(g[g.len() - 1]));
        assert(f.len() > 0 && f.last() == g.last());
        lemma_trim_start_keeps_last(f);
        assert(trim_end(trim_start(f)) == trim_start(f));
        lemma_trim_keeps_last(f);
    } else {
        assert(d =~= Seq::<usize>::empty());
        assert(f =~= Seq::<char>::empty());
        assert(trim_start(f) == f);
        assert(trim(f).len() == 0);
    }
    lemma_find_first(t, '[');
    assert(t[k] == '[');
    let ob = find_first(t, '[')->0;
    if ob < k {
        assert(t[ob] == name[ob]);
    } else if ob > k {
        assert(t.subrange(0, ob)[k] == '[');
    }
    assert(t.subrange(0, k) =~= name);
    assert(name[0] == t[0]);
    assert(trim_start(name) == name);
    assert(trim_end(name) == name);
    assert(t.last() == ']');
    assert(t.subrange(k + 1, t.len() - 1) =~= f);
}

} // verus!
