use vstd::math::abs;
use vstd::prelude::*;

use crate::automation::FIXED_ONE;

verus! {

/// A typed uniform value.
///
/// Float components are fixed-point numbers in ticks (`FIXED_ONE` ticks make
/// one unit); matrices are row-major; a texture is its width, its height and
/// its bytes.
#[derive(Clone, Debug, PartialEq)]
pub enum DataHolder {
    Float(i64),
    Float2([i64; 2]),
    Float3([i64; 3]),
    Float4([i64; 4]),
    FloatArray(Vec<i64>),
    Int(i32),
    Int2([i32; 2]),
    Int3([i32; 3]),
    Int4([i32; 4]),
    IntArray(Vec<i32>),
    Mat2([[i64; 2]; 2]),
    Mat3([[i64; 3]; 3]),
    Mat4([[i64; 4]; 4]),
    Bool(bool),
    BoolArray(Vec<bool>),
    ByteArray(Vec<u8>),
    String(String),
    Texture(u32, u32, Vec<u8>),
    SrgbTexture(u32, u32, Vec<u8>),
}

/// The variant of a `DataHolder`, without its payload.
#[derive(Clone, Copy, Debug, PartialEq, Eq, Structural)]
pub enum DataKind {
    Float,
    Float2,
    Float3,
    Float4,
    FloatArray,
    Int,
    Int2,
    Int3,
    Int4,
    IntArray,
    Mat2,
    Mat3,
    Mat4,
    Bool,
    BoolArray,
    ByteArray,
    String,
    Texture,
    SrgbTexture,
}

/// How the components of a kind are combined.
#[derive(Clone, Copy, Debug, PartialEq, Eq, Structural)]
pub enum NumClass {
    /// Fixed-point numbers held in `i64`.
    Fixed,
    /// Integers held in `i32`.
    Int,
    /// Booleans, as 1 and 0.
    Bool,
    /// No arithmetic and no automation.
    Other,
}

/// One of the four arithmetic operators.
#[derive(Clone, Copy, Debug, PartialEq, Eq, Structural)]
pub enum ArithOp {
    Add,
    Sub,
    Mul,
    Div,
}

/// Why an arithmetic operation on two values has no result.
#[derive(Clone, Copy, Debug, PartialEq, Eq, Structural)]
pub enum ArithError {
    /// The operands are of different variants.
    Mismatch,
    /// The variant has no arithmetic (arrays, matrices, strings, textures).
    Unsupported,
    /// A component's exact result does not fit its type.
    Overflow,
    /// A divisor component is zero.
    DivisionByZero,
}

impl DataKind {
    pub open spec fn class(self) -> NumClass {
        match self {
            DataKind::Float | DataKind::Float2 | DataKind::Float3 | DataKind::Float4 => {
                NumClass::Fixed
            },
            DataKind::Int | DataKind::Int2 | DataKind::Int3 | DataKind::Int4 => NumClass::Int,
            DataKind::Bool => NumClass::Bool,
            _ => NumClass::Other,
        }
    }

    /// Number of components of a scalar or vector kind.
    pub open spec fn arity(self) -> nat {
        match self {
            DataKind::Float2 | DataKind::Int2 => 2,
            DataKind::Float3 | DataKind::Int3 => 3,
            DataKind::Float4 | DataKind::Int4 => 4,
            _ => 1,
        }
    }

    pub fn num_class(self) -> (r: NumClass)
        ensures
            r == self.class(),
    {
        match self {
            DataKind::Float | DataKind::Float2 | DataKind::Float3 | DataKind::Float4 => {
                NumClass::Fixed
            },
            DataKind::Int | DataKind::Int2 | DataKind::Int3 | DataKind::Int4 => NumClass::Int,
            DataKind::Bool => NumClass::Bool,
            _ => NumClass::Other,
        }
    }
}

pub open spec fn ints_of(s: Seq<i64>) -> Seq<int> {
    s.map_values(|x: i64| x as int)
}

pub open spec fn ints_of_i32(s: Seq<i32>) -> Seq<int> {
    s.map_values(|x: i32| x as int)
}

/// Lowest and highest component value of a class.
pub open spec fn class_min(c: NumClass) -> int {
    match c {
        NumClass::Fixed => i64::MIN as int,
        NumClass::Int => i32::MIN as int,
        _ => 0,
    }
}

pub open spec fn class_max(c: NumClass) -> int {
    match c {
        NumClass::Fixed => i64::MAX as int,
        NumClass::Int => i32::MAX as int,
        _ => 1,
    }
}

/// Every component lies in the range of its class.
pub open spec fn in_class(c: NumClass, s: Seq<int>) -> bool {
    forall|i: int| 0 <= i < s.len() ==> class_min(c) <= #[trigger] s[i] <= class_max(c)
}

impl DataHolder {
    pub open spec fn kind(&self) -> DataKind {
        match self {
            DataHolder::Float(_) => DataKind::Float,
            DataHolder::Float2(_) => DataKind::Float2,
            DataHolder::Float3(_) => DataKind::Float3,
            DataHolder::Float4(_) => DataKind::Float4,
            DataHolder::FloatArray(_) => DataKind::FloatArray,
            DataHolder::Int(_) => DataKind::Int,
            DataHolder::Int2(_) => DataKind::Int2,
            DataHolder::Int3(_) => DataKind::Int3,
            DataHolder::Int4(_) => DataKind::Int4,
            DataHolder::IntArray(_) => DataKind::IntArray,
            DataHolder::Mat2(_) => DataKind::Mat2,
            DataHolder::Mat3(_) => DataKind::Mat3,
            DataHolder::Mat4(_) => DataKind::Mat4,
            DataHolder::Bool(_) => DataKind::Bool,
            DataHolder::BoolArray(_) => DataKind::BoolArray,
            DataHolder::ByteArray(_) => DataKind::ByteArray,
            DataHolder::String(_) => DataKind::String,
            DataHolder::Texture(..) => DataKind::Texture,
            DataHolder::SrgbTexture(..) => DataKind::SrgbTexture,
        }
    }

    /// The components of a scalar, vector or bool value, in order (a bool is
    /// 1 or 0); empty for the other kinds.
    pub open spec fn components(&self) -> Seq<int> {
        match self {
            DataHolder::Float(x) => seq![*x as int],
            DataHolder::Float2(a) => ints_of(a@),
            DataHolder::Float3(a) => ints_of(a@),
            DataHolder::Float4(a) => ints_of(a@),
            DataHolder::Int(x) => seq![*x as int],
            DataHolder::Int2(a) => ints_of_i32(a@),
            DataHolder::Int3(a) => ints_of_i32(a@),
            DataHolder::Int4(a) => ints_of_i32(a@),
            DataHolder::Bool(b) => seq![
                if *b {
                    1int
                } else {
                    0int
                },
            ],
            _ => Seq::empty(),
        }
    }

    /// The variant of this value.
    pub fn data_kind(&self) -> (r: DataKind)
        ensures
            r == self.kind(),
    {
        match self {
            DataHolder::Float(_) => DataKind::Float,
            DataHolder::Float2(_) => DataKind::Float2,
            DataHolder::Float3(_) => DataKind::Float3,
            DataHolder::Float4(_) => DataKind::Float4,
            DataHolder::FloatArray(_) => DataKind::FloatArray,
            DataHolder::Int(_) => DataKind::Int,
            DataHolder::Int2(_) => DataKind::Int2,
            DataHolder::Int3(_) => DataKind::Int3,
            DataHolder::Int4(_) => DataKind::Int4,
            DataHolder::IntArray(_) => DataKind::IntArray,
            DataHolder::Mat2(_) => DataKind::Mat2,
            DataHolder::Mat3(_) => DataKind::Mat3,
            DataHolder::Mat4(_) => DataKind::Mat4,
            DataHolder::Bool(_) => DataKind::Bool,
            DataHolder::BoolArray(_) => DataKind::BoolArray,
            DataHolder::ByteArray(_) => DataKind::ByteArray,
            DataHolder::String(_) => DataKind::String,
            DataHolder::Texture(..) => DataKind::Texture,
            DataHolder::SrgbTexture(..) => DataKind::SrgbTexture,
        }
    }

    /// The components of this value, widened to `i64`.
    pub fn component_values(&self) -> (r: Vec<i64>)
        ensures
            ints_of(r@) == self.components(),
            self.kind().class() != NumClass::Other ==> r@.len() == self.kind().arity(),
            in_class(self.kind().class(), self.components()),
    {
        let r = match self {
            DataHolder::Float(x) => vec![*x],
            DataHolder::Float2(a) => vec![a[0], a[1]],
            DataHolder::Float3(a) => vec![a[0], a[1], a[2]],
            DataHolder::Float4(a) => vec![a[0], a[1], a[2], a[3]],
            DataHolder::Int(x) => vec![*x as i64],
            DataHolder::Int2(a) => vec![a[0] as i64, a[1] as i64],
            DataHolder::Int3(a) => vec![a[0] as i64, a[1] as i64, a[2] as i64],
            DataHolder::Int4(a) => vec![a[0] as i64, a[1] as i64, a[2] as i64, a[3] as i64],
            DataHolder::Bool(b) => vec![
                if *b {
                    1i64
                } else {
                    0i64
                },
            ],
            _ => Vec::new(),
        };
        assert(ints_of(r@) =~= self.components());
        r
    }

    /// Builds a value of a scalar, vector or bool kind from its components.
    pub fn from_components(kind: DataKind, v: &Vec<i64>) -> (r: DataHolder)
        requires
            kind.class() != NumClass::Other,
            v@.len() == kind.arity(),
            in_class(kind.class(), ints_of(v@)),
        ensures
            r.kind() == kind,
            r.components() == ints_of(v@),
    {
        assert(forall|i: int| 0 <= i < v@.len() ==> class_min(kind.class()) <= #[trigger] ints_of(v@)[i] <= class_max(kind.class()));
        let r = match kind {
            DataKind::Float => DataHolder::Float(v[0]),
            DataKind::Float2 => DataHolder::Float2([v[0], v[1]]),
            DataKind::Float3 => DataHolder::Float3([v[0], v[1], v[2]]),
            DataKind::Float4 => DataHolder::Float4([v[0], v[1], v[2], v[3]]),
            DataKind::Int => DataHolder::Int(v[0] as i32),
            DataKind::Int2 => {
                assert(ints_of(v@)[0] == v@[0] && ints_of(v@)[1] == v@[1]);
                DataHolder::Int2([v[0] as i32, v[1] as i32])
            },
            DataKind::Int3 => {
                assert(ints_of(v@)[0] == v@[0] && ints_of(v@)[1] == v@[1] && ints_of(v@)[2] == v@[2]);
                DataHolder::Int3([v[0] as i32, v[1] as i32, v[2] as i32])
            },
            DataKind::Int4 => {
                assert(ints_of(v@)[0] == v@[0] && ints_of(v@)[1] == v@[1] && ints_of(v@)[2] == v@[2]
                    && ints_of(v@)[3] == v@[3]);
                DataHolder::Int4([v[0] as i32, v[1] as i32, v[2] as i32, v[3] as i32])
            },
            _ => {
                assert(ints_of(v@)[0] == v@[0]);
                DataHolder::Bool(v[0] == 1)
            },
        };
        assert(r.components() =~= ints_of(v@));
        r
    }
}

/// Quotient of `a` by a nonzero `b`, rounded toward zero.
pub open spec fn quot(a: int, b: int) -> int {
    let q = abs(a) / abs(b);
    if (a < 0) == (b < 0) {
        q as int
    } else {
        -q
    }
}

/// The exact result of an operator on two components of a class, or `None`
/// on a division by zero. Fixed-point products and quotients are rounded
/// toward zero; on bools (1 and 0) `+` is or, `*` is and, `-` is "and not",
/// and `/` gives the left operand.
pub open spec fn exact_op(op: ArithOp, c: NumClass, a: int, b: int) -> Option<int> {
    match c {
        NumClass::Bool => Some(
            match op {
                ArithOp::Add => if a == 1 || b == 1 {
                    1
                } else {
                    0
                },
                ArithOp::Sub => if a == 1 && b == 0 {
                    1
                } else {
                    0
                },
                ArithOp::Mul => if a == 1 && b == 1 {
                    1
                } else {
                    0
                },
                ArithOp::Div => a,
            },
        ),
        NumClass::Fixed => match op {
            ArithOp::Add => Some(a + b),
            ArithOp::Sub => Some(a - b),
            ArithOp::Mul => Some(quot(a * b, FIXED_ONE as int)),
            ArithOp::Div => if b == 0 {
                None
            } else {
                Some(quot(a * FIXED_ONE, b))
            },
        },
        _ => match op {
            ArithOp::Add => Some(a + b),
            ArithOp::Sub => Some(a - b),
            ArithOp::Mul => Some(a * b),
            ArithOp::Div => if b == 0 {
                None
            } else {
                Some(quot(a, b))
            },
        },
    }
}

/// The result of an operator on two components, checked against the range of
/// the class.
pub open spec fn scalar_op(op: ArithOp, c: NumClass, a: int, b: int) -> Result<int, ArithError> {
    match exact_op(op, c, a, b) {
        None => Err(ArithError::DivisionByZero),
        Some(v) => if class_min(c) <= v <= class_max(c) {
            Ok(v)
        } else {
            Err(ArithError::Overflow)
        },
    }
}

/// Component-wise combination of two lists of one length: the first
/// component that fails, in order, gives the error.
pub open spec fn combine(op: ArithOp, c: NumClass, a: Seq<int>, b: Seq<int>) -> Result<
    Seq<int>,
    ArithError,
>
    decreases a.len(),
{
    if a.len() == 0 {
        Ok(Seq::empty())
    } else {
        match combine(op, c, a.drop_last(), b.drop_last()) {
            Err(e) => Err(e),
            Ok(s) => match scalar_op(op, c, a.last(), b.last()) {
                Err(e) => Err(e),
                Ok(v) => Ok(s.push(v)),
            },
        }
    }
}

/// What an operator gives on two values: defined only on two values of the
/// same variant, and only for scalars, vectors and bools.
pub open spec fn arith(op: ArithOp, a: DataHolder, b: DataHolder) -> Result<Seq<int>, ArithError> {
    if a.kind() != b.kind() {
        Err(ArithError::Mismatch)
    } else if a.kind().class() == NumClass::Other {
        Err(ArithError::Unsupported)
    } else {
        combine(op, a.kind().class(), a.components(), b.components())
    }
}

proof fn lemma_combine_err_extends(
    op: ArithOp,
    c: NumClass,
    a: Seq<int>,
    b: Seq<int>,
    i: int,
    e: ArithError,
)
    requires
        0 <= i <= a.len(),
        a.len() == b.len(),
        combine(op, c, a.take(i), b.take(i)) == Err::<Seq<int>, ArithError>(e),
    ensures
        combine(op, c, a, b) == Err::<Seq<int>, ArithError>(e),
    decreases a.len() - i,
{
    if i < a.len() {
        let a1 = a.take(i + 1);
        let b1 = b.take(i + 1);
        assert(a1.drop_last() =~= a.take(i));
        assert(b1.drop_last() =~= b.take(i));
        assert(combine(op, c, a1, b1) == Err::<Seq<int>, ArithError>(e));
        lemma_combine_err_extends(op, c, a, b, i + 1, e);
    } else {
        assert(a.take(i) =~= a);
        assert(b.take(i) =~= b);
    }
}

pub(crate) fn quot_exec(a: i128, b: i128) -> (r: i128)
    requires
        b != 0,
        -0x4000_0000_0000_0000_0000_0000_0000_0000 <= a <= 0x4000_0000_0000_0000_0000_0000_0000_0000,
        -0x4000_0000_0000_0000_0000_0000_0000_0000 <= b <= 0x4000_0000_0000_0000_0000_0000_0000_0000,
    ensures
        r == quot(a as int, b as int),
{
    let ua: u128 = if a < 0 {
        (-a) as u128
    } else {
        a as u128
    };
    let ub: u128 = if b < 0 {
        (-b) as u128
    } else {
        b as u128
    };
    let q = ua / ub;
    assert(q <= ua) by (nonlinear_arith)
        requires
            q == ua / ub,
            ub > 0,
    ;
    if (a < 0) == (b < 0) {
        q as i128
    } else {
        -(q as i128)
    }
}

/// One component of an operation, exactly as `scalar_op` says.
fn scalar_exec(op: ArithOp, c: NumClass, a: i64, b: i64) -> (r: Result<i64, ArithError>)
    requires
        c != NumClass::Other,
        class_min(c) <= a <= class_max(c),
        class_min(c) <= b <= class_max(c),
    ensures
        match r {
            Ok(v) => scalar_op(op, c, a as int, b as int) == Ok::<int, ArithError>(v as int),
            Err(e) => scalar_op(op, c, a as int, b as int) == Err::<int, ArithError>(e),
        },
{
    let wa = a as i128;
    let wb = b as i128;
    let one = FIXED_ONE as i128;
    let exact: Option<i128> = match c {
        NumClass::Bool => Some(
            match op {
                ArithOp::Add => if a == 1 || b == 1 {
                    1
                } else {
                    0
                },
                ArithOp::Sub => if a == 1 && b == 0 {
                    1
                } else {
                    0
                },
                ArithOp::Mul => if a == 1 && b == 1 {
                    1
                } else {
                    0
                },
                ArithOp::Div => wa,
            },
        ),
        NumClass::Fixed => match op {
            ArithOp::Add => Some(wa + wb),
            ArithOp::Sub => Some(wa - wb),
            ArithOp::Mul => {
                assert(-0x4000_0000_0000_0000_0000_0000_0000_0000 <= wa * wb
                    <= 0x4000_0000_0000_0000_0000_0000_0000_0000) by (nonlinear_arith)
                    requires
                        i64::MIN <= wa <= i64::MAX,
                        i64::MIN <= wb <= i64::MAX,
                ;
                Some(quot_exec(wa * wb, one))
            },
            ArithOp::Div => if b == 0 {
                None
            } else {
                assert(-0x1_0000_0000_0000_0000_0000 <= wa * one <= 0x1_0000_0000_0000_0000_0000)
                    by (nonlinear_arith)
                    requires
                        i64::MIN <= wa <= i64::MAX,
                        one == 65536,
                ;
                Some(quot_exec(wa * one, wb))
            },
        },
        _ => match op {
            ArithOp::Add => Some(wa + wb),
            ArithOp::Sub => Some(wa - wb),
            ArithOp::Mul => {
                assert(-0x1_0000_0000_0000_0000 <= wa * wb <= 0x1_0000_0000_0000_0000)
                    by (nonlinear_arith)
                    requires
                        i32::MIN <= wa <= i32::MAX,
                        i32::MIN <= wb <= i32::MAX,
                ;
                Some(wa * wb)
            },
            ArithOp::Div => if b == 0 {
                None
            } else {
                Some(quot_exec(wa, wb))
            },
        },
    };
    match exact {
        None => Err(ArithError::DivisionByZero),
        Some(v) => {
            let (lo, hi): (i128, i128) = match c {
                NumClass::Fixed => (i64::MIN as i128, i64::MAX as i128),
                NumClass::Int => (i32::MIN as i128, i32::MAX as i128),
                _ => (0, 1),
            };
            if lo <= v && v <= hi {
                Ok(v as i64)
            } else {
                Err(ArithError::Overflow)
            }
        },
    }
}

/// Combines two component lists of one class, exactly as `combine` says.
fn combine_exec(op: ArithOp, c: NumClass, a: &Vec<i64>, b: &Vec<i64>) -> (r: Result<
    Vec<i64>,
    ArithError,
>)
    requires
        c != NumClass::Other,
        a@.len() == b@.len(),
        in_class(c, ints_of(a@)),
        in_class(c, ints_of(b@)),
    ensures
        match r {
            Ok(v) => combine(op, c, ints_of(a@), ints_of(b@)) == Ok::<Seq<int>, ArithError>(
                ints_of(v@),
            ) && v@.len() == a@.len() && in_class(c, ints_of(v@)),
            Err(e) => combine(op, c, ints_of(a@), ints_of(b@)) == Err::<Seq<int>, ArithError>(e),
        },
{
    let ghost sa = ints_of(a@);
    let ghost sb = ints_of(b@);
    let mut out: Vec<i64> = Vec::new();
    let mut i: usize = 0;
    assert(sa.take(0) =~= Seq::<int>::empty());
    assert(sb.take(0) =~= Seq::<int>::empty());
    assert(ints_of(out@) =~= Seq::<int>::empty());
    while i < a.len()
        invariant
            0 <= i <= a@.len(),
            a@.len() == b@.len(),
            sa == ints_of(a@),
            sb == ints_of(b@),
            c != NumClass::Other,
            in_class(c, sa),
            in_class(c, sb),
            out@.len() == i,
            in_class(c, ints_of(out@)),
            combine(op, c, sa.take(i as int), sb.take(i as int)) == Ok::<Seq<int>, ArithError>(
                ints_of(out@),
            ),
        decreases a@.len() - i,
    {
        assert(sa[i as int] == a@[i as int] && sb[i as int] == b@[i as int]);
        let x = scalar_exec(op, c, a[i], b[i]);
        let ghost ta = sa.take(i as int + 1);
        let ghost tb = sb.take(i as int + 1);
        assert(ta.drop_last() =~= sa.take(i as int));
        assert(tb.drop_last() =~= sb.take(i as int));
        match x {
            Err(e) => {
                assert(combine(op, c, ta, tb) == Err::<Seq<int>, ArithError>(e));
                proof {
                    lemma_combine_err_extends(op, c, sa, sb, i as int + 1, e);
                }
                return Err(e);
            },
            Ok(v) => {
                let ghost prev = out@;
                out.push(v);
                assert(ints_of(out@) =~= ints_of(prev).push(v as int));
                assert(combine(op, c, ta, tb) == Ok::<Seq<int>, ArithError>(ints_of(out@)));
            },
        }
        i = i + 1;
    }
    assert(sa.take(i as int) =~= sa);
    assert(sb.take(i as int) =~= sb);
    Ok(out)
}

impl DataHolder {
    /// Applies an operator to two values of the same scalar, vector or bool
    /// variant, component by component.
    pub fn arith(&self, op: ArithOp, other: &DataHolder) -> (r: Result<DataHolder, ArithError>)
        ensures
            match r {
                Ok(v) => v.kind() == self.kind() && arith(op, *self, *other) == Ok::<
                    Seq<int>,
                    ArithError,
                >(v.components()),
                Err(e) => arith(op, *self, *other) == Err::<Seq<int>, ArithError>(e),
            },
    {
        let k = self.data_kind();
        if k != other.data_kind() {
            return Err(ArithError::Mismatch);
        }
        let c = k.num_class();
        if c == NumClass::Other {
            return Err(ArithError::Unsupported);
        }
        let a = self.component_values();
        let b = other.component_values();
        match combine_exec(op, c, &a, &b) {
            Ok(v) => Ok(DataHolder::from_components(k, &v)),
            Err(e) => Err(e),
        }
    }

    /// Sum of two values of one variant (or of two bools).
    pub fn add(&self, other: &DataHolder) -> (r: Result<DataHolder, ArithError>)
        ensures
            match r {
                Ok(v) => v.kind() == self.kind() && arith(ArithOp::Add, *self, *other) == Ok::<
                    Seq<int>,
                    ArithError,
                >(v.components()),
                Err(e) => arith(ArithOp::Add, *self, *other) == Err::<Seq<int>, ArithError>(e),
            },
    {
        self.arith(ArithOp::Add, other)
    }

    /// Difference of two values of one variant (left and not right on bools).
    pub fn sub(&self, other: &DataHolder) -> (r: Result<DataHolder, ArithError>)
        ensures
            match r {
                Ok(v) => v.kind() == self.kind() && arith(ArithOp::Sub, *self, *other) == Ok::<
                    Seq<int>,
                    ArithError,
                >(v.components()),
                Err(e) => arith(ArithOp::Sub, *self, *other) == Err::<Seq<int>, ArithError>(e),
            },
    {
        self.arith(ArithOp::Sub, other)
    }

    /// Product of two values of one variant (and on bools).
    pub fn mul(&self, other: &DataHolder) -> (r: Result<DataHolder, ArithError>)
        ensures
            match r {
                Ok(v) => v.kind() == self.kind() && arith(ArithOp::Mul, *self, *other) == Ok::<
                    Seq<int>,
                    ArithError,
                >(v.components()),
                Err(e) => arith(ArithOp::Mul, *self, *other) == Err::<Seq<int>, ArithError>(e),
            },
    {
        self.arith(ArithOp::Mul, other)
    }

    /// Quotient of two values of one variant (the left operand on bools).
    pub fn div(&self, other: &DataHolder) -> (r: Result<DataHolder, ArithError>)
        ensures
            match r {
                Ok(v) => v.kind() == self.kind() && arith(ArithOp::Div, *self, *other) == Ok::<
                    Seq<int>,
                    ArithError,
                >(v.components()),
                Err(e) => arith(ArithOp::Div, *self, *other) == Err::<Seq<int>, ArithError>(e),
            },
    {
        self.arith(ArithOp::Div, other)
    }
}

/// Operands of different variants are never coerced into each other: every
/// operator refuses them.
pub proof fn lemma_mismatch_refused(op: ArithOp, a: DataHolder, b: DataHolder)
    requires
        a.kind() != b.kind(),
    ensures
        arith(op, a, b) == Err::<Seq<int>, ArithError>(ArithError::Mismatch),
{
}

} // verus!
