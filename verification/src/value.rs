//! The closed set of value kinds a parameter can hold, the runtime values
//! themselves, and their mathematical model.
//!
//! A parameter's value is one of a fixed family of primitive kinds: `bool`,
//! the fixed-width and pointer-sized integers, and text.  In specifications
//! every value is abstracted to a [`Val`]: booleans stay booleans, every
//! integer width collapses to `int`, and text becomes its `Seq<char>` view.
//! Ordering and equality of values are defined on that model and the
//! executable comparisons are proved against them.

use vstd::prelude::*;
use vstd::string::StrSliceExecFns;
use vstd::string::StringExecFns;

verus! {

/// Identity token of the concrete kind a parameter was declared with.
#[derive(Clone, Copy, Debug, PartialEq, Eq, Structural)]
pub enum TypeTag {
    Bool,
    U8,
    U16,
    U32,
    U64,
    U128,
    Usize,
    I8,
    I16,
    I32,
    I64,
    I128,
    Isize,
    Text,
}

/// A single parameter value of one of the supported kinds.
#[derive(Debug, PartialEq, Eq)]
pub enum ParamValue {
    Bool(bool),
    U8(u8),
    U16(u16),
    U32(u32),
    U64(u64),
    U128(u128),
    Usize(usize),
    I8(i8),
    I16(i16),
    I32(i32),
    I64(i64),
    I128(i128),
    Isize(isize),
    Text(String),
}

/// Mathematical model of a [`ParamValue`]: the kind-independent value.
pub ghost enum Val {
    Bool(bool),
    Int(int),
    Text(Seq<char>),
}

/// The kind a runtime value belongs to.
pub open spec fn tag_of(v: ParamValue) -> TypeTag {
    match v {
        ParamValue::Bool(_) => TypeTag::Bool,
        ParamValue::U8(_) => TypeTag::U8,
        ParamValue::U16(_) => TypeTag::U16,
        ParamValue::U32(_) => TypeTag::U32,
        ParamValue::U64(_) => TypeTag::U64,
        ParamValue::U128(_) => TypeTag::U128,
        ParamValue::Usize(_) => TypeTag::Usize,
        ParamValue::I8(_) => TypeTag::I8,
        ParamValue::I16(_) => TypeTag::I16,
        ParamValue::I32(_) => TypeTag::I32,
        ParamValue::I64(_) => TypeTag::I64,
        ParamValue::I128(_) => TypeTag::I128,
        ParamValue::Isize(_) => TypeTag::Isize,
        ParamValue::Text(_) => TypeTag::Text,
    }
}

/// The model of a runtime value.
pub open spec fn val_of(v: ParamValue) -> Val {
    match v {
        ParamValue::Bool(b) => Val::Bool(b),
        ParamValue::U8(n) => Val::Int(n as int),
        ParamValue::U16(n) => Val::Int(n as int),
        ParamValue::U32(n) => Val::Int(n as int),
        ParamValue::U64(n) => Val::Int(n as int),
        ParamValue::U128(n) => Val::Int(n as int),
        ParamValue::Usize(n) => Val::Int(n as int),
        ParamValue::I8(n) => Val::Int(n as int),
        ParamValue::I16(n) => Val::Int(n as int),
        ParamValue::I32(n) => Val::Int(n as int),
        ParamValue::I64(n) => Val::Int(n as int),
        ParamValue::I128(n) => Val::Int(n as int),
        ParamValue::Isize(n) => Val::Int(n as int),
        ParamValue::Text(s) => Val::Text(s@),
    }
}

impl ParamValue {
    /// The kind of this value, as an executable query.
    pub fn tag(&self) -> (t: TypeTag)
        ensures
            t == tag_of(*self),
    {
        match self {
            ParamValue::Bool(_) => TypeTag::Bool,
            ParamValue::U8(_) => TypeTag::U8,
            ParamValue::U16(_) => TypeTag::U16,
            ParamValue::U32(_) => TypeTag::U32,
            ParamValue::U64(_) => TypeTag::U64,
            ParamValue::U128(_) => TypeTag::U128,
            ParamValue::Usize(_) => TypeTag::Usize,
            ParamValue::I8(_) => TypeTag::I8,
            ParamValue::I16(_) => TypeTag::I16,
            ParamValue::I32(_) => TypeTag::I32,
            ParamValue::I64(_) => TypeTag::I64,
            ParamValue::I128(_) => TypeTag::I128,
            ParamValue::Isize(_) => TypeTag::Isize,
            ParamValue::Text(_) => TypeTag::Text,
        }
    }
}

impl Clone for ParamValue {
    fn clone(&self) -> (r: Self)
        ensures
            r == *self,
    {
        match self {
            ParamValue::Bool(b) => ParamValue::Bool(*b),
            ParamValue::U8(n) => ParamValue::U8(*n),
            ParamValue::U16(n) => ParamValue::U16(*n),
            ParamValue::U32(n) => ParamValue::U32(*n),
            ParamValue::U64(n) => ParamValue::U64(*n),
            ParamValue::U128(n) => ParamValue::U128(*n),
            ParamValue::Usize(n) => ParamValue::Usize(*n),
            ParamValue::I8(n) => ParamValue::I8(*n),
            ParamValue::I16(n) => ParamValue::I16(*n),
            ParamValue::I32(n) => ParamValue::I32(*n),
            ParamValue::I64(n) => ParamValue::I64(*n),
            ParamValue::I128(n) => ParamValue::I128(*n),
            ParamValue::Isize(n) => ParamValue::Isize(*n),
            ParamValue::Text(s) => ParamValue::Text(s.clone()),
        }
    }
}

/// Lexicographic order on character sequences, matching the order Rust gives
/// `str` values.
pub open spec fn text_lt(a: Seq<char>, b: Seq<char>) -> bool
    decreases a.len(),
{
    if b.len() == 0 {
        false
    } else if a.len() == 0 {
        true
    } else if a[0] == b[0] {
        text_lt(a.skip(1), b.skip(1))
    } else {
        (a[0] as u32) < (b[0] as u32)
    }
}

/// Strict order on model values.  Values of different shapes are never
/// compared by the library; on them the order is vacuously false.
pub open spec fn val_lt(a: Val, b: Val) -> bool {
    match (a, b) {
        (Val::Bool(x), Val::Bool(y)) => !x && y,
        (Val::Int(x), Val::Int(y)) => x < y,
        (Val::Text(x), Val::Text(y)) => text_lt(x, y),
        _ => false,
    }
}

/// Non-strict order on model values of the same shape.
pub open spec fn val_le(a: Val, b: Val) -> bool {
    val_lt(a, b) || a == b
}

/// If two character sequences agree on their first `i` characters, the
/// lexicographic comparison is decided by the remainders.
pub proof fn lemma_text_lt_common_prefix(a: Seq<char>, b: Seq<char>, i: int)
    requires
        0 <= i <= a.len(),
        i <= b.len(),
        forall|j: int| 0 <= j < i ==> a[j] == b[j],
    ensures
        text_lt(a, b) == text_lt(a.skip(i), b.skip(i)),
    decreases i,
{
    if i > 0 {
        assert(a.len() > 0 && b.len() > 0);
        assert(a[0] == b[0]);
        lemma_text_lt_common_prefix(a.skip(1), b.skip(1), i - 1);
        assert(a.skip(1).skip(i - 1) =~= a.skip(i));
        assert(b.skip(1).skip(i - 1) =~= b.skip(i));
    } else {
        assert(a.skip(0) =~= a);
        assert(b.skip(0) =~= b);
    }
}

/// Executable lexicographic comparison of two strings.
pub fn str_lt(a: &str, b: &str) -> (r: bool)
    ensures
        r == text_lt(a@, b@),
{
    let a_len: usize = a.unicode_len();
    let b_len: usize = b.unicode_len();
    let mut i: usize = 0;
    loop
        invariant
            i <= a_len,
            i <= b_len,
            a_len == a@.len(),
            b_len == b@.len(),
            forall|j: int| 0 <= j < i ==> a@[j] == b@[j],
        decreases a_len - i,
    {
        proof {
            lemma_text_lt_common_prefix(a@, b@, i as int);
        }
        if i >= b_len {
            assert(b@.skip(i as int).len() == 0);
            return false;
        }
        if i >= a_len {
            assert(a@.skip(i as int).len() == 0);
            assert(b@.skip(i as int).len() > 0);
            return true;
        }
        let ca: char = a.get_char(i);
        let cb: char = b.get_char(i);
        assert(a@.skip(i as int)[0] == a@[i as int]);
        assert(b@.skip(i as int)[0] == b@[i as int]);
        if ca != cb {
            return (ca as u32) < (cb as u32);
        }
        i = i + 1;
    }
}

/// Executable equality of two strings as character sequences.
pub fn str_eq(a: &str, b: &str) -> (r: bool)
    ensures
        r == (a@ == b@),
{
    let a_len: usize = a.unicode_len();
    let b_len: usize = b.unicode_len();
    if a_len != b_len {
        return false;
    }
    let mut i: usize = 0;
    while i < a_len
        invariant
            i <= a_len,
            a_len == a@.len(),
            b_len == b@.len(),
            a_len == b_len,
            forall|j: int| 0 <= j < i ==> a@[j] == b@[j],
        decreases a_len - i,
    {
        if a.get_char(i) != b.get_char(i) {
            return false;
        }
        i = i + 1;
    }
    assert(a@ =~= b@);
    true
}

/// Executable strict comparison of two values of the same kind,
/// proved to decide the model order.
pub fn value_lt(a: &ParamValue, b: &ParamValue) -> (r: bool)
    requires
        tag_of(*a) == tag_of(*b),
    ensures
        r == val_lt(val_of(*a), val_of(*b)),
{
    match (a, b) {
        (ParamValue::Bool(x), ParamValue::Bool(y)) => !*x && *y,
        (ParamValue::U8(x), ParamValue::U8(y)) => *x < *y,
        (ParamValue::U16(x), ParamValue::U16(y)) => *x < *y,
        (ParamValue::U32(x), ParamValue::U32(y)) => *x < *y,
        (ParamValue::U64(x), ParamValue::U64(y)) => *x < *y,
        (ParamValue::U128(x), ParamValue::U128(y)) => *x < *y,
        (ParamValue::Usize(x), ParamValue::Usize(y)) => *x < *y,
        (ParamValue::I8(x), ParamValue::I8(y)) => *x < *y,
        (ParamValue::I16(x), ParamValue::I16(y)) => *x < *y,
        (ParamValue::I32(x), ParamValue::I32(y)) => *x < *y,
        (ParamValue::I64(x), ParamValue::I64(y)) => *x < *y,
        (ParamValue::I128(x), ParamValue::I128(y)) => *x < *y,
        (ParamValue::Isize(x), ParamValue::Isize(y)) => *x < *y,
        (ParamValue::Text(x), ParamValue::Text(y)) => str_lt(x.as_str(), y.as_str()),
        _ => {
            proof {
                assert(false);
            }
            false
        },
    }
}

/// Executable non-strict comparison of two values of the same kind.
pub fn value_le(a: &ParamValue, b: &ParamValue) -> (r: bool)
    requires
        tag_of(*a) == tag_of(*b),
    ensures
        r == val_le(val_of(*a), val_of(*b)),
{
    if value_lt(a, b) {
        true
    } else {
        value_eq(a, b)
    }
}

/// Executable equality of two values of the same kind,
/// proved to decide model equality.
pub fn value_eq(a: &ParamValue, b: &ParamValue) -> (r: bool)
    requires
        tag_of(*a) == tag_of(*b),
    ensures
        r == (val_of(*a) == val_of(*b)),
{
    match (a, b) {
        (ParamValue::Bool(x), ParamValue::Bool(y)) => *x == *y,
        (ParamValue::U8(x), ParamValue::U8(y)) => *x == *y,
        (ParamValue::U16(x), ParamValue::U16(y)) => *x == *y,
        (ParamValue::U32(x), ParamValue::U32(y)) => *x == *y,
        (ParamValue::U64(x), ParamValue::U64(y)) => *x == *y,
        (ParamValue::U128(x), ParamValue::U128(y)) => *x == *y,
        (ParamValue::Usize(x), ParamValue::Usize(y)) => *x == *y,
        (ParamValue::I8(x), ParamValue::I8(y)) => *x == *y,
        (ParamValue::I16(x), ParamValue::I16(y)) => *x == *y,
        (ParamValue::I32(x), ParamValue::I32(y)) => *x == *y,
        (ParamValue::I64(x), ParamValue::I64(y)) => *x == *y,
        (ParamValue::I128(x), ParamValue::I128(y)) => *x == *y,
        (ParamValue::Isize(x), ParamValue::Isize(y)) => *x == *y,
        (ParamValue::Text(x), ParamValue::Text(y)) => str_eq(x.as_str(), y.as_str()),
        _ => {
            proof {
                assert(false);
            }
            false
        },
    }
}

} // verus!
