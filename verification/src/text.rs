//! Rendering of parameter values as text.
//!
//! Every value has a canonical textual form: integers in decimal (with a
//! leading minus sign when negative), booleans as `true` / `false`, text as
//! itself.  The specification-level form is a `Seq<char>` and the executable
//! conversions are proved to produce exactly that sequence.

use crate::value::{ParamValue, TypeTag, Val, val_of};
use vstd::prelude::*;
use vstd::string::StringExecFns;

verus! {

/// The character for one decimal digit.
pub open spec fn digit_char(d: nat) -> char {
    if d == 0 {
        '0'
    } else if d == 1 {
        '1'
    } else if d == 2 {
        '2'
    } else if d == 3 {
        '3'
    } else if d == 4 {
        '4'
    } else if d == 5 {
        '5'
    } else if d == 6 {
        '6'
    } else if d == 7 {
        '7'
    } else if d == 8 {
        '8'
    } else {
        '9'
    }
}

/// Decimal form of a natural number, most significant digit first.
pub open spec fn dec_str(n: nat) -> Seq<char>
    decreases n,
{
    if n < 10 {
        seq![digit_char(n)]
    } else {
        dec_str(n / 10) + seq![digit_char(n % 10)]
    }
}

/// Decimal form of an integer: a minus sign before the magnitude when
/// negative.
pub open spec fn int_dec_str(n: int) -> Seq<char> {
    if n < 0 {
        seq!['-'] + dec_str((-n) as nat)
    } else {
        dec_str(n as nat)
    }
}

/// Textual form of a boolean.
pub open spec fn bool_str(b: bool) -> Seq<char> {
    if b {
        "true"@
    } else {
        "false"@
    }
}

/// Canonical textual form of a model value.
pub open spec fn val_str(v: Val) -> Seq<char> {
    match v {
        Val::Bool(b) => bool_str(b),
        Val::Int(n) => int_dec_str(n),
        Val::Text(s) => s,
    }
}

/// Display name of a kind.
pub open spec fn tag_str(t: TypeTag) -> Seq<char> {
    match t {
        TypeTag::Bool => "bool"@,
        TypeTag::U8 => "u8"@,
        TypeTag::U16 => "u16"@,
        TypeTag::U32 => "u32"@,
        TypeTag::U64 => "u64"@,
        TypeTag::U128 => "u128"@,
        TypeTag::Usize => "usize"@,
        TypeTag::I8 => "i8"@,
        TypeTag::I16 => "i16"@,
        TypeTag::I32 => "i32"@,
        TypeTag::I64 => "i64"@,
        TypeTag::I128 => "i128"@,
        TypeTag::Isize => "isize"@,
        TypeTag::Text => "String"@,
    }
}

/// The members of a list, rendered and joined by `", "`.
pub open spec fn vals_joined(vs: Seq<Val>) -> Seq<char>
    decreases vs.len(),
{
    if vs.len() == 0 {
        Seq::empty()
    } else if vs.len() == 1 {
        val_str(vs[0])
    } else {
        val_str(vs[0]) + ", "@ + vals_joined(vs.skip(1))
    }
}

/// Appending a member to a list appends its rendering, after `", "` when
/// the list was not empty.
pub proof fn lemma_vals_joined_push(vs: Seq<Val>, x: Val)
    ensures
        vals_joined(vs.push(x)) == if vs.len() == 0 {
            val_str(x)
        } else {
            vals_joined(vs) + ", "@ + val_str(x)
        },
    decreases vs.len(),
{
    if vs.len() == 0 {
        assert(vs.push(x).len() == 1);
        assert(vs.push(x)[0] == x);
    } else {
        assert(vs.push(x).skip(1) =~= vs.skip(1).push(x));
        lemma_vals_joined_push(vs.skip(1), x);
        assert(vals_joined(vs.push(x)) =~= vals_joined(vs) + ", "@ + val_str(x));
    }
}

/// The one-character string for a decimal digit.
fn digit_lit(d: u8) -> (s: &'static str)
    requires
        d < 10,
    ensures
        s@ == seq![digit_char(d as nat)],
{
    proof {
        reveal_strlit("0");
        reveal_strlit("1");
        reveal_strlit("2");
        reveal_strlit("3");
        reveal_strlit("4");
        reveal_strlit("5");
        reveal_strlit("6");
        reveal_strlit("7");
        reveal_strlit("8");
        reveal_strlit("9");
    }
    let s: &'static str = match d {
        0 => "0",
        1 => "1",
        2 => "2",
        3 => "3",
        4 => "4",
        5 => "5",
        6 => "6",
        7 => "7",
        8 => "8",
        _ => "9",
    };
    proof {
        assert(s@ =~= seq![digit_char(d as nat)]);
    }
    s
}

/// Decimal rendering of an unsigned number.
pub fn u128_dec_string(n: u128) -> (s: String)
    ensures
        s@ == dec_str(n as nat),
    decreases n,
{
    if n < 10 {
        String::from_str(digit_lit(n as u8))
    } else {
        let mut s: String = u128_dec_string(n / 10);
        s.append(digit_lit((n % 10) as u8));
        proof {
            assert(s@ =~= dec_str(n as nat));
        }
        s
    }
}

/// Decimal rendering of a signed number, with a leading minus sign when
/// negative.
pub fn i128_dec_string(n: i128) -> (s: String)
    ensures
        s@ == int_dec_str(n as int),
{
    if n >= 0 {
        u128_dec_string(n as u128)
    } else {
        // The magnitude of `n`, computed without overflowing `i128`.
        let stem: i128 = -(n + 1);
        let mag: u128 = (stem as u128) + 1;
        proof {
            assert(mag as int == -(n as int));
        }
        let mut s: String = String::from_str("-");
        let digits: String = u128_dec_string(mag);
        s.append(digits.as_str());
        proof {
            reveal_strlit("-");
            assert(s@ =~= int_dec_str(n as int));
        }
        s
    }
}

/// Canonical textual form of a runtime value.
pub fn value_string(v: &ParamValue) -> (s: String)
    ensures
        s@ == val_str(val_of(*v)),
{
    match v {
        ParamValue::Bool(b) => {
            if *b {
                String::from_str("true")
            } else {
                String::from_str("false")
            }
        },
        ParamValue::U8(n) => u128_dec_string(*n as u128),
        ParamValue::U16(n) => u128_dec_string(*n as u128),
        ParamValue::U32(n) => u128_dec_string(*n as u128),
        ParamValue::U64(n) => u128_dec_string(*n as u128),
        ParamValue::U128(n) => u128_dec_string(*n),
        ParamValue::Usize(n) => u128_dec_string(*n as u128),
        ParamValue::I8(n) => i128_dec_string(*n as i128),
        ParamValue::I16(n) => i128_dec_string(*n as i128),
        ParamValue::I32(n) => i128_dec_string(*n as i128),
        ParamValue::I64(n) => i128_dec_string(*n as i128),
        ParamValue::I128(n) => i128_dec_string(*n),
        ParamValue::Isize(n) => i128_dec_string(*n as i128),
        ParamValue::Text(s) => s.clone(),
    }
}

/// Render the members of a list joined by `", "`.
pub fn vals_joined_string(vs: &Vec<ParamValue>) -> (s: String)
    ensures
        s@ == vals_joined(crate::parameter::seq_vals(vs@)),
{
    let mut s: String = String::new();
    let n: usize = vs.len();
    let mut i: usize = 0;
    while i < n
        invariant
            i <= n,
            n == vs@.len(),
            s@ == vals_joined(crate::parameter::seq_vals(vs@).take(i as int)),
        decreases n - i,
    {
        proof {
            let all = crate::parameter::seq_vals(vs@);
            lemma_vals_joined_push(all.take(i as int), all[i as int]);
            assert(all.take(i as int).push(all[i as int]) =~= all.take(i + 1));
            assert(all[i as int] == val_of(vs@[i as int]));
        }
        if i > 0 {
            s.append(", ");
        }
        let piece: String = value_string(&vs[i]);
        s.append(piece.as_str());
        proof {
            let all = crate::parameter::seq_vals(vs@);
            if i == 0 {
                assert(s@ =~= vals_joined(all.take(i + 1)));
            } else {
                assert(s@ =~= vals_joined(all.take(i + 1)));
            }
        }
        i = i + 1;
    }
    proof {
        assert(crate::parameter::seq_vals(vs@).take(n as int) =~= crate::parameter::seq_vals(
            vs@,
        ));
    }
    s
}

/// Display name of a kind, as an executable conversion.
pub fn tag_string(t: TypeTag) -> (s: String)
    ensures
        s@ == tag_str(t),
{
    match t {
        TypeTag::Bool => String::from_str("bool"),
        TypeTag::U8 => String::from_str("u8"),
        TypeTag::U16 => String::from_str("u16"),
        TypeTag::U32 => String::from_str("u32"),
        TypeTag::U64 => String::from_str("u64"),
        TypeTag::U128 => String::from_str("u128"),
        TypeTag::Usize => String::from_str("usize"),
        TypeTag::I8 => String::from_str("i8"),
        TypeTag::I16 => String::from_str("i16"),
        TypeTag::I32 => String::from_str("i32"),
        TypeTag::I64 => String::from_str("i64"),
        TypeTag::I128 => String::from_str("i128"),
        TypeTag::Isize => String::from_str("isize"),
        TypeTag::Text => String::from_str("String"),
    }
}

} // verus!
