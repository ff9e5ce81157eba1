//! Conversion of text to parameter values, and the splitting of
//! configuration lines into whitespace-separated tokens.
//!
//! A value token is parsed according to the entry's declared kind: `true`
//! or `false` for booleans, an optional sign followed by decimal digits for
//! the integer kinds (rejected when out of the kind's range), and the token
//! itself for text.  The specification says exactly which strings parse and
//! to what value.

use crate::value::{ParamValue, TypeTag, Val, tag_of, val_of};
use vstd::arithmetic::div_mod::lemma_fundamental_div_mod;
use vstd::prelude::*;
use vstd::string::StrSliceExecFns;
use vstd::string::StringExecFns;

verus! {

/// A decimal digit.
pub open spec fn is_digit(c: char) -> bool {
    ('0' as u32) <= (c as u32) && (c as u32) <= ('9' as u32)
}

/// The numeric value of a decimal digit.
pub open spec fn digit_val(c: char) -> nat {
    ((c as u32) - ('0' as u32)) as nat
}

/// Every character is a decimal digit.
pub open spec fn all_digits(s: Seq<char>) -> bool {
    forall|i: int| 0 <= i < s.len() ==> is_digit(s[i])
}

/// The number a digit sequence denotes, most significant digit first.
pub open spec fn digits_val(s: Seq<char>) -> nat
    decreases s.len(),
{
    if s.len() == 0 {
        0
    } else {
        digits_val(s.drop_last()) * 10 + digit_val(s.last())
    }
}

/// The token with a single leading sign removed.
pub open spec fn int_body(s: Seq<char>) -> Seq<char> {
    if s.len() > 0 && (s[0] == '+' || s[0] == '-') {
        s.skip(1)
    } else {
        s
    }
}

/// Whether the token carries a minus sign.
pub open spec fn is_negative(s: Seq<char>) -> bool {
    s.len() > 0 && s[0] == '-'
}

/// Whether the token is an optional sign followed by at least one digit.
pub open spec fn int_syntax_ok(s: Seq<char>) -> bool {
    int_body(s).len() > 0 && all_digits(int_body(s))
}

/// The integer a well-formed token denotes.
pub open spec fn parsed_int(s: Seq<char>) -> int {
    if is_negative(s) {
        -(digits_val(int_body(s)) as int)
    } else {
        digits_val(int_body(s)) as int
    }
}

/// Whether the kind holds integers.
pub open spec fn is_int_tag(t: TypeTag) -> bool {
    t != TypeTag::Bool && t != TypeTag::Text
}

/// Whether the kind admits negative values.
pub open spec fn tag_signed(t: TypeTag) -> bool {
    match t {
        TypeTag::I8 | TypeTag::I16 | TypeTag::I32 | TypeTag::I64 | TypeTag::I128
            | TypeTag::Isize => true,
        _ => false,
    }
}

/// Smallest value of an integer kind.
pub open spec fn int_tag_min(t: TypeTag) -> int {
    match t {
        TypeTag::I8 => i8::MIN as int,
        TypeTag::I16 => i16::MIN as int,
        TypeTag::I32 => i32::MIN as int,
        TypeTag::I64 => i64::MIN as int,
        TypeTag::I128 => i128::MIN as int,
        TypeTag::Isize => isize::MIN as int,
        _ => 0,
    }
}

/// Largest value of an integer kind.
pub open spec fn int_tag_max(t: TypeTag) -> int {
    match t {
        TypeTag::U8 => u8::MAX as int,
        TypeTag::U16 => u16::MAX as int,
        TypeTag::U32 => u32::MAX as int,
        TypeTag::U64 => u64::MAX as int,
        TypeTag::U128 => u128::MAX as int,
        TypeTag::Usize => usize::MAX as int,
        TypeTag::I8 => i8::MAX as int,
        TypeTag::I16 => i16::MAX as int,
        TypeTag::I32 => i32::MAX as int,
        TypeTag::I64 => i64::MAX as int,
        TypeTag::I128 => i128::MAX as int,
        TypeTag::Isize => isize::MAX as int,
        _ => 0,
    }
}

/// Which tokens convert to a value of the given kind.
pub open spec fn parse_ok(t: TypeTag, s: Seq<char>) -> bool {
    match t {
        TypeTag::Bool => s == "true"@ || s == "false"@,
        TypeTag::Text => true,
        _ => {
            &&& int_syntax_ok(s)
            &&& (tag_signed(t) || !is_negative(s))
            &&& int_tag_min(t) <= parsed_int(s) <= int_tag_max(t)
        },
    }
}

/// The value a well-formed token denotes, for the given kind.
pub open spec fn parsed_val(t: TypeTag, s: Seq<char>) -> Val {
    match t {
        TypeTag::Bool => Val::Bool(s == "true"@),
        TypeTag::Text => Val::Text(s),
        _ => Val::Int(parsed_int(s)),
    }
}

/// A whitespace separator: the characters with the Unicode white-space
/// property, on any of which a configuration line splits.
pub open spec fn is_ws(c: char) -> bool {
    ||| (('\t' as u32) <= (c as u32) && (c as u32) <= ('\r' as u32))
    ||| c == ' '
    ||| c == '\u{85}'
    ||| c == '\u{a0}'
    ||| c == '\u{1680}'
    ||| (('\u{2000}' as u32) <= (c as u32) && (c as u32) <= ('\u{200a}' as u32))
    ||| c == '\u{2028}'
    ||| c == '\u{2029}'
    ||| c == '\u{202f}'
    ||| c == '\u{205f}'
    ||| c == '\u{3000}'
}

/// Length of the leading run of non-whitespace characters.
pub open spec fn token_len(s: Seq<char>) -> nat
    decreases s.len(),
{
    if s.len() == 0 || is_ws(s[0]) {
        0
    } else {
        1 + token_len(s.skip(1))
    }
}

/// The leading token never runs past the end.
pub proof fn lemma_token_len_le(s: Seq<char>)
    ensures
        token_len(s) <= s.len(),
    decreases s.len(),
{
    if s.len() > 0 && !is_ws(s[0]) {
        lemma_token_len_le(s.skip(1));
    }
}

/// The whitespace-separated tokens of a line, in order.
pub open spec fn tokens_of(s: Seq<char>) -> Seq<Seq<char>>
    decreases s.len(),
    via tokens_of_decreases
{
    if s.len() == 0 {
        seq![]
    } else if is_ws(s[0]) {
        tokens_of(s.skip(1))
    } else {
        seq![s.take(token_len(s) as int)] + tokens_of(s.skip(token_len(s) as int))
    }
}

#[via_fn]
proof fn tokens_of_decreases(s: Seq<char>) {
    lemma_token_len_le(s);
}

/// A scan that ran to the first whitespace (or the end) measured the
/// leading token.
proof fn lemma_token_len_eq(t: Seq<char>, n: nat)
    requires
        n <= t.len(),
        forall|k: int| 0 <= k < n ==> !is_ws(t[k]),
        n == t.len() || is_ws(t[n as int]),
    ensures
        token_len(t) == n,
    decreases n,
{
    if n == 0 {
    } else {
        assert(!is_ws(t[0]));
        lemma_token_len_eq(t.skip(1), (n - 1) as nat);
    }
}

/// The views of a sequence of strings.
pub open spec fn strs_views(ss: Seq<String>) -> Seq<Seq<char>> {
    ss.map_values(|t: String| t@)
}

/// Whether a character is a whitespace separator.
fn is_ws_char(c: char) -> (r: bool)
    ensures
        r == is_ws(c),
{
    let cu: u32 = c as u32;
    (('\t' as u32) <= cu && cu <= ('\r' as u32)) || cu == (' ' as u32) || cu == ('\u{85}' as u32)
        || cu == ('\u{a0}' as u32) || cu == ('\u{1680}' as u32) || (('\u{2000}' as u32) <= cu
        && cu <= ('\u{200a}' as u32)) || cu == ('\u{2028}' as u32) || cu == ('\u{2029}' as u32)
        || cu == ('\u{202f}' as u32) || cu == ('\u{205f}' as u32) || cu == ('\u{3000}' as u32)
}

/// Split a line into its whitespace-separated tokens.
pub fn split_tokens(s: &str) -> (r: Vec<String>)
    ensures
        strs_views(r@) == tokens_of(s@),
        r@.len() == tokens_of(s@).len(),
        forall|k: int| 0 <= k < r@.len() ==> r@[k]@ == tokens_of(s@)[k],
{
    let n: usize = s.unicode_len();
    let mut r: Vec<String> = Vec::new();
    let mut i: usize = 0;
    proof {
        assert(s@.skip(0) =~= s@);
        assert(strs_views(r@) =~= Seq::<Seq<char>>::empty());
    }
    while i < n
        invariant
            i <= n,
            n == s@.len(),
            tokens_of(s@) == strs_views(r@) + tokens_of(s@.skip(i as int)),
        decreases n - i,
    {
        let c: char = s.get_char(i);
        if is_ws_char(c) {
            proof {
                assert(s@.skip(i as int)[0] == s@[i as int]);
                assert(s@.skip(i as int).skip(1) =~= s@.skip(i + 1));
            }
            i = i + 1;
        } else {
            let mut j: usize = i;
            let mut done: bool = false;
            while !done
                invariant
                    i <= j <= n,
                    n == s@.len(),
                    forall|k: int| i <= k < j ==> !is_ws(s@[k]),
                    done ==> j == n || is_ws(s@[j as int]),
                decreases n - j + (if done {
                    0int
                } else {
                    1int
                }),
            {
                if j >= n {
                    done = true;
                } else {
                    let cj: char = s.get_char(j);
                    if is_ws_char(cj) {
                        done = true;
                    } else {
                        j = j + 1;
                    }
                }
            }
            let tok: &str = s.substring_char(i, j);
            let ghost r0 = r@;
            r.push(String::from_str(tok));
            proof {
                let rem = s@.skip(i as int);
                assert forall|k: int| 0 <= k < j - i implies !is_ws(rem[k]) by {
                    assert(rem[k] == s@[i + k]);
                }
                if j < n {
                    assert(rem[j - i] == s@[j as int]);
                }
                lemma_token_len_eq(rem, (j - i) as nat);
                assert(rem[0] == s@[i as int]);
                assert(!is_ws(rem[0]));
                assert(rem.take(j - i) =~= s@.subrange(i as int, j as int));
                assert(rem.skip(j - i) =~= s@.skip(j as int));
                assert(tokens_of(rem) == seq![tok@] + tokens_of(s@.skip(j as int)));
                assert(strs_views(r@) =~= strs_views(r0).push(tok@));
                assert(strs_views(r0).push(tok@) + tokens_of(s@.skip(j as int)) =~= strs_views(
                    r0,
                ) + tokens_of(rem));
            }
            i = j;
        }
    }
    proof {
        assert(s@.skip(n as int) =~= Seq::<char>::empty());
        assert(tokens_of(Seq::<char>::empty()) =~= Seq::<Seq<char>>::empty());
        assert(strs_views(r@) =~= tokens_of(s@));
    }
    r
}

/// One more digit multiplies the denoted number by ten and adds the digit.
proof fn lemma_digits_val_push(p: Seq<char>, c: char)
    ensures
        digits_val(p.push(c)) == digits_val(p) * 10 + digit_val(c),
{
    assert(p.push(c).drop_last() =~= p);
    assert(p.push(c).last() == c);
}

/// Once the denoted number exceeds a bound, further digits keep it above.
proof fn lemma_digits_val_grows(p: Seq<char>, c: char)
    ensures
        digits_val(p.push(c)) >= digits_val(p),
{
    lemma_digits_val_push(p, c);
    let d = digits_val(p) as int;
    assert(d * 10 >= d) by (nonlinear_arith)
        requires
            d >= 0,
    ;
}

/// The magnitude bound for a token of the given kind and sign: how large
/// the digits may denote.
fn mag_bound(t: TypeTag, neg: bool) -> (b: u128)
    requires
        is_int_tag(t),
        neg ==> tag_signed(t),
    ensures
        b as int == if neg {
            -int_tag_min(t)
        } else {
            int_tag_max(t)
        },
{
    match t {
        TypeTag::U8 => u8::MAX as u128,
        TypeTag::U16 => u16::MAX as u128,
        TypeTag::U32 => u32::MAX as u128,
        TypeTag::U64 => u64::MAX as u128,
        TypeTag::U128 => u128::MAX,
        TypeTag::Usize => usize::MAX as u128,
        TypeTag::I8 => if neg {
            128
        } else {
            127
        },
        TypeTag::I16 => if neg {
            32768
        } else {
            32767
        },
        TypeTag::I32 => if neg {
            2147483648
        } else {
            2147483647
        },
        TypeTag::I64 => if neg {
            9223372036854775808
        } else {
            9223372036854775807
        },
        TypeTag::I128 => if neg {
            170141183460469231731687303715884105728
        } else {
            170141183460469231731687303715884105727
        },
        TypeTag::Isize => if neg {
            (isize::MAX as u128) + 1
        } else {
            isize::MAX as u128
        },
        _ => 0,
    }
}

/// Read the digits of an integer token into a magnitude, reporting when
/// they denote more than the bound.
fn digits_to_mag(s: &str, start: usize, n: usize, bound: u128) -> (r: Result<u128, ()>)
    requires
        start < n,
        n == s@.len(),
    ensures
        match r {
            Ok(acc) => {
                &&& all_digits(s@.skip(start as int))
                &&& acc as nat == digits_val(s@.skip(start as int))
                &&& acc <= bound
            },
            Err(()) => !(all_digits(s@.skip(start as int)) && digits_val(
                s@.skip(start as int),
            ) <= bound),
        },
{
    let ghost body = s@.skip(start as int);
    let mut acc: u128 = 0;
    let mut over: bool = false;
    let mut i: usize = start;
    proof {
        assert(body.take(0) =~= Seq::<char>::empty());
    }
    while i < n
        invariant
            start <= i <= n,
            n == s@.len(),
            body == s@.skip(start as int),
            all_digits(body.take(i - start)),
            !over ==> acc as nat == digits_val(body.take(i - start)) && acc <= bound,
            over ==> digits_val(body.take(i - start)) > bound,
        decreases n - i,
    {
        let c: char = s.get_char(i);
        proof {
            assert(body[i - start] == s@[i as int]);
        }
        let cu: u32 = c as u32;
        if cu < 48 || cu > 57 {
            proof {
                assert(!is_digit(body[i - start]));
            }
            return Err(());
        }
        let d: u128 = (cu - 48) as u128;
        let ghost prefix = body.take(i - start);
        proof {
            assert(prefix.push(c) =~= body.take(i + 1 - start));
            lemma_digits_val_push(prefix, c);
            assert(d as nat == digit_val(c));
        }
        if !over {
            if acc > bound / 10 {
                over = true;
                proof {
                    lemma_fundamental_div_mod(bound as int, 10);
                    let a = acc as int;
                    let q = (bound / 10) as int;
                    assert(a * 10 >= (q + 1) * 10) by (nonlinear_arith)
                        requires
                            a >= q + 1,
                    ;
                    assert(digits_val(body.take(i + 1 - start)) > bound);
                }
            } else {
                proof {
                    lemma_fundamental_div_mod(bound as int, 10);
                    let a = acc as int;
                    let q = (bound / 10) as int;
                    assert(a * 10 <= q * 10) by (nonlinear_arith)
                        requires
                            a <= q,
                    ;
                }
                let tmp: u128 = acc * 10;
                if d > bound - tmp {
                    over = true;
                    proof {
                        assert(digits_val(body.take(i + 1 - start)) > bound);
                    }
                } else {
                    acc = tmp + d;
                }
            }
        } else {
            proof {
                lemma_digits_val_grows(prefix, c);
            }
        }
        i = i + 1;
    }
    proof {
        assert(body.take(n - start) =~= body);
    }
    if over {
        Err(())
    } else {
        Ok(acc)
    }
}

/// Convert one token to a value of the given kind.  Exactly the tokens
/// that [`parse_ok`] admits convert, to the value [`parsed_val`] gives.
pub fn parse_value(tag: TypeTag, s: &str) -> (r: Result<ParamValue, ()>)
    ensures
        r is Ok <==> parse_ok(tag, s@),
        match r {
            Ok(v) => tag_of(v) == tag && val_of(v) == parsed_val(tag, s@),
            Err(()) => true,
        },
{
    match tag {
        TypeTag::Bool => {
            if crate::value::str_eq(s, "true") {
                Ok(ParamValue::Bool(true))
            } else if crate::value::str_eq(s, "false") {
                Ok(ParamValue::Bool(false))
            } else {
                Err(())
            }
        },
        TypeTag::Text => Ok(ParamValue::Text(String::from_str(s))),
        _ => {
            let n: usize = s.unicode_len();
            if n == 0 {
                return Err(());
            }
            let c0: char = s.get_char(0);
            let neg: bool = (c0 as u32) == ('-' as u32);
            let has_sign: bool = neg || (c0 as u32) == ('+' as u32);
            proof {
                assert(neg == (s@[0] == '-'));
                assert(has_sign == (s@[0] == '+' || s@[0] == '-'));
            }
            let signed: bool = match tag {
                TypeTag::I8 | TypeTag::I16 | TypeTag::I32 | TypeTag::I64 | TypeTag::I128
                    | TypeTag::Isize => true,
                _ => false,
            };
            if neg && !signed {
                return Err(());
            }
            let start: usize = if has_sign {
                1
            } else {
                0
            };
            if start == n {
                proof {
                    assert(int_body(s@).len() == 0);
                }
                return Err(());
            }
            let bound: u128 = mag_bound(tag, neg);
            let mag: u128 = match digits_to_mag(s, start, n, bound) {
                Ok(m) => m,
                Err(()) => {
                    proof {
                        if has_sign {
                            assert(int_body(s@) =~= s@.skip(1));
                        } else {
                            assert(int_body(s@) =~= s@);
                            assert(s@.skip(0) =~= s@);
                        }
                    }
                    return Err(());
                },
            };
            proof {
                if has_sign {
                    assert(int_body(s@) =~= s@.skip(1));
                } else {
                    assert(int_body(s@) =~= s@);
                    assert(s@.skip(0) =~= s@);
                }
                assert(mag as nat == digits_val(int_body(s@)));
                if neg {
                    assert(parsed_int(s@) == -(mag as int));
                } else {
                    assert(parsed_int(s@) == mag as int);
                }
            }
            match tag {
                TypeTag::U8 => Ok(ParamValue::U8(mag as u8)),
                TypeTag::U16 => Ok(ParamValue::U16(mag as u16)),
                TypeTag::U32 => Ok(ParamValue::U32(mag as u32)),
                TypeTag::U64 => Ok(ParamValue::U64(mag as u64)),
                TypeTag::U128 => Ok(ParamValue::U128(mag)),
                TypeTag::Usize => Ok(ParamValue::Usize(mag as usize)),
                TypeTag::I8 | TypeTag::I16 | TypeTag::I32 | TypeTag::I64 | TypeTag::I128
                    | TypeTag::Isize => {
                    let m: i128 = if neg {
                        if mag == 0 {
                            0
                        } else {
                            -((mag - 1) as i128) - 1
                        }
                    } else {
                        mag as i128
                    };
                    proof {
                        assert(m as int == parsed_int(s@));
                    }
                    match tag {
                        TypeTag::I8 => Ok(ParamValue::I8(m as i8)),
                        TypeTag::I16 => Ok(ParamValue::I16(m as i16)),
                        TypeTag::I32 => Ok(ParamValue::I32(m as i32)),
                        TypeTag::I64 => Ok(ParamValue::I64(m as i64)),
                        TypeTag::I128 => Ok(ParamValue::I128(m)),
                        _ => Ok(ParamValue::Isize(m as isize)),
                    }
                },
                _ => {
                    proof {
                        assert(false);
                    }
                    Err(())
                },
            }
        },
    }
}

} // verus!
