//! Laws of the registry, proved once and for all over the model
//! operations that the executable methods are specified against.

use crate::model::{BoxModel, EntryModel, access_m, add_m, add_ok, bump_n, core_at,
    find_entry, fresh_entry, lemma_find_entry_push, lemma_find_entry_some,
    lemma_find_entry_update, miss_m, render_box, render_entry, set_explanation_m, set_list_m,
    set_max_m, set_min_m, set_min_ok, set_range_m, set_unvisible_m, set_value_m, set_value_ok,
    value_at, value_viol_msgs, violations, with_value};
use crate::parameter::{BoundModel, CoreModel, ListModel, list_ok, max_ok, min_ok};
use crate::parse::{all_digits, digit_val, digits_val, int_body, int_syntax_ok, int_tag_max, int_tag_min, is_digit, is_int_tag, is_negative, parse_ok,
    parsed_int, parsed_val, tag_signed};
use crate::text::{dec_str, digit_char, int_dec_str, val_str};
use crate::value::{TypeTag, Val, val_lt};
use vstd::prelude::*;

verus! {

/// A key that was added and never set holds "no value": querying it
/// yields an empty value, not an error.
pub proof fn lemma_added_key_has_no_value(b: BoxModel, name: Seq<char>, tag: TypeTag)
    requires
        add_ok(b, name),
    ensures
        value_at(add_m(b, name, tag), name) == Some(None::<Val>),
{
    lemma_find_entry_push(b.entries, fresh_entry(name, tag), name);
}

/// An operation that names an unregistered key changes no entry: every
/// accessor and mutator maps an unknown name to a mere count of the error.
pub proof fn lemma_unknown_name_only_counts(
    b: BoxModel,
    name: Seq<char>,
    v: Val,
    mn: BoundModel,
    mx: BoundModel,
    l: ListModel,
    t: Seq<char>,
)
    requires
        find_entry(b.entries, name) is None,
    ensures
        set_value_m(b, name, v) == miss_m(b),
        set_range_m(b, name, mn, mx) == miss_m(b),
        set_min_m(b, name, mn) == miss_m(b),
        set_max_m(b, name, mx) == miss_m(b),
        set_list_m(b, name, l) == miss_m(b),
        set_explanation_m(b, name, t) == miss_m(b),
        set_unvisible_m(b, name) == miss_m(b),
        access_m(b, name) == miss_m(b),
        value_at(b, name) is None,
        miss_m(b).entries == b.entries,
        b.errors < u32::MAX ==> miss_m(b).errors == b.errors + 1,
{
}

/// Registering a name a second time is rejected and leaves the original
/// entry, its value and its constraints untouched; only the error counter
/// moves, by exactly one.
pub proof fn lemma_readd_rejected(b: BoxModel, name: Seq<char>, t1: TypeTag, t2: TypeTag)
    ensures
        ({
            let b1 = add_m(b, name, t1);
            add_ok(b, name) ==> {
                &&& !add_ok(b1, name)
                &&& add_m(b1, name, t2).entries == b1.entries
                &&& b1.errors < u32::MAX ==> add_m(b1, name, t2).errors == b1.errors + 1
            }
        }),
{
    if add_ok(b, name) {
        lemma_find_entry_push(b.entries, fresh_entry(name, t1), name);
    }
}

/// Inside an `Open(lo)` / `Close(hi)` range, setting an integer value
/// succeeds exactly on `lo < v <= hi`: the lower endpoint itself is
/// excluded and the upper endpoint included.
pub proof fn lemma_open_close_range(b: BoxModel, name: Seq<char>, lo: int, hi: int, v: int)
    requires
        find_entry(b.entries, name) is Some,
        core_at(b, name).min == Some(BoundModel::Open(Val::Int(lo))),
        core_at(b, name).max == Some(BoundModel::Close(Val::Int(hi))),
        core_at(b, name).list is None,
    ensures
        set_value_ok(b, name, Val::Int(v)) <==> (lo < v && v <= hi),
{
    let c2 = with_value(core_at(b, name), Val::Int(v));
    assert(min_ok(c2) <==> lo < v);
    assert(max_ok(c2) <==> v <= hi);
    assert(list_ok(c2));
}

/// With a block list and no bounds, setting a value succeeds exactly when
/// the value is not a member of the list.
pub proof fn lemma_block_list(b: BoxModel, name: Seq<char>, l: Seq<Val>, v: Val)
    requires
        find_entry(b.entries, name) is Some,
        core_at(b, name).min is None,
        core_at(b, name).max is None,
        core_at(b, name).list == Some(ListModel::Black(l)),
    ensures
        set_value_ok(b, name, v) <==> !l.contains(v),
{
}

/// With an allow list and no bounds, setting a value succeeds exactly
/// when the value is a member of the list.
pub proof fn lemma_allow_list(b: BoxModel, name: Seq<char>, l: Seq<Val>, v: Val)
    requires
        find_entry(b.entries, name) is Some,
        core_at(b, name).min is None,
        core_at(b, name).max is None,
        core_at(b, name).list == Some(ListModel::White(l)),
    ensures
        set_value_ok(b, name, v) <==> l.contains(v),
{
}

/// Attaching a bound after a value was set re-validates at once: setting
/// the value under no constraints succeeds and counts no error, a lower
/// bound attached afterwards is reported violated exactly when the stored
/// value lies below it, and the stored value stays set either way.
pub proof fn lemma_limit_revalidates(b: BoxModel, name: Seq<char>, v: Val, m: Val)
    requires
        find_entry(b.entries, name) is Some,
        core_at(b, name).min is None,
        core_at(b, name).max is None,
        core_at(b, name).list is None,
    ensures
        ({
            let b1 = set_value_m(b, name, v);
            &&& set_value_ok(b, name, v)
            &&& b1.errors == b.errors
            &&& set_min_ok(b1, name, BoundModel::Close(m)) <==> !val_lt(v, m)
            &&& value_at(set_min_m(b1, name, BoundModel::Close(m)), name) == Some(Some(v))
        }),
{
    let i = find_entry(b.entries, name)->Some_0;
    lemma_find_entry_some(b.entries, name);
    let c2 = with_value(core_at(b, name), v);
    assert(violations(c2) == 0);
    assert(bump_n(b.errors, 0) == b.errors);
    let e1 = EntryModel { core: c2, ..b.entries[i] };
    lemma_find_entry_update(b.entries, i, e1, name);
    let b1 = set_value_m(b, name, v);
    assert(b1.entries == b.entries.update(i, e1));
    assert(find_entry(b1.entries, name) == Some(i));
    assert(b1.entries[i] == e1);
    let c3 = CoreModel { min: Some(BoundModel::Close(m)), ..c2 };
    assert(min_ok(c3) <==> !val_lt(v, m));
    let e2 = EntryModel { core: c3, ..e1 };
    lemma_find_entry_update(b1.entries, i, e2, name);
    let b2 = set_min_m(b1, name, BoundModel::Close(m));
    assert(b2.entries == b1.entries.update(i, e2));
    assert(find_entry(b2.entries, name) == Some(i));
    assert(b2.entries[i].core.value == Some(v));
}

/// Each failed operation moves the error counter by exactly one while it
/// has room: a duplicate registration, an unknown-name reference, and
/// each violated condition of one value set; and the violation report of
/// a set holds exactly one message per violated condition.
pub proof fn lemma_error_counting(b: BoxModel, name: Seq<char>, tag: TypeTag, v: Val)
    requires
        b.errors < u32::MAX,
    ensures
        !add_ok(b, name) ==> add_m(b, name, tag).errors == b.errors + 1,
        find_entry(b.entries, name) is None ==> set_value_m(b, name, v).errors == b.errors + 1,
        find_entry(b.entries, name) is Some ==> ({
            let c2 = with_value(core_at(b, name), v);
            &&& b.errors + violations(c2) <= u32::MAX ==> set_value_m(b, name, v).errors
                == b.errors + violations(c2)
            &&& value_viol_msgs(name, c2).len() == violations(c2)
        }),
{
    if find_entry(b.entries, name) is Some {
        let c2 = with_value(core_at(b, name), v);
        if b.errors + violations(c2) <= u32::MAX {
            crate::model::lemma_bump_n_exact(b.errors, violations(c2));
        }
    }
}

/// The error counter is monotone: no operation, hit or miss, succeeding
/// or failing, ever lowers it.
pub proof fn lemma_error_counter_monotone(
    b: BoxModel,
    name: Seq<char>,
    tag: TypeTag,
    v: Val,
    mn: BoundModel,
    mx: BoundModel,
    l: ListModel,
    t: Seq<char>,
)
    ensures
        add_m(b, name, tag).errors >= b.errors,
        set_value_m(b, name, v).errors >= b.errors,
        set_range_m(b, name, mn, mx).errors >= b.errors,
        set_min_m(b, name, mn).errors >= b.errors,
        set_max_m(b, name, mx).errors >= b.errors,
        set_list_m(b, name, l).errors >= b.errors,
        set_explanation_m(b, name, t).errors >= b.errors,
        set_unvisible_m(b, name).errors >= b.errors,
        access_m(b, name).errors >= b.errors,
{
    if find_entry(b.entries, name) is Some {
        let i = find_entry(b.entries, name)->Some_0;
        lemma_find_entry_some(b.entries, name);
        crate::model::lemma_bump_n_ge(b.errors, violations(with_value(b.entries[i].core, v)));
        crate::model::lemma_bump_n_ge(
            b.errors,
            crate::model::range_violations(
                CoreModel { min: Some(mn), max: Some(mx), ..b.entries[i].core },
            ),
        );
        crate::model::lemma_bump_n_ge(b.errors, 0nat);
        crate::model::lemma_bump_n_ge(b.errors, 1nat);
    }
}

/// The decimal rendering of a natural number is all digits and denotes
/// the number itself.
pub proof fn lemma_dec_str_round_trip(n: nat)
    ensures
        dec_str(n).len() > 0,
        all_digits(dec_str(n)),
        digits_val(dec_str(n)) == n,
    decreases n,
{
    if n < 10 {
        let s = dec_str(n);
        assert(s.drop_last() =~= Seq::<char>::empty());
        assert(s.last() == digit_char(n));
        assert(digits_val(Seq::<char>::empty()) == 0);
        assert(digits_val(s) == digit_val(digit_char(n)));
        assert(digit_val(digit_char(n)) == n);
        assert(is_digit(digit_char(n)));
    } else {
        lemma_dec_str_round_trip(n / 10);
        let s = dec_str(n);
        assert(s =~= dec_str(n / 10) + seq![digit_char(n % 10)]);
        assert(s.drop_last() =~= dec_str(n / 10));
        assert(s.last() == digit_char(n % 10));
        assert(digit_val(digit_char(n % 10)) == n % 10);
        vstd::arithmetic::div_mod::lemma_fundamental_div_mod(n as int, 10);
        assert forall|i: int| 0 <= i < s.len() implies is_digit(s[i]) by {
            if i < dec_str(n / 10).len() {
                assert(s[i] == dec_str(n / 10)[i]);
            } else {
                assert(s[i] == digit_char(n % 10));
            }
        }
    }
}

/// The rendering of an integer parses back to the integer itself: its
/// textual form is well-formed integer syntax, carries a minus sign
/// exactly when the integer is negative, and denotes the integer.
pub proof fn lemma_int_text_round_trip(n: int)
    ensures
        int_syntax_ok(int_dec_str(n)),
        is_negative(int_dec_str(n)) <==> n < 0,
        parsed_int(int_dec_str(n)) == n,
{
    if n < 0 {
        lemma_dec_str_round_trip((-n) as nat);
        let s = int_dec_str(n);
        assert(s =~= seq!['-'] + dec_str((-n) as nat));
        assert(s[0] == '-');
        assert(s.skip(1) =~= dec_str((-n) as nat));
    } else {
        lemma_dec_str_round_trip(n as nat);
        let s = int_dec_str(n);
        assert(is_digit(s[0]));
        assert(s[0] != '+' && s[0] != '-');
        assert(int_body(s) == s);
    }
}

/// A value rendered to text converts back to the same value under its own
/// kind: integers within their kind's range, booleans, and text all round
/// trip through their canonical textual form.
pub proof fn lemma_value_text_round_trip(t: TypeTag, v: Val)
    requires
        match (t, v) {
            (TypeTag::Bool, Val::Bool(_)) => true,
            (TypeTag::Text, Val::Text(_)) => true,
            (_, Val::Int(n)) => is_int_tag(t) && int_tag_min(t) <= n <= int_tag_max(t),
            _ => false,
        },
    ensures
        parse_ok(t, val_str(v)),
        parsed_val(t, val_str(v)) == v,
{
    match v {
        Val::Bool(b) => {
            reveal_strlit("true");
            reveal_strlit("false");
            assert("true"@.len() != "false"@.len());
        },
        Val::Int(n) => {
            lemma_int_text_round_trip(n);
            if n < 0 {
                assert(tag_signed(t)) by {
                    assert(int_tag_min(t) <= n < 0);
                }
            }
        },
        Val::Text(_) => {},
    }
}

/// Splitting the report at one entry: the blocks before, the entry's own
/// block, the blocks after.
pub proof fn lemma_render_box_split(es: Seq<EntryModel>, i: int)
    requires
        0 <= i < es.len(),
    ensures
        render_box(es) == render_box(es.take(i)) + render_entry(es[i]) + render_box(
            es.skip(i + 1),
        ),
    decreases i,
{
    if i == 0 {
        assert(es.take(0) =~= Seq::<EntryModel>::empty());
        assert(render_box(Seq::<EntryModel>::empty()) =~= Seq::<char>::empty());
        assert(es.skip(1) =~= es.skip(0int + 1));
        assert(render_box(es) == render_entry(es[0]) + render_box(es.skip(1)));
        assert(render_box(es.take(0)) + render_entry(es[0]) + render_box(es.skip(1))
            =~= render_entry(es[0]) + render_box(es.skip(1)));
    } else {
        lemma_render_box_split(es.skip(1), i - 1);
        assert(es.skip(1).take(i - 1) =~= es.take(i).skip(1));
        assert(es.skip(1)[i - 1] == es[i]);
        assert(es.skip(1).skip(i) =~= es.skip(i + 1));
        assert(render_box(es) == render_entry(es[0]) + render_box(es.skip(1)));
        assert(render_box(es.take(i)) == render_entry(es.take(i)[0]) + render_box(
            es.take(i).skip(1),
        ));
        assert(es.take(i)[0] == es[0]);
        assert(render_entry(es[0]) + (render_box(es.take(i).skip(1)) + render_entry(es[i])
            + render_box(es.skip(i + 1))) =~= (render_entry(es[0]) + render_box(
            es.take(i).skip(1),
        )) + render_entry(es[i]) + render_box(es.skip(i + 1)));
    }
}

/// Hiding a key removes exactly its block from the report, and the key's
/// stored value, its lookup and the error counter stay as they were.
pub proof fn lemma_unvisible_hides_only_render(b: BoxModel, name: Seq<char>)
    requires
        find_entry(b.entries, name) is Some,
    ensures
        ({
            let i = find_entry(b.entries, name)->Some_0;
            let b2 = set_unvisible_m(b, name);
            &&& render_box(b2.entries) == render_box(b.entries.take(i)) + render_box(
                b.entries.skip(i + 1),
            )
            &&& value_at(b2, name) == value_at(b, name)
            &&& value_at(b2, name) is Some
            &&& b2.errors == b.errors
        }),
{
    let i = find_entry(b.entries, name)->Some_0;
    lemma_find_entry_some(b.entries, name);
    let e2 = EntryModel { unvisible: true, ..b.entries[i] };
    let b2 = set_unvisible_m(b, name);
    assert(b2.entries == b.entries.update(i, e2));
    lemma_find_entry_update(b.entries, i, e2, name);
    lemma_render_box_split(b2.entries, i);
    assert(b2.entries.take(i) =~= b.entries.take(i));
    assert(b2.entries.skip(i + 1) =~= b.entries.skip(i + 1));
    assert(b2.entries[i] == e2);
    assert(render_entry(e2) =~= Seq::<char>::empty());
    assert(render_box(b2.entries.take(i)) + render_entry(e2) + render_box(
        b2.entries.skip(i + 1),
    ) =~= render_box(b.entries.take(i)) + render_box(b.entries.skip(i + 1)));
}

} // verus!
