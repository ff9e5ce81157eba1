//! The mathematical model of the registry and of each operation on it.
//!
//! Every public operation of the registry is described here as a function
//! from model to model: the executable methods are proved to realise these
//! functions, and the laws in [`crate::laws`] are proved about them.

use crate::parameter::{BoundModel, CoreModel, ListModel, empty_core, list_ok, max_ok, min_ok,
    min_err_str, max_err_str, list_err_str};
use crate::text::val_str;
use crate::value::{TypeTag, Val};
use vstd::prelude::*;

verus! {

/// Model of one registry entry.
#[verifier::ext_equal]
pub ghost struct EntryModel {
    pub name: Seq<char>,
    pub tag: TypeTag,
    pub core: CoreModel,
    pub explanation: Option<Seq<char>>,
    pub unvisible: bool,
}

/// Model of the whole registry: the entries in registration order and the
/// diagnostic error counter.
#[verifier::ext_equal]
pub ghost struct BoxModel {
    pub entries: Seq<EntryModel>,
    pub errors: nat,
}

/// Index of the first entry with the given name, if any.
pub open spec fn find_entry(es: Seq<EntryModel>, name: Seq<char>) -> Option<int>
    decreases es.len(),
{
    if es.len() == 0 {
        None
    } else if es[0].name == name {
        Some(0int)
    } else {
        match find_entry(es.skip(1), name) {
            Some(i) => Some(i + 1),
            None => None,
        }
    }
}

/// A scan that found the name at `i`, with no earlier occurrence, computed
/// `find_entry`.
pub proof fn lemma_find_entry_present(es: Seq<EntryModel>, name: Seq<char>, i: int)
    requires
        0 <= i < es.len(),
        es[i].name == name,
        forall|j: int| 0 <= j < i ==> es[j].name != name,
    ensures
        find_entry(es, name) == Some(i),
    decreases i,
{
    if i > 0 {
        lemma_find_entry_present(es.skip(1), name, i - 1);
    }
}

/// A scan that found no occurrence computed `find_entry` too.
pub proof fn lemma_find_entry_absent(es: Seq<EntryModel>, name: Seq<char>)
    requires
        forall|j: int| 0 <= j < es.len() ==> es[j].name != name,
    ensures
        find_entry(es, name) is None,
    decreases es.len(),
{
    if es.len() > 0 {
        lemma_find_entry_absent(es.skip(1), name);
    }
}

/// What `find_entry` returns is a real occurrence of the name.
pub proof fn lemma_find_entry_some(es: Seq<EntryModel>, name: Seq<char>)
    requires
        find_entry(es, name) is Some,
    ensures
        0 <= find_entry(es, name)->Some_0 < es.len(),
        es[find_entry(es, name)->Some_0].name == name,
    decreases es.len(),
{
    if es.len() > 0 && es[0].name != name {
        lemma_find_entry_some(es.skip(1), name);
    }
}

/// Appending an entry leaves earlier lookups as they were and makes the new
/// name found.
pub proof fn lemma_find_entry_push(es: Seq<EntryModel>, e: EntryModel, name: Seq<char>)
    ensures
        find_entry(es.push(e), name) == if find_entry(es, name) is Some {
            find_entry(es, name)
        } else if e.name == name {
            Some(es.len() as int)
        } else {
            None::<int>
        },
    decreases es.len(),
{
    if es.len() > 0 {
        assert(es.push(e)[0] == es[0]);
        assert(es.push(e).skip(1) =~= es.skip(1).push(e));
        lemma_find_entry_push(es.skip(1), e, name);
        assert(es.skip(1).len() == es.len() - 1);
        if es[0].name == name {
            assert(find_entry(es, name) == Some(0int));
            assert(es.push(e).len() > 0 && es.push(e)[0].name == name);
            assert(find_entry(es.push(e), name) == Some(0int));
        } else {
            let tail = find_entry(es.skip(1).push(e), name);
            assert(find_entry(es.push(e), name) == match tail {
                Some(i) => Some(i + 1),
                None => None::<int>,
            });
            if find_entry(es.skip(1), name) is Some {
                assert(find_entry(es, name) == Some(find_entry(es.skip(1), name)->Some_0 + 1));
                assert(find_entry(es.push(e), name) == find_entry(es, name));
            } else if e.name == name {
                assert(find_entry(es, name) is None);
                assert(tail == Some(es.skip(1).len() as int));
                assert(find_entry(es.push(e), name) == Some(es.len() as int));
            } else {
                assert(tail is None);
                assert(find_entry(es.push(e), name) is None);
                assert(find_entry(es, name) is None);
            }
        }
    } else {
        assert(es.push(e).len() == 1);
        assert(es.push(e)[0] == e);
        assert(find_entry(es, name) is None);
        if e.name == name {
            assert(find_entry(es.push(e), name) == Some(0int));
        } else {
            assert(es.push(e).skip(1) =~= Seq::<EntryModel>::empty());
            assert(find_entry(Seq::<EntryModel>::empty(), name) is None);
            assert(find_entry(es.push(e), name) is None);
        }
    }
}

/// Replacing an entry without changing its name leaves every lookup where it
/// was.
pub proof fn lemma_find_entry_update(es: Seq<EntryModel>, i: int, e: EntryModel, name: Seq<char>)
    requires
        0 <= i < es.len(),
        es[i].name == e.name,
    ensures
        find_entry(es.update(i, e), name) == find_entry(es, name),
    decreases es.len(),
{
    if es.len() > 0 {
        if i == 0 {
            assert(es.update(i, e).skip(1) =~= es.skip(1));
        } else {
            assert(es.update(i, e).skip(1) =~= es.skip(1).update(i - 1, e));
            lemma_find_entry_update(es.skip(1), i - 1, e, name);
        }
    }
}

/// A name that `find_entry` does not find occurs nowhere.
pub proof fn lemma_find_entry_none(es: Seq<EntryModel>, name: Seq<char>)
    requires
        find_entry(es, name) is None,
    ensures
        forall|j: int| 0 <= j < es.len() ==> es[j].name != name,
    decreases es.len(),
{
    if es.len() > 0 {
        assert(es[0].name != name);
        lemma_find_entry_none(es.skip(1), name);
        assert forall|j: int| 1 <= j < es.len() implies es[j].name != name by {
            assert(es.skip(1)[j - 1] == es[j]);
        }
    }
}

/// The error counter after one more recorded error: it saturates at the
/// largest representable count instead of wrapping.
pub open spec fn bump(e: nat) -> nat {
    if e < u32::MAX {
        (e + 1) as nat
    } else {
        e
    }
}

/// The error counter after `k` more recorded errors.
pub open spec fn bump_n(e: nat, k: nat) -> nat
    decreases k,
{
    if k == 0 {
        e
    } else {
        bump(bump_n(e, (k - 1) as nat))
    }
}

/// The entry `add` creates.
pub open spec fn fresh_entry(name: Seq<char>, tag: TypeTag) -> EntryModel {
    EntryModel { name, tag, core: empty_core(), explanation: None, unvisible: false }
}

/// While the counter has room, recording errors adds them exactly.
pub proof fn lemma_bump_n_exact(e: nat, k: nat)
    requires
        e + k <= u32::MAX,
    ensures
        bump_n(e, k) == e + k,
    decreases k,
{
    if k > 0 {
        lemma_bump_n_exact(e, (k - 1) as nat);
    }
}

/// Recording errors never lowers the counter.
pub proof fn lemma_bump_n_ge(e: nat, k: nat)
    ensures
        bump_n(e, k) >= e,
    decreases k,
{
    if k > 0 {
        lemma_bump_n_ge(e, (k - 1) as nat);
    }
}

/// A core with its value replaced.
pub open spec fn with_value(c: CoreModel, v: Val) -> CoreModel {
    CoreModel { value: Some(v), ..c }
}

/// How many of the range checks the current value violates.
pub open spec fn range_violations(c: CoreModel) -> nat {
    (if min_ok(c) {
        0nat
    } else {
        1nat
    }) + (if max_ok(c) {
        0nat
    } else {
        1nat
    })
}

/// How many of the three checks the current value violates.
pub open spec fn violations(c: CoreModel) -> nat {
    range_violations(c) + (if list_ok(c) {
        0nat
    } else {
        1nat
    })
}

/// Whether the given kind agrees with the declared kind of the named entry;
/// vacuously true for an unknown name.
pub open spec fn tag_matches(b: BoxModel, name: Seq<char>, t: TypeTag) -> bool {
    match find_entry(b.entries, name) {
        Some(i) => b.entries[i].tag == t,
        None => true,
    }
}

/// The registry after a failed lookup: only the error counter moves.
pub open spec fn miss_m(b: BoxModel) -> BoxModel {
    BoxModel { entries: b.entries, errors: bump(b.errors) }
}

/// The registry after `add`.
pub open spec fn add_m(b: BoxModel, name: Seq<char>, tag: TypeTag) -> BoxModel {
    if find_entry(b.entries, name) is Some {
        miss_m(b)
    } else {
        BoxModel { entries: b.entries.push(fresh_entry(name, tag)), errors: b.errors }
    }
}

/// Whether `add` succeeds.
pub open spec fn add_ok(b: BoxModel, name: Seq<char>) -> bool {
    find_entry(b.entries, name) is None
}

/// The registry after `set_value`: the value is committed whether or not it
/// violates a constraint, and the counter moves once per violated check.
pub open spec fn set_value_m(b: BoxModel, name: Seq<char>, v: Val) -> BoxModel {
    match find_entry(b.entries, name) {
        None => miss_m(b),
        Some(i) => {
            let e = b.entries[i];
            let c2 = with_value(e.core, v);
            BoxModel {
                entries: b.entries.update(i, EntryModel { core: c2, ..e }),
                errors: bump_n(b.errors, violations(c2)),
            }
        },
    }
}

/// Whether `set_value` succeeds: the name is known and the new value
/// violates nothing.
pub open spec fn set_value_ok(b: BoxModel, name: Seq<char>, v: Val) -> bool {
    match find_entry(b.entries, name) {
        None => false,
        Some(i) => violations(with_value(b.entries[i].core, v)) == 0,
    }
}

/// The registry after `set_range`: both bounds are replaced, and a present
/// value is re-validated against them at once.
pub open spec fn set_range_m(b: BoxModel, name: Seq<char>, min: BoundModel, max: BoundModel)
    -> BoxModel {
    match find_entry(b.entries, name) {
        None => miss_m(b),
        Some(i) => {
            let e = b.entries[i];
            let c2 = CoreModel { min: Some(min), max: Some(max), ..e.core };
            BoxModel {
                entries: b.entries.update(i, EntryModel { core: c2, ..e }),
                errors: bump_n(b.errors, range_violations(c2)),
            }
        },
    }
}

/// Whether `set_range` succeeds.
pub open spec fn set_range_ok(b: BoxModel, name: Seq<char>, min: BoundModel, max: BoundModel)
    -> bool {
    match find_entry(b.entries, name) {
        None => false,
        Some(i) => range_violations(
            CoreModel { min: Some(min), max: Some(max), ..b.entries[i].core },
        ) == 0,
    }
}

/// The registry after `set_min_limit`: the lower bound alone is replaced and
/// a present value re-validated against it.
pub open spec fn set_min_m(b: BoxModel, name: Seq<char>, min: BoundModel) -> BoxModel {
    match find_entry(b.entries, name) {
        None => miss_m(b),
        Some(i) => {
            let e = b.entries[i];
            let c2 = CoreModel { min: Some(min), ..e.core };
            BoxModel {
                entries: b.entries.update(i, EntryModel { core: c2, ..e }),
                errors: bump_n(b.errors, if min_ok(c2) {
                    0nat
                } else {
                    1nat
                }),
            }
        },
    }
}

/// The registry after `set_max_limit`.
pub open spec fn set_max_m(b: BoxModel, name: Seq<char>, max: BoundModel) -> BoxModel {
    match find_entry(b.entries, name) {
        None => miss_m(b),
        Some(i) => {
            let e = b.entries[i];
            let c2 = CoreModel { max: Some(max), ..e.core };
            BoxModel {
                entries: b.entries.update(i, EntryModel { core: c2, ..e }),
                errors: bump_n(b.errors, if max_ok(c2) {
                    0nat
                } else {
                    1nat
                }),
            }
        },
    }
}

/// The registry after `set_blacklist` or `set_whitelist`: the previous list
/// condition, of either polarity, is replaced.
pub open spec fn set_list_m(b: BoxModel, name: Seq<char>, list: ListModel) -> BoxModel {
    match find_entry(b.entries, name) {
        None => miss_m(b),
        Some(i) => {
            let e = b.entries[i];
            let c2 = CoreModel { list: Some(list), ..e.core };
            BoxModel {
                entries: b.entries.update(i, EntryModel { core: c2, ..e }),
                errors: bump_n(b.errors, if list_ok(c2) {
                    0nat
                } else {
                    1nat
                }),
            }
        },
    }
}

/// The registry after `set_explanation`.
pub open spec fn set_explanation_m(b: BoxModel, name: Seq<char>, text: Seq<char>) -> BoxModel {
    match find_entry(b.entries, name) {
        None => miss_m(b),
        Some(i) => {
            let e = b.entries[i];
            BoxModel {
                entries: b.entries.update(i, EntryModel { explanation: Some(text), ..e }),
                errors: b.errors,
            }
        },
    }
}

/// The registry after `set_unvisible`.
pub open spec fn set_unvisible_m(b: BoxModel, name: Seq<char>) -> BoxModel {
    match find_entry(b.entries, name) {
        None => miss_m(b),
        Some(i) => {
            let e = b.entries[i];
            BoxModel {
                entries: b.entries.update(i, EntryModel { unvisible: true, ..e }),
                errors: b.errors,
            }
        },
    }
}

/// The registry after an accessor: a hit changes nothing, a miss moves the
/// counter.
pub open spec fn access_m(b: BoxModel, name: Seq<char>) -> BoxModel {
    if find_entry(b.entries, name) is Some {
        b
    } else {
        miss_m(b)
    }
}

/// The stored value of the named entry: `None` for an unknown name,
/// `Some(None)` for an entry declared but never set.
pub open spec fn value_at(b: BoxModel, name: Seq<char>) -> Option<Option<Val>> {
    match find_entry(b.entries, name) {
        Some(i) => Some(b.entries[i].core.value),
        None => None,
    }
}

/// The explanation of the named entry.
pub open spec fn explanation_at(b: BoxModel, name: Seq<char>) -> Option<Option<Seq<char>>> {
    match find_entry(b.entries, name) {
        Some(i) => Some(b.entries[i].explanation),
        None => None,
    }
}

/// The declared kind of the named entry.
pub open spec fn tag_at(b: BoxModel, name: Seq<char>) -> Option<TypeTag> {
    match find_entry(b.entries, name) {
        Some(i) => Some(b.entries[i].tag),
        None => None,
    }
}

/// The core of the named entry, where the name is known.
pub open spec fn core_at(b: BoxModel, name: Seq<char>) -> CoreModel {
    b.entries[find_entry(b.entries, name)->Some_0].core
}

/// Whether `set_min_limit` succeeds.
pub open spec fn set_min_ok(b: BoxModel, name: Seq<char>, min: BoundModel) -> bool {
    match find_entry(b.entries, name) {
        None => false,
        Some(i) => min_ok(CoreModel { min: Some(min), ..b.entries[i].core }),
    }
}

/// Whether `set_max_limit` succeeds.
pub open spec fn set_max_ok(b: BoxModel, name: Seq<char>, max: BoundModel) -> bool {
    match find_entry(b.entries, name) {
        None => false,
        Some(i) => max_ok(CoreModel { max: Some(max), ..b.entries[i].core }),
    }
}

/// Whether `set_blacklist` / `set_whitelist` succeeds.
pub open spec fn set_list_ok(b: BoxModel, name: Seq<char>, list: ListModel) -> bool {
    match find_entry(b.entries, name) {
        None => false,
        Some(i) => list_ok(CoreModel { list: Some(list), ..b.entries[i].core }),
    }
}

/// State of one file ingestion pass: the registry, the known keys
/// recorded so far (one record per line that named one, with its line
/// number), and the per-line error reports, in line order.
#[verifier::ext_equal]
pub ghost struct IngestState {
    pub box_m: BoxModel,
    pub seen: Seq<(Seq<char>, int)>,
    pub msgs: Seq<Seq<char>>,
}

/// Whether a line is ignored: empty, or a comment.
pub open spec fn line_skipped(l: Seq<char>) -> bool {
    l.len() == 0 || l[0] == '#'
}

/// The opening of a per-line report: which line of which file.
pub open spec fn line_prefix(n: int, fname: Seq<char>) -> Seq<char> {
    "ParameterBoxError: in the "@ + crate::text::dec_str(n as nat) + "-th line of the file '"@
        + fname + "', "@
}

/// Report for a line that is not `<key> <value>`.
pub open spec fn malformed_line_msg(n: int, fname: Seq<char>) -> Seq<char> {
    line_prefix(n, fname) + "each line must be '<name> <value>' in a parameter file."@
}

/// Report for a line naming a key that was never registered.
pub open spec fn unknown_key_msg(n: int, fname: Seq<char>, name: Seq<char>) -> Seq<char> {
    line_prefix(n, fname) + "`"@ + name + "` has not been added to a parameter box."@
}

/// Report for a value token that does not convert to the key's kind.
pub open spec fn parse_fail_msg(n: int, fname: Seq<char>, tok: Seq<char>, t: TypeTag)
    -> Seq<char> {
    line_prefix(n, fname) + "`"@ + tok + "` cannot parse to "@ + crate::text::tag_str(t) + "."@
}

/// The annotation appended to a constraint-violation report that arose
/// from a file line.
pub open spec fn line_annot(n: int, fname: Seq<char>) -> Seq<char> {
    " (in the "@ + crate::text::dec_str(n as nat) + "-th line of the file '"@ + fname + "')"@
}

/// The effect of one configuration line, the `n`-th of the file: errors
/// are reported but never stop the pass, and a parsed value is forwarded
/// to `set_value`, whose full violation report is kept, line-annotated.
pub open spec fn ingest_step(st: IngestState, l: Seq<char>, n: int, fname: Seq<char>)
    -> IngestState {
    if line_skipped(l) {
        st
    } else {
        let toks = crate::parse::tokens_of(l);
        if toks.len() == 0 {
            IngestState {
                box_m: miss_m(st.box_m),
                seen: st.seen,
                msgs: st.msgs.push(malformed_line_msg(n, fname)),
            }
        } else {
            let name = toks[0];
            match find_entry(st.box_m.entries, name) {
                None => IngestState {
                    box_m: miss_m(st.box_m),
                    seen: st.seen,
                    msgs: st.msgs.push(unknown_key_msg(n, fname, name)),
                },
                Some(i) => {
                    let seen2 = st.seen.push((name, n));
                    if toks.len() != 2 {
                        IngestState {
                            box_m: miss_m(st.box_m),
                            seen: seen2,
                            msgs: st.msgs.push(malformed_line_msg(n, fname)),
                        }
                    } else {
                        let tag = st.box_m.entries[i].tag;
                        if !crate::parse::parse_ok(tag, toks[1]) {
                            IngestState {
                                box_m: miss_m(st.box_m),
                                seen: seen2,
                                msgs: st.msgs.push(parse_fail_msg(n, fname, toks[1], tag)),
                            }
                        } else {
                            let v = crate::parse::parsed_val(tag, toks[1]);
                            IngestState {
                                box_m: set_value_m(st.box_m, name, v),
                                seen: seen2,
                                msgs: if set_value_ok(st.box_m, name, v) {
                                    st.msgs
                                } else {
                                    st.msgs.push(
                                        joined_msgs(
                                            value_viol_msgs(
                                                name,
                                                with_value(st.box_m.entries[i].core, v),
                                            ),
                                        ) + line_annot(n, fname),
                                    )
                                },
                            }
                        }
                    }
                },
            }
        }
    }
}

/// The effect of a whole file, line by line, the first line numbered `n`.
pub open spec fn ingest_lines_m(
    st: IngestState,
    lines: Seq<Seq<char>>,
    n: int,
    fname: Seq<char>,
) -> IngestState
    decreases lines.len(),
{
    if lines.len() == 0 {
        st
    } else {
        ingest_lines_m(ingest_step(st, lines[0], n, fname), lines.skip(1), n + 1, fname)
    }
}

/// The line numbers on which a key was recorded, in line order.
pub open spec fn occ_lines(seen: Seq<(Seq<char>, int)>, name: Seq<char>) -> Seq<int>
    decreases seen.len(),
{
    if seen.len() == 0 {
        seq![]
    } else {
        (if seen[0].0 == name {
            seq![seen[0].1]
        } else {
            Seq::<int>::empty()
        }) + occ_lines(seen.skip(1), name)
    }
}

/// One more record appends its line number to its own key's occurrences
/// and to no other's.
pub proof fn lemma_occ_lines_push(seen: Seq<(Seq<char>, int)>, p: (Seq<char>, int),
    name: Seq<char>)
    ensures
        occ_lines(seen.push(p), name) == if p.0 == name {
            occ_lines(seen, name).push(p.1)
        } else {
            occ_lines(seen, name)
        },
    decreases seen.len(),
{
    if seen.len() == 0 {
        assert(seen.push(p)[0] == p);
        assert(seen.push(p).skip(1) =~= Seq::<(Seq<char>, int)>::empty());
        assert(occ_lines(Seq::<(Seq<char>, int)>::empty(), name) =~= Seq::<int>::empty());
        assert(occ_lines(seen, name) =~= Seq::<int>::empty());
        if p.0 == name {
            assert(occ_lines(seen.push(p), name) =~= seq![p.1] + Seq::<int>::empty());
            assert(seq![p.1] + Seq::<int>::empty() =~= occ_lines(seen, name).push(p.1));
        } else {
            assert(occ_lines(seen.push(p), name) =~= Seq::<int>::empty() + Seq::<int>::empty());
            assert(occ_lines(seen.push(p), name) =~= occ_lines(seen, name));
        }
    } else {
        assert(seen.push(p)[0] == seen[0]);
        assert(seen.push(p).skip(1) =~= seen.skip(1).push(p));
        lemma_occ_lines_push(seen.skip(1), p, name);
        if p.0 == name {
            assert(occ_lines(seen.push(p), name) =~= occ_lines(seen, name).push(p.1));
        } else {
            assert(occ_lines(seen.push(p), name) =~= occ_lines(seen, name));
        }
    }
}

/// The listed line numbers of a duplicate report, each as an ordinal,
/// joined by `", "`.
pub open spec fn nth_list(ls: Seq<int>) -> Seq<char>
    decreases ls.len(),
{
    if ls.len() == 0 {
        Seq::empty()
    } else if ls.len() == 1 {
        crate::text::dec_str(ls[0] as nat) + "-th"@
    } else {
        crate::text::dec_str(ls[0] as nat) + "-th"@ + ", "@ + nth_list(ls.skip(1))
    }
}

/// One more listed line number comes after `", "` when the list was not
/// empty.
pub proof fn lemma_nth_list_push(ls: Seq<int>, x: int)
    ensures
        nth_list(ls.push(x)) == if ls.len() == 0 {
            crate::text::dec_str(x as nat) + "-th"@
        } else {
            nth_list(ls) + ", "@ + crate::text::dec_str(x as nat) + "-th"@
        },
    decreases ls.len(),
{
    if ls.len() == 0 {
        assert(ls.push(x).len() == 1);
        assert(ls.push(x)[0] == x);
    } else {
        assert(ls.push(x)[0] == ls[0]);
        assert(ls.push(x).skip(1) =~= ls.skip(1).push(x));
        lemma_nth_list_push(ls.skip(1), x);
        if ls.len() == 1 {
            assert(ls.skip(1).len() == 0);
            assert(nth_list(ls) == crate::text::dec_str(ls[0] as nat) + "-th"@);
            assert(nth_list(ls.push(x)) =~= nth_list(ls) + ", "@ + crate::text::dec_str(
                x as nat,
            ) + "-th"@);
        } else {
            assert(nth_list(ls.push(x)) =~= nth_list(ls) + ", "@ + crate::text::dec_str(
                x as nat,
            ) + "-th"@);
        }
    }
}

/// The report for one key that several lines named.
pub open spec fn dup_msg(name: Seq<char>, ls: Seq<int>, fname: Seq<char>) -> Seq<char> {
    "ParameterBoxError: in the "@ + nth_list(ls) + " lines of the file '"@ + fname + "', `"@
        + name + "` is duplicate."@
}

/// Whether the record at `a` is its key's first.
pub open spec fn first_occ(seen: Seq<(Seq<char>, int)>, a: int) -> bool {
    forall|b: int| 0 <= b < a ==> seen[b].0 != seen[a].0
}

/// The duplicate reports for the records from `a` on: one per key that
/// was recorded more than once, at its first record, in record order.
pub open spec fn dup_msgs_from(seen: Seq<(Seq<char>, int)>, fname: Seq<char>, a: int)
    -> Seq<Seq<char>>
    decreases seen.len() - a,
{
    if a < 0 || a >= seen.len() {
        seq![]
    } else {
        let rest = dup_msgs_from(seen, fname, a + 1);
        if first_occ(seen, a) && occ_lines(seen, seen[a].0).len() >= 2 {
            seq![dup_msg(seen[a].0, occ_lines(seen, seen[a].0), fname)] + rest
        } else {
            rest
        }
    }
}

/// All duplicate reports of one ingestion pass.
pub open spec fn dup_msgs(seen: Seq<(Seq<char>, int)>, fname: Seq<char>) -> Seq<Seq<char>> {
    dup_msgs_from(seen, fname, 0)
}

/// The names of the entries are pairwise distinct.
pub open spec fn distinct_names(es: Seq<EntryModel>) -> bool {
    forall|i: int, j: int| 0 <= i < j < es.len() ==> es[i].name != es[j].name
}

/// The rendered lower-bound label: the bound value before the comparison
/// sign that relates it to the parameter.
pub open spec fn min_label(b: BoundModel) -> Seq<char> {
    match b {
        BoundModel::Open(v) => val_str(v) + " <"@,
        BoundModel::Close(v) => val_str(v) + " ≦"@,
    }
}

/// The rendered upper-bound label.
pub open spec fn max_label(b: BoundModel) -> Seq<char> {
    match b {
        BoundModel::Open(v) => "< "@ + val_str(v),
        BoundModel::Close(v) => "≦ "@ + val_str(v),
    }
}

/// The rendered range line: whichever bounds are present, with the
/// parameter's name between them so the line reads as an inequality chain.
pub open spec fn range_line(name: Seq<char>, min: Option<BoundModel>, max: Option<BoundModel>)
    -> Seq<char> {
    match (min, max) {
        (Some(mn), Some(mx)) => "Range         | "@ + min_label(mn) + " "@ + name + " "@
            + max_label(mx) + "\n"@,
        (Some(mn), None) => "Range         | "@ + min_label(mn) + " "@ + name + "\n"@,
        (None, Some(mx)) => "Range         | "@ + name + " "@ + max_label(mx) + "\n"@,
        (None, None) => Seq::empty(),
    }
}

/// The rendered list line.
pub open spec fn list_line(l: ListModel) -> Seq<char> {
    match l {
        ListModel::Black(vs) => "Blacklist     | ["@ + crate::text::vals_joined(vs) + "]\n"@,
        ListModel::White(vs) => "Whitelist     | ["@ + crate::text::vals_joined(vs) + "]\n"@,
    }
}

/// The rendered block of one entry: nothing when invisible, otherwise the
/// name, the kind, and whichever of value, range, list and explanation are
/// present, one line each, with a blank line after the block.
pub open spec fn render_entry(e: EntryModel) -> Seq<char> {
    if e.unvisible {
        Seq::empty()
    } else {
        e.name + "\n----------------------------\n"@ + "Type          | "@ + crate::text::tag_str(
            e.tag,
        ) + "\n"@ + (match e.core.value {
            Some(v) => "Default value | "@ + val_str(v) + "\n"@,
            None => Seq::empty(),
        }) + range_line(e.name, e.core.min, e.core.max) + (match e.core.list {
            Some(l) => list_line(l),
            None => Seq::empty(),
        }) + (match e.explanation {
            Some(x) => "Explanation   | "@ + x + "\n"@,
            None => Seq::empty(),
        }) + "\n"@
    }
}

/// The rendered report: the blocks of the visible entries, in
/// registration order.
pub open spec fn render_box(es: Seq<EntryModel>) -> Seq<char>
    decreases es.len(),
{
    if es.len() == 0 {
        Seq::empty()
    } else {
        render_entry(es[0]) + render_box(es.skip(1))
    }
}

/// Rendering one more entry appends its block.
pub proof fn lemma_render_box_snoc(es: Seq<EntryModel>, e: EntryModel)
    ensures
        render_box(es.push(e)) == render_box(es) + render_entry(e),
    decreases es.len(),
{
    if es.len() == 0 {
        assert(es.push(e)[0] == e);
        assert(es.push(e).skip(1) =~= Seq::<EntryModel>::empty());
        assert(render_box(Seq::<EntryModel>::empty()) =~= Seq::<char>::empty());
        assert(render_box(es.push(e)) =~= render_entry(e));
        assert(render_box(es) + render_entry(e) =~= render_entry(e));
    } else {
        assert(es.push(e)[0] == es[0]);
        assert(es.push(e).skip(1) =~= es.skip(1).push(e));
        lemma_render_box_snoc(es.skip(1), e);
        assert(render_box(es.push(e)) == render_entry(es[0]) + (render_box(es.skip(1))
            + render_entry(e)));
        assert(render_entry(es[0]) + (render_box(es.skip(1)) + render_entry(e)) =~= (render_entry(
            es[0],
        ) + render_box(es.skip(1))) + render_entry(e));
    }
}

/// Error message for a duplicate registration.
pub open spec fn already_added_msg(name: Seq<char>) -> Seq<char> {
    "ParameterBoxError: `"@ + name + "` has already been added to a parameter box."@
}

/// Error message for an operation on an unregistered name.
pub open spec fn not_added_msg(name: Seq<char>) -> Seq<char> {
    "ParameterBoxError: `"@ + name + "` has not been added to a parameter box."@
}

/// Error message for one violated condition, over the already-rendered
/// value text.
pub open spec fn bad_condition_text(name: Seq<char>, vtext: Seq<char>, cond: Seq<char>)
    -> Seq<char> {
    "ParameterBoxError: `"@ + name + "` = "@ + vtext
        + " does not satisfy the condition that `"@ + name + "` "@ + cond + "."@
}

/// Error message for one violated condition.
pub open spec fn bad_condition_msg(name: Seq<char>, v: Val, cond: Seq<char>) -> Seq<char> {
    bad_condition_text(name, val_str(v), cond)
}

/// Several per-condition messages joined into one report, one line each.
pub open spec fn joined_msgs(ms: Seq<Seq<char>>) -> Seq<char>
    decreases ms.len(),
{
    if ms.len() == 0 {
        Seq::empty()
    } else if ms.len() == 1 {
        ms[0]
    } else {
        ms[0] + "\n"@ + joined_msgs(ms.skip(1))
    }
}

/// Appending a message to a report appends it after a line break when the
/// report was not empty.
pub proof fn lemma_joined_msgs_push(ms: Seq<Seq<char>>, m: Seq<char>)
    ensures
        joined_msgs(ms.push(m)) == if ms.len() == 0 {
            m
        } else {
            joined_msgs(ms) + "\n"@ + m
        },
    decreases ms.len(),
{
    if ms.len() == 0 {
        assert(ms.push(m).len() == 1);
        assert(ms.push(m)[0] == m);
    } else {
        assert(ms.push(m)[0] == ms[0]);
        assert(ms.push(m).skip(1) =~= ms.skip(1).push(m));
        lemma_joined_msgs_push(ms.skip(1), m);
        if ms.len() == 1 {
            assert(ms.push(m).len() == 2);
            assert(joined_msgs(ms.push(m)) == ms[0] + "\n"@ + joined_msgs(ms.skip(1).push(m)));
            assert(ms.skip(1).len() == 0);
            assert(joined_msgs(ms) == ms[0]);
        } else {
            assert(joined_msgs(ms.push(m)) == ms[0] + "\n"@ + joined_msgs(ms.skip(1).push(m)));
            assert(joined_msgs(ms.skip(1).push(m)) == joined_msgs(ms.skip(1)) + "\n"@ + m);
            assert(joined_msgs(ms) == ms[0] + "\n"@ + joined_msgs(ms.skip(1)));
            assert((ms[0] + "\n"@ + (joined_msgs(ms.skip(1)) + "\n"@ + m)) =~= ((ms[0] + "\n"@
                + joined_msgs(ms.skip(1))) + "\n"@ + m));
        }
    }
}

/// The message for a violated lower bound, if it is violated.
pub open spec fn min_viol_msgs(name: Seq<char>, c: CoreModel) -> Seq<Seq<char>> {
    if min_ok(c) {
        seq![]
    } else {
        seq![bad_condition_msg(name, c.value->Some_0, min_err_str(c.min->Some_0))]
    }
}

/// The message for a violated upper bound, if it is violated.
pub open spec fn max_viol_msgs(name: Seq<char>, c: CoreModel) -> Seq<Seq<char>> {
    if max_ok(c) {
        seq![]
    } else {
        seq![bad_condition_msg(name, c.value->Some_0, max_err_str(c.max->Some_0))]
    }
}

/// The message for a violated list condition, if it is violated.
pub open spec fn list_viol_msgs(name: Seq<char>, c: CoreModel) -> Seq<Seq<char>> {
    if list_ok(c) {
        seq![]
    } else {
        seq![bad_condition_msg(name, c.value->Some_0, list_err_str(c.list->Some_0))]
    }
}

/// All messages a `set_value` reports, in check order.
pub open spec fn value_viol_msgs(name: Seq<char>, c: CoreModel) -> Seq<Seq<char>> {
    min_viol_msgs(name, c) + max_viol_msgs(name, c) + list_viol_msgs(name, c)
}

/// All messages a `set_range` reports.
pub open spec fn range_viol_msgs(name: Seq<char>, c: CoreModel) -> Seq<Seq<char>> {
    min_viol_msgs(name, c) + max_viol_msgs(name, c)
}

} // verus!
