//! The type-erased registry: a mapping from names to parameter entries,
//! each holding one constraint core of a fixed kind, with an insertion
//! order and a monotone error counter.
//!
//! Every mutation re-validates the affected entry and reports each
//! violation both in the returned error and in the counter; values are
//! committed even when they violate a constraint.  The behaviour of each
//! method is stated against the model operations of [`crate::model`].

use crate::model::{BoxModel, EntryModel, add_m, add_ok, access_m, already_added_msg,
    bad_condition_msg, bump, bump_n, distinct_names, explanation_at, find_entry, joined_msgs,
    lemma_find_entry_absent, lemma_find_entry_none, lemma_find_entry_present,
    lemma_joined_msgs_push, max_viol_msgs, min_viol_msgs, not_added_msg, fresh_entry,
    range_viol_msgs, range_violations, set_explanation_m, set_list_m, set_max_m, set_min_m,
    set_range_m, set_range_ok, set_unvisible_m, set_value_m, set_value_ok, tag_matches,
    value_at, value_viol_msgs, violations, with_value};
use crate::parameter::{BoundModel, CoreModel, ListCondition, ListError, ListModel, Parameter,
    RangeCondition, RangeError, bound_value, core_tag_ok, list_tag_ok};
use crate::parse::strs_views;
use crate::text::value_string;
use crate::value::{ParamValue, TypeTag, Val, str_eq, tag_of, val_of};
use vstd::prelude::*;
use vstd::string::StringExecFns;

verus! {

/// Everything a registry operation can fail with, each carrying a
/// human-readable message.
#[derive(Debug)]
pub enum ParameterBoxError {
    /// A constraint was violated by a committed value.
    InvalidCondition(String),
    /// A name was registered twice.
    AlreadyAdded(String),
    /// An operation referenced an unregistered name.
    NotAdded(String),
    /// A string could not be converted to the declared kind.
    InvalidParse(String),
    /// The aggregate of all line-level errors of one file ingestion.
    InvalidInputFile(String),
    /// An underlying read failed.
    IoError(String),
}

/// The registry of parameters: unique names, registration order, and a
/// monotonically increasing error counter.
#[derive(Debug)]
pub struct ParameterBox {
    names: Vec<String>,
    params: Vec<Parameter>,
    error_counter: u32,
}

/// The view of an optional string.
pub open spec fn view_opt_string(o: Option<String>) -> Option<Seq<char>> {
    match o {
        Some(s) => Some(s@),
        None => None,
    }
}

/// The model of an optional value.
pub open spec fn view_opt_value(o: Option<ParamValue>) -> Option<Val> {
    match o {
        Some(v) => Some(val_of(v)),
        None => None,
    }
}

impl View for ParameterBox {
    type V = BoxModel;

    closed spec fn view(&self) -> BoxModel {
        BoxModel {
            entries: Seq::new(
                self.names@.len(),
                |i: int|
                    EntryModel {
                        name: self.names@[i]@,
                        tag: self.params@[i].tag,
                        core: self.params@[i].parameter_core@,
                        explanation: view_opt_string(self.params@[i].explanation),
                        unvisible: self.params@[i].unvisible,
                    },
            ),
            errors: self.error_counter as nat,
        }
    }
}

impl ParameterBox {
    /// The registry's internal consistency: one entry per name, pairwise
    /// distinct names, and every stored value of its entry's declared kind.
    pub closed spec fn wf(&self) -> bool {
        &&& self.names@.len() == self.params@.len()
        &&& distinct_names(self@.entries)
        &&& forall|i: int|
            0 <= i < self.params@.len() ==> core_tag_ok(
                (#[trigger] self.params@[i]).parameter_core,
                self.params@[i].tag,
            )
    }

    /// An empty registry.
    pub fn new() -> (r: Self)
        ensures
            r.wf(),
            r@ == (BoxModel { entries: Seq::<EntryModel>::empty(), errors: 0 }),
    {
        let r = Self {
            names: Vec::<String>::new(),
            params: Vec::<Parameter>::new(),
            error_counter: 0,
        };
        proof {
            assert(r@.entries =~= Seq::<EntryModel>::empty());
            assert(r@ =~= (BoxModel { entries: Seq::<EntryModel>::empty(), errors: 0nat }));
        }
        r
    }

    /// Index of the entry with the given name, scanning in registration
    /// order.
    fn find_index(&self, name: &str) -> (r: Option<usize>)
        ensures
            match r {
                Some(i) => i < self@.entries.len() && find_entry(self@.entries, name@) == Some(
                    i as int,
                ),
                None => find_entry(self@.entries, name@) is None,
            },
    {
        let n: usize = self.names.len();
        let mut i: usize = 0;
        while i < n
            invariant
                i <= n,
                n == self.names@.len(),
                self@.entries.len() == n,
                forall|j: int| 0 <= j < i ==> self@.entries[j].name != name@,
            decreases n - i,
        {
            if str_eq(self.names[i].as_str(), name) {
                proof {
                    lemma_find_entry_present(self@.entries, name@, i as int);
                }
                return Some(i);
            }
            i = i + 1;
        }
        proof {
            lemma_find_entry_absent(self@.entries, name@);
        }
        None
    }

    /// Record one detected error; the counter saturates rather than wraps.
    fn count_error(&mut self)
        ensures
            final(self).names == old(self).names,
            final(self).params == old(self).params,
            final(self)@.errors == bump(old(self)@.errors),
            final(self)@.entries == old(self)@.entries,
            final(self).wf() == old(self).wf(),
    {
        if self.error_counter < u32::MAX {
            self.error_counter = self.error_counter + 1;
        }
        proof {
            assert(final(self)@.entries =~= old(self)@.entries);
        }
    }

    /// Register a new name of the given kind.  Fails with `AlreadyAdded`
    /// exactly when the name is taken, and then changes nothing but the
    /// error counter.
    pub fn add(&mut self, name: &str, tag: TypeTag) -> (r: Result<(), ParameterBoxError>)
        requires
            old(self).wf(),
        ensures
            final(self).wf(),
            final(self)@ == add_m(old(self)@, name@, tag),
            match r {
                Ok(()) => add_ok(old(self)@, name@),
                Err(ParameterBoxError::AlreadyAdded(m)) => !add_ok(old(self)@, name@) && m@
                    == already_added_msg(name@),
                Err(_) => false,
            },
    {
        match self.find_index(name) {
            Some(_) => {
                self.count_error();
                Err(ParameterBoxError::AlreadyAdded(already_added_string(name)))
            },
            None => {
                proof {
                    lemma_find_entry_none(old(self)@.entries, name@);
                }
                self.names.push(String::from_str(name));
                self.params.push(Parameter::new(tag));
                proof {
                    assert(self@.entries =~= old(self)@.entries.push(fresh_entry(name@, tag)));
                    assert(self@ =~= add_m(old(self)@, name@, tag));
                    assert forall|i: int, j: int| 0 <= i < j < self@.entries.len() implies self@
                        .entries[i].name != self@.entries[j].name by {
                        if j < self@.entries.len() - 1 {
                            assert(old(self)@.entries[i].name != old(self)@.entries[j].name);
                        }
                    }
                }
                Ok(())
            },
        }
    }

    /// Set the value of a named entry.  The value is committed whether or
    /// not it satisfies the constraints; every violated check is reported,
    /// all in one `InvalidCondition` whose message holds one line per
    /// violation, and each moves the error counter once.  The caller's
    /// value must be of the entry's declared kind: handing a value of
    /// another kind to an entry is a misuse of the registry, not a
    /// recoverable error.
    pub fn set_value(&mut self, name: &str, value: ParamValue) -> (r: Result<
        (),
        ParameterBoxError,
    >)
        requires
            old(self).wf(),
            tag_matches(old(self)@, name@, tag_of(value)),
        ensures
            final(self).wf(),
            final(self)@ == set_value_m(old(self)@, name@, val_of(value)),
            match r {
                Ok(()) => set_value_ok(old(self)@, name@, val_of(value)),
                Err(ParameterBoxError::NotAdded(m)) => find_entry(old(self)@.entries, name@)
                    is None && m@ == not_added_msg(name@),
                Err(ParameterBoxError::InvalidCondition(m)) => {
                    &&& find_entry(old(self)@.entries, name@) is Some
                    &&& !set_value_ok(old(self)@, name@, val_of(value))
                    &&& m@ == joined_msgs(
                        value_viol_msgs(
                            name@,
                            with_value(
                                old(self)@.entries[find_entry(old(self)@.entries, name@)->Some_0]
                                    .core,
                                val_of(value),
                            ),
                        ),
                    )
                },
                Err(_) => false,
            },
    {
        let idx: Option<usize> = self.find_index(name);
        match idx {
            None => {
                self.count_error();
                Err(ParameterBoxError::NotAdded(not_added_string(name)))
            },
            Some(i) => {
                let ghost e0 = self@.entries[i as int];
                let ghost b0 = self@;
                let vtext: String = value_string(&value);
                let p: &mut Parameter = &mut self.params[i];
                p.parameter_core.value = Some(value);
                let ghost c2 = with_value(e0.core, val_of(value));
                proof {
                    assert(self.params@[i as int].parameter_core@ == c2);
                    assert(self@.entries =~= b0.entries.update(
                        i as int,
                        EntryModel { core: c2, ..e0 },
                    ));
                    assert(core_tag_ok(self.params@[i as int].parameter_core, e0.tag));
                }
                let ghost target = self@.entries;
                let mut err_msg: String = String::new();
                let mut any: bool = false;
                let ghost mut msgs: Seq<Seq<char>> = Seq::empty();
                let ghost mut nerr: nat = 0;

                let rmin: Result<(), RangeError> = self.params[i]
                    .parameter_core
                    .check_min_limit();
                match rmin {
                    Err(RangeError::LessThanMinLimit(cond)) => {
                        self.count_error();
                        if any {
                            err_msg.append("\n");
                        }
                        any = true;
                        let m: String = bad_condition_string(name, vtext.as_str(), cond.as_str());
                        err_msg.append(m.as_str());
                        proof {
                            lemma_joined_msgs_push(msgs, m@);
                            msgs = msgs.push(m@);
                            nerr = nerr + 1;
                            assert(bump_n(b0.errors, nerr) == bump(
                                bump_n(b0.errors, (nerr - 1) as nat),
                            ));
                        }
                    },
                    Err(RangeError::LargerThanMaxLimit(_)) => {
                        proof {
                            assert(false);
                        }
                    },
                    Ok(()) => {},
                }
                proof {
                    assert(msgs =~= min_viol_msgs(name@, c2));
                    assert(err_msg@ == joined_msgs(msgs));
                    assert(self@.errors == bump_n(b0.errors, nerr));
                    assert(self@.entries == target);
                }

                let rmax: Result<(), RangeError> = self.params[i]
                    .parameter_core
                    .check_max_limit();
                match rmax {
                    Err(RangeError::LargerThanMaxLimit(cond)) => {
                        self.count_error();
                        if any {
                            err_msg.append("\n");
                        }
                        any = true;
                        let m: String = bad_condition_string(name, vtext.as_str(), cond.as_str());
                        err_msg.append(m.as_str());
                        proof {
                            lemma_joined_msgs_push(msgs, m@);
                            msgs = msgs.push(m@);
                            nerr = nerr + 1;
                            assert(bump_n(b0.errors, nerr) == bump(
                                bump_n(b0.errors, (nerr - 1) as nat),
                            ));
                        }
                    },
                    Err(RangeError::LessThanMinLimit(_)) => {
                        proof {
                            assert(false);
                        }
                    },
                    Ok(()) => {},
                }
                proof {
                    assert(msgs =~= min_viol_msgs(name@, c2) + max_viol_msgs(name@, c2));
                    assert(err_msg@ == joined_msgs(msgs));
                    assert(self@.errors == bump_n(b0.errors, nerr));
                    assert(self@.entries == target);
                }

                let rlist: Result<(), ListError> = self.params[i]
                    .parameter_core
                    .check_list_condition();
                match rlist {
                    Err(ListError::BlacklistViolation(cond)) => {
                        self.count_error();
                        if any {
                            err_msg.append("\n");
                        }
                        any = true;
                        let m: String = bad_condition_string(name, vtext.as_str(), cond.as_str());
                        err_msg.append(m.as_str());
                        proof {
                            lemma_joined_msgs_push(msgs, m@);
                            msgs = msgs.push(m@);
                            nerr = nerr + 1;
                            assert(bump_n(b0.errors, nerr) == bump(
                                bump_n(b0.errors, (nerr - 1) as nat),
                            ));
                        }
                    },
                    Err(ListError::WhitelistViolation(cond)) => {
                        self.count_error();
                        if any {
                            err_msg.append("\n");
                        }
                        any = true;
                        let m: String = bad_condition_string(name, vtext.as_str(), cond.as_str());
                        err_msg.append(m.as_str());
                        proof {
                            lemma_joined_msgs_push(msgs, m@);
                            msgs = msgs.push(m@);
                            nerr = nerr + 1;
                            assert(bump_n(b0.errors, nerr) == bump(
                                bump_n(b0.errors, (nerr - 1) as nat),
                            ));
                        }
                    },
                    Ok(()) => {},
                }
                proof {
                    assert(msgs =~= value_viol_msgs(name@, c2));
                    assert(err_msg@ == joined_msgs(msgs));
                    assert(nerr == violations(c2));
                    assert(self@.errors == bump_n(b0.errors, nerr));
                    assert(self@.entries == target);
                    assert(self@ =~= set_value_m(b0, name@, val_of(value)));
                    assert(any == (msgs.len() > 0));
                }

                if any {
                    Err(ParameterBoxError::InvalidCondition(err_msg))
                } else {
                    Ok(())
                }
            },
        }
    }

    /// Replace both range bounds of a named entry and, when a value is
    /// already present, re-validate it at once against the new bounds.
    /// The stored value is never un-set by a violation.
    pub fn set_range(&mut self, name: &str, range: (RangeCondition, RangeCondition)) -> (r:
        Result<(), ParameterBoxError>)
        requires
            old(self).wf(),
            tag_matches(old(self)@, name@, tag_of(bound_value(range.0))),
            tag_matches(old(self)@, name@, tag_of(bound_value(range.1))),
        ensures
            final(self).wf(),
            final(self)@ == set_range_m(old(self)@, name@, range.0@, range.1@),
            match r {
                Ok(()) => set_range_ok(old(self)@, name@, range.0@, range.1@),
                Err(ParameterBoxError::NotAdded(m)) => find_entry(old(self)@.entries, name@)
                    is None && m@ == not_added_msg(name@),
                Err(ParameterBoxError::InvalidCondition(m)) => {
                    &&& find_entry(old(self)@.entries, name@) is Some
                    &&& !set_range_ok(old(self)@, name@, range.0@, range.1@)
                    &&& m@ == joined_msgs(
                        range_viol_msgs(
                            name@,
                            CoreModel {
                                min: Some(range.0@),
                                max: Some(range.1@),
                                ..crate::model::core_at(old(self)@, name@)
                            },
                        ),
                    )
                },
                Err(_) => false,
            },
    {
        let idx: Option<usize> = self.find_index(name);
        match idx {
            None => {
                self.count_error();
                Err(ParameterBoxError::NotAdded(not_added_string(name)))
            },
            Some(i) => {
                let ghost e0 = self@.entries[i as int];
                let ghost b0 = self@;
                let vtext: String = match &self.params[i].parameter_core.value {
                    Some(v) => value_string(v),
                    None => String::new(),
                };
                let p: &mut Parameter = &mut self.params[i];
                p.parameter_core.range = (Some(range.0), Some(range.1));
                let ghost c2 = CoreModel { min: Some(range.0@), max: Some(range.1@), ..e0.core };
                proof {
                    assert(self.params@[i as int].parameter_core@ == c2);
                    assert(self@.entries =~= b0.entries.update(
                        i as int,
                        EntryModel { core: c2, ..e0 },
                    ));
                    assert(core_tag_ok(self.params@[i as int].parameter_core, e0.tag));
                }
                let ghost target = self@.entries;
                let mut err_msg: String = String::new();
                let mut any: bool = false;
                let ghost mut msgs: Seq<Seq<char>> = Seq::empty();
                let ghost mut nerr: nat = 0;

                let rmin: Result<(), RangeError> = self.params[i]
                    .parameter_core
                    .check_min_limit();
                match rmin {
                    Err(RangeError::LessThanMinLimit(cond)) => {
                        self.count_error();
                        if any {
                            err_msg.append("\n");
                        }
                        any = true;
                        let m: String = bad_condition_string(name, vtext.as_str(), cond.as_str());
                        err_msg.append(m.as_str());
                        proof {
                            lemma_joined_msgs_push(msgs, m@);
                            msgs = msgs.push(m@);
                            nerr = nerr + 1;
                            assert(bump_n(b0.errors, nerr) == bump(
                                bump_n(b0.errors, (nerr - 1) as nat),
                            ));
                        }
                    },
                    Err(RangeError::LargerThanMaxLimit(_)) => {
                        proof {
                            assert(false);
                        }
                    },
                    Ok(()) => {},
                }
                proof {
                    assert(msgs =~= min_viol_msgs(name@, c2));
                    assert(err_msg@ == joined_msgs(msgs));
                    assert(self@.errors == bump_n(b0.errors, nerr));
                    assert(self@.entries == target);
                }

                let rmax: Result<(), RangeError> = self.params[i]
                    .parameter_core
                    .check_max_limit();
                match rmax {
                    Err(RangeError::LargerThanMaxLimit(cond)) => {
                        self.count_error();
                        if any {
                            err_msg.append("\n");
                        }
                        any = true;
                        let m: String = bad_condition_string(name, vtext.as_str(), cond.as_str());
                        err_msg.append(m.as_str());
                        proof {
                            lemma_joined_msgs_push(msgs, m@);
                            msgs = msgs.push(m@);
                            nerr = nerr + 1;
                            assert(bump_n(b0.errors, nerr) == bump(
                                bump_n(b0.errors, (nerr - 1) as nat),
                            ));
                        }
                    },
                    Err(RangeError::LessThanMinLimit(_)) => {
                        proof {
                            assert(false);
                        }
                    },
                    Ok(()) => {},
                }
                proof {
                    assert(msgs =~= range_viol_msgs(name@, c2));
                    assert(err_msg@ == joined_msgs(msgs));
                    assert(nerr == range_violations(c2));
                    assert(self@.errors == bump_n(b0.errors, nerr));
                    assert(self@.entries == target);
                    assert(self@ =~= set_range_m(b0, name@, range.0@, range.1@));
                    assert(any == (msgs.len() > 0));
                }

                if any {
                    Err(ParameterBoxError::InvalidCondition(err_msg))
                } else {
                    Ok(())
                }
            },
        }
    }

    /// Replace the lower bound alone and re-validate a present value
    /// against it.
    fn set_min_limit(&mut self, name: &str, min_limit: RangeCondition) -> (r: Result<
        (),
        ParameterBoxError,
    >)
        requires
            old(self).wf(),
            tag_matches(old(self)@, name@, tag_of(bound_value(min_limit))),
        ensures
            final(self).wf(),
            final(self)@ == set_min_m(old(self)@, name@, min_limit@),
            match r {
                Ok(()) => crate::model::set_min_ok(old(self)@, name@, min_limit@),
                Err(ParameterBoxError::NotAdded(m)) => find_entry(old(self)@.entries, name@)
                    is None && m@ == not_added_msg(name@),
                Err(ParameterBoxError::InvalidCondition(m)) => {
                    &&& find_entry(old(self)@.entries, name@) is Some
                    &&& !crate::model::set_min_ok(old(self)@, name@, min_limit@)
                    &&& m@ == bad_condition_msg(
                        name@,
                        crate::model::core_at(old(self)@, name@).value->Some_0,
                        crate::parameter::min_err_str(min_limit@),
                    )
                },
                Err(_) => false,
            },
    {
        let idx: Option<usize> = self.find_index(name);
        match idx {
            None => {
                self.count_error();
                Err(ParameterBoxError::NotAdded(not_added_string(name)))
            },
            Some(i) => {
                let ghost e0 = self@.entries[i as int];
                let ghost b0 = self@;
                let vtext: String = match &self.params[i].parameter_core.value {
                    Some(v) => value_string(v),
                    None => String::new(),
                };
                let p: &mut Parameter = &mut self.params[i];
                p.parameter_core.range.0 = Some(min_limit);
                let ghost c2 = CoreModel { min: Some(min_limit@), ..e0.core };
                proof {
                    assert(self.params@[i as int].parameter_core@ == c2);
                    assert(self@.entries =~= b0.entries.update(
                        i as int,
                        EntryModel { core: c2, ..e0 },
                    ));
                    assert(core_tag_ok(self.params@[i as int].parameter_core, e0.tag));
                }
                let rmin: Result<(), RangeError> = self.params[i]
                    .parameter_core
                    .check_min_limit();
                match rmin {
                    Err(RangeError::LessThanMinLimit(cond)) => {
                        self.count_error();
                        let m: String = bad_condition_string(name, vtext.as_str(), cond.as_str());
                        proof {
                            assert(bump_n(b0.errors, 1nat) == bump(bump_n(b0.errors, 0nat)));
                            assert(self@ =~= set_min_m(b0, name@, min_limit@));
                        }
                        Err(ParameterBoxError::InvalidCondition(m))
                    },
                    Err(RangeError::LargerThanMaxLimit(_)) => {
                        proof {
                            assert(false);
                        }
                        Ok(())
                    },
                    Ok(()) => {
                        proof {
                            assert(self@ =~= set_min_m(b0, name@, min_limit@));
                        }
                        Ok(())
                    },
                }
            },
        }
    }

    /// Replace the upper bound alone and re-validate a present value
    /// against it.
    fn set_max_limit(&mut self, name: &str, max_limit: RangeCondition) -> (r: Result<
        (),
        ParameterBoxError,
    >)
        requires
            old(self).wf(),
            tag_matches(old(self)@, name@, tag_of(bound_value(max_limit))),
        ensures
            final(self).wf(),
            final(self)@ == set_max_m(old(self)@, name@, max_limit@),
            match r {
                Ok(()) => crate::model::set_max_ok(old(self)@, name@, max_limit@),
                Err(ParameterBoxError::NotAdded(m)) => find_entry(old(self)@.entries, name@)
                    is None && m@ == not_added_msg(name@),
                Err(ParameterBoxError::InvalidCondition(m)) => {
                    &&& find_entry(old(self)@.entries, name@) is Some
                    &&& !crate::model::set_max_ok(old(self)@, name@, max_limit@)
                    &&& m@ == bad_condition_msg(
                        name@,
                        crate::model::core_at(old(self)@, name@).value->Some_0,
                        crate::parameter::max_err_str(max_limit@),
                    )
                },
                Err(_) => false,
            },
    {
        let idx: Option<usize> = self.find_index(name);
        match idx {
            None => {
                self.count_error();
                Err(ParameterBoxError::NotAdded(not_added_string(name)))
            },
            Some(i) => {
                let ghost e0 = self@.entries[i as int];
                let ghost b0 = self@;
                let vtext: String = match &self.params[i].parameter_core.value {
                    Some(v) => value_string(v),
                    None => String::new(),
                };
                let p: &mut Parameter = &mut self.params[i];
                p.parameter_core.range.1 = Some(max_limit);
                let ghost c2 = CoreModel { max: Some(max_limit@), ..e0.core };
                proof {
                    assert(self.params@[i as int].parameter_core@ == c2);
                    assert(self@.entries =~= b0.entries.update(
                        i as int,
                        EntryModel { core: c2, ..e0 },
                    ));
                    assert(core_tag_ok(self.params@[i as int].parameter_core, e0.tag));
                }
                let rmax: Result<(), RangeError> = self.params[i]
                    .parameter_core
                    .check_max_limit();
                match rmax {
                    Err(RangeError::LargerThanMaxLimit(cond)) => {
                        self.count_error();
                        let m: String = bad_condition_string(name, vtext.as_str(), cond.as_str());
                        proof {
                            assert(bump_n(b0.errors, 1nat) == bump(bump_n(b0.errors, 0nat)));
                            assert(self@ =~= set_max_m(b0, name@, max_limit@));
                        }
                        Err(ParameterBoxError::InvalidCondition(m))
                    },
                    Err(RangeError::LessThanMinLimit(_)) => {
                        proof {
                            assert(false);
                        }
                        Ok(())
                    },
                    Ok(()) => {
                        proof {
                            assert(self@ =~= set_max_m(b0, name@, max_limit@));
                        }
                        Ok(())
                    },
                }
            },
        }
    }

    /// Replace the list condition, of either polarity, and re-validate a
    /// present value against it.
    fn set_list_info(&mut self, name: &str, list: ListCondition) -> (r: Result<
        (),
        ParameterBoxError,
    >)
        requires
            old(self).wf(),
            match find_entry(old(self)@.entries, name@) {
                Some(i) => list_tag_ok(list, old(self)@.entries[i].tag),
                None => true,
            },
        ensures
            final(self).wf(),
            final(self)@ == set_list_m(old(self)@, name@, list@),
            match r {
                Ok(()) => crate::model::set_list_ok(old(self)@, name@, list@),
                Err(ParameterBoxError::NotAdded(m)) => find_entry(old(self)@.entries, name@)
                    is None && m@ == not_added_msg(name@),
                Err(ParameterBoxError::InvalidCondition(m)) => {
                    &&& find_entry(old(self)@.entries, name@) is Some
                    &&& !crate::model::set_list_ok(old(self)@, name@, list@)
                    &&& m@ == bad_condition_msg(
                        name@,
                        crate::model::core_at(old(self)@, name@).value->Some_0,
                        crate::parameter::list_err_str(list@),
                    )
                },
                Err(_) => false,
            },
    {
        let idx: Option<usize> = self.find_index(name);
        match idx {
            None => {
                self.count_error();
                Err(ParameterBoxError::NotAdded(not_added_string(name)))
            },
            Some(i) => {
                let ghost e0 = self@.entries[i as int];
                let ghost b0 = self@;
                let vtext: String = match &self.params[i].parameter_core.value {
                    Some(v) => value_string(v),
                    None => String::new(),
                };
                let p: &mut Parameter = &mut self.params[i];
                p.parameter_core.list = Some(list);
                let ghost c2 = CoreModel { list: Some(list@), ..e0.core };
                proof {
                    assert(self.params@[i as int].parameter_core@ == c2);
                    assert(self@.entries =~= b0.entries.update(
                        i as int,
                        EntryModel { core: c2, ..e0 },
                    ));
                    assert(core_tag_ok(self.params@[i as int].parameter_core, e0.tag));
                }
                let rlist: Result<(), ListError> = self.params[i]
                    .parameter_core
                    .check_list_condition();
                match rlist {
                    Err(ListError::BlacklistViolation(cond)) => {
                        self.count_error();
                        let m: String = bad_condition_string(name, vtext.as_str(), cond.as_str());
                        proof {
                            assert(bump_n(b0.errors, 1nat) == bump(bump_n(b0.errors, 0nat)));
                            assert(self@ =~= set_list_m(b0, name@, list@));
                        }
                        Err(ParameterBoxError::InvalidCondition(m))
                    },
                    Err(ListError::WhitelistViolation(cond)) => {
                        self.count_error();
                        let m: String = bad_condition_string(name, vtext.as_str(), cond.as_str());
                        proof {
                            assert(bump_n(b0.errors, 1nat) == bump(bump_n(b0.errors, 0nat)));
                            assert(self@ =~= set_list_m(b0, name@, list@));
                        }
                        Err(ParameterBoxError::InvalidCondition(m))
                    },
                    Ok(()) => {
                        proof {
                            assert(self@ =~= set_list_m(b0, name@, list@));
                        }
                        Ok(())
                    },
                }
            },
        }
    }

    /// Replace both bounds, excluding both endpoint values.
    pub fn set_range_open_open(&mut self, name: &str, range: (ParamValue, ParamValue)) -> (r:
        Result<(), ParameterBoxError>)
        requires
            old(self).wf(),
            tag_matches(old(self)@, name@, tag_of(range.0)),
            tag_matches(old(self)@, name@, tag_of(range.1)),
        ensures
            final(self).wf(),
            final(self)@ == set_range_m(
                old(self)@,
                name@,
                BoundModel::Open(val_of(range.0)),
                BoundModel::Open(val_of(range.1)),
            ),
            match r {
                Ok(()) => set_range_ok(
                    old(self)@,
                    name@,
                    BoundModel::Open(val_of(range.0)),
                    BoundModel::Open(val_of(range.1)),
                ),
                Err(ParameterBoxError::NotAdded(m)) => find_entry(old(self)@.entries, name@)
                    is None && m@ == not_added_msg(name@),
                Err(ParameterBoxError::InvalidCondition(m)) => {
                    &&& find_entry(old(self)@.entries, name@) is Some
                    &&& !set_range_ok(
                        old(self)@,
                        name@,
                        BoundModel::Open(val_of(range.0)),
                        BoundModel::Open(val_of(range.1)),
                    )
                    &&& m@ == joined_msgs(
                        range_viol_msgs(
                            name@,
                            CoreModel {
                                min: Some(BoundModel::Open(val_of(range.0))),
                                max: Some(BoundModel::Open(val_of(range.1))),
                                ..crate::model::core_at(old(self)@, name@)
                            },
                        ),
                    )
                },
                Err(_) => false,
            },
    {
        self.set_range(name, (RangeCondition::Open(range.0), RangeCondition::Open(range.1)))
    }

    /// Replace both bounds, excluding the lower and including the upper
    /// endpoint value.
    pub fn set_range_open_close(&mut self, name: &str, range: (ParamValue, ParamValue)) -> (r:
        Result<(), ParameterBoxError>)
        requires
            old(self).wf(),
            tag_matches(old(self)@, name@, tag_of(range.0)),
            tag_matches(old(self)@, name@, tag_of(range.1)),
        ensures
            final(self).wf(),
            final(self)@ == set_range_m(
                old(self)@,
                name@,
                BoundModel::Open(val_of(range.0)),
                BoundModel::Close(val_of(range.1)),
            ),
            match r {
                Ok(()) => set_range_ok(
                    old(self)@,
                    name@,
                    BoundModel::Open(val_of(range.0)),
                    BoundModel::Close(val_of(range.1)),
                ),
                Err(ParameterBoxError::NotAdded(m)) => find_entry(old(self)@.entries, name@)
                    is None && m@ == not_added_msg(name@),
                Err(ParameterBoxError::InvalidCondition(m)) => {
                    &&& find_entry(old(self)@.entries, name@) is Some
                    &&& !set_range_ok(
                        old(self)@,
                        name@,
                        BoundModel::Open(val_of(range.0)),
                        BoundModel::Close(val_of(range.1)),
                    )
                    &&& m@ == joined_msgs(
                        range_viol_msgs(
                            name@,
                            CoreModel {
                                min: Some(BoundModel::Open(val_of(range.0))),
                                max: Some(BoundModel::Close(val_of(range.1))),
                                ..crate::model::core_at(old(self)@, name@)
                            },
                        ),
                    )
                },
                Err(_) => false,
            },
    {
        self.set_range(name, (RangeCondition::Open(range.0), RangeCondition::Close(range.1)))
    }

    /// Replace both bounds, including the lower and excluding the upper
    /// endpoint value.
    pub fn set_range_close_open(&mut self, name: &str, range: (ParamValue, ParamValue)) -> (r:
        Result<(), ParameterBoxError>)
        requires
            old(self).wf(),
            tag_matches(old(self)@, name@, tag_of(range.0)),
            tag_matches(old(self)@, name@, tag_of(range.1)),
        ensures
            final(self).wf(),
            final(self)@ == set_range_m(
                old(self)@,
                name@,
                BoundModel::Close(val_of(range.0)),
                BoundModel::Open(val_of(range.1)),
            ),
            match r {
                Ok(()) => set_range_ok(
                    old(self)@,
                    name@,
                    BoundModel::Close(val_of(range.0)),
                    BoundModel::Open(val_of(range.1)),
                ),
                Err(ParameterBoxError::NotAdded(m)) => find_entry(old(self)@.entries, name@)
                    is None && m@ == not_added_msg(name@),
                Err(ParameterBoxError::InvalidCondition(m)) => {
                    &&& find_entry(old(self)@.entries, name@) is Some
                    &&& !set_range_ok(
                        old(self)@,
                        name@,
                        BoundModel::Close(val_of(range.0)),
                        BoundModel::Open(val_of(range.1)),
                    )
                    &&& m@ == joined_msgs(
                        range_viol_msgs(
                            name@,
                            CoreModel {
                                min: Some(BoundModel::Close(val_of(range.0))),
                                max: Some(BoundModel::Open(val_of(range.1))),
                                ..crate::model::core_at(old(self)@, name@)
                            },
                        ),
                    )
                },
                Err(_) => false,
            },
    {
        self.set_range(name, (RangeCondition::Close(range.0), RangeCondition::Open(range.1)))
    }

    /// Replace both bounds, including both endpoint values.
    pub fn set_range_close_close(&mut self, name: &str, range: (ParamValue, ParamValue)) -> (r:
        Result<(), ParameterBoxError>)
        requires
            old(self).wf(),
            tag_matches(old(self)@, name@, tag_of(range.0)),
            tag_matches(old(self)@, name@, tag_of(range.1)),
        ensures
            final(self).wf(),
            final(self)@ == set_range_m(
                old(self)@,
                name@,
                BoundModel::Close(val_of(range.0)),
                BoundModel::Close(val_of(range.1)),
            ),
            match r {
                Ok(()) => set_range_ok(
                    old(self)@,
                    name@,
                    BoundModel::Close(val_of(range.0)),
                    BoundModel::Close(val_of(range.1)),
                ),
                Err(ParameterBoxError::NotAdded(m)) => find_entry(old(self)@.entries, name@)
                    is None && m@ == not_added_msg(name@),
                Err(ParameterBoxError::InvalidCondition(m)) => {
                    &&& find_entry(old(self)@.entries, name@) is Some
                    &&& !set_range_ok(
                        old(self)@,
                        name@,
                        BoundModel::Close(val_of(range.0)),
                        BoundModel::Close(val_of(range.1)),
                    )
                    &&& m@ == joined_msgs(
                        range_viol_msgs(
                            name@,
                            CoreModel {
                                min: Some(BoundModel::Close(val_of(range.0))),
                                max: Some(BoundModel::Close(val_of(range.1))),
                                ..crate::model::core_at(old(self)@, name@)
                            },
                        ),
                    )
                },
                Err(_) => false,
            },
    {
        self.set_range(name, (RangeCondition::Close(range.0), RangeCondition::Close(range.1)))
    }

    /// Replace the lower bound, excluding the endpoint value.
    pub fn set_min_limit_open(&mut self, name: &str, min_limit: ParamValue) -> (r: Result<
        (),
        ParameterBoxError,
    >)
        requires
            old(self).wf(),
            tag_matches(old(self)@, name@, tag_of(min_limit)),
        ensures
            final(self).wf(),
            final(self)@ == set_min_m(old(self)@, name@, BoundModel::Open(val_of(min_limit))),
            match r {
                Ok(()) => crate::model::set_min_ok(
                    old(self)@,
                    name@,
                    BoundModel::Open(val_of(min_limit)),
                ),
                Err(ParameterBoxError::NotAdded(m)) => find_entry(old(self)@.entries, name@)
                    is None && m@ == not_added_msg(name@),
                Err(ParameterBoxError::InvalidCondition(m)) => {
                    &&& find_entry(old(self)@.entries, name@) is Some
                    &&& !crate::model::set_min_ok(
                        old(self)@,
                        name@,
                        BoundModel::Open(val_of(min_limit)),
                    )
                    &&& m@ == bad_condition_msg(
                        name@,
                        crate::model::core_at(old(self)@, name@).value->Some_0,
                        crate::parameter::min_err_str(BoundModel::Open(val_of(min_limit))),
                    )
                },
                Err(_) => false,
            },
    {
        self.set_min_limit(name, RangeCondition::Open(min_limit))
    }

    /// Replace the lower bound, including the endpoint value.
    pub fn set_min_limit_close(&mut self, name: &str, min_limit: ParamValue) -> (r: Result<
        (),
        ParameterBoxError,
    >)
        requires
            old(self).wf(),
            tag_matches(old(self)@, name@, tag_of(min_limit)),
        ensures
            final(self).wf(),
            final(self)@ == set_min_m(old(self)@, name@, BoundModel::Close(val_of(min_limit))),
            match r {
                Ok(()) => crate::model::set_min_ok(
                    old(self)@,
                    name@,
                    BoundModel::Close(val_of(min_limit)),
                ),
                Err(ParameterBoxError::NotAdded(m)) => find_entry(old(self)@.entries, name@)
                    is None && m@ == not_added_msg(name@),
                Err(ParameterBoxError::InvalidCondition(m)) => {
                    &&& find_entry(old(self)@.entries, name@) is Some
                    &&& !crate::model::set_min_ok(
                        old(self)@,
                        name@,
                        BoundModel::Close(val_of(min_limit)),
                    )
                    &&& m@ == bad_condition_msg(
                        name@,
                        crate::model::core_at(old(self)@, name@).value->Some_0,
                        crate::parameter::min_err_str(BoundModel::Close(val_of(min_limit))),
                    )
                },
                Err(_) => false,
            },
    {
        self.set_min_limit(name, RangeCondition::Close(min_limit))
    }

    /// Replace the upper bound, excluding the endpoint value.
    pub fn set_max_limit_open(&mut self, name: &str, max_limit: ParamValue) -> (r: Result<
        (),
        ParameterBoxError,
    >)
        requires
            old(self).wf(),
            tag_matches(old(self)@, name@, tag_of(max_limit)),
        ensures
            final(self).wf(),
            final(self)@ == set_max_m(old(self)@, name@, BoundModel::Open(val_of(max_limit))),
            match r {
                Ok(()) => crate::model::set_max_ok(
                    old(self)@,
                    name@,
                    BoundModel::Open(val_of(max_limit)),
                ),
                Err(ParameterBoxError::NotAdded(m)) => find_entry(old(self)@.entries, name@)
                    is None && m@ == not_added_msg(name@),
                Err(ParameterBoxError::InvalidCondition(m)) => {
                    &&& find_entry(old(self)@.entries, name@) is Some
                    &&& !crate::model::set_max_ok(
                        old(self)@,
                        name@,
                        BoundModel::Open(val_of(max_limit)),
                    )
                    &&& m@ == bad_condition_msg(
                        name@,
                        crate::model::core_at(old(self)@, name@).value->Some_0,
                        crate::parameter::max_err_str(BoundModel::Open(val_of(max_limit))),
                    )
                },
                Err(_) => false,
            },
    {
        self.set_max_limit(name, RangeCondition::Open(max_limit))
    }

    /// Replace the upper bound, including the endpoint value.
    pub fn set_max_limit_close(&mut self, name: &str, max_limit: ParamValue) -> (r: Result<
        (),
        ParameterBoxError,
    >)
        requires
            old(self).wf(),
            tag_matches(old(self)@, name@, tag_of(max_limit)),
        ensures
            final(self).wf(),
            final(self)@ == set_max_m(old(self)@, name@, BoundModel::Close(val_of(max_limit))),
            match r {
                Ok(()) => crate::model::set_max_ok(
                    old(self)@,
                    name@,
                    BoundModel::Close(val_of(max_limit)),
                ),
                Err(ParameterBoxError::NotAdded(m)) => find_entry(old(self)@.entries, name@)
                    is None && m@ == not_added_msg(name@),
                Err(ParameterBoxError::InvalidCondition(m)) => {
                    &&& find_entry(old(self)@.entries, name@) is Some
                    &&& !crate::model::set_max_ok(
                        old(self)@,
                        name@,
                        BoundModel::Close(val_of(max_limit)),
                    )
                    &&& m@ == bad_condition_msg(
                        name@,
                        crate::model::core_at(old(self)@, name@).value->Some_0,
                        crate::parameter::max_err_str(BoundModel::Close(val_of(max_limit))),
                    )
                },
                Err(_) => false,
            },
    {
        self.set_max_limit(name, RangeCondition::Close(max_limit))
    }

    /// Replace the list condition with a block list: the value must not be
    /// a member.
    pub fn set_blacklist(&mut self, name: &str, blacklist: Vec<ParamValue>) -> (r: Result<
        (),
        ParameterBoxError,
    >)
        requires
            old(self).wf(),
            match find_entry(old(self)@.entries, name@) {
                Some(i) => forall|k: int|
                    0 <= k < blacklist@.len() ==> tag_of(blacklist@[k]) == old(
                        self,
                    )@.entries[i].tag,
                None => true,
            },
        ensures
            final(self).wf(),
            final(self)@ == set_list_m(
                old(self)@,
                name@,
                ListModel::Black(crate::parameter::seq_vals(blacklist@)),
            ),
            match r {
                Ok(()) => crate::model::set_list_ok(
                    old(self)@,
                    name@,
                    ListModel::Black(crate::parameter::seq_vals(blacklist@)),
                ),
                Err(ParameterBoxError::NotAdded(m)) => find_entry(old(self)@.entries, name@)
                    is None && m@ == not_added_msg(name@),
                Err(ParameterBoxError::InvalidCondition(m)) => {
                    &&& find_entry(old(self)@.entries, name@) is Some
                    &&& !crate::model::set_list_ok(
                        old(self)@,
                        name@,
                        ListModel::Black(crate::parameter::seq_vals(blacklist@)),
                    )
                    &&& m@ == bad_condition_msg(
                        name@,
                        crate::model::core_at(old(self)@, name@).value->Some_0,
                        crate::parameter::list_err_str(
                            ListModel::Black(crate::parameter::seq_vals(blacklist@)),
                        ),
                    )
                },
                Err(_) => false,
            },
    {
        self.set_list_info(name, ListCondition::Black(blacklist))
    }

    /// Replace the list condition with an allow list: the value must be a
    /// member.
    pub fn set_whitelist(&mut self, name: &str, whitelist: Vec<ParamValue>) -> (r: Result<
        (),
        ParameterBoxError,
    >)
        requires
            old(self).wf(),
            match find_entry(old(self)@.entries, name@) {
                Some(i) => forall|k: int|
                    0 <= k < whitelist@.len() ==> tag_of(whitelist@[k]) == old(
                        self,
                    )@.entries[i].tag,
                None => true,
            },
        ensures
            final(self).wf(),
            final(self)@ == set_list_m(
                old(self)@,
                name@,
                ListModel::White(crate::parameter::seq_vals(whitelist@)),
            ),
            match r {
                Ok(()) => crate::model::set_list_ok(
                    old(self)@,
                    name@,
                    ListModel::White(crate::parameter::seq_vals(whitelist@)),
                ),
                Err(ParameterBoxError::NotAdded(m)) => find_entry(old(self)@.entries, name@)
                    is None && m@ == not_added_msg(name@),
                Err(ParameterBoxError::InvalidCondition(m)) => {
                    &&& find_entry(old(self)@.entries, name@) is Some
                    &&& !crate::model::set_list_ok(
                        old(self)@,
                        name@,
                        ListModel::White(crate::parameter::seq_vals(whitelist@)),
                    )
                    &&& m@ == bad_condition_msg(
                        name@,
                        crate::model::core_at(old(self)@, name@).value->Some_0,
                        crate::parameter::list_err_str(
                            ListModel::White(crate::parameter::seq_vals(whitelist@)),
                        ),
                    )
                },
                Err(_) => false,
            },
    {
        self.set_list_info(name, ListCondition::White(whitelist))
    }

    /// Attach or replace the free-text explanation of a named entry.
    pub fn set_explanation(&mut self, name: &str, explanation: String) -> (r: Result<
        (),
        ParameterBoxError,
    >)
        requires
            old(self).wf(),
        ensures
            final(self).wf(),
            final(self)@ == set_explanation_m(old(self)@, name@, explanation@),
            match r {
                Ok(()) => find_entry(old(self)@.entries, name@) is Some,
                Err(ParameterBoxError::NotAdded(m)) => find_entry(old(self)@.entries, name@)
                    is None && m@ == not_added_msg(name@),
                Err(_) => false,
            },
    {
        let idx: Option<usize> = self.find_index(name);
        match idx {
            None => {
                self.count_error();
                Err(ParameterBoxError::NotAdded(not_added_string(name)))
            },
            Some(i) => {
                let ghost e0 = self@.entries[i as int];
                let ghost b0 = self@;
                let p: &mut Parameter = &mut self.params[i];
                p.explanation = Some(explanation);
                proof {
                    assert(self@.entries =~= b0.entries.update(
                        i as int,
                        EntryModel { explanation: Some(explanation@), ..e0 },
                    ));
                    assert(self@ =~= set_explanation_m(b0, name@, explanation@));
                }
                Ok(())
            },
        }
    }

    /// Exclude a named entry from rendering output; queries still see it.
    pub fn set_unvisible(&mut self, name: &str) -> (r: Result<(), ParameterBoxError>)
        requires
            old(self).wf(),
        ensures
            final(self).wf(),
            final(self)@ == set_unvisible_m(old(self)@, name@),
            match r {
                Ok(()) => find_entry(old(self)@.entries, name@) is Some,
                Err(ParameterBoxError::NotAdded(m)) => find_entry(old(self)@.entries, name@)
                    is None && m@ == not_added_msg(name@),
                Err(_) => false,
            },
    {
        let idx: Option<usize> = self.find_index(name);
        match idx {
            None => {
                self.count_error();
                Err(ParameterBoxError::NotAdded(not_added_string(name)))
            },
            Some(i) => {
                let ghost e0 = self@.entries[i as int];
                let ghost b0 = self@;
                let p: &mut Parameter = &mut self.params[i];
                p.unvisible = true;
                proof {
                    assert(self@.entries =~= b0.entries.update(
                        i as int,
                        EntryModel { unvisible: true, ..e0 },
                    ));
                    assert(self@ =~= set_unvisible_m(b0, name@));
                }
                Ok(())
            },
        }
    }

    /// Borrow the stored value of a named entry; `None` inside the `Ok`
    /// means declared but never set.
    pub fn ref_value(&mut self, name: &str) -> (r: Result<&Option<ParamValue>, ParameterBoxError>)
        requires
            old(self).wf(),
        ensures
            final(self).wf(),
            final(self)@ == access_m(old(self)@, name@),
            match r {
                Ok(v) => {
                    &&& Some(view_opt_value(*v)) == value_at(old(self)@, name@)
                    &&& (*v matches Some(pv) ==> Some(tag_of(pv)) == crate::model::tag_at(
                        old(self)@,
                        name@,
                    ))
                },
                Err(ParameterBoxError::NotAdded(m)) => find_entry(old(self)@.entries, name@)
                    is None && m@ == not_added_msg(name@),
                Err(_) => false,
            },
    {
        let idx: Option<usize> = self.find_index(name);
        match idx {
            None => {
                self.count_error();
                Err(ParameterBoxError::NotAdded(not_added_string(name)))
            },
            Some(i) => Ok(&self.params[i].parameter_core.value),
        }
    }

    /// Copy the stored value of a named entry out; `None` inside the `Ok`
    /// means declared but never set.
    pub fn clone_value(&mut self, name: &str) -> (r: Result<
        Option<ParamValue>,
        ParameterBoxError,
    >)
        requires
            old(self).wf(),
        ensures
            final(self).wf(),
            final(self)@ == access_m(old(self)@, name@),
            match r {
                Ok(v) => {
                    &&& Some(view_opt_value(v)) == value_at(old(self)@, name@)
                    &&& (v matches Some(pv) ==> Some(tag_of(pv)) == crate::model::tag_at(
                        old(self)@,
                        name@,
                    ))
                },
                Err(ParameterBoxError::NotAdded(m)) => find_entry(old(self)@.entries, name@)
                    is None && m@ == not_added_msg(name@),
                Err(_) => false,
            },
    {
        let idx: Option<usize> = self.find_index(name);
        match idx {
            None => {
                self.count_error();
                Err(ParameterBoxError::NotAdded(not_added_string(name)))
            },
            Some(i) => match &self.params[i].parameter_core.value {
                Some(v) => Ok(Some(v.clone())),
                None => Ok(None),
            },
        }
    }

    /// Borrow the explanation of a named entry.
    pub fn ref_explanation(&mut self, name: &str) -> (r: Result<
        &Option<String>,
        ParameterBoxError,
    >)
        requires
            old(self).wf(),
        ensures
            final(self).wf(),
            final(self)@ == access_m(old(self)@, name@),
            match r {
                Ok(e) => Some(view_opt_string(*e)) == explanation_at(old(self)@, name@),
                Err(ParameterBoxError::NotAdded(m)) => find_entry(old(self)@.entries, name@)
                    is None && m@ == not_added_msg(name@),
                Err(_) => false,
            },
    {
        let idx: Option<usize> = self.find_index(name);
        match idx {
            None => {
                self.count_error();
                Err(ParameterBoxError::NotAdded(not_added_string(name)))
            },
            Some(i) => Ok(&self.params[i].explanation),
        }
    }

    /// Populate values from the lines of a configuration file.  Blank
    /// lines and lines starting with `#` are skipped; every other line
    /// must be `<key> <value>`.  Unknown keys, malformed lines, values
    /// that do not parse, and constraint violations are reported per line
    /// and never stop the pass; a known key named by more than one line
    /// is reported as a duplicate with every line number that named it.
    /// Success means a wholly clean pass; otherwise every report comes
    /// back as one `InvalidInputFile`, newline-joined in the order
    /// recorded.
    #[verifier::rlimit(50)]
    pub fn read_lines(&mut self, lines: &Vec<String>, filename: &str) -> (r: Result<
        (),
        ParameterBoxError,
    >)
        requires
            old(self).wf(),
        ensures
            final(self).wf(),
            ({
                let st = crate::model::ingest_lines_m(
                    crate::model::IngestState {
                        box_m: old(self)@,
                        seen: Seq::<(Seq<char>, int)>::empty(),
                        msgs: Seq::<Seq<char>>::empty(),
                    },
                    crate::parse::strs_views(lines@),
                    1,
                    filename@,
                );
                let all_msgs = st.msgs + crate::model::dup_msgs(st.seen, filename@);
                &&& final(self)@ == st.box_m
                &&& match r {
                    Ok(()) => all_msgs.len() == 0,
                    Err(ParameterBoxError::InvalidInputFile(m)) => all_msgs.len() > 0 && m@
                        == joined_msgs(all_msgs),
                    Err(_) => false,
                }
            }),
    {
        let ghost init = crate::model::IngestState {
            box_m: old(self)@,
            seen: Seq::<(Seq<char>, int)>::empty(),
            msgs: Seq::<Seq<char>>::empty(),
        };
        let ghost all = crate::parse::strs_views(lines@);
        let mut err_msg: String = String::new();
        let mut err_any: bool = false;
        let ghost mut msgs: Seq<Seq<char>> = Seq::empty();
        let mut seen_names: Vec<String> = Vec::new();
        let mut seen_lines: Vec<usize> = Vec::new();
        let nlines: usize = lines.len();
        let mut k: usize = 0;
        proof {
            assert(all.skip(0) =~= all);
            assert(seen_view(seen_names@, seen_lines@) =~= Seq::<(Seq<char>, int)>::empty());
        }
        while k < nlines
            invariant
                k <= nlines,
                nlines == lines@.len(),
                all == crate::parse::strs_views(lines@),
                self.wf(),
                seen_names@.len() == seen_lines@.len(),
                err_msg@ == joined_msgs(msgs),
                err_any == (msgs.len() > 0),
                crate::model::ingest_lines_m(init, all, 1, filename@)
                    == crate::model::ingest_lines_m(
                    crate::model::IngestState {
                        box_m: self@,
                        seen: seen_view(seen_names@, seen_lines@),
                        msgs: msgs,
                    },
                    all.skip(k as int),
                    k as int + 1,
                    filename@,
                ),
            decreases nlines - k,
        {
            let ghost cur = crate::model::IngestState {
                box_m: self@,
                seen: seen_view(seen_names@, seen_lines@),
                msgs: msgs,
            };
            let ghost lv = all[k as int];
            let ghost lineno = k as int + 1;
            proof {
                assert(all.skip(k as int)[0] == all[k as int]);
                assert(all.skip(k as int).skip(1) =~= all.skip(k as int + 1));
                assert(crate::model::ingest_lines_m(cur, all.skip(k as int), lineno, filename@)
                    == crate::model::ingest_lines_m(
                    crate::model::ingest_step(cur, lv, lineno, filename@),
                    all.skip(k as int + 1),
                    lineno + 1,
                    filename@,
                ));
            }
            let line: &String = &lines[k];
            let n: usize = line.as_str().unicode_len();
            let skip_line: bool = if n == 0 {
                true
            } else {
                let c0: char = line.as_str().get_char(0);
                (c0 as u32) == ('#' as u32)
            };
            if skip_line {
                proof {
                    assert(crate::model::line_skipped(lv));
                    assert(crate::model::ingest_step(cur, lv, lineno, filename@) =~= cur);
                }
            } else {
                proof {
                    assert(!crate::model::line_skipped(lv));
                }
                let toks: Vec<String> = crate::parse::split_tokens(line.as_str());
                let ghost tv = crate::parse::tokens_of(lv);
                proof {
                    assert(strs_views(toks@) == tv);
                }
                if toks.len() == 0 {
                    self.count_error();
                    let m: String = malformed_line_string(k + 1, filename);
                    let rep = append_report(&mut err_msg, &mut err_any, m.as_str(), Ghost(msgs));
                    proof {
                        msgs = rep@;
                        assert(crate::model::ingest_step(cur, lv, lineno, filename@)
                            =~= (crate::model::IngestState {
                            box_m: self@,
                            seen: seen_view(seen_names@, seen_lines@),
                            msgs: msgs,
                        }));
                    }
                } else {
                    let name: &String = &toks[0];
                    proof {
                        assert(name@ == tv[0]);
                    }
                    let idx_opt: Option<usize> = self.find_index(name.as_str());
                    match idx_opt {
                        None => {
                            self.count_error();
                            let m: String = unknown_key_string(k + 1, filename, name.as_str());
                            let rep = append_report(
                                &mut err_msg,
                                &mut err_any,
                                m.as_str(),
                                Ghost(msgs),
                            );
                            proof {
                                msgs = rep@;
                                assert(crate::model::ingest_step(cur, lv, lineno, filename@)
                                    =~= (crate::model::IngestState {
                                    box_m: self@,
                                    seen: seen_view(seen_names@, seen_lines@),
                                    msgs: msgs,
                                }));
                            }
                        },
                        Some(idx) => {
                            let ghost seen0 = seen_view(seen_names@, seen_lines@);
                            seen_names.push(name.clone());
                            seen_lines.push(k + 1);
                            proof {
                                assert(seen_view(seen_names@, seen_lines@) =~= seen0.push(
                                    (name@, lineno),
                                ));
                            }
                            if toks.len() != 2 {
                                self.count_error();
                                let m: String = malformed_line_string(k + 1, filename);
                                let rep = append_report(
                                    &mut err_msg,
                                    &mut err_any,
                                    m.as_str(),
                                    Ghost(msgs),
                                );
                                proof {
                                    msgs = rep@;
                                    assert(crate::model::ingest_step(cur, lv, lineno, filename@)
                                        =~= (crate::model::IngestState {
                                        box_m: self@,
                                        seen: seen_view(seen_names@, seen_lines@),
                                        msgs: msgs,
                                    }));
                                }
                            } else {
                                proof {
                                    assert(idx < self.params@.len());
                                }
                                let tag: TypeTag = self.params[idx].tag;
                                proof {
                                    assert(tag == cur.box_m.entries[idx as int].tag);
                                }
                                match crate::parse::parse_value(tag, toks[1].as_str()) {
                                    Err(()) => {
                                        self.count_error();
                                        let m: String = parse_fail_string(
                                            k + 1,
                                            filename,
                                            toks[1].as_str(),
                                            tag,
                                        );
                                        let rep = append_report(
                                            &mut err_msg,
                                            &mut err_any,
                                            m.as_str(),
                                            Ghost(msgs),
                                        );
                                        proof {
                                            msgs = rep@;
                                            assert(crate::model::ingest_step(
                                                cur,
                                                lv,
                                                lineno,
                                                filename@,
                                            ) =~= (crate::model::IngestState {
                                                box_m: self@,
                                                seen: seen_view(seen_names@, seen_lines@),
                                                msgs: msgs,
                                            }));
                                        }
                                    },
                                    Ok(v) => {
                                        proof {
                                            assert(tag_matches(cur.box_m, name@, tag_of(v)));
                                        }
                                        let res: Result<(), ParameterBoxError> = self.set_value(
                                            name.as_str(),
                                            v,
                                        );
                                        match res {
                                            Ok(()) => {
                                                proof {
                                                    assert(crate::model::ingest_step(
                                                        cur,
                                                        lv,
                                                        lineno,
                                                        filename@,
                                                    ) =~= (crate::model::IngestState {
                                                        box_m: self@,
                                                        seen: seen_view(
                                                            seen_names@,
                                                            seen_lines@,
                                                        ),
                                                        msgs: msgs,
                                                    }));
                                                }
                                            },
                                            Err(ParameterBoxError::InvalidCondition(m)) => {
                                                let full: String = annotate_line_string(
                                                    m.as_str(),
                                                    k + 1,
                                                    filename,
                                                );
                                                let rep = append_report(
                                                    &mut err_msg,
                                                    &mut err_any,
                                                    full.as_str(),
                                                    Ghost(msgs),
                                                );
                                                proof {
                                                    msgs = rep@;
                                                    assert(crate::model::ingest_step(
                                                        cur,
                                                        lv,
                                                        lineno,
                                                        filename@,
                                                    ) =~= (crate::model::IngestState {
                                                        box_m: self@,
                                                        seen: seen_view(
                                                            seen_names@,
                                                            seen_lines@,
                                                        ),
                                                        msgs: msgs,
                                                    }));
                                                }
                                            },
                                            Err(_) => {
                                                proof {
                                                    assert(false);
                                                }
                                            },
                                        }
                                    },
                                }
                            }
                        },
                    }
                }
            }
            k = k + 1;
        }
        proof {
            assert(all.skip(nlines as int) =~= Seq::<Seq<char>>::empty());
        }
        let ghost seen_g = seen_view(seen_names@, seen_lines@);
        let ghost line_msgs = msgs;
        let m: usize = seen_names.len();
        let mut a: usize = 0;
        while a < m
            invariant
                a <= m,
                m == seen_names@.len(),
                m == seen_lines@.len(),
                seen_g == seen_view(seen_names@, seen_lines@),
                err_msg@ == joined_msgs(msgs),
                err_any == (msgs.len() > 0),
                line_msgs + crate::model::dup_msgs_from(seen_g, filename@, 0) == msgs
                    + crate::model::dup_msgs_from(seen_g, filename@, a as int),
            decreases m - a,
        {
            let ghost pre_msgs = msgs;
            let ghost name_a = seen_g[a as int].0;
            let mut first: bool = true;
            let mut bidx: usize = 0;
            while bidx < a
                invariant
                    bidx <= a < m,
                    m == seen_names@.len(),
                    seen_g == seen_view(seen_names@, seen_lines@),
                    name_a == seen_g[a as int].0,
                    first == (forall|b: int| 0 <= b < bidx ==> seen_g[b].0 != name_a),
                decreases a - bidx,
            {
                proof {
                    assert(seen_g[bidx as int].0 == seen_names@[bidx as int]@);
                    assert(name_a == seen_names@[a as int]@);
                }
                if str_eq(seen_names[bidx].as_str(), seen_names[a].as_str()) {
                    first = false;
                }
                bidx = bidx + 1;
            }
            proof {
                assert(first == crate::model::first_occ(seen_g, a as int));
            }
            if first {
                let mut ls_str: String = String::new();
                let mut cnt: usize = 0;
                let mut d: usize = 0;
                proof {
                    assert(seen_g.take(0) =~= Seq::<(Seq<char>, int)>::empty());
                    assert(crate::model::occ_lines(Seq::<(Seq<char>, int)>::empty(), name_a)
                        =~= Seq::<int>::empty());
                }
                while d < m
                    invariant
                        d <= m,
                        a < m,
                        m == seen_names@.len(),
                        m == seen_lines@.len(),
                        seen_g == seen_view(seen_names@, seen_lines@),
                        name_a == seen_g[a as int].0,
                        cnt == crate::model::occ_lines(seen_g.take(d as int), name_a).len(),
                        cnt <= d,
                        ls_str@ == crate::model::nth_list(
                            crate::model::occ_lines(seen_g.take(d as int), name_a),
                        ),
                    decreases m - d,
                {
                    let ghost pref = seen_g.take(d as int);
                    proof {
                        assert(seen_g[d as int].0 == seen_names@[d as int]@);
                        assert(seen_g[d as int].1 == seen_lines@[d as int] as int);
                        assert(name_a == seen_names@[a as int]@);
                        assert(pref.push(seen_g[d as int]) =~= seen_g.take(d as int + 1));
                        crate::model::lemma_occ_lines_push(pref, seen_g[d as int], name_a);
                    }
                    if str_eq(seen_names[d].as_str(), seen_names[a].as_str()) {
                        proof {
                            crate::model::lemma_nth_list_push(
                                crate::model::occ_lines(pref, name_a),
                                seen_g[d as int].1,
                            );
                        }
                        if cnt > 0 {
                            ls_str.append(", ");
                        }
                        let lnum: String = crate::text::u128_dec_string(seen_lines[d] as u128);
                        ls_str.append(lnum.as_str());
                        ls_str.append("-th");
                        cnt = cnt + 1;
                        proof {
                            assert(ls_str@ =~= crate::model::nth_list(
                                crate::model::occ_lines(seen_g.take(d as int + 1), name_a),
                            ));
                        }
                    }
                    d = d + 1;
                }
                proof {
                    assert(seen_g.take(m as int) =~= seen_g);
                }
                if cnt >= 2 {
                    if err_any {
                        err_msg.append("\n");
                    }
                    err_any = true;
                    err_msg.append("ParameterBoxError: in the ");
                    err_msg.append(ls_str.as_str());
                    err_msg.append(" lines of the file '");
                    err_msg.append(filename);
                    err_msg.append("', `");
                    err_msg.append(seen_names[a].as_str());
                    err_msg.append("` is duplicate.");
                    proof {
                        let dm = crate::model::dup_msg(
                            name_a,
                            crate::model::occ_lines(seen_g, name_a),
                            filename@,
                        );
                        lemma_joined_msgs_push(msgs, dm);
                        msgs = msgs.push(dm);
                        assert(err_msg@ =~= joined_msgs(msgs));
                    }
                } else {
                    proof {
                        assert(crate::model::occ_lines(seen_g, name_a).len() < 2);
                    }
                }
            }
            proof {
                if crate::model::first_occ(seen_g, a as int) && crate::model::occ_lines(
                    seen_g,
                    name_a,
                ).len() >= 2 {
                    let dm = crate::model::dup_msg(
                        name_a,
                        crate::model::occ_lines(seen_g, name_a),
                        filename@,
                    );
                    assert(crate::model::dup_msgs_from(seen_g, filename@, a as int) == seq![dm]
                        + crate::model::dup_msgs_from(seen_g, filename@, a as int + 1));
                    assert(msgs =~= pre_msgs.push(dm));
                    assert(pre_msgs + (seq![dm] + crate::model::dup_msgs_from(
                        seen_g,
                        filename@,
                        a as int + 1,
                    )) =~= msgs + crate::model::dup_msgs_from(seen_g, filename@, a as int + 1));
                } else {
                    assert(crate::model::dup_msgs_from(seen_g, filename@, a as int)
                        == crate::model::dup_msgs_from(seen_g, filename@, a as int + 1));
                    assert(msgs == pre_msgs);
                }
            }
            a = a + 1;
        }
        proof {
            assert(crate::model::dup_msgs_from(seen_g, filename@, m as int)
                =~= Seq::<Seq<char>>::empty());
            assert(line_msgs + crate::model::dup_msgs(seen_g, filename@) =~= msgs);
        }
        if err_any {
            Err(ParameterBoxError::InvalidInputFile(err_msg))
        } else {
            Ok(())
        }
    }

    /// Render the report of all visible entries, one block per entry in
    /// registration order.
    pub fn render(&self) -> (s: String)
        requires
            self.wf(),
        ensures
            s@ == crate::model::render_box(self@.entries),
    {
        let mut out: String = String::new();
        let n: usize = self.names.len();
        let mut i: usize = 0;
        proof {
            assert(self@.entries.take(0) =~= Seq::<EntryModel>::empty());
            assert(crate::model::render_box(Seq::<EntryModel>::empty()) =~= Seq::<char>::empty());
        }
        while i < n
            invariant
                i <= n,
                n == self.names@.len(),
                self.wf(),
                out@ == crate::model::render_box(self@.entries.take(i as int)),
            decreases n - i,
        {
            let ghost e = self@.entries[i as int];
            proof {
                crate::model::lemma_render_box_snoc(self@.entries.take(i as int), e);
                assert(self@.entries.take(i as int).push(e) =~= self@.entries.take(i as int + 1));
            }
            let ghost out0 = out@;
            let p: &Parameter = &self.params[i];
            if !p.unvisible {
                let block: String = entry_block(&self.names[i], p);
                out.append(block.as_str());
                proof {
                    assert(out@ =~= out0 + crate::model::render_entry(e));
                }
            } else {
                proof {
                    assert(crate::model::render_entry(e) =~= Seq::<char>::empty());
                    assert(out@ =~= out0 + crate::model::render_entry(e));
                }
            }
            i = i + 1;
        }
        proof {
            assert(self@.entries.take(n as int) =~= self@.entries);
        }
        out
    }

    /// Read-only access to the error counter.
    pub fn get_num_errors(&self) -> (r: &u32)
        ensures
            *r as nat == self@.errors,
    {
        &self.error_counter
    }
}

/// Render the block of one visible entry.
#[verifier::rlimit(50)]
fn entry_block(name: &String, p: &Parameter) -> (s: String)
    requires
        !p.unvisible,
    ensures
        s@ == crate::model::render_entry(
            EntryModel {
                name: name@,
                tag: p.tag,
                core: p.parameter_core@,
                explanation: view_opt_string(p.explanation),
                unvisible: p.unvisible,
            },
        ),
{
    let ghost e = EntryModel {
        name: name@,
        tag: p.tag,
        core: p.parameter_core@,
        explanation: view_opt_string(p.explanation),
        unvisible: p.unvisible,
    };
    let mut s: String = String::new();
    s.append(name.as_str());
    s.append("\n----------------------------\n");
    s.append("Type          | ");
    let tname: String = crate::text::tag_string(p.tag);
    s.append(tname.as_str());
    s.append("\n");
    let vline: String = value_line_string(&p.parameter_core.value);
    s.append(vline.as_str());
    let rline: String = range_line_string(
        name,
        &p.parameter_core.range.0,
        &p.parameter_core.range.1,
    );
    s.append(rline.as_str());
    let lline: String = list_line_string(&p.parameter_core.list);
    s.append(lline.as_str());
    let xline: String = explanation_line_string(&p.explanation);
    s.append(xline.as_str());
    s.append("\n");
    proof {
        assert(s@ =~= crate::model::render_entry(e));
    }
    s
}

/// Render the value line of a block, empty when no value is set.
fn value_line_string(v: &Option<ParamValue>) -> (s: String)
    ensures
        s@ == match *v {
            Some(val) => "Default value | "@ + crate::text::val_str(val_of(val)) + "\n"@,
            None => Seq::<char>::empty(),
        },
{
    match v {
        Some(val) => {
            let mut s: String = String::from_str("Default value | ");
            let vs: String = value_string(val);
            s.append(vs.as_str());
            s.append("\n");
            proof {
                assert(s@ =~= "Default value | "@ + crate::text::val_str(val_of(*val)) + "\n"@);
            }
            s
        },
        None => String::new(),
    }
}

/// Render the range line of a block, empty when no bound is set.
fn range_line_string(
    name: &String,
    mn: &Option<RangeCondition>,
    mx: &Option<RangeCondition>,
) -> (s: String)
    ensures
        s@ == crate::model::range_line(
            name@,
            match *mn {
                Some(b) => Some(b@),
                None => None,
            },
            match *mx {
                Some(b) => Some(b@),
                None => None,
            },
        ),
{
    match (mn, mx) {
        (Some(lo), Some(hi)) => {
            let mut s: String = String::from_str("Range         | ");
            let ls: String = min_label_string(lo);
            s.append(ls.as_str());
            s.append(" ");
            s.append(name.as_str());
            s.append(" ");
            let us: String = max_label_string(hi);
            s.append(us.as_str());
            s.append("\n");
            proof {
                assert(s@ =~= crate::model::range_line(name@, Some(lo@), Some(hi@)));
            }
            s
        },
        (Some(lo), None) => {
            let mut s: String = String::from_str("Range         | ");
            let ls: String = min_label_string(lo);
            s.append(ls.as_str());
            s.append(" ");
            s.append(name.as_str());
            s.append("\n");
            proof {
                assert(s@ =~= crate::model::range_line(name@, Some(lo@), None));
            }
            s
        },
        (None, Some(hi)) => {
            let mut s: String = String::from_str("Range         | ");
            s.append(name.as_str());
            s.append(" ");
            let us: String = max_label_string(hi);
            s.append(us.as_str());
            s.append("\n");
            proof {
                assert(s@ =~= crate::model::range_line(name@, None, Some(hi@)));
            }
            s
        },
        (None, None) => String::new(),
    }
}

/// Render the list line of a block, empty when no list condition is set.
fn list_line_string(l: &Option<ListCondition>) -> (s: String)
    ensures
        s@ == match *l {
            Some(lc) => crate::model::list_line(lc@),
            None => Seq::<char>::empty(),
        },
{
    match l {
        Some(ListCondition::Black(vs)) => {
            let mut s: String = String::from_str("Blacklist     | [");
            let js: String = crate::text::vals_joined_string(vs);
            s.append(js.as_str());
            s.append("]\n");
            proof {
                assert(s@ =~= crate::model::list_line(ListModel::Black(
                    crate::parameter::seq_vals(vs@),
                )));
            }
            s
        },
        Some(ListCondition::White(vs)) => {
            let mut s: String = String::from_str("Whitelist     | [");
            let js: String = crate::text::vals_joined_string(vs);
            s.append(js.as_str());
            s.append("]\n");
            proof {
                assert(s@ =~= crate::model::list_line(ListModel::White(
                    crate::parameter::seq_vals(vs@),
                )));
            }
            s
        },
        None => String::new(),
    }
}

/// Render the explanation line of a block, empty when none is set.
fn explanation_line_string(x: &Option<String>) -> (s: String)
    ensures
        s@ == match *x {
            Some(t) => "Explanation   | "@ + t@ + "\n"@,
            None => Seq::<char>::empty(),
        },
{
    match x {
        Some(t) => {
            let mut s: String = String::from_str("Explanation   | ");
            s.append(t.as_str());
            s.append("\n");
            proof {
                assert(s@ =~= "Explanation   | "@ + t@ + "\n"@);
            }
            s
        },
        None => String::new(),
    }
}

/// Render the lower-bound label of a range line.
fn min_label_string(b: &RangeCondition) -> (s: String)
    ensures
        s@ == crate::model::min_label(b@),
{
    match b {
        RangeCondition::Open(v) => {
            let mut s: String = value_string(v);
            s.append(" <");
            proof {
                assert(s@ =~= crate::model::min_label(b@));
            }
            s
        },
        RangeCondition::Close(v) => {
            let mut s: String = value_string(v);
            s.append(" ≦");
            proof {
                assert(s@ =~= crate::model::min_label(b@));
            }
            s
        },
    }
}

/// Render the upper-bound label of a range line.
fn max_label_string(b: &RangeCondition) -> (s: String)
    ensures
        s@ == crate::model::max_label(b@),
{
    match b {
        RangeCondition::Open(v) => {
            let mut s: String = String::from_str("< ");
            let vs: String = value_string(v);
            s.append(vs.as_str());
            proof {
                assert(s@ =~= crate::model::max_label(b@));
            }
            s
        },
        RangeCondition::Close(v) => {
            let mut s: String = String::from_str("≦ ");
            let vs: String = value_string(v);
            s.append(vs.as_str());
            proof {
                assert(s@ =~= crate::model::max_label(b@));
            }
            s
        },
    }
}

/// The ingestion records as the model sees them: each recorded key with
/// its line number.
spec fn seen_view(names: Seq<String>, nums: Seq<usize>) -> Seq<(Seq<char>, int)> {
    Seq::new(names.len(), |k: int| (names[k]@, nums[k] as int))
}

/// Build the opening of a per-line report.
fn line_prefix_string(n: usize, filename: &str) -> (s: String)
    ensures
        s@ == crate::model::line_prefix(n as int, filename@),
{
    let mut s: String = String::from_str("ParameterBoxError: in the ");
    let lnum: String = crate::text::u128_dec_string(n as u128);
    s.append(lnum.as_str());
    s.append("-th line of the file '");
    s.append(filename);
    s.append("', ");
    proof {
        assert(s@ =~= crate::model::line_prefix(n as int, filename@));
    }
    s
}

/// Append one report to the accumulated file report, after a line break
/// when it is not the first.
fn append_report(
    err_msg: &mut String,
    err_any: &mut bool,
    m: &str,
    msgs: Ghost<Seq<Seq<char>>>,
) -> (out: Ghost<Seq<Seq<char>>>)
    requires
        old(err_msg)@ == joined_msgs(msgs@),
        *old(err_any) == (msgs@.len() > 0),
    ensures
        out@ == msgs@.push(m@),
        final(err_msg)@ == joined_msgs(out@),
        *final(err_any),
{
    if *err_any {
        err_msg.append("\n");
    }
    *err_any = true;
    err_msg.append(m);
    proof {
        lemma_joined_msgs_push(msgs@, m@);
        assert(err_msg@ =~= joined_msgs(msgs@.push(m@)));
    }
    Ghost(msgs@.push(m@))
}

/// Build the report for a line that is not `<key> <value>`.
fn malformed_line_string(n: usize, filename: &str) -> (s: String)
    ensures
        s@ == crate::model::malformed_line_msg(n as int, filename@),
{
    let mut s: String = line_prefix_string(n, filename);
    s.append("each line must be '<name> <value>' in a parameter file.");
    proof {
        assert(s@ =~= crate::model::malformed_line_msg(n as int, filename@));
    }
    s
}

/// Build the report for a line naming an unregistered key.
fn unknown_key_string(n: usize, filename: &str, name: &str) -> (s: String)
    ensures
        s@ == crate::model::unknown_key_msg(n as int, filename@, name@),
{
    let mut s: String = line_prefix_string(n, filename);
    s.append("`");
    s.append(name);
    s.append("` has not been added to a parameter box.");
    proof {
        assert(s@ =~= crate::model::unknown_key_msg(n as int, filename@, name@));
    }
    s
}

/// Build the report for a value token that does not convert.
fn parse_fail_string(n: usize, filename: &str, tok: &str, tag: TypeTag) -> (s: String)
    ensures
        s@ == crate::model::parse_fail_msg(n as int, filename@, tok@, tag),
{
    let mut s: String = line_prefix_string(n, filename);
    s.append("`");
    s.append(tok);
    s.append("` cannot parse to ");
    let tname: String = crate::text::tag_string(tag);
    s.append(tname.as_str());
    s.append(".");
    proof {
        assert(s@ =~= crate::model::parse_fail_msg(n as int, filename@, tok@, tag));
    }
    s
}

/// Annotate a violation report with the line it arose from.
fn annotate_line_string(m: &str, n: usize, filename: &str) -> (s: String)
    ensures
        s@ == m@ + crate::model::line_annot(n as int, filename@),
{
    let mut s: String = String::from_str(m);
    s.append(" (in the ");
    let lnum: String = crate::text::u128_dec_string(n as u128);
    s.append(lnum.as_str());
    s.append("-th line of the file '");
    s.append(filename);
    s.append("')");
    proof {
        assert(s@ =~= m@ + crate::model::line_annot(n as int, filename@));
    }
    s
}

/// Build the message for a duplicate registration.
fn already_added_string(name: &str) -> (s: String)
    ensures
        s@ == already_added_msg(name@),
{
    let mut s: String = String::from_str("ParameterBoxError: `");
    s.append(name);
    s.append("` has already been added to a parameter box.");
    proof {
        assert(s@ =~= already_added_msg(name@));
    }
    s
}

/// Build the message for an operation on an unregistered name.
fn not_added_string(name: &str) -> (s: String)
    ensures
        s@ == not_added_msg(name@),
{
    let mut s: String = String::from_str("ParameterBoxError: `");
    s.append(name);
    s.append("` has not been added to a parameter box.");
    proof {
        assert(s@ =~= not_added_msg(name@));
    }
    s
}

/// Build the message for one violated condition from the rendered value
/// text.
fn bad_condition_string(name: &str, vtext: &str, cond: &str) -> (s: String)
    ensures
        s@ == crate::model::bad_condition_text(name@, vtext@, cond@),
{
    let mut s: String = String::from_str("ParameterBoxError: `");
    s.append(name);
    s.append("` = ");
    s.append(vtext);
    s.append(" does not satisfy the condition that `");
    s.append(name);
    s.append("` ");
    s.append(cond);
    s.append(".");
    proof {
        assert(s@ =~= crate::model::bad_condition_text(name@, vtext@, cond@));
    }
    s
}

} // verus!
