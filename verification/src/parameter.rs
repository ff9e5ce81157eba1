//! The constraint core: one typed value, its optional range bounds and its
//! optional list condition, and the pure checks that compare the value
//! against them.
//!
//! The checks never mutate state; a core with no value set satisfies every
//! constraint.  Each check reports a violation as a structured error that
//! carries a rendered description of the offended condition.

use crate::text::{val_str, vals_joined};
use crate::value::{ParamValue, TypeTag, Val, tag_of, val_le, val_lt, val_of, value_eq, value_le,
    value_lt};
use vstd::prelude::*;
use vstd::string::StringExecFns;

verus! {

/// One end of a range: `Open` excludes the endpoint value, `Close` includes
/// it.
#[derive(Debug)]
pub enum RangeCondition {
    Open(ParamValue),
    Close(ParamValue),
}

/// A list condition: a value must not appear in a `Black` list, and must
/// appear in a `White` list.
#[derive(Debug)]
pub enum ListCondition {
    Black(Vec<ParamValue>),
    White(Vec<ParamValue>),
}

/// A range violation, carrying a rendered description of the bound.
#[derive(Debug)]
pub enum RangeError {
    LessThanMinLimit(String),
    LargerThanMaxLimit(String),
}

/// A list violation, carrying a rendered description of the list.
#[derive(Debug)]
pub enum ListError {
    BlacklistViolation(String),
    WhitelistViolation(String),
}

/// Model of a range bound.
pub ghost enum BoundModel {
    Open(Val),
    Close(Val),
}

/// Model of a list condition.
pub ghost enum ListModel {
    Black(Seq<Val>),
    White(Seq<Val>),
}

/// Model of a constraint core.
pub ghost struct CoreModel {
    pub value: Option<Val>,
    pub min: Option<BoundModel>,
    pub max: Option<BoundModel>,
    pub list: Option<ListModel>,
}

/// A core with nothing set.
pub open spec fn empty_core() -> CoreModel {
    CoreModel { value: None, min: None, max: None, list: None }
}

/// The models of a sequence of values.
pub open spec fn seq_vals(s: Seq<ParamValue>) -> Seq<Val> {
    s.map_values(|p: ParamValue| val_of(p))
}

impl View for RangeCondition {
    type V = BoundModel;

    open spec fn view(&self) -> BoundModel {
        match *self {
            RangeCondition::Open(v) => BoundModel::Open(val_of(v)),
            RangeCondition::Close(v) => BoundModel::Close(val_of(v)),
        }
    }
}

impl View for ListCondition {
    type V = ListModel;

    open spec fn view(&self) -> ListModel {
        match *self {
            ListCondition::Black(l) => ListModel::Black(seq_vals(l@)),
            ListCondition::White(l) => ListModel::White(seq_vals(l@)),
        }
    }
}

/// The value a bound carries.
pub open spec fn bound_value(b: RangeCondition) -> ParamValue {
    match b {
        RangeCondition::Open(v) => v,
        RangeCondition::Close(v) => v,
    }
}

/// Whether a bound's value is of the given kind.
pub open spec fn bound_tag_ok(b: RangeCondition, t: TypeTag) -> bool {
    tag_of(bound_value(b)) == t
}

/// Whether every value a list condition carries is of the given kind.
pub open spec fn list_tag_ok(l: ListCondition, t: TypeTag) -> bool {
    match l {
        ListCondition::Black(vs) => forall|i: int| 0 <= i < vs@.len() ==> tag_of(vs@[i]) == t,
        ListCondition::White(vs) => forall|i: int| 0 <= i < vs@.len() ==> tag_of(vs@[i]) == t,
    }
}

/// The generic value holder for one parameter: the current value, the
/// optional pair of range bounds, and the optional list condition.
#[derive(Debug)]
pub struct ParameterCore {
    /// Current value; absent until first set.
    pub value: Option<ParamValue>,
    /// Independent lower and upper bounds.
    pub range: (Option<RangeCondition>, Option<RangeCondition>),
    /// Block list or allow list.
    pub list: Option<ListCondition>,
}

impl View for ParameterCore {
    type V = CoreModel;

    open spec fn view(&self) -> CoreModel {
        CoreModel {
            value: match self.value {
                Some(v) => Some(val_of(v)),
                None => None,
            },
            min: match self.range.0 {
                Some(b) => Some(b@),
                None => None,
            },
            max: match self.range.1 {
                Some(b) => Some(b@),
                None => None,
            },
            list: match self.list {
                Some(l) => Some(l@),
                None => None,
            },
        }
    }
}

/// Whether every value a core holds is of the given kind.
pub open spec fn core_tag_ok(c: ParameterCore, t: TypeTag) -> bool {
    &&& (c.value matches Some(v) ==> tag_of(v) == t)
    &&& (c.range.0 matches Some(b) ==> bound_tag_ok(b, t))
    &&& (c.range.1 matches Some(b) ==> bound_tag_ok(b, t))
    &&& (c.list matches Some(l) ==> list_tag_ok(l, t))
}

/// The current value satisfies the lower bound: strictly above an `Open`
/// bound, at or above a `Close` bound.  An absent value or bound always
/// satisfies.
pub open spec fn min_ok(c: CoreModel) -> bool {
    match (c.value, c.min) {
        (Some(v), Some(BoundModel::Open(m))) => !val_le(v, m),
        (Some(v), Some(BoundModel::Close(m))) => !val_lt(v, m),
        _ => true,
    }
}

/// The current value satisfies the upper bound: strictly below an `Open`
/// bound, at or below a `Close` bound.
pub open spec fn max_ok(c: CoreModel) -> bool {
    match (c.value, c.max) {
        (Some(v), Some(BoundModel::Open(m))) => !val_le(m, v),
        (Some(v), Some(BoundModel::Close(m))) => !val_lt(m, v),
        _ => true,
    }
}

/// The current value satisfies the list condition: absent from a block
/// list, present in an allow list.
pub open spec fn list_ok(c: CoreModel) -> bool {
    match (c.value, c.list) {
        (Some(v), Some(ListModel::Black(l))) => !l.contains(v),
        (Some(v), Some(ListModel::White(l))) => l.contains(v),
        _ => true,
    }
}

/// Description of a violated lower bound, as the comparison the value had
/// to satisfy.
pub open spec fn min_err_str(min: BoundModel) -> Seq<char> {
    match min {
        BoundModel::Open(m) => "> "@ + val_str(m),
        BoundModel::Close(m) => "≧ "@ + val_str(m),
    }
}

/// Description of a violated upper bound.
pub open spec fn max_err_str(max: BoundModel) -> Seq<char> {
    match max {
        BoundModel::Open(m) => "< "@ + val_str(m),
        BoundModel::Close(m) => "≦ "@ + val_str(m),
    }
}

/// Description of a violated list condition.
pub open spec fn list_err_str(list: ListModel) -> Seq<char> {
    match list {
        ListModel::Black(l) => "not in the list ["@ + vals_joined(l) + "]"@,
        ListModel::White(l) => "in the list ["@ + vals_joined(l) + "]"@,
    }
}

/// Whether a value is a member of a list, by model equality.
pub fn list_contains(l: &Vec<ParamValue>, v: &ParamValue) -> (r: bool)
    requires
        forall|i: int| 0 <= i < l@.len() ==> tag_of(l@[i]) == tag_of(*v),
    ensures
        r == seq_vals(l@).contains(val_of(*v)),
{
    let n: usize = l.len();
    let mut i: usize = 0;
    while i < n
        invariant
            i <= n,
            n == l@.len(),
            forall|k: int| 0 <= k < l@.len() ==> tag_of(l@[k]) == tag_of(*v),
            forall|k: int| 0 <= k < i ==> seq_vals(l@)[k] != val_of(*v),
        decreases n - i,
    {
        if value_eq(&l[i], v) {
            assert(seq_vals(l@)[i as int] == val_of(*v));
            return true;
        }
        assert(seq_vals(l@)[i as int] == val_of(l@[i as int]));
        i = i + 1;
    }
    assert(forall|k: int| 0 <= k < seq_vals(l@).len() ==> seq_vals(l@)[k] != val_of(*v));
    false
}

impl ParameterCore {
    /// A fresh core: no value, no bounds, no list condition.
    pub fn new() -> (c: Self)
        ensures
            c@ == (CoreModel { value: None, min: None, max: None, list: None }),
    {
        Self { value: None, range: (None, None), list: None }
    }

    /// Check the current value against the lower bound.
    pub fn check_min_limit(&self) -> (r: Result<(), RangeError>)
        requires
            exists|t: TypeTag| core_tag_ok(*self, t),
        ensures
            match r {
                Ok(()) => min_ok(self@),
                Err(RangeError::LessThanMinLimit(m)) => !min_ok(self@) && m@ == min_err_str(
                    self@.min->Some_0,
                ),
                Err(_) => false,
            },
    {
        if let (Some(value), Some(min_limit)) = (&self.value, &self.range.0) {
            match min_limit {
                RangeCondition::Open(m) => {
                    if value_le(value, m) {
                        let mut msg: String = String::from_str("> ");
                        msg.append(crate::text::value_string(m).as_str());
                        return Err(RangeError::LessThanMinLimit(msg));
                    }
                },
                RangeCondition::Close(m) => {
                    if value_lt(value, m) {
                        let mut msg: String = String::from_str("≧ ");
                        msg.append(crate::text::value_string(m).as_str());
                        return Err(RangeError::LessThanMinLimit(msg));
                    }
                },
            }
        }
        Ok(())
    }

    /// Check the current value against the upper bound.
    pub fn check_max_limit(&self) -> (r: Result<(), RangeError>)
        requires
            exists|t: TypeTag| core_tag_ok(*self, t),
        ensures
            match r {
                Ok(()) => max_ok(self@),
                Err(RangeError::LargerThanMaxLimit(m)) => !max_ok(self@) && m@ == max_err_str(
                    self@.max->Some_0,
                ),
                Err(_) => false,
            },
    {
        if let (Some(value), Some(max_limit)) = (&self.value, &self.range.1) {
            match max_limit {
                RangeCondition::Open(m) => {
                    if value_le(m, value) {
                        let mut msg: String = String::from_str("< ");
                        msg.append(crate::text::value_string(m).as_str());
                        return Err(RangeError::LargerThanMaxLimit(msg));
                    }
                },
                RangeCondition::Close(m) => {
                    if value_lt(m, value) {
                        let mut msg: String = String::from_str("≦ ");
                        msg.append(crate::text::value_string(m).as_str());
                        return Err(RangeError::LargerThanMaxLimit(msg));
                    }
                },
            }
        }
        Ok(())
    }

    /// Check the current value against the list condition.
    pub fn check_list_condition(&self) -> (r: Result<(), ListError>)
        requires
            exists|t: TypeTag| core_tag_ok(*self, t),
        ensures
            match r {
                Ok(()) => list_ok(self@),
                Err(ListError::BlacklistViolation(m)) => {
                    &&& !list_ok(self@)
                    &&& self@.list->Some_0 is Black
                    &&& m@ == list_err_str(self@.list->Some_0)
                },
                Err(ListError::WhitelistViolation(m)) => {
                    &&& !list_ok(self@)
                    &&& self@.list->Some_0 is White
                    &&& m@ == list_err_str(self@.list->Some_0)
                },
            },
    {
        if let (Some(value), Some(list)) = (&self.value, &self.list) {
            match list {
                ListCondition::Black(blacklist) => {
                    if list_contains(blacklist, value) {
                        let mut msg: String = String::from_str("not in the list [");
                        msg.append(crate::text::vals_joined_string(blacklist).as_str());
                        msg.append("]");
                        return Err(ListError::BlacklistViolation(msg));
                    }
                },
                ListCondition::White(whitelist) => {
                    if !list_contains(whitelist, value) {
                        let mut msg: String = String::from_str("in the list [");
                        msg.append(crate::text::vals_joined_string(whitelist).as_str());
                        msg.append("]");
                        return Err(ListError::WhitelistViolation(msg));
                    }
                },
            }
        }
        Ok(())
    }
}

/// One registry entry: a constraint core together with its declared kind
/// and its presentational metadata.
#[derive(Debug)]
pub struct Parameter {
    /// The value holder and its constraints.
    pub parameter_core: ParameterCore,
    /// Identity of the kind chosen at registration; never changes.
    pub tag: TypeTag,
    /// Free-text description shown by rendering.
    pub explanation: Option<String>,
    /// Once true, the entry is excluded from rendering (not from queries).
    pub unvisible: bool,
}

impl Parameter {
    /// A fresh entry of the given kind: no value, no constraints, no
    /// explanation, visible.
    pub fn new(tag: TypeTag) -> (p: Self)
        ensures
            p.parameter_core@ == empty_core(),
            p.tag == tag,
            p.explanation is None,
            !p.unvisible,
            core_tag_ok(p.parameter_core, tag),
    {
        Self { parameter_core: ParameterCore::new(), tag, explanation: None, unvisible: false }
    }
}

} // verus!
