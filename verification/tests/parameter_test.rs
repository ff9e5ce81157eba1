use parameter_box::parameter::{ListCondition, ListError, ParameterCore, RangeCondition, RangeError};
use parameter_box::value::ParamValue;

#[test]
fn parameter_num_works() {
    // u8
    let mut p_core = ParameterCore::new();
    p_core.value = Some(ParamValue::U8(1));
    match p_core.check_min_limit() {
        Ok(_) => assert!(true, "Ok"),
        Err(RangeError::LessThanMinLimit(_)) => assert!(false, "Lesser"),
        Err(RangeError::LargerThanMaxLimit(_)) => assert!(false, "Larger"),
    }
    match p_core.check_max_limit() {
        Ok(_) => assert!(true, "Ok"),
        Err(RangeError::LessThanMinLimit(_)) => assert!(false, "Lesser"),
        Err(RangeError::LargerThanMaxLimit(_)) => assert!(false, "Larger"),
    }
    match p_core.check_list_condition() {
        Ok(_) => assert!(true, "Ok"),
        Err(ListError::BlacklistViolation(_)) => assert!(false, "Blacklist"),
        Err(ListError::WhitelistViolation(_)) => assert!(false, "Whitelist"),
    }
    p_core.range = (
        Some(RangeCondition::Open(ParamValue::U8(0))),
        Some(RangeCondition::Close(ParamValue::U8(1))),
    );
    match p_core.check_min_limit() {
        Ok(_) => assert!(true, "Ok"),
        Err(RangeError::LessThanMinLimit(_)) => assert!(false, "Lesser"),
        Err(RangeError::LargerThanMaxLimit(_)) => assert!(false, "Larger"),
    }
    match p_core.check_max_limit() {
        Ok(_) => assert!(true, "Ok"),
        Err(RangeError::LessThanMinLimit(_)) => assert!(false, "Lesser"),
        Err(RangeError::LargerThanMaxLimit(_)) => assert!(false, "Larger"),
    }
    p_core.range = (
        Some(RangeCondition::Close(ParamValue::U8(1))),
        Some(RangeCondition::Open(ParamValue::U8(2))),
    );
    match p_core.check_min_limit() {
        Ok(_) => assert!(true, "Ok"),
        Err(RangeError::LessThanMinLimit(_)) => assert!(false, "Lesser"),
        Err(RangeError::LargerThanMaxLimit(_)) => assert!(false, "Larger"),
    }
    match p_core.check_max_limit() {
        Ok(_) => assert!(true, "Ok"),
        Err(RangeError::LessThanMinLimit(_)) => assert!(false, "Lesser"),
        Err(RangeError::LargerThanMaxLimit(_)) => assert!(false, "Larger"),
    }
    p_core.list = Some(ListCondition::Black(vec![
        ParamValue::U8(0),
        ParamValue::U8(2),
        ParamValue::U8(4),
        ParamValue::U8(5),
    ]));
    match p_core.check_list_condition() {
        Ok(_) => assert!(true, "Ok"),
        Err(ListError::BlacklistViolation(_)) => assert!(false, "Blacklist"),
        Err(ListError::WhitelistViolation(_)) => assert!(false, "Whitelist"),
    }
    p_core.list = Some(ListCondition::White(vec![
        ParamValue::U8(0),
        ParamValue::U8(1),
        ParamValue::U8(4),
        ParamValue::U8(5),
    ]));
    match p_core.check_list_condition() {
        Ok(_) => assert!(true, "Ok"),
        Err(ListError::BlacklistViolation(_)) => assert!(false, "Blacklist"),
        Err(ListError::WhitelistViolation(_)) => assert!(false, "Whitelist"),
    }
    p_core.range = (
        Some(RangeCondition::Open(ParamValue::U8(1))),
        Some(RangeCondition::Open(ParamValue::U8(2))),
    );
    match p_core.check_min_limit() {
        Ok(_) => assert!(false, "Ok"),
        Err(RangeError::LessThanMinLimit(_)) => assert!(true, "Lesser"),
        Err(RangeError::LargerThanMaxLimit(_)) => assert!(false, "Larger"),
    }
    p_core.range = (
        Some(RangeCondition::Open(ParamValue::U8(0))),
        Some(RangeCondition::Open(ParamValue::U8(1))),
    );
    match p_core.check_max_limit() {
        Ok(_) => assert!(false, "Ok"),
        Err(RangeError::LessThanMinLimit(_)) => assert!(false, "Lesser"),
        Err(RangeError::LargerThanMaxLimit(_)) => assert!(true, "Larger"),
    }
    p_core.list = Some(ListCondition::Black(vec![
        ParamValue::U8(0),
        ParamValue::U8(1),
        ParamValue::U8(4),
        ParamValue::U8(5),
    ]));
    match p_core.check_list_condition() {
        Ok(_) => assert!(false, "Ok"),
        Err(ListError::BlacklistViolation(_)) => assert!(true, "Blacklist"),
        Err(ListError::WhitelistViolation(_)) => assert!(false, "Whitelist"),
    }
    p_core.list = Some(ListCondition::White(vec![
        ParamValue::U8(0),
        ParamValue::U8(2),
        ParamValue::U8(4),
        ParamValue::U8(5),
    ]));
    match p_core.check_list_condition() {
        Ok(_) => assert!(false, "Ok"),
        Err(ListError::BlacklistViolation(_)) => assert!(false, "Blacklist"),
        Err(ListError::WhitelistViolation(_)) => assert!(true, "Whitelist"),
    }

    // u16
    let mut p_core = ParameterCore::new();
    p_core.value = Some(ParamValue::U16(1));
    match p_core.check_min_limit() {
        Ok(_) => assert!(true, "Ok"),
        Err(RangeError::LessThanMinLimit(_)) => assert!(false, "Lesser"),
        Err(RangeError::LargerThanMaxLimit(_)) => assert!(false, "Larger"),
    }
    match p_core.check_max_limit() {
        Ok(_) => assert!(true, "Ok"),
        Err(RangeError::LessThanMinLimit(_)) => assert!(false, "Lesser"),
        Err(RangeError::LargerThanMaxLimit(_)) => assert!(false, "Larger"),
    }
    match p_core.check_list_condition() {
        Ok(_) => assert!(true, "Ok"),
        Err(ListError::BlacklistViolation(_)) => assert!(false, "Blacklist"),
        Err(ListError::WhitelistViolation(_)) => assert!(false, "Whitelist"),
    }
    p_core.range = (
        Some(RangeCondition::Open(ParamValue::U16(0))),
        Some(RangeCondition::Close(ParamValue::U16(1))),
    );
    match p_core.check_min_limit() {
        Ok(_) => assert!(true, "Ok"),
        Err(RangeError::LessThanMinLimit(_)) => assert!(false, "Lesser"),
        Err(RangeError::LargerThanMaxLimit(_)) => assert!(false, "Larger"),
    }
    match p_core.check_max_limit() {
        Ok(_) => assert!(true, "Ok"),
        Err(RangeError::LessThanMinLimit(_)) => assert!(false, "Lesser"),
        Err(RangeError::LargerThanMaxLimit(_)) => assert!(false, "Larger"),
    }
    p_core.range = (
        Some(RangeCondition::Close(ParamValue::U16(1))),
        Some(RangeCondition::Open(ParamValue::U16(2))),
    );
    match p_core.check_min_limit() {
        Ok(_) => assert!(true, "Ok"),
        Err(RangeError::LessThanMinLimit(_)) => assert!(false, "Lesser"),
        Err(RangeError::LargerThanMaxLimit(_)) => assert!(false, "Larger"),
    }
    match p_core.check_max_limit() {
        Ok(_) => assert!(true, "Ok"),
        Err(RangeError::LessThanMinLimit(_)) => assert!(false, "Lesser"),
        Err(RangeError::LargerThanMaxLimit(_)) => assert!(false, "Larger"),
    }
    p_core.list = Some(ListCondition::Black(vec![
        ParamValue::U16(0),
        ParamValue::U16(2),
        ParamValue::U16(4),
        ParamValue::U16(5),
    ]));
    match p_core.check_list_condition() {
        Ok(_) => assert!(true, "Ok"),
        Err(ListError::BlacklistViolation(_)) => assert!(false, "Blacklist"),
        Err(ListError::WhitelistViolation(_)) => assert!(false, "Whitelist"),
    }
    p_core.list = Some(ListCondition::White(vec![
        ParamValue::U16(0),
        ParamValue::U16(1),
        ParamValue::U16(4),
        ParamValue::U16(5),
    ]));
    match p_core.check_list_condition() {
        Ok(_) => assert!(true, "Ok"),
        Err(ListError::BlacklistViolation(_)) => assert!(false, "Blacklist"),
        Err(ListError::WhitelistViolation(_)) => assert!(false, "Whitelist"),
    }
    p_core.range = (
        Some(RangeCondition::Open(ParamValue::U16(1))),
        Some(RangeCondition::Open(ParamValue::U16(2))),
    );
    match p_core.check_min_limit() {
        Ok(_) => assert!(false, "Ok"),
        Err(RangeError::LessThanMinLimit(_)) => assert!(true, "Lesser"),
        Err(RangeError::LargerThanMaxLimit(_)) => assert!(false, "Larger"),
    }
    p_core.range = (
        Some(RangeCondition::Open(ParamValue::U16(0))),
        Some(RangeCondition::Open(ParamValue::U16(1))),
    );
    match p_core.check_max_limit() {
        Ok(_) => assert!(false, "Ok"),
        Err(RangeError::LessThanMinLimit(_)) => assert!(false, "Lesser"),
        Err(RangeError::LargerThanMaxLimit(_)) => assert!(true, "Larger"),
    }
    p_core.list = Some(ListCondition::Black(vec![
        ParamValue::U16(0),
        ParamValue::U16(1),
        ParamValue::U16(4),
        ParamValue::U16(5),
    ]));
    match p_core.check_list_condition() {
        Ok(_) => assert!(false, "Ok"),
        Err(ListError::BlacklistViolation(_)) => assert!(true, "Blacklist"),
        Err(ListError::WhitelistViolation(_)) => assert!(false, "Whitelist"),
    }
    p_core.list = Some(ListCondition::White(vec![
        ParamValue::U16(0),
        ParamValue::U16(2),
        ParamValue::U16(4),
        ParamValue::U16(5),
    ]));
    match p_core.check_list_condition() {
        Ok(_) => assert!(false, "Ok"),
        Err(ListError::BlacklistViolation(_)) => assert!(false, "Blacklist"),
        Err(ListError::WhitelistViolation(_)) => assert!(true, "Whitelist"),
    }

    // u32
    let mut p_core = ParameterCore::new();
    p_core.value = Some(ParamValue::U32(1));
    match p_core.check_min_limit() {
        Ok(_) => assert!(true, "Ok"),
        Err(RangeError::LessThanMinLimit(_)) => assert!(false, "Lesser"),
        Err(RangeError::LargerThanMaxLimit(_)) => assert!(false, "Larger"),
    }
    match p_core.check_max_limit() {
        Ok(_) => assert!(true, "Ok"),
        Err(RangeError::LessThanMinLimit(_)) => assert!(false, "Lesser"),
        Err(RangeError::LargerThanMaxLimit(_)) => assert!(false, "Larger"),
    }
    match p_core.check_list_condition() {
        Ok(_) => assert!(true, "Ok"),
        Err(ListError::BlacklistViolation(_)) => assert!(false, "Blacklist"),
        Err(ListError::WhitelistViolation(_)) => assert!(false, "Whitelist"),
    }
    p_core.range = (
        Some(RangeCondition::Open(ParamValue::U32(0))),
        Some(RangeCondition::Close(ParamValue::U32(1))),
    );
    match p_core.check_min_limit() {
        Ok(_) => assert!(true, "Ok"),
        Err(RangeError::LessThanMinLimit(_)) => assert!(false, "Lesser"),
        Err(RangeError::LargerThanMaxLimit(_)) => assert!(false, "Larger"),
    }
    match p_core.check_max_limit() {
        Ok(_) => assert!(true, "Ok"),
        Err(RangeError::LessThanMinLimit(_)) => assert!(false, "Lesser"),
        Err(RangeError::LargerThanMaxLimit(_)) => assert!(false, "Larger"),
    }
    p_core.range = (
        Some(RangeCondition::Close(ParamValue::U32(1))),
        Some(RangeCondition::Open(ParamValue::U32(2))),
    );
    match p_core.check_min_limit() {
        Ok(_) => assert!(true, "Ok"),
        Err(RangeError::LessThanMinLimit(_)) => assert!(false, "Lesser"),
        Err(RangeError::LargerThanMaxLimit(_)) => assert!(false, "Larger"),
    }
    match p_core.check_max_limit() {
        Ok(_) => assert!(true, "Ok"),
        Err(RangeError::LessThanMinLimit(_)) => assert!(false, "Lesser"),
        Err(RangeError::LargerThanMaxLimit(_)) => assert!(false, "Larger"),
    }
    p_core.list = Some(ListCondition::Black(vec![
        ParamValue::U32(0),
        ParamValue::U32(2),
        ParamValue::U32(4),
        ParamValue::U32(5),
    ]));
    match p_core.check_list_condition() {
        Ok(_) => assert!(true, "Ok"),
        Err(ListError::BlacklistViolation(_)) => assert!(false, "Blacklist"),
        Err(ListError::WhitelistViolation(_)) => assert!(false, "Whitelist"),
    }
    p_core.list = Some(ListCondition::White(vec![
        ParamValue::U32(0),
        ParamValue::U32(1),
        ParamValue::U32(4),
        ParamValue::U32(5),
    ]));
    match p_core.check_list_condition() {
        Ok(_) => assert!(true, "Ok"),
        Err(ListError::BlacklistViolation(_)) => assert!(false, "Blacklist"),
        Err(ListError::WhitelistViolation(_)) => assert!(false, "Whitelist"),
    }
    p_core.range = (
        Some(RangeCondition::Open(ParamValue::U32(1))),
        Some(RangeCondition::Open(ParamValue::U32(2))),
    );
    match p_core.check_min_limit() {
        Ok(_) => assert!(false, "Ok"),
        Err(RangeError::LessThanMinLimit(_)) => assert!(true, "Lesser"),
        Err(RangeError::LargerThanMaxLimit(_)) => assert!(false, "Larger"),
    }
    p_core.range = (
        Some(RangeCondition::Open(ParamValue::U32(0))),
        Some(RangeCondition::Open(ParamValue::U32(1))),
    );
    match p_core.check_max_limit() {
        Ok(_) => assert!(false, "Ok"),
        Err(RangeError::LessThanMinLimit(_)) => assert!(false, "Lesser"),
        Err(RangeError::LargerThanMaxLimit(_)) => assert!(true, "Larger"),
    }
    p_core.list = Some(ListCondition::Black(vec![
        ParamValue::U32(0),
        ParamValue::U32(1),
        ParamValue::U32(4),
        ParamValue::U32(5),
    ]));
    match p_core.check_list_condition() {
        Ok(_) => assert!(false, "Ok"),
        Err(ListError::BlacklistViolation(_)) => assert!(true, "Blacklist"),
        Err(ListError::WhitelistViolation(_)) => assert!(false, "Whitelist"),
    }
    p_core.list = Some(ListCondition::White(vec![
        ParamValue::U32(0),
        ParamValue::U32(2),
        ParamValue::U32(4),
        ParamValue::U32(5),
    ]));
    match p_core.check_list_condition() {
        Ok(_) => assert!(false, "Ok"),
        Err(ListError::BlacklistViolation(_)) => assert!(false, "Blacklist"),
        Err(ListError::WhitelistViolation(_)) => assert!(true, "Whitelist"),
    }

    // u64
    let mut p_core = ParameterCore::new();
    p_core.value = Some(ParamValue::U64(1));
    match p_core.check_min_limit() {
        Ok(_) => assert!(true, "Ok"),
        Err(RangeError::LessThanMinLimit(_)) => assert!(false, "Lesser"),
        Err(RangeError::LargerThanMaxLimit(_)) => assert!(false, "Larger"),
    }
    match p_core.check_max_limit() {
        Ok(_) => assert!(true, "Ok"),
        Err(RangeError::LessThanMinLimit(_)) => assert!(false, "Lesser"),
        Err(RangeError::LargerThanMaxLimit(_)) => assert!(false, "Larger"),
    }
    match p_core.check_list_condition() {
        Ok(_) => assert!(true, "Ok"),
        Err(ListError::BlacklistViolation(_)) => assert!(false, "Blacklist"),
        Err(ListError::WhitelistViolation(_)) => assert!(false, "Whitelist"),
    }
    p_core.range = (
        Some(RangeCondition::Open(ParamValue::U64(0))),
        Some(RangeCondition::Close(ParamValue::U64(1))),
    );
    match p_core.check_min_limit() {
        Ok(_) => assert!(true, "Ok"),
        Err(RangeError::LessThanMinLimit(_)) => assert!(false, "Lesser"),
        Err(RangeError::LargerThanMaxLimit(_)) => assert!(false, "Larger"),
    }
    match p_core.check_max_limit() {
        Ok(_) => assert!(true, "Ok"),
        Err(RangeError::LessThanMinLimit(_)) => assert!(false, "Lesser"),
        Err(RangeError::LargerThanMaxLimit(_)) => assert!(false, "Larger"),
    }
    p_core.range = (
        Some(RangeCondition::Close(ParamValue::U64(1))),
        Some(RangeCondition::Open(ParamValue::U64(2))),
    );
    match p_core.check_min_limit() {
        Ok(_) => assert!(true, "Ok"),
        Err(RangeError::LessThanMinLimit(_)) => assert!(false, "Lesser"),
        Err(RangeError::LargerThanMaxLimit(_)) => assert!(false, "Larger"),
    }
    match p_core.check_max_limit() {
        Ok(_) => assert!(true, "Ok"),
        Err(RangeError::LessThanMinLimit(_)) => assert!(false, "Lesser"),
        Err(RangeError::LargerThanMaxLimit(_)) => assert!(false, "Larger"),
    }
    p_core.list = Some(ListCondition::Black(vec![
        ParamValue::U64(0),
        ParamValue::U64(2),
        ParamValue::U64(4),
        ParamValue::U64(5),
    ]));
    match p_core.check_list_condition() {
        Ok(_) => assert!(true, "Ok"),
        Err(ListError::BlacklistViolation(_)) => assert!(false, "Blacklist"),
        Err(ListError::WhitelistViolation(_)) => assert!(false, "Whitelist"),
    }
    p_core.list = Some(ListCondition::White(vec![
        ParamValue::U64(0),
        ParamValue::U64(1),
        ParamValue::U64(4),
        ParamValue::U64(5),
    ]));
    match p_core.check_list_condition() {
        Ok(_) => assert!(true, "Ok"),
        Err(ListError::BlacklistViolation(_)) => assert!(false, "Blacklist"),
        Err(ListError::WhitelistViolation(_)) => assert!(false, "Whitelist"),
    }
    p_core.range = (
        Some(RangeCondition::Open(ParamValue::U64(1))),
        Some(RangeCondition::Open(ParamValue::U64(2))),
    );
    match p_core.check_min_limit() {
        Ok(_) => assert!(false, "Ok"),
        Err(RangeError::LessThanMinLimit(_)) => assert!(true, "Lesser"),
        Err(RangeError::LargerThanMaxLimit(_)) => assert!(false, "Larger"),
    }
    p_core.range = (
        Some(RangeCondition::Open(ParamValue::U64(0))),
        Some(RangeCondition::Open(ParamValue::U64(1))),
    );
    match p_core.check_max_limit() {
        Ok(_) => assert!(false, "Ok"),
        Err(RangeError::LessThanMinLimit(_)) => assert!(false, "Lesser"),
        Err(RangeError::LargerThanMaxLimit(_)) => assert!(true, "Larger"),
    }
    p_core.list = Some(ListCondition::Black(vec![
        ParamValue::U64(0),
        ParamValue::U64(1),
        ParamValue::U64(4),
        ParamValue::U64(5),
    ]));
    match p_core.check_list_condition() {
        Ok(_) => assert!(false, "Ok"),
        Err(ListError::BlacklistViolation(_)) => assert!(true, "Blacklist"),
        Err(ListError::WhitelistViolation(_)) => assert!(false, "Whitelist"),
    }
    p_core.list = Some(ListCondition::White(vec![
        ParamValue::U64(0),
        ParamValue::U64(2),
        ParamValue::U64(4),
        ParamValue::U64(5),
    ]));
    match p_core.check_list_condition() {
        Ok(_) => assert!(false, "Ok"),
        Err(ListError::BlacklistViolation(_)) => assert!(false, "Blacklist"),
        Err(ListError::WhitelistViolation(_)) => assert!(true, "Whitelist"),
    }

    // u128
    let mut p_core = ParameterCore::new();
    p_core.value = Some(ParamValue::U128(1));
    match p_core.check_min_limit() {
        Ok(_) => assert!(true, "Ok"),
        Err(RangeError::LessThanMinLimit(_)) => assert!(false, "Lesser"),
        Err(RangeError::LargerThanMaxLimit(_)) => assert!(false, "Larger"),
    }
    match p_core.check_max_limit() {
        Ok(_) => assert!(true, "Ok"),
        Err(RangeError::LessThanMinLimit(_)) => assert!(false, "Lesser"),
        Err(RangeError::LargerThanMaxLimit(_)) => assert!(false, "Larger"),
    }
    match p_core.check_list_condition() {
        Ok(_) => assert!(true, "Ok"),
        Err(ListError::BlacklistViolation(_)) => assert!(false, "Blacklist"),
        Err(ListError::WhitelistViolation(_)) => assert!(false, "Whitelist"),
    }
    p_core.range = (
        Some(RangeCondition::Open(ParamValue::U128(0))),
        Some(RangeCondition::Close(ParamValue::U128(1))),
    );
    match p_core.check_min_limit() {
        Ok(_) => assert!(true, "Ok"),
        Err(RangeError::LessThanMinLimit(_)) => assert!(false, "Lesser"),
        Err(RangeError::LargerThanMaxLimit(_)) => assert!(false, "Larger"),
    }
    match p_core.check_max_limit() {
        Ok(_) => assert!(true, "Ok"),
        Err(RangeError::LessThanMinLimit(_)) => assert!(false, "Lesser"),
        Err(RangeError::LargerThanMaxLimit(_)) => assert!(false, "Larger"),
    }
    p_core.range = (
        Some(RangeCondition::Close(ParamValue::U128(1))),
        Some(RangeCondition::Open(ParamValue::U128(2))),
    );
    match p_core.check_min_limit() {
        Ok(_) => assert!(true, "Ok"),
        Err(RangeError::LessThanMinLimit(_)) => assert!(false, "Lesser"),
        Err(RangeError::LargerThanMaxLimit(_)) => assert!(false, "Larger"),
    }
    match p_core.check_max_limit() {
        Ok(_) => assert!(true, "Ok"),
        Err(RangeError::LessThanMinLimit(_)) => assert!(false, "Lesser"),
        Err(RangeError::LargerThanMaxLimit(_)) => assert!(false, "Larger"),
    }
    p_core.list = Some(ListCondition::Black(vec![
        ParamValue::U128(0),
        ParamValue::U128(2),
        ParamValue::U128(4),
        ParamValue::U128(5),
    ]));
    match p_core.check_list_condition() {
        Ok(_) => assert!(true, "Ok"),
        Err(ListError::BlacklistViolation(_)) => assert!(false, "Blacklist"),
        Err(ListError::WhitelistViolation(_)) => assert!(false, "Whitelist"),
    }
    p_core.list = Some(ListCondition::White(vec![
        ParamValue::U128(0),
        ParamValue::U128(1),
        ParamValue::U128(4),
        ParamValue::U128(5),
    ]));
    match p_core.check_list_condition() {
        Ok(_) => assert!(true, "Ok"),
        Err(ListError::BlacklistViolation(_)) => assert!(false, "Blacklist"),
        Err(ListError::WhitelistViolation(_)) => assert!(false, "Whitelist"),
    }
    p_core.range = (
        Some(RangeCondition::Open(ParamValue::U128(1))),
        Some(RangeCondition::Open(ParamValue::U128(2))),
    );
    match p_core.check_min_limit() {
        Ok(_) => assert!(false, "Ok"),
        Err(RangeError::LessThanMinLimit(_)) => assert!(true, "Lesser"),
        Err(RangeError::LargerThanMaxLimit(_)) => assert!(false, "Larger"),
    }
    p_core.range = (
        Some(RangeCondition::Open(ParamValue::U128(0))),
        Some(RangeCondition::Open(ParamValue::U128(1))),
    );
    match p_core.check_max_limit() {
        Ok(_) => assert!(false, "Ok"),
        Err(RangeError::LessThanMinLimit(_)) => assert!(false, "Lesser"),
        Err(RangeError::LargerThanMaxLimit(_)) => assert!(true, "Larger"),
    }
    p_core.list = Some(ListCondition::Black(vec![
        ParamValue::U128(0),
        ParamValue::U128(1),
        ParamValue::U128(4),
        ParamValue::U128(5),
    ]));
    match p_core.check_list_condition() {
        Ok(_) => assert!(false, "Ok"),
        Err(ListError::BlacklistViolation(_)) => assert!(true, "Blacklist"),
        Err(ListError::WhitelistViolation(_)) => assert!(false, "Whitelist"),
    }
    p_core.list = Some(ListCondition::White(vec![
        ParamValue::U128(0),
        ParamValue::U128(2),
        ParamValue::U128(4),
        ParamValue::U128(5),
    ]));
    match p_core.check_list_condition() {
        Ok(_) => assert!(false, "Ok"),
        Err(ListError::BlacklistViolation(_)) => assert!(false, "Blacklist"),
        Err(ListError::WhitelistViolation(_)) => assert!(true, "Whitelist"),
    }

    // i8
    let mut p_core = ParameterCore::new();
    p_core.value = Some(ParamValue::I8(1));
    match p_core.check_min_limit() {
        Ok(_) => assert!(true, "Ok"),
        Err(RangeError::LessThanMinLimit(_)) => assert!(false, "Lesser"),
        Err(RangeError::LargerThanMaxLimit(_)) => assert!(false, "Larger"),
    }
    match p_core.check_max_limit() {
        Ok(_) => assert!(true, "Ok"),
        Err(RangeError::LessThanMinLimit(_)) => assert!(false, "Lesser"),
        Err(RangeError::LargerThanMaxLimit(_)) => assert!(false, "Larger"),
    }
    match p_core.check_list_condition() {
        Ok(_) => assert!(true, "Ok"),
        Err(ListError::BlacklistViolation(_)) => assert!(false, "Blacklist"),
        Err(ListError::WhitelistViolation(_)) => assert!(false, "Whitelist"),
    }
    p_core.range = (
        Some(RangeCondition::Open(ParamValue::I8(0))),
        Some(RangeCondition::Close(ParamValue::I8(1))),
    );
    match p_core.check_min_limit() {
        Ok(_) => assert!(true, "Ok"),
        Err(RangeError::LessThanMinLimit(_)) => assert!(false, "Lesser"),
        Err(RangeError::LargerThanMaxLimit(_)) => assert!(false, "Larger"),
    }
    match p_core.check_max_limit() {
        Ok(_) => assert!(true, "Ok"),
        Err(RangeError::LessThanMinLimit(_)) => assert!(false, "Lesser"),
        Err(RangeError::LargerThanMaxLimit(_)) => assert!(false, "Larger"),
    }
    p_core.range = (
        Some(RangeCondition::Close(ParamValue::I8(1))),
        Some(RangeCondition::Open(ParamValue::I8(2))),
    );
    match p_core.check_min_limit() {
        Ok(_) => assert!(true, "Ok"),
        Err(RangeError::LessThanMinLimit(_)) => assert!(false, "Lesser"),
        Err(RangeError::LargerThanMaxLimit(_)) => assert!(false, "Larger"),
    }
    match p_core.check_max_limit() {
        Ok(_) => assert!(true, "Ok"),
        Err(RangeError::LessThanMinLimit(_)) => assert!(false, "Lesser"),
        Err(RangeError::LargerThanMaxLimit(_)) => assert!(false, "Larger"),
    }
    p_core.list = Some(ListCondition::Black(vec![
        ParamValue::I8(0),
        ParamValue::I8(2),
        ParamValue::I8(4),
        ParamValue::I8(5),
    ]));
    match p_core.check_list_condition() {
        Ok(_) => assert!(true, "Ok"),
        Err(ListError::BlacklistViolation(_)) => assert!(false, "Blacklist"),
        Err(ListError::WhitelistViolation(_)) => assert!(false, "Whitelist"),
    }
    p_core.list = Some(ListCondition::White(vec![
        ParamValue::I8(0),
        ParamValue::I8(1),
        ParamValue::I8(4),
        ParamValue::I8(5),
    ]));
    match p_core.check_list_condition() {
        Ok(_) => assert!(true, "Ok"),
        Err(ListError::BlacklistViolation(_)) => assert!(false, "Blacklist"),
        Err(ListError::WhitelistViolation(_)) => assert!(false, "Whitelist"),
    }
    p_core.range = (
        Some(RangeCondition::Open(ParamValue::I8(1))),
        Some(RangeCondition::Open(ParamValue::I8(2))),
    );
    match p_core.check_min_limit() {
        Ok(_) => assert!(false, "Ok"),
        Err(RangeError::LessThanMinLimit(_)) => assert!(true, "Lesser"),
        Err(RangeError::LargerThanMaxLimit(_)) => assert!(false, "Larger"),
    }
    p_core.range = (
        Some(RangeCondition::Open(ParamValue::I8(0))),
        Some(RangeCondition::Open(ParamValue::I8(1))),
    );
    match p_core.check_max_limit() {
        Ok(_) => assert!(false, "Ok"),
        Err(RangeError::LessThanMinLimit(_)) => assert!(false, "Lesser"),
        Err(RangeError::LargerThanMaxLimit(_)) => assert!(true, "Larger"),
    }
    p_core.list = Some(ListCondition::Black(vec![
        ParamValue::I8(0),
        ParamValue::I8(1),
        ParamValue::I8(4),
        ParamValue::I8(5),
    ]));
    match p_core.check_list_condition() {
        Ok(_) => assert!(false, "Ok"),
        Err(ListError::BlacklistViolation(_)) => assert!(true, "Blacklist"),
        Err(ListError::WhitelistViolation(_)) => assert!(false, "Whitelist"),
    }
    p_core.list = Some(ListCondition::White(vec![
        ParamValue::I8(0),
        ParamValue::I8(2),
        ParamValue::I8(4),
        ParamValue::I8(5),
    ]));
    match p_core.check_list_condition() {
        Ok(_) => assert!(false, "Ok"),
        Err(ListError::BlacklistViolation(_)) => assert!(false, "Blacklist"),
        Err(ListError::WhitelistViolation(_)) => assert!(true, "Whitelist"),
    }

    // i16
    let mut p_core = ParameterCore::new();
    p_core.value = Some(ParamValue::I16(1));
    match p_core.check_min_limit() {
        Ok(_) => assert!(true, "Ok"),
        Err(RangeError::LessThanMinLimit(_)) => assert!(false, "Lesser"),
        Err(RangeError::LargerThanMaxLimit(_)) => assert!(false, "Larger"),
    }
    match p_core.check_max_limit() {
        Ok(_) => assert!(true, "Ok"),
        Err(RangeError::LessThanMinLimit(_)) => assert!(false, "Lesser"),
        Err(RangeError::LargerThanMaxLimit(_)) => assert!(false, "Larger"),
    }
    match p_core.check_list_condition() {
        Ok(_) => assert!(true, "Ok"),
        Err(ListError::BlacklistViolation(_)) => assert!(false, "Blacklist"),
        Err(ListError::WhitelistViolation(_)) => assert!(false, "Whitelist"),
    }
    p_core.range = (
        Some(RangeCondition::Open(ParamValue::I16(0))),
        Some(RangeCondition::Close(ParamValue::I16(1))),
    );
    match p_core.check_min_limit() {
        Ok(_) => assert!(true, "Ok"),
        Err(RangeError::LessThanMinLimit(_)) => assert!(false, "Lesser"),
        Err(RangeError::LargerThanMaxLimit(_)) => assert!(false, "Larger"),
    }
    match p_core.check_max_limit() {
        Ok(_) => assert!(true, "Ok"),
        Err(RangeError::LessThanMinLimit(_)) => assert!(false, "Lesser"),
        Err(RangeError::LargerThanMaxLimit(_)) => assert!(false, "Larger"),
    }
    p_core.range = (
        Some(RangeCondition::Close(ParamValue::I16(1))),
        Some(RangeCondition::Open(ParamValue::I16(2))),
    );
    match p_core.check_min_limit() {
        Ok(_) => assert!(true, "Ok"),
        Err(RangeError::LessThanMinLimit(_)) => assert!(false, "Lesser"),
        Err(RangeError::LargerThanMaxLimit(_)) => assert!(false, "Larger"),
    }
    match p_core.check_max_limit() {
        Ok(_) => assert!(true, "Ok"),
        Err(RangeError::LessThanMinLimit(_)) => assert!(false, "Lesser"),
        Err(RangeError::LargerThanMaxLimit(_)) => assert!(false, "Larger"),
    }
    p_core.list = Some(ListCondition::Black(vec![
        ParamValue::I16(0),
        ParamValue::I16(2),
        ParamValue::I16(4),
        ParamValue::I16(5),
    ]));
    match p_core.check_list_condition() {
        Ok(_) => assert!(true, "Ok"),
        Err(ListError::BlacklistViolation(_)) => assert!(false, "Blacklist"),
        Err(ListError::WhitelistViolation(_)) => assert!(false, "Whitelist"),
    }
    p_core.list = Some(ListCondition::White(vec![
        ParamValue::I16(0),
        ParamValue::I16(1),
        ParamValue::I16(4),
        ParamValue::I16(5),
    ]));
    match p_core.check_list_condition() {
        Ok(_) => assert!(true, "Ok"),
        Err(ListError::BlacklistViolation(_)) => assert!(false, "Blacklist"),
        Err(ListError::WhitelistViolation(_)) => assert!(false, "Whitelist"),
    }
    p_core.range = (
        Some(RangeCondition::Open(ParamValue::I16(1))),
        Some(RangeCondition::Open(ParamValue::I16(2))),
    );
    match p_core.check_min_limit() {
        Ok(_) => assert!(false, "Ok"),
        Err(RangeError::LessThanMinLimit(_)) => assert!(true, "Lesser"),
        Err(RangeError::LargerThanMaxLimit(_)) => assert!(false, "Larger"),
    }
    p_core.range = (
        Some(RangeCondition::Open(ParamValue::I16(0))),
        Some(RangeCondition::Open(ParamValue::I16(1))),
    );
    match p_core.check_max_limit() {
        Ok(_) => assert!(false, "Ok"),
        Err(RangeError::LessThanMinLimit(_)) => assert!(false, "Lesser"),
        Err(RangeError::LargerThanMaxLimit(_)) => assert!(true, "Larger"),
    }
    p_core.list = Some(ListCondition::Black(vec![
        ParamValue::I16(0),
        ParamValue::I16(1),
        ParamValue::I16(4),
        ParamValue::I16(5),
    ]));
    match p_core.check_list_condition() {
        Ok(_) => assert!(false, "Ok"),
        Err(ListError::BlacklistViolation(_)) => assert!(true, "Blacklist"),
        Err(ListError::WhitelistViolation(_)) => assert!(false, "Whitelist"),
    }
    p_core.list = Some(ListCondition::White(vec![
        ParamValue::I16(0),
        ParamValue::I16(2),
        ParamValue::I16(4),
        ParamValue::I16(5),
    ]));
    match p_core.check_list_condition() {
        Ok(_) => assert!(false, "Ok"),
        Err(ListError::BlacklistViolation(_)) => assert!(false, "Blacklist"),
        Err(ListError::WhitelistViolation(_)) => assert!(true, "Whitelist"),
    }

    // i32
    let mut p_core = ParameterCore::new();
    p_core.value = Some(ParamValue::I32(1));
    match p_core.check_min_limit() {
        Ok(_) => assert!(true, "Ok"),
        Err(RangeError::LessThanMinLimit(_)) => assert!(false, "Lesser"),
        Err(RangeError::LargerThanMaxLimit(_)) => assert!(false, "Larger"),
    }
    match p_core.check_max_limit() {
        Ok(_) => assert!(true, "Ok"),
        Err(RangeError::LessThanMinLimit(_)) => assert!(false, "Lesser"),
        Err(RangeError::LargerThanMaxLimit(_)) => assert!(false, "Larger"),
    }
    match p_core.check_list_condition() {
        Ok(_) => assert!(true, "Ok"),
        Err(ListError::BlacklistViolation(_)) => assert!(false, "Blacklist"),
        Err(ListError::WhitelistViolation(_)) => assert!(false, "Whitelist"),
    }
    p_core.range = (
        Some(RangeCondition::Open(ParamValue::I32(0))),
        Some(RangeCondition::Close(ParamValue::I32(1))),
    );
    match p_core.check_min_limit() {
        Ok(_) => assert!(true, "Ok"),
        Err(RangeError::LessThanMinLimit(_)) => assert!(false, "Lesser"),
        Err(RangeError::LargerThanMaxLimit(_)) => assert!(false, "Larger"),
    }
    match p_core.check_max_limit() {
        Ok(_) => assert!(true, "Ok"),
        Err(RangeError::LessThanMinLimit(_)) => assert!(false, "Lesser"),
        Err(RangeError::LargerThanMaxLimit(_)) => assert!(false, "Larger"),
    }
    p_core.range = (
        Some(RangeCondition::Close(ParamValue::I32(1))),
        Some(RangeCondition::Open(ParamValue::I32(2))),
    );
    match p_core.check_min_limit() {
        Ok(_) => assert!(true, "Ok"),
        Err(RangeError::LessThanMinLimit(_)) => assert!(false, "Lesser"),
        Err(RangeError::LargerThanMaxLimit(_)) => assert!(false, "Larger"),
    }
    match p_core.check_max_limit() {
        Ok(_) => assert!(true, "Ok"),
        Err(RangeError::LessThanMinLimit(_)) => assert!(false, "Lesser"),
        Err(RangeError::LargerThanMaxLimit(_)) => assert!(false, "Larger"),
    }
    p_core.list = Some(ListCondition::Black(vec![
        ParamValue::I32(0),
        ParamValue::I32(2),
        ParamValue::I32(4),
        ParamValue::I32(5),
    ]));
    match p_core.check_list_condition() {
        Ok(_) => assert!(true, "Ok"),
        Err(ListError::BlacklistViolation(_)) => assert!(false, "Blacklist"),
        Err(ListError::WhitelistViolation(_)) => assert!(false, "Whitelist"),
    }
    p_core.list = Some(ListCondition::White(vec![
        ParamValue::I32(0),
        ParamValue::I32(1),
        ParamValue::I32(4),
        ParamValue::I32(5),
    ]));
    match p_core.check_list_condition() {
        Ok(_) => assert!(true, "Ok"),
        Err(ListError::BlacklistViolation(_)) => assert!(false, "Blacklist"),
        Err(ListError::WhitelistViolation(_)) => assert!(false, "Whitelist"),
    }
    p_core.range = (
        Some(RangeCondition::Open(ParamValue::I32(1))),
        Some(RangeCondition::Open(ParamValue::I32(2))),
    );
    match p_core.check_min_limit() {
        Ok(_) => assert!(false, "Ok"),
        Err(RangeError::LessThanMinLimit(_)) => assert!(true, "Lesser"),
        Err(RangeError::LargerThanMaxLimit(_)) => assert!(false, "Larger"),
    }
    p_core.range = (
        Some(RangeCondition::Open(ParamValue::I32(0))),
        Some(RangeCondition::Open(ParamValue::I32(1))),
    );
    match p_core.check_max_limit() {
        Ok(_) => assert!(false, "Ok"),
        Err(RangeError::LessThanMinLimit(_)) => assert!(false, "Lesser"),
        Err(RangeError::LargerThanMaxLimit(_)) => assert!(true, "Larger"),
    }
    p_core.list = Some(ListCondition::Black(vec![
        ParamValue::I32(0),
        ParamValue::I32(1),
        ParamValue::I32(4),
        ParamValue::I32(5),
    ]));
    match p_core.check_list_condition() {
        Ok(_) => assert!(false, "Ok"),
        Err(ListError::BlacklistViolation(_)) => assert!(true, "Blacklist"),
        Err(ListError::WhitelistViolation(_)) => assert!(false, "Whitelist"),
    }
    p_core.list = Some(ListCondition::White(vec![
        ParamValue::I32(0),
        ParamValue::I32(2),
        ParamValue::I32(4),
        ParamValue::I32(5),
    ]));
    match p_core.check_list_condition() {
        Ok(_) => assert!(false, "Ok"),
        Err(ListError::BlacklistViolation(_)) => assert!(false, "Blacklist"),
        Err(ListError::WhitelistViolation(_)) => assert!(true, "Whitelist"),
    }

    // i64
    let mut p_core = ParameterCore::new();
    p_core.value = Some(ParamValue::I64(1));
    match p_core.check_min_limit() {
        Ok(_) => assert!(true, "Ok"),
        Err(RangeError::LessThanMinLimit(_)) => assert!(false, "Lesser"),
        Err(RangeError::LargerThanMaxLimit(_)) => assert!(false, "Larger"),
    }
    match p_core.check_max_limit() {
        Ok(_) => assert!(true, "Ok"),
        Err(RangeError::LessThanMinLimit(_)) => assert!(false, "Lesser"),
        Err(RangeError::LargerThanMaxLimit(_)) => assert!(false, "Larger"),
    }
    match p_core.check_list_condition() {
        Ok(_) => assert!(true, "Ok"),
        Err(ListError::BlacklistViolation(_)) => assert!(false, "Blacklist"),
        Err(ListError::WhitelistViolation(_)) => assert!(false, "Whitelist"),
    }
    p_core.range = (
        Some(RangeCondition::Open(ParamValue::I64(0))),
        Some(RangeCondition::Close(ParamValue::I64(1))),
    );
    match p_core.check_min_limit() {
        Ok(_) => assert!(true, "Ok"),
        Err(RangeError::LessThanMinLimit(_)) => assert!(false, "Lesser"),
        Err(RangeError::LargerThanMaxLimit(_)) => assert!(false, "Larger"),
    }
    match p_core.check_max_limit() {
        Ok(_) => assert!(true, "Ok"),
        Err(RangeError::LessThanMinLimit(_)) => assert!(false, "Lesser"),
        Err(RangeError::LargerThanMaxLimit(_)) => assert!(false, "Larger"),
    }
    p_core.range = (
        Some(RangeCondition::Close(ParamValue::I64(1))),
        Some(RangeCondition::Open(ParamValue::I64(2))),
    );
    match p_core.check_min_limit() {
        Ok(_) => assert!(true, "Ok"),
        Err(RangeError::LessThanMinLimit(_)) => assert!(false, "Lesser"),
        Err(RangeError::LargerThanMaxLimit(_)) => assert!(false, "Larger"),
    }
    match p_core.check_max_limit() {
        Ok(_) => assert!(true, "Ok"),
        Err(RangeError::LessThanMinLimit(_)) => assert!(false, "Lesser"),
        Err(RangeError::LargerThanMaxLimit(_)) => assert!(false, "Larger"),
    }
    p_core.list = Some(ListCondition::Black(vec![
        ParamValue::I64(0),
        ParamValue::I64(2),
        ParamValue::I64(4),
        ParamValue::I64(5),
    ]));
    match p_core.check_list_condition() {
        Ok(_) => assert!(true, "Ok"),
        Err(ListError::BlacklistViolation(_)) => assert!(false, "Blacklist"),
        Err(ListError::WhitelistViolation(_)) => assert!(false, "Whitelist"),
    }
    p_core.list = Some(ListCondition::White(vec![
        ParamValue::I64(0),
        ParamValue::I64(1),
        ParamValue::I64(4),
        ParamValue::I64(5),
    ]));
    match p_core.check_list_condition() {
        Ok(_) => assert!(true, "Ok"),
        Err(ListError::BlacklistViolation(_)) => assert!(false, "Blacklist"),
        Err(ListError::WhitelistViolation(_)) => assert!(false, "Whitelist"),
    }
    p_core.range = (
        Some(RangeCondition::Open(ParamValue::I64(1))),
        Some(RangeCondition::Open(ParamValue::I64(2))),
    );
    match p_core.check_min_limit() {
        Ok(_) => assert!(false, "Ok"),
        Err(RangeError::LessThanMinLimit(_)) => assert!(true, "Lesser"),
        Err(RangeError::LargerThanMaxLimit(_)) => assert!(false, "Larger"),
    }
    p_core.range = (
        Some(RangeCondition::Open(ParamValue::I64(0))),
        Some(RangeCondition::Open(ParamValue::I64(1))),
    );
    match p_core.check_max_limit() {
        Ok(_) => assert!(false, "Ok"),
        Err(RangeError::LessThanMinLimit(_)) => assert!(false, "Lesser"),
        Err(RangeError::LargerThanMaxLimit(_)) => assert!(true, "Larger"),
    }
    p_core.list = Some(ListCondition::Black(vec![
        ParamValue::I64(0),
        ParamValue::I64(1),
        ParamValue::I64(4),
        ParamValue::I64(5),
    ]));
    match p_core.check_list_condition() {
        Ok(_) => assert!(false, "Ok"),
        Err(ListError::BlacklistViolation(_)) => assert!(true, "Blacklist"),
        Err(ListError::WhitelistViolation(_)) => assert!(false, "Whitelist"),
    }
    p_core.list = Some(ListCondition::White(vec![
        ParamValue::I64(0),
        ParamValue::I64(2),
        ParamValue::I64(4),
        ParamValue::I64(5),
    ]));
    match p_core.check_list_condition() {
        Ok(_) => assert!(false, "Ok"),
        Err(ListError::BlacklistViolation(_)) => assert!(false, "Blacklist"),
        Err(ListError::WhitelistViolation(_)) => assert!(true, "Whitelist"),
    }

    // i128
    let mut p_core = ParameterCore::new();
    p_core.value = Some(ParamValue::I128(1));
    match p_core.check_min_limit() {
        Ok(_) => assert!(true, "Ok"),
        Err(RangeError::LessThanMinLimit(_)) => assert!(false, "Lesser"),
        Err(RangeError::LargerThanMaxLimit(_)) => assert!(false, "Larger"),
    }
    match p_core.check_max_limit() {
        Ok(_) => assert!(true, "Ok"),
        Err(RangeError::LessThanMinLimit(_)) => assert!(false, "Lesser"),
        Err(RangeError::LargerThanMaxLimit(_)) => assert!(false, "Larger"),
    }
    match p_core.check_list_condition() {
        Ok(_) => assert!(true, "Ok"),
        Err(ListError::BlacklistViolation(_)) => assert!(false, "Blacklist"),
        Err(ListError::WhitelistViolation(_)) => assert!(false, "Whitelist"),
    }
    p_core.range = (
        Some(RangeCondition::Open(ParamValue::I128(0))),
        Some(RangeCondition::Close(ParamValue::I128(1))),
    );
    match p_core.check_min_limit() {
        Ok(_) => assert!(true, "Ok"),
        Err(RangeError::LessThanMinLimit(_)) => assert!(false, "Lesser"),
        Err(RangeError::LargerThanMaxLimit(_)) => assert!(false, "Larger"),
    }
    match p_core.check_max_limit() {
        Ok(_) => assert!(true, "Ok"),
        Err(RangeError::LessThanMinLimit(_)) => assert!(false, "Lesser"),
        Err(RangeError::LargerThanMaxLimit(_)) => assert!(false, "Larger"),
    }
    p_core.range = (
        Some(RangeCondition::Close(ParamValue::I128(1))),
        Some(RangeCondition::Open(ParamValue::I128(2))),
    );
    match p_core.check_min_limit() {
        Ok(_) => assert!(true, "Ok"),
        Err(RangeError::LessThanMinLimit(_)) => assert!(false, "Lesser"),
        Err(RangeError::LargerThanMaxLimit(_)) => assert!(false, "Larger"),
    }
    match p_core.check_max_limit() {
        Ok(_) => assert!(true, "Ok"),
        Err(RangeError::LessThanMinLimit(_)) => assert!(false, "Lesser"),
        Err(RangeError::LargerThanMaxLimit(_)) => assert!(false, "Larger"),
    }
    p_core.list = Some(ListCondition::Black(vec![
        ParamValue::I128(0),
        ParamValue::I128(2),
        ParamValue::I128(4),
        ParamValue::I128(5),
    ]));
    match p_core.check_list_condition() {
        Ok(_) => assert!(true, "Ok"),
        Err(ListError::BlacklistViolation(_)) => assert!(false, "Blacklist"),
        Err(ListError::WhitelistViolation(_)) => assert!(false, "Whitelist"),
    }
    p_core.list = Some(ListCondition::White(vec![
        ParamValue::I128(0),
        ParamValue::I128(1),
        ParamValue::I128(4),
        ParamValue::I128(5),
    ]));
    match p_core.check_list_condition() {
        Ok(_) => assert!(true, "Ok"),
        Err(ListError::BlacklistViolation(_)) => assert!(false, "Blacklist"),
        Err(ListError::WhitelistViolation(_)) => assert!(false, "Whitelist"),
    }
    p_core.range = (
        Some(RangeCondition::Open(ParamValue::I128(1))),
        Some(RangeCondition::Open(ParamValue::I128(2))),
    );
    match p_core.check_min_limit() {
        Ok(_) => assert!(false, "Ok"),
        Err(RangeError::LessThanMinLimit(_)) => assert!(true, "Lesser"),
        Err(RangeError::LargerThanMaxLimit(_)) => assert!(false, "Larger"),
    }
    p_core.range = (
        Some(RangeCondition::Open(ParamValue::I128(0))),
        Some(RangeCondition::Open(ParamValue::I128(1))),
    );
    match p_core.check_max_limit() {
        Ok(_) => assert!(false, "Ok"),
        Err(RangeError::LessThanMinLimit(_)) => assert!(false, "Lesser"),
        Err(RangeError::LargerThanMaxLimit(_)) => assert!(true, "Larger"),
    }
    p_core.list = Some(ListCondition::Black(vec![
        ParamValue::I128(0),
        ParamValue::I128(1),
        ParamValue::I128(4),
        ParamValue::I128(5),
    ]));
    match p_core.check_list_condition() {
        Ok(_) => assert!(false, "Ok"),
        Err(ListError::BlacklistViolation(_)) => assert!(true, "Blacklist"),
        Err(ListError::WhitelistViolation(_)) => assert!(false, "Whitelist"),
    }
    p_core.list = Some(ListCondition::White(vec![
        ParamValue::I128(0),
        ParamValue::I128(2),
        ParamValue::I128(4),
        ParamValue::I128(5),
    ]));
    match p_core.check_list_condition() {
        Ok(_) => assert!(false, "Ok"),
        Err(ListError::BlacklistViolation(_)) => assert!(false, "Blacklist"),
        Err(ListError::WhitelistViolation(_)) => assert!(true, "Whitelist"),
    }

    // isize
    let mut p_core = ParameterCore::new();
    p_core.value = Some(ParamValue::Isize(1));
    match p_core.check_min_limit() {
        Ok(_) => assert!(true, "Ok"),
        Err(RangeError::LessThanMinLimit(_)) => assert!(false, "Lesser"),
        Err(RangeError::LargerThanMaxLimit(_)) => assert!(false, "Larger"),
    }
    match p_core.check_max_limit() {
        Ok(_) => assert!(true, "Ok"),
        Err(RangeError::LessThanMinLimit(_)) => assert!(false, "Lesser"),
        Err(RangeError::LargerThanMaxLimit(_)) => assert!(false, "Larger"),
    }
    match p_core.check_list_condition() {
        Ok(_) => assert!(true, "Ok"),
        Err(ListError::BlacklistViolation(_)) => assert!(false, "Blacklist"),
        Err(ListError::WhitelistViolation(_)) => assert!(false, "Whitelist"),
    }
    p_core.range = (
        Some(RangeCondition::Open(ParamValue::Isize(0))),
        Some(RangeCondition::Close(ParamValue::Isize(1))),
    );
    match p_core.check_min_limit() {
        Ok(_) => assert!(true, "Ok"),
        Err(RangeError::LessThanMinLimit(_)) => assert!(false, "Lesser"),
        Err(RangeError::LargerThanMaxLimit(_)) => assert!(false, "Larger"),
    }
    match p_core.check_max_limit() {
        Ok(_) => assert!(true, "Ok"),
        Err(RangeError::LessThanMinLimit(_)) => assert!(false, "Lesser"),
        Err(RangeError::LargerThanMaxLimit(_)) => assert!(false, "Larger"),
    }
    p_core.range = (
        Some(RangeCondition::Close(ParamValue::Isize(1))),
        Some(RangeCondition::Open(ParamValue::Isize(2))),
    );
    match p_core.check_min_limit() {
        Ok(_) => assert!(true, "Ok"),
        Err(RangeError::LessThanMinLimit(_)) => assert!(false, "Lesser"),
        Err(RangeError::LargerThanMaxLimit(_)) => assert!(false, "Larger"),
    }
    match p_core.check_max_limit() {
        Ok(_) => assert!(true, "Ok"),
        Err(RangeError::LessThanMinLimit(_)) => assert!(false, "Lesser"),
        Err(RangeError::LargerThanMaxLimit(_)) => assert!(false, "Larger"),
    }
    p_core.list = Some(ListCondition::Black(vec![
        ParamValue::Isize(0),
        ParamValue::Isize(2),
        ParamValue::Isize(4),
        ParamValue::Isize(5),
    ]));
    match p_core.check_list_condition() {
        Ok(_) => assert!(true, "Ok"),
        Err(ListError::BlacklistViolation(_)) => assert!(false, "Blacklist"),
        Err(ListError::WhitelistViolation(_)) => assert!(false, "Whitelist"),
    }
    p_core.list = Some(ListCondition::White(vec![
        ParamValue::Isize(0),
        ParamValue::Isize(1),
        ParamValue::Isize(4),
        ParamValue::Isize(5),
    ]));
    match p_core.check_list_condition() {
        Ok(_) => assert!(true, "Ok"),
        Err(ListError::BlacklistViolation(_)) => assert!(false, "Blacklist"),
        Err(ListError::WhitelistViolation(_)) => assert!(false, "Whitelist"),
    }
    p_core.range = (
        Some(RangeCondition::Open(ParamValue::Isize(1))),
        Some(RangeCondition::Open(ParamValue::Isize(2))),
    );
    match p_core.check_min_limit() {
        Ok(_) => assert!(false, "Ok"),
        Err(RangeError::LessThanMinLimit(_)) => assert!(true, "Lesser"),
        Err(RangeError::LargerThanMaxLimit(_)) => assert!(false, "Larger"),
    }
    p_core.range = (
        Some(RangeCondition::Open(ParamValue::Isize(0))),
        Some(RangeCondition::Open(ParamValue::Isize(1))),
    );
    match p_core.check_max_limit() {
        Ok(_) => assert!(false, "Ok"),
        Err(RangeError::LessThanMinLimit(_)) => assert!(false, "Lesser"),
        Err(RangeError::LargerThanMaxLimit(_)) => assert!(true, "Larger"),
    }
    p_core.list = Some(ListCondition::Black(vec![
        ParamValue::Isize(0),
        ParamValue::Isize(1),
        ParamValue::Isize(4),
        ParamValue::Isize(5),
    ]));
    match p_core.check_list_condition() {
        Ok(_) => assert!(false, "Ok"),
        Err(ListError::BlacklistViolation(_)) => assert!(true, "Blacklist"),
        Err(ListError::WhitelistViolation(_)) => assert!(false, "Whitelist"),
    }
    p_core.list = Some(ListCondition::White(vec![
        ParamValue::Isize(0),
        ParamValue::Isize(2),
        ParamValue::Isize(4),
        ParamValue::Isize(5),
    ]));
    match p_core.check_list_condition() {
        Ok(_) => assert!(false, "Ok"),
        Err(ListError::BlacklistViolation(_)) => assert!(false, "Blacklist"),
        Err(ListError::WhitelistViolation(_)) => assert!(true, "Whitelist"),
    }

    // usize
    let mut p_core = ParameterCore::new();
    p_core.value = Some(ParamValue::Usize(1));
    match p_core.check_min_limit() {
        Ok(_) => assert!(true, "Ok"),
        Err(RangeError::LessThanMinLimit(_)) => assert!(false, "Lesser"),
        Err(RangeError::LargerThanMaxLimit(_)) => assert!(false, "Larger"),
    }
    match p_core.check_max_limit() {
        Ok(_) => assert!(true, "Ok"),
        Err(RangeError::LessThanMinLimit(_)) => assert!(false, "Lesser"),
        Err(RangeError::LargerThanMaxLimit(_)) => assert!(false, "Larger"),
    }
    match p_core.check_list_condition() {
        Ok(_) => assert!(true, "Ok"),
        Err(ListError::BlacklistViolation(_)) => assert!(false, "Blacklist"),
        Err(ListError::WhitelistViolation(_)) => assert!(false, "Whitelist"),
    }
    p_core.range = (
        Some(RangeCondition::Open(ParamValue::Usize(0))),
        Some(RangeCondition::Close(ParamValue::Usize(1))),
    );
    match p_core.check_min_limit() {
        Ok(_) => assert!(true, "Ok"),
        Err(RangeError::LessThanMinLimit(_)) => assert!(false, "Lesser"),
        Err(RangeError::LargerThanMaxLimit(_)) => assert!(false, "Larger"),
    }
    match p_core.check_max_limit() {
        Ok(_) => assert!(true, "Ok"),
        Err(RangeError::LessThanMinLimit(_)) => assert!(false, "Lesser"),
        Err(RangeError::LargerThanMaxLimit(_)) => assert!(false, "Larger"),
    }
    p_core.range = (
        Some(RangeCondition::Close(ParamValue::Usize(1))),
        Some(RangeCondition::Open(ParamValue::Usize(2))),
    );
    match p_core.check_min_limit() {
        Ok(_) => assert!(true, "Ok"),
        Err(RangeError::LessThanMinLimit(_)) => assert!(false, "Lesser"),
        Err(RangeError::LargerThanMaxLimit(_)) => assert!(false, "Larger"),
    }
    match p_core.check_max_limit() {
        Ok(_) => assert!(true, "Ok"),
        Err(RangeError::LessThanMinLimit(_)) => assert!(false, "Lesser"),
        Err(RangeError::LargerThanMaxLimit(_)) => assert!(false, "Larger"),
    }
    p_core.list = Some(ListCondition::Black(vec![
        ParamValue::Usize(0),
        ParamValue::Usize(2),
        ParamValue::Usize(4),
        ParamValue::Usize(5),
    ]));
    match p_core.check_list_condition() {
        Ok(_) => assert!(true, "Ok"),
        Err(ListError::BlacklistViolation(_)) => assert!(false, "Blacklist"),
        Err(ListError::WhitelistViolation(_)) => assert!(false, "Whitelist"),
    }
    p_core.list = Some(ListCondition::White(vec![
        ParamValue::Usize(0),
        ParamValue::Usize(1),
        ParamValue::Usize(4),
        ParamValue::Usize(5),
    ]));
    match p_core.check_list_condition() {
        Ok(_) => assert!(true, "Ok"),
        Err(ListError::BlacklistViolation(_)) => assert!(false, "Blacklist"),
        Err(ListError::WhitelistViolation(_)) => assert!(false, "Whitelist"),
    }
    p_core.range = (
        Some(RangeCondition::Open(ParamValue::Usize(1))),
        Some(RangeCondition::Open(ParamValue::Usize(2))),
    );
    match p_core.check_min_limit() {
        Ok(_) => assert!(false, "Ok"),
        Err(RangeError::LessThanMinLimit(_)) => assert!(true, "Lesser"),
        Err(RangeError::LargerThanMaxLimit(_)) => assert!(false, "Larger"),
    }
    p_core.range = (
        Some(RangeCondition::Open(ParamValue::Usize(0))),
        Some(RangeCondition::Open(ParamValue::Usize(1))),
    );
    match p_core.check_max_limit() {
        Ok(_) => assert!(false, "Ok"),
        Err(RangeError::LessThanMinLimit(_)) => assert!(false, "Lesser"),
        Err(RangeError::LargerThanMaxLimit(_)) => assert!(true, "Larger"),
    }
    p_core.list = Some(ListCondition::Black(vec![
        ParamValue::Usize(0),
        ParamValue::Usize(1),
        ParamValue::Usize(4),
        ParamValue::Usize(5),
    ]));
    match p_core.check_list_condition() {
        Ok(_) => assert!(false, "Ok"),
        Err(ListError::BlacklistViolation(_)) => assert!(true, "Blacklist"),
        Err(ListError::WhitelistViolation(_)) => assert!(false, "Whitelist"),
    }
    p_core.list = Some(ListCondition::White(vec![
        ParamValue::Usize(0),
        ParamValue::Usize(2),
        ParamValue::Usize(4),
        ParamValue::Usize(5),
    ]));
    match p_core.check_list_condition() {
        Ok(_) => assert!(false, "Ok"),
        Err(ListError::BlacklistViolation(_)) => assert!(false, "Blacklist"),
        Err(ListError::WhitelistViolation(_)) => assert!(true, "Whitelist"),
    }
}

#[test]
fn parameter_bool_works() {
    let mut p_core = ParameterCore::new();
    let a = true;
    p_core.value = Some(ParamValue::Bool(a));
    match p_core.check_min_limit() {
        Ok(_) => assert!(true, "Ok"),
        Err(RangeError::LessThanMinLimit(_)) => assert!(false, "Lesser"),
        Err(RangeError::LargerThanMaxLimit(_)) => assert!(false, "Larger"),
    }
    match p_core.check_max_limit() {
        Ok(_) => assert!(true, "Ok"),
        Err(RangeError::LessThanMinLimit(_)) => assert!(false, "Lesser"),
        Err(RangeError::LargerThanMaxLimit(_)) => assert!(false, "Larger"),
    }
    match p_core.check_list_condition() {
        Ok(_) => assert!(true, "Ok"),
        Err(ListError::BlacklistViolation(_)) => assert!(false, "Blacklist"),
        Err(ListError::WhitelistViolation(_)) => assert!(false, "Whitelist"),
    }
    p_core.list = Some(ListCondition::White(vec![ParamValue::Bool(true)]));
    match p_core.check_list_condition() {
        Ok(_) => assert!(true, "Ok"),
        Err(ListError::BlacklistViolation(_)) => assert!(false, "Blacklist"),
        Err(ListError::WhitelistViolation(_)) => assert!(false, "Whitelist"),
    }
    p_core.list = Some(ListCondition::White(vec![ParamValue::Bool(false)]));
    match p_core.check_list_condition() {
        Ok(_) => assert!(false, "Ok"),
        Err(ListError::BlacklistViolation(_)) => assert!(false, "Blacklist"),
        Err(ListError::WhitelistViolation(_)) => assert!(true, "Whitelist"),
    }
}

#[test]
fn parameter_string_works() {
    let mut p_core = ParameterCore::new();
    let a: String = "hello".to_string();
    p_core.value = Some(ParamValue::Text(a));
    match p_core.check_min_limit() {
        Ok(_) => assert!(true, "Ok"),
        Err(RangeError::LessThanMinLimit(_)) => assert!(false, "Lesser"),
        Err(RangeError::LargerThanMaxLimit(_)) => assert!(false, "Larger"),
    }
    match p_core.check_max_limit() {
        Ok(_) => assert!(true, "Ok"),
        Err(RangeError::LessThanMinLimit(_)) => assert!(false, "Lesser"),
        Err(RangeError::LargerThanMaxLimit(_)) => assert!(false, "Larger"),
    }
    match p_core.check_list_condition() {
        Ok(_) => assert!(true, "Ok"),
        Err(ListError::BlacklistViolation(_)) => assert!(false, "Blacklist"),
        Err(ListError::WhitelistViolation(_)) => assert!(false, "Whitelist"),
    }
    p_core.list = Some(ListCondition::Black(vec![
        ParamValue::Text("good mornig".to_string()),
        ParamValue::Text("good afternoon".to_string()),
        ParamValue::Text("good night".to_string()),
    ]));
    match p_core.check_list_condition() {
        Ok(_) => assert!(true, "Ok"),
        Err(ListError::BlacklistViolation(_)) => assert!(false, "Blacklist"),
        Err(ListError::WhitelistViolation(_)) => assert!(false, "Whitelist"),
    }
    p_core.list = Some(ListCondition::White(vec![
        ParamValue::Text("hello".to_string()),
        ParamValue::Text("world".to_string()),
        ParamValue::Text("!".to_string()),
    ]));
    match p_core.check_list_condition() {
        Ok(_) => assert!(true, "Ok"),
        Err(ListError::BlacklistViolation(_)) => assert!(false, "Blacklist"),
        Err(ListError::WhitelistViolation(_)) => assert!(false, "Whitelist"),
    }
    p_core.list = Some(ListCondition::Black(vec![
        ParamValue::Text("hello".to_string()),
        ParamValue::Text("world".to_string()),
        ParamValue::Text("!".to_string()),
    ]));
    match p_core.check_list_condition() {
        Ok(_) => assert!(false, "Ok"),
        Err(ListError::BlacklistViolation(_)) => assert!(true, "Blacklist"),
        Err(ListError::WhitelistViolation(_)) => assert!(false, "Whitelist"),
    }
    p_core.list = Some(ListCondition::White(vec![
        ParamValue::Text("good mornig".to_string()),
        ParamValue::Text("good afternoon".to_string()),
        ParamValue::Text("good night".to_string()),
    ]));
    match p_core.check_list_condition() {
        Ok(_) => assert!(false, "Ok"),
        Err(ListError::BlacklistViolation(_)) => assert!(false, "Blacklist"),
        Err(ListError::WhitelistViolation(_)) => assert!(true, "Whitelist"),
    }
}
