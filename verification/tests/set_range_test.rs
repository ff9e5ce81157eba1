use parameter_box::ParameterBox;
use parameter_box::parameter::RangeCondition;
use parameter_box::value::{ParamValue, TypeTag};

#[test]
fn set_range_works() {
    let mut param_box = ParameterBox::new();
    param_box.add("p1", TypeTag::I32).unwrap();
    match param_box.set_range(
        "p1",
        (
            RangeCondition::Open(ParamValue::I32(1)),
            RangeCondition::Open(ParamValue::I32(10)),
        ),
    ) {
        Err(_) => assert!(false),
        Ok(_) => assert!(true),
    }
}
