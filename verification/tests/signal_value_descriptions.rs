use dbc_parser::ast::signal_value_descriptions::{
    parser_signal_value_descriptions, SignalValueDescriptions,
};
use dbc_parser::ast::value_descriptions::{ValueDescriptionItem, ValueDescriptions};

#[test]
fn test_parser_signal_value_descriptions_01() {
    assert_eq!(
        parser_signal_value_descriptions(
            r#"VAL_ 2147487969 Value1 3 "Three" 2 "Two" 1 "One" 0 "Zero" ;"#
        ),
        Ok((
            "".to_string(),
            SignalValueDescriptions {
                message_id: 2147487969,
                signal_name: "Value1".to_string(),
                value_descriptions: ValueDescriptions {
                    values: vec![
                        ValueDescriptionItem {
                            num: 3,
                            str: "Three".to_string()
                        },
                        ValueDescriptionItem {
                            num: 2,
                            str: "Two".to_string()
                        },
                        ValueDescriptionItem {
                            num: 1,
                            str: "One".to_string()
                        },
                        ValueDescriptionItem {
                            num: 0,
                            str: "Zero".to_string()
                        }
                    ]
                }
            }
        )),
    );
}

#[test]
fn test_signal_value_descriptions_string_01() {
    assert_eq!(
        SignalValueDescriptions {
            message_id: 2147487969,
            signal_name: "Value0".to_string(),
            value_descriptions: ValueDescriptions {
                values: vec![
                    ValueDescriptionItem {
                        num: 2,
                        str: "Value2".to_string()
                    },
                    ValueDescriptionItem {
                        num: 1,
                        str: "Value1".to_string()
                    },
                    ValueDescriptionItem {
                        num: 0,
                        str: "Value0".to_string()
                    }
                ]
            }
        }
        .to_string(),
        r#"VAL_ 2147487969 Value0 2 "Value2" 1 "Value1" 0 "Value0";"#,
    );
}
