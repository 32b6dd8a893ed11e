use dbc_parser::ast::bit_timing::{BitTiming, BitTimingValue};
use dbc_parser::ast::env_var_value_descriptions::{
    parser_env_var_value_descriptions, EnvironmentVariableValueDescriptions,
};
use dbc_parser::ast::error::{located_message, DbcParseError};
use dbc_parser::ast::message::{Message, MessageHeader};
use dbc_parser::ast::network_ast::{dbc_value, parse_dbc, NetworkAst};
use dbc_parser::ast::new_symbols::NewSymbols;
use dbc_parser::ast::nodes::Nodes;
use dbc_parser::ast::signal::{ByteOrder, MultiplexIndicator, Signal, ValueType};
use dbc_parser::ast::signal_value_descriptions::{
    parser_signal_value_descriptions, SignalValueDescriptions,
};
use dbc_parser::ast::value_descriptions::{ValueDescriptionItem, ValueDescriptions};
use dbc_parser::ast::value_tables::ValueTable;
use dbc_parser::ast::version::Version;

fn items(pairs: &[(i64, &str)]) -> ValueDescriptions {
    ValueDescriptions {
        values: pairs
            .iter()
            .map(|(n, s)| ValueDescriptionItem { num: *n, str: s.to_string() })
            .collect(),
    }
}

fn sample_signal() -> Signal {
    Signal {
        name: "Yaw_Rate".into(),
        multiplexer: None,
        start_bit: 0,
        size: 16,
        byte_order: ByteOrder::LittleEndian,
        value_type: ValueType::Unsigned,
        factor: "0.005".into(),
        offset: "-163.84".into(),
        min: Some("-163.84".into()),
        max: Some("163.83".into()),
        unit: Some("°/s".into()),
        receivers: Some(vec!["ABS".into()]),
    }
}

fn sample_network() -> NetworkAst {
    NetworkAst {
        version: Version("1.0".into()),
        new_symbols: NewSymbols(vec!["BS_".into(), "CM_".into()]),
        bit_timing: Some(BitTiming { value: None }),
        nodes: Nodes(vec!["ABS".into(), "DRS_MM5_10".into()]),
        value_tables: None,
        messages: vec![
            Message {
                header: MessageHeader {
                    id: 117,
                    name: "DRS_RX_ID0".into(),
                    size: 8,
                    transmitter: "ABS".into(),
                },
                signals: vec![],
            },
            Message {
                header: MessageHeader {
                    id: 112,
                    name: "MM5_10_TX1".into(),
                    size: 8,
                    transmitter: "DRS_MM5_10".into(),
                },
                signals: vec![sample_signal()],
            },
        ],
        signal_value_descriptions: vec![],
        env_var_value_descriptions: vec![],
    }
}

#[test]
fn error_messages() {
    assert_eq!(DbcParseError::BadVersion.to_string(), "bad version");
    assert_eq!(DbcParseError::UseKeywordAsIdentifier.to_string(), "invalid dbc identifier");
    assert_eq!(DbcParseError::BadInt.to_string(), "bad integer");
    assert_eq!(DbcParseError::DebugMsg("anything".into()).to_string(), "debug message");
}

#[test]
fn located_message_layout() {
    assert_eq!(
        located_message("Tag".to_string(), "\"abc\""),
        DbcParseError::DebugMsg("Tag:\t\"abc\"\n".into())
    );
}

#[test]
fn error_from_error_kind_quotes_the_input() {
    assert_eq!(
        DbcParseError::from_error_kind("a\"b\n", "Tag"),
        DbcParseError::DebugMsg("Tag:\t\"a\\\"b\\n\"\n".into())
    );
}

#[test]
fn error_append_keeps_the_other_message() {
    assert_eq!(
        DbcParseError::append("x", "Eof", DbcParseError::BadVersion),
        DbcParseError::DebugMsg("bad versionEof:\t\"x\"\n".into())
    );
}

#[test]
fn error_from_char() {
    assert_eq!(
        DbcParseError::from_char("rest", ';'),
        DbcParseError::DebugMsg("';':\t\"rest\"\n".into())
    );
}

#[test]
fn error_or_joins_both_messages() {
    assert_eq!(
        DbcParseError::BadVersion.or(DbcParseError::BadNames),
        DbcParseError::DebugMsg("bad version\tOR\nbad names\n".into())
    );
}

#[test]
fn error_add_context() {
    assert_eq!(
        DbcParseError::add_context("x", "signal", DbcParseError::BadSignal),
        DbcParseError::DebugMsg("bad signal\"signal\":\t\"x\"\n".into())
    );
}

#[test]
fn signal_value_descriptions_leave_the_rest() {
    let (rest, v) = parser_signal_value_descriptions("\n VAL_ 7 Sig -1 \"minus\" ;\r\n\nBO_").unwrap();
    assert_eq!(rest, "BO_");
    assert_eq!(v.message_id, 7);
    assert_eq!(v.signal_name, "Sig");
    assert_eq!(v.value_descriptions, items(&[(-1, "minus")]));
}

#[test]
fn signal_value_descriptions_errors() {
    // no `;`
    assert_eq!(
        parser_signal_value_descriptions("VAL_ 1 Sig 1 \"a\""),
        Err(DbcParseError::BadSignalValueDescriptions)
    );
    // a keyword is no signal name
    assert_eq!(
        parser_signal_value_descriptions("VAL_ 1 BO_ 1 \"a\" ;"),
        Err(DbcParseError::BadSignalValueDescriptions)
    );
    // the message id does not fit in 32 bits
    assert_eq!(
        parser_signal_value_descriptions("VAL_ 4294967296 Sig ;"),
        Err(DbcParseError::BadSignalValueDescriptions)
    );
    // an environment variable has no message id
    assert_eq!(
        parser_signal_value_descriptions("VAL_ Var 1 \"a\" ;"),
        Err(DbcParseError::BadSignalValueDescriptions)
    );
}

#[test]
fn signal_value_descriptions_extreme_values() {
    let text = "VAL_ 4294967295 S -9223372036854775808 \"lo\" 9223372036854775807 \"hi\";";
    let (rest, v) = parser_signal_value_descriptions(text).unwrap();
    assert_eq!(rest, "");
    assert_eq!(v.message_id, u32::MAX);
    assert_eq!(v.value_descriptions, items(&[(i64::MIN, "lo"), (i64::MAX, "hi")]));
    assert_eq!(v.to_string(), text);
}

#[test]
fn signal_value_descriptions_round_trip() {
    let v = SignalValueDescriptions {
        message_id: 12,
        signal_name: "Gear".into(),
        value_descriptions: items(&[(0, "P"), (1, "R"), (-2, "two words")]),
    };
    let text = v.to_string();
    assert_eq!(text, "VAL_ 12 Gear 0 \"P\" 1 \"R\" -2 \"two words\";");
    assert_eq!(parser_signal_value_descriptions(&text), Ok((String::new(), v)));
    let empty = SignalValueDescriptions {
        message_id: 0,
        signal_name: "X".into(),
        value_descriptions: items(&[]),
    };
    assert_eq!(empty.to_string(), "VAL_ 0 X ;");
    assert_eq!(parser_signal_value_descriptions(&empty.to_string()), Ok((String::new(), empty)));
}

#[test]
fn env_var_value_descriptions_parse_and_print() {
    let (rest, v) =
        parser_env_var_value_descriptions("VAL_ RWEnvVar_wData 2 \"Value2\" 1 \"Value1\" ;\n").unwrap();
    assert_eq!(rest, "");
    assert_eq!(
        v,
        EnvironmentVariableValueDescriptions {
            env_var_name: "RWEnvVar_wData".into(),
            value_descriptions: items(&[(2, "Value2"), (1, "Value1")]),
        }
    );
    assert_eq!(v.to_string(), "VAL_ RWEnvVar_wData 2 \"Value2\" 1 \"Value1\";");
    assert_eq!(
        parser_env_var_value_descriptions("VAL_ 12 Sig 1 \"a\" ;"),
        Err(DbcParseError::BadEnvironmentVariableValueDescriptions)
    );
}

#[test]
fn parse_dbc_requires_the_version() {
    assert_eq!(parse_dbc(""), Err(DbcParseError::BadVersion));
    assert_eq!(parse_dbc("NS_:\nBU_:\n"), Err(DbcParseError::BadVersion));
}

#[test]
fn parse_dbc_requires_the_new_symbols() {
    assert_eq!(parse_dbc("VERSION \"1\"\nBU_: A\n"), Err(DbcParseError::BadNames));
}

#[test]
fn parse_dbc_requires_the_nodes() {
    assert_eq!(parse_dbc("VERSION \"1\"\nNS_:\nBS_:\n"), Err(DbcParseError::BadCanNodes));
}

#[test]
fn parse_dbc_reports_what_is_left() {
    assert_eq!(
        parse_dbc("VERSION \"1\"\nNS_:\nBU_: A\nCM_ \"x\";\n"),
        Err(DbcParseError::DebugMsg("Eof:\t\"CM_ \\\"x\\\";\\n\"\n".into()))
    );
    let (rest, _) = dbc_value("VERSION \"1\"\nNS_:\nBU_: A\nCM_ \"x\";\n").unwrap();
    assert_eq!(rest, "CM_ \"x\";\n");
}

#[test]
fn parse_dbc_minimal_file() {
    assert_eq!(
        parse_dbc("  VERSION \"\"  \n\nNS_ :\n\nBU_:\n\n"),
        Ok(NetworkAst {
            version: Version("".into()),
            new_symbols: NewSymbols(vec![]),
            bit_timing: None,
            nodes: Nodes(vec![]),
            value_tables: None,
            messages: vec![],
            signal_value_descriptions: vec![],
            env_var_value_descriptions: vec![],
        })
    );
}

#[test]
fn bit_timing_with_a_value() {
    let a = parse_dbc("VERSION \"1\"\nNS_:\nBS_: 500 : 12 , 34\nBU_:\n").unwrap();
    assert_eq!(
        a.bit_timing,
        Some(BitTiming { value: Some(BitTimingValue { baudrate: 500, btr1: 12, btr2: 34 }) })
    );
    assert_eq!(a.bit_timing.unwrap().to_string(), "BS_: 500:12,34");
    assert_eq!(BitTiming { value: None }.to_string(), "BS_:");
}

#[test]
fn value_tables_are_collected() {
    let a = parse_dbc(
        "VERSION \"1\"\nNS_:\nBU_:\nVAL_TABLE_ T1 1 \"on\" 0 \"off\" ;\nVAL_TABLE_ T2 ;\n",
    )
    .unwrap();
    assert_eq!(
        a.value_tables,
        Some(vec![
            ValueTable { name: "T1".into(), value_descriptions: items(&[(1, "on"), (0, "off")]) },
            ValueTable { name: "T2".into(), value_descriptions: items(&[]) },
        ])
    );
}

#[test]
fn signals_with_multiplexing_and_receivers() {
    let text = "VERSION \"1\"\nNS_:\nBU_: A B\nBO_ 1 M: 2 A\n SG_ S0 M : 7|8@0- (1,0) [0|255] \"\" A, B\n SG_ S1 m3 : 0|8@1+ (1e-2,+5) B\n SG_ S2 m4M : 0|8@1+ (.5,0)\n";
    let a = parse_dbc(text).unwrap();
    let sigs = &a.messages[0].signals;
    assert_eq!(sigs.len(), 3);
    assert_eq!(sigs[0].multiplexer, Some(MultiplexIndicator::Multiplexor));
    assert_eq!(sigs[0].byte_order, ByteOrder::BigEndian);
    assert_eq!(sigs[0].value_type, ValueType::Signed);
    assert_eq!(sigs[0].unit, Some("".into()));
    assert_eq!(sigs[0].receivers, Some(vec!["A".into(), "B".into()]));
    assert_eq!(sigs[1].multiplexer, Some(MultiplexIndicator::MultiplexedSignal(3)));
    assert_eq!(sigs[1].factor, "1e-2");
    assert_eq!(sigs[1].offset, "+5");
    assert_eq!(sigs[1].min, None);
    assert_eq!(sigs[1].unit, None);
    assert_eq!(sigs[1].receivers, Some(vec!["B".into()]));
    assert_eq!(
        sigs[2].multiplexer,
        Some(MultiplexIndicator::MultiplexorAndMultiplexedSignal(4))
    );
    assert_eq!(sigs[2].factor, ".5");
    assert_eq!(sigs[2].receivers, None);
    assert_eq!(sigs[0].to_string(), "SG_ S0 M : 7|8@0- (1,0) [0|255] \"\" A,B");
    assert_eq!(sigs[2].to_string(), "SG_ S2 m4M : 0|8@1+ (.5,0)");
}

#[test]
fn signal_to_string() {
    assert_eq!(
        sample_signal().to_string(),
        "SG_ Yaw_Rate : 0|16@1+ (0.005,-163.84) [-163.84|163.83] \"°/s\" ABS"
    );
}

#[test]
fn network_to_string() {
    assert_eq!(
        sample_network().to_string(),
        "VERSION \"1.0\"\n\nNS_:\n    BS_\n    CM_\nBS_:\nBU_: ABS DRS_MM5_10\nBO_ 117 DRS_RX_ID0: 8 ABS\nBO_ 112 MM5_10_TX1: 8 DRS_MM5_10\n SG_ Yaw_Rate : 0|16@1+ (0.005,-163.84) [-163.84|163.83] \"°/s\" ABS\n"
    );
}

#[test]
fn network_round_trip() {
    let a = sample_network();
    assert_eq!(parse_dbc(&a.to_string()), Ok(a));
}

#[test]
fn env_var_value_descriptions_round_trip() {
    let v = EnvironmentVariableValueDescriptions {
        env_var_name: "Speed_Mode".into(),
        value_descriptions: items(&[(3, "fast"), (-1, "unknown")]),
    };
    assert_eq!(parser_env_var_value_descriptions(&v.to_string()), Ok((String::new(), v)));
}

#[test]
fn network_round_trip_with_bit_timing_and_multiplexing() {
    let mut a = sample_network();
    a.bit_timing = Some(BitTiming { value: Some(BitTimingValue { baudrate: 250, btr1: 1, btr2: 2 }) });
    a.new_symbols = NewSymbols(vec![]);
    a.messages[1].signals.push(Signal {
        name: "Mode".into(),
        multiplexer: Some(MultiplexIndicator::MultiplexorAndMultiplexedSignal(2)),
        start_bit: 8,
        size: 4,
        byte_order: ByteOrder::BigEndian,
        value_type: ValueType::Signed,
        factor: "1E+3".into(),
        offset: "-0.5".into(),
        min: None,
        max: None,
        unit: None,
        receivers: Some(vec!["ABS".into(), "DRS_MM5_10".into()]),
    });
    assert_eq!(parse_dbc(&a.to_string()), Ok(a));
}

#[test]
fn leading_white_space_is_skipped() {
    let file = "VERSION \"1\"\nNS_:\nBU_: A\nCM_ \"x\";\n";
    let spaced = format!(" \t\r\n\n  {}", file);
    assert_eq!(dbc_value(&spaced), dbc_value(file));
    assert_eq!(parse_dbc(&spaced), parse_dbc(file));
    let line = "VAL_ 7 Sig 1 \"one\" ;";
    assert_eq!(
        parser_signal_value_descriptions(&format!("\n\n\t {}", line)),
        parser_signal_value_descriptions(line)
    );
    assert_eq!(
        parser_env_var_value_descriptions("  \r\nVAL_ V 1 \"a\" ;"),
        parser_env_var_value_descriptions("VAL_ V 1 \"a\" ;")
    );
}

#[test]
fn error_messages_are_one_line() {
    match DbcParseError::from_error_kind("two\nlines\r\n", "Tag") {
        DbcParseError::DebugMsg(m) => {
            assert_eq!(m, "Tag:\t\"two\\nlines\\r\\n\"\n");
            assert_eq!(m.matches('\n').count(), 1);
            assert!(m.ends_with('\n'));
        }
        other => panic!("unexpected {:?}", other),
    }
    match parse_dbc("VERSION \"1\"\nNS_:\nBU_: A\nCM_\n\n") {
        Err(DbcParseError::DebugMsg(m)) => assert_eq!(m.matches('\n').count(), 1),
        other => panic!("unexpected {:?}", other),
    }
}
