use bbscript::{
    arg_to_string, ArgList, ArgType, ArgValue, BBScriptError, CodeBlock, EnumGroups, Indenter,
    InstructionInfo, InstructionValue, NameTable, RawData, ScriptConfig, SizedInstruction,
    TaggedValue,
};
use bytes::Bytes;
use std::collections::HashMap;

fn config() -> ScriptConfig {
    let mut variables = NameTable::new();
    assert!(variables.insert(7, "health".to_string()));
    let mut sides = NameTable::new();
    assert!(sides.insert(0, "Left".to_string()));
    assert!(sides.insert(1, "Right".to_string()));
    let mut groups = EnumGroups::new();
    assert!(groups.insert("Side".to_string(), sides));
    let mut catalog = HashMap::new();
    catalog.insert(
        5,
        SizedInstruction {
            name: "SetVar".to_string(),
            code_block: CodeBlock::NoBlock,
            args: vec![ArgType::AccessedValue],
        },
    );
    ScriptConfig {
        jump_table_ids: vec![],
        instructions: InstructionInfo::Sized(catalog),
        literal_tag: 1,
        variable_tag: 2,
        named_variables: variables,
        named_value_maps: groups,
    }
}

fn text_of(arg: ArgValue) -> String {
    arg_to_string(&config(), &arg).expect("the argument renders")
}

fn instruction(name: &str, code_block: CodeBlock, args: Vec<ArgValue>) -> InstructionValue {
    InstructionValue {
        id: 0,
        name: Some(name.to_string()),
        args: ArgList::from_vec(args),
        code_block,
    }
}

fn rendered(program: Vec<InstructionValue>) -> String {
    config().render(&program).expect("the program renders")
}

#[test]
fn raw_bytes_render_as_hex() {
    assert_eq!(text_of(ArgValue::Unknown(RawData::from_vec(vec![0xAA, 0xBB, 0xCC]))), "0xAABBCC");
    assert_eq!(text_of(ArgValue::Unknown(RawData::from_vec(vec![0x0F, 0x00]))), "0x0F00");
    assert_eq!(text_of(ArgValue::Unknown(RawData::from_vec(vec![]))), "0x");
}

#[test]
fn numbers_render_in_decimal() {
    assert_eq!(text_of(ArgValue::Number(0)), "0");
    assert_eq!(text_of(ArgValue::Number(1204)), "1204");
    assert_eq!(text_of(ArgValue::Number(-15)), "-15");
    assert_eq!(text_of(ArgValue::Number(i32::MIN)), "-2147483648");
}

#[test]
fn strings_render_with_their_width() {
    assert_eq!(text_of(ArgValue::String16("cmn".to_string())), "s16(cmn)");
    assert_eq!(text_of(ArgValue::String32("a longer name".to_string())), "s32(a longer name)");
    assert_eq!(text_of(ArgValue::String16(String::new())), "s16()");
}

#[test]
fn improper_values_render_as_bad_tags() {
    let arg = ArgValue::AccessedValue(TaggedValue::Improper { tag: 9, value: -4 });
    assert_eq!(text_of(arg), "BadTag(9, -4)");
}

#[test]
fn variables_render_by_name() {
    assert_eq!(text_of(ArgValue::AccessedValue(TaggedValue::Variable(7))), "var(health)");
}

#[test]
fn variables_without_a_name_render_by_number() {
    assert_eq!(text_of(ArgValue::AccessedValue(TaggedValue::Variable(8))), "var(8)");
    assert_eq!(text_of(ArgValue::AccessedValue(TaggedValue::Variable(-1))), "var(-1)");
}

#[test]
fn literals_render_as_int() {
    assert_eq!(text_of(ArgValue::AccessedValue(TaggedValue::Literal(5))), "int(5)");
}

#[test]
fn enum_members_render_by_name_in_brackets() {
    assert_eq!(text_of(ArgValue::Enum("Side".to_string(), 1)), "(Right)");
}

#[test]
fn enum_members_without_a_name_render_bare() {
    assert_eq!(text_of(ArgValue::Enum("Side".to_string(), 5)), "5");
    assert_eq!(text_of(ArgValue::Enum("Side".to_string(), -2)), "-2");
}

#[test]
fn enum_members_of_a_missing_group_are_an_error() {
    let outcome = arg_to_string(&config(), &ArgValue::Enum("Colour".to_string(), 0));
    match outcome {
        Err(BBScriptError::BadEnumReference(group)) => assert_eq!(group, "Colour"),
        other => panic!("unexpected outcome: {:?}", other),
    }
}

#[test]
fn arguments_are_joined_by_comma_and_space() {
    let config = config();
    let args = vec![
        ArgValue::Number(1),
        ArgValue::AccessedValue(TaggedValue::Literal(2)),
        ArgValue::String16("x".to_string()),
    ];
    assert_eq!(config.args_to_string(&args).expect("the arguments render"), "1, int(2), s16(x)");
    assert_eq!(config.args_to_string(&args[..1]).expect("the argument renders"), "1");
    assert_eq!(config.args_to_string(&[]).expect("nothing renders"), "");
}

#[test]
fn arguments_fail_with_the_first_error() {
    let config = config();
    let args = vec![
        ArgValue::Number(1),
        ArgValue::Enum("First".to_string(), 0),
        ArgValue::Enum("Second".to_string(), 0),
    ];
    match config.args_to_string(&args) {
        Err(BBScriptError::BadEnumReference(group)) => assert_eq!(group, "First"),
        other => panic!("unexpected outcome: {:?}", other),
    }
}

#[test]
fn plain_line_ends_with_a_newline() {
    let line = config()
        .line_to_string(2, &instruction("Wait", CodeBlock::NoBlock, vec![ArgValue::Number(3)]))
        .expect("the line renders");
    assert_eq!(line, "\t\tWait: 3\n");
}

#[test]
fn opening_lines_end_with_a_brace() {
    let config = config();
    let line = config
        .line_to_string(0, &instruction("State", CodeBlock::BeginTop, vec![]))
        .expect("the line renders");
    assert_eq!(line, "State:  {\n");
    let line = config
        .line_to_string(1, &instruction("If", CodeBlock::Begin, vec![ArgValue::Number(1)]))
        .expect("the line renders");
    assert_eq!(line, "\tIf: 1 {\n");
}

#[test]
fn closing_lines_start_with_a_brace() {
    let config = config();
    let line = config
        .line_to_string(1, &instruction("EndIf", CodeBlock::End, vec![]))
        .expect("the line renders");
    assert_eq!(line, "\t} EndIf: \n");
    let line = config
        .line_to_string(0, &instruction("EndState", CodeBlock::EndTop, vec![]))
        .expect("the line renders");
    assert_eq!(line, "} EndState: \n\n");
}

#[test]
fn nameless_instruction_is_unknown_with_its_id() {
    let nameless = InstructionValue {
        id: 4242,
        name: None,
        args: ArgList::from_vec(vec![ArgValue::Unknown(RawData::from_vec(vec![0xCA, 0xFE]))]),
        code_block: CodeBlock::NoBlock,
    };
    let line = config().line_to_string(0, &nameless).expect("the line renders");
    assert_eq!(line, "unknown4242: 0xCAFE\n");
}

#[test]
fn indenter_starts_at_depth_zero() {
    let indenter = Indenter::new();
    assert_eq!(indenter.indent, 0);
    assert_eq!(indenter.prev_indent, 0);
}

#[test]
fn nested_blocks_go_in_and_out() {
    let mut indenter = Indenter::new();
    let mut lines = Vec::new();
    let mut after = Vec::new();
    for role in [CodeBlock::BeginTop, CodeBlock::Begin, CodeBlock::End, CodeBlock::EndTop] {
        lines.push(indenter.advance(role));
        after.push(indenter.indent);
        assert_eq!(indenter.prev_indent, indenter.indent);
    }
    assert_eq!(after, vec![1, 2, 1, 0]);
    assert_eq!(lines, vec![0, 1, 1, 0]);
    assert_eq!(after.iter().filter(|depth| **depth == 0).count(), 1);
}

#[test]
fn nested_blocks_render_indented() {
    let text = rendered(vec![
        instruction("State", CodeBlock::BeginTop, vec![]),
        instruction("If", CodeBlock::Begin, vec![]),
        instruction("EndIf", CodeBlock::End, vec![]),
        instruction("EndState", CodeBlock::EndTop, vec![]),
    ]);
    assert_eq!(text, "State:  {\n\tIf:  {\n\t} EndIf: \n} EndState: \n\n");
}

#[test]
fn deeper_blocks_render_indented() {
    let text = rendered(vec![
        instruction("State", CodeBlock::BeginTop, vec![]),
        instruction("If", CodeBlock::Begin, vec![]),
        instruction("If", CodeBlock::Begin, vec![]),
        instruction("Hit", CodeBlock::NoBlock, vec![]),
        instruction("EndIf", CodeBlock::End, vec![]),
        instruction("Hit", CodeBlock::NoBlock, vec![]),
        instruction("EndIf", CodeBlock::End, vec![]),
        instruction("Hit", CodeBlock::NoBlock, vec![]),
        instruction("EndState", CodeBlock::EndTop, vec![]),
        instruction("Hit", CodeBlock::NoBlock, vec![]),
    ]);
    let expected = "State:  {\n\
                    \tIf:  {\n\
                    \t\tIf:  {\n\
                    \t\t\tHit: \n\
                    \t\t} EndIf: \n\
                    \t\tHit: \n\
                    \t} EndIf: \n\
                    \tHit: \n\
                    } EndState: \n\n\
                    Hit: \n";
    assert_eq!(text, expected);
}

#[test]
fn nested_end_at_depth_one_stays_at_depth_one() {
    let mut indenter = Indenter::new();
    assert_eq!(indenter.advance(CodeBlock::BeginTop), 0);
    assert_eq!(indenter.advance(CodeBlock::End), 1);
    assert_eq!(indenter.indent, 1);
    assert_eq!(indenter.advance(CodeBlock::End), 1);
    assert_eq!(indenter.indent, 1);
    assert_eq!(indenter.advance(CodeBlock::NoBlock), 1);
    assert_eq!(indenter.advance(CodeBlock::EndTop), 0);
    assert_eq!(indenter.indent, 0);
    let text = rendered(vec![
        instruction("State", CodeBlock::BeginTop, vec![]),
        instruction("EndIf", CodeBlock::End, vec![]),
        instruction("Hit", CodeBlock::NoBlock, vec![]),
    ]);
    assert_eq!(text, "State:  {\n\t} EndIf: \n\tHit: \n");
}

#[test]
fn ends_at_depth_zero_stay_at_depth_zero() {
    let mut indenter = Indenter::new();
    assert_eq!(indenter.advance(CodeBlock::End), 0);
    assert_eq!(indenter.indent, 0);
    assert_eq!(indenter.advance(CodeBlock::EndTop), 0);
    assert_eq!(indenter.indent, 0);
    let text = rendered(vec![
        instruction("EndIf", CodeBlock::End, vec![]),
        instruction("EndState", CodeBlock::EndTop, vec![]),
    ]);
    assert_eq!(text, "} EndIf: \n} EndState: \n\n");
}

#[test]
fn top_level_block_starts_at_depth_one_from_anywhere() {
    let mut indenter = Indenter::new();
    assert_eq!(indenter.advance(CodeBlock::Begin), 0);
    assert_eq!(indenter.advance(CodeBlock::Begin), 1);
    assert_eq!(indenter.indent, 2);
    assert_eq!(indenter.advance(CodeBlock::BeginTop), 2);
    assert_eq!(indenter.indent, 1);
    assert_eq!(indenter.advance(CodeBlock::NoBlock), 1);
}

#[test]
fn top_level_end_closes_every_block() {
    let mut indenter = Indenter::new();
    assert_eq!(indenter.advance(CodeBlock::BeginTop), 0);
    assert_eq!(indenter.advance(CodeBlock::Begin), 1);
    assert_eq!(indenter.advance(CodeBlock::Begin), 2);
    assert_eq!(indenter.advance(CodeBlock::EndTop), 2);
    assert_eq!(indenter.indent, 0);
    assert_eq!(indenter.advance(CodeBlock::NoBlock), 0);
}

#[test]
fn empty_program_renders_as_nothing() {
    assert_eq!(rendered(vec![]), "");
}

#[test]
fn program_with_a_bad_enum_reference_renders_nothing() {
    let program = vec![
        instruction("Wait", CodeBlock::NoBlock, vec![ArgValue::Number(1)]),
        instruction("Face", CodeBlock::NoBlock, vec![ArgValue::Enum("Colour".to_string(), 1)]),
        instruction("Face", CodeBlock::NoBlock, vec![ArgValue::Enum("Shape".to_string(), 1)]),
    ];
    match config().render(&program) {
        Err(BBScriptError::BadEnumReference(group)) => assert_eq!(group, "Colour"),
        other => panic!("unexpected outcome: {:?}", other),
    }
}

#[test]
fn set_var_decodes_and_renders() {
    let config = config();
    let bytes: Vec<u8> = vec![0x05, 0, 0, 0, 0x02, 0, 0, 0, 0x07, 0, 0, 0];
    let program = config.parse(Bytes::from(bytes.clone())).expect("the script decodes");
    assert_eq!(program.len(), 1);
    assert_eq!(program[0].id, 5);
    assert_eq!(program[0].name.as_deref(), Some("SetVar"));
    assert!(matches!(
        program[0].args.as_slice(),
        [ArgValue::AccessedValue(TaggedValue::Variable(7))]
    ));
    assert_eq!(config.render(&program).expect("the program renders"), "SetVar: var(health)\n");
    assert_eq!(
        config.parse_to_string(Bytes::from(bytes)).expect("the script renders"),
        "SetVar: var(health)\n"
    );
}

#[test]
fn script_that_does_not_decode_does_not_render() {
    let config = config();
    let outcome = config.parse_to_string(Bytes::from(vec![0x63u8, 0, 0, 0]));
    assert!(matches!(outcome, Err(BBScriptError::UnknownInstructionID(0x63))));
    let outcome = config.parse_to_string(Bytes::from(vec![0x05u8, 0, 0, 0, 1, 0]));
    assert!(matches!(outcome, Err(BBScriptError::UnexpectedEnd)));
}
