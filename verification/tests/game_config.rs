use bbscript::{
    ArgType, BBScriptError, CodeBlock, EnumGroups, InstructionInfo, NameTable, ScriptConfig,
    SizedInstruction, UnsizedInstruction,
};
use std::collections::HashMap;

fn config_with_groups(groups: EnumGroups) -> ScriptConfig {
    ScriptConfig {
        jump_table_ids: vec![],
        instructions: InstructionInfo::Sized(HashMap::new()),
        literal_tag: 0,
        variable_tag: 2,
        named_variables: NameTable::new(),
        named_value_maps: groups,
    }
}

#[test]
fn name_table_starts_empty() {
    let table = NameTable::new();
    assert_eq!(table.len(), 0);
    assert!(table.get_by_left(0).is_none());
    assert!(table.get_by_right(&"x".to_string()).is_none());
}

#[test]
fn name_table_finds_both_ways() {
    let mut table = NameTable::new();
    assert!(table.insert(7, "health".to_string()));
    assert!(table.insert(-3, "meter".to_string()));
    assert_eq!(table.len(), 2);
    assert_eq!(table.get_by_left(7), Some(&"health".to_string()));
    assert_eq!(table.get_by_left(-3), Some(&"meter".to_string()));
    assert_eq!(table.get_by_left(8), None);
    assert_eq!(table.get_by_right(&"health".to_string()), Some(7));
    assert_eq!(table.get_by_right(&"meter".to_string()), Some(-3));
    assert_eq!(table.get_by_right(&"speed".to_string()), None);
}

#[test]
fn name_table_refuses_a_second_name_for_a_number() {
    let mut table = NameTable::new();
    assert!(table.insert(1, "one".to_string()));
    assert!(!table.insert(1, "uno".to_string()));
    assert_eq!(table.len(), 1);
    assert_eq!(table.get_by_left(1), Some(&"one".to_string()));
    assert_eq!(table.get_by_right(&"uno".to_string()), None);
}

#[test]
fn name_table_refuses_a_second_number_for_a_name() {
    let mut table = NameTable::new();
    assert!(table.insert(1, "one".to_string()));
    assert!(!table.insert(2, "one".to_string()));
    assert_eq!(table.len(), 1);
    assert_eq!(table.get_by_left(2), None);
    assert_eq!(table.get_by_right(&"one".to_string()), Some(1));
}

#[test]
fn name_table_clone_holds_the_same_pairs() {
    let mut table = NameTable::new();
    assert!(table.insert(4, "four".to_string()));
    assert!(table.insert(5, "five".to_string()));
    let copy = table.clone();
    assert_eq!(copy.len(), 2);
    assert_eq!(copy.get_by_left(4), Some(&"four".to_string()));
    assert_eq!(copy.get_by_right(&"five".to_string()), Some(5));
}

#[test]
fn enum_groups_find_by_name() {
    let mut colours = NameTable::new();
    assert!(colours.insert(0, "Red".to_string()));
    let mut sides = NameTable::new();
    assert!(sides.insert(1, "Left".to_string()));
    let mut groups = EnumGroups::new();
    assert_eq!(groups.len(), 0);
    assert!(groups.insert("Colour".to_string(), colours));
    assert!(groups.insert("Side".to_string(), sides));
    assert_eq!(groups.len(), 2);
    let found = groups.get(&"Side".to_string());
    assert!(found.is_some());
    assert_eq!(found.and_then(|table| table.get_by_left(1)), Some(&"Left".to_string()));
    assert!(groups.get(&"Shape".to_string()).is_none());
}

#[test]
fn enum_groups_refuse_a_second_group_of_one_name() {
    let mut first = NameTable::new();
    assert!(first.insert(0, "Red".to_string()));
    let mut groups = EnumGroups::new();
    assert!(groups.insert("Colour".to_string(), first));
    assert!(!groups.insert("Colour".to_string(), NameTable::new()));
    assert_eq!(groups.len(), 1);
    let found = groups.get(&"Colour".to_string());
    assert_eq!(found.map(|table| table.len()), Some(1));
}

#[test]
fn enum_groups_clone_holds_the_same_groups() {
    let mut colours = NameTable::new();
    assert!(colours.insert(2, "Blue".to_string()));
    let mut groups = EnumGroups::new();
    assert!(groups.insert("Colour".to_string(), colours));
    let copy = groups.clone();
    assert_eq!(copy.len(), 1);
    let found = copy.get(&"Colour".to_string());
    assert_eq!(found.and_then(|table| table.get_by_left(2)), Some(&"Blue".to_string()));
}

#[test]
fn named_value_is_found_by_name() {
    let mut colours = NameTable::new();
    assert!(colours.insert(0, "Red".to_string()));
    assert!(colours.insert(2, "Blue".to_string()));
    let mut groups = EnumGroups::new();
    assert!(groups.insert("Colour".to_string(), colours));
    let config = config_with_groups(groups);
    let found = config.named_value(&"Colour".to_string(), &"Blue".to_string());
    assert!(matches!(found, Ok(2)));
}

#[test]
fn named_value_of_a_missing_name_has_no_associated_value() {
    let mut colours = NameTable::new();
    assert!(colours.insert(0, "Red".to_string()));
    let mut groups = EnumGroups::new();
    assert!(groups.insert("Colour".to_string(), colours));
    let config = config_with_groups(groups);
    match config.named_value(&"Colour".to_string(), &"Green".to_string()) {
        Err(BBScriptError::NoAssociatedValue(group, name)) => {
            assert_eq!(group, "Colour");
            assert_eq!(name, "Green");
        }
        other => panic!("unexpected outcome: {:?}", other),
    }
}

#[test]
fn named_value_of_a_missing_group_is_a_bad_enum_reference() {
    let config = config_with_groups(EnumGroups::new());
    match config.named_value(&"Colour".to_string(), &"Red".to_string()) {
        Err(BBScriptError::BadEnumReference(group)) => assert_eq!(group, "Colour"),
        other => panic!("unexpected outcome: {:?}", other),
    }
}

#[test]
fn arg_type_clone_is_the_same_type() {
    let types = vec![
        ArgType::Unknown(12),
        ArgType::String16,
        ArgType::String32,
        ArgType::Number,
        ArgType::Enum("Colour".to_string()),
        ArgType::AccessedValue,
    ];
    let copies: Vec<ArgType> = types.iter().map(|ty| ty.clone()).collect();
    assert_eq!(format!("{:?}", copies), format!("{:?}", types));
    assert!(matches!(&copies[0], ArgType::Unknown(12)));
    assert!(matches!(&copies[4], ArgType::Enum(group) if group == "Colour"));
}

#[test]
fn sized_instruction_hands_out_its_arguments() {
    let instruction = SizedInstruction {
        name: "Move".to_string(),
        code_block: CodeBlock::NoBlock,
        args: vec![ArgType::Number, ArgType::String16],
    };
    let types = instruction.args();
    assert_eq!(types.len(), 2);
    assert!(matches!(types[0], ArgType::Number));
    assert!(matches!(types[1], ArgType::String16));
}

#[test]
fn unknown_unsized_instruction_is_blank() {
    let unknown = UnsizedInstruction::new();
    assert_eq!(unknown.name, "");
    assert!(unknown.args.is_empty());
    assert_eq!(unknown.code_block, CodeBlock::NoBlock);
}

#[test]
fn declared_arguments_are_kept_at_any_size() {
    let instruction = UnsizedInstruction {
        name: "Move".to_string(),
        code_block: CodeBlock::Begin,
        args: vec![ArgType::Number, ArgType::Enum("Side".to_string())],
    };
    for size in [0usize, 8, 16, 4000] {
        let types = instruction.args_with_known_size(size);
        assert_eq!(types.len(), 2);
        assert!(matches!(&types[0], ArgType::Number));
        assert!(matches!(&types[1], ArgType::Enum(group) if group == "Side"));
    }
}

#[test]
fn undeclared_arguments_are_one_raw_run_behind_the_header() {
    let unknown = UnsizedInstruction::new();
    let types = unknown.args_with_known_size(20);
    assert_eq!(types.len(), 1);
    assert!(matches!(types[0], ArgType::Unknown(12)));
    let types = unknown.args_with_known_size(9);
    assert_eq!(types.len(), 1);
    assert!(matches!(types[0], ArgType::Unknown(1)));
}

#[test]
fn undeclared_arguments_are_none_within_the_header() {
    let unknown = UnsizedInstruction::new();
    assert!(unknown.args_with_known_size(8).is_empty());
    assert!(unknown.args_with_known_size(3).is_empty());
    assert!(unknown.args_with_known_size(0).is_empty());
}
