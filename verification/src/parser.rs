//! Decoding a script into instructions.
//!
//! A script is a jump table followed by instructions, back to back, up to the
//! end of the input. The jump table starts with one little-endian count for
//! each jump-table group of the configuration; the entries that these counts
//! announce are skipped. Every number is 32 bits wide and little-endian.
//!
//! [`ScriptConfig::decode`] says what a sequence of bytes decodes to, and
//! [`ScriptConfig::parse`] computes it.

use crate::cursor::{bytes_contents, le_i32, le_u32, ByteCursor};
use crate::error::{BBScriptError, ErrorModel};
use crate::game_config::{
    ArgType, BBSNumber, CodeBlock, InstructionInfo, ScriptConfig, SizedInstruction, TaggedValue,
    UnsizedInstruction, STRING16_SIZE, STRING32_SIZE,
};
use crate::small::{ArgList, RawData};
use crate::text::{decimal_nat, push_decimal};
use bytes::Bytes;
use std::collections::HashMap;
use vstd::prelude::*;

verus! {

broadcast use vstd::std_specs::hash::group_hash_axioms;

/// The width of one entry of the jump table.
pub const JUMP_ENTRY_LENGTH: usize = 0x24;

/// One decoded argument.
#[derive(Debug)]
pub enum ArgValue {
    /// Bytes of unknown meaning.
    Unknown(RawData),
    /// A number.
    Number(BBSNumber),
    /// The text of a 16-byte string.
    String16(String),
    /// The text of a 32-byte string.
    String32(String),
    /// A constant or a variable.
    AccessedValue(TaggedValue),
    /// A member of the enum group of the given name.
    Enum(String, BBSNumber),
}

/// What an [`ArgValue`] holds.
pub enum ArgModel {
    Unknown(Seq<u8>),
    Number(BBSNumber),
    String16(Seq<char>),
    String32(Seq<char>),
    AccessedValue(TaggedValue),
    Enum(Seq<char>, BBSNumber),
}

impl View for ArgValue {
    type V = ArgModel;

    open spec fn view(&self) -> ArgModel {
        match self {
            ArgValue::Unknown(data) => ArgModel::Unknown(data@),
            ArgValue::Number(number) => ArgModel::Number(*number),
            ArgValue::String16(text) => ArgModel::String16(text@),
            ArgValue::String32(text) => ArgModel::String32(text@),
            ArgValue::AccessedValue(tagged) => ArgModel::AccessedValue(*tagged),
            ArgValue::Enum(group, number) => ArgModel::Enum(group@, *number),
        }
    }
}

impl Clone for ArgValue {
    fn clone(&self) -> (copy: ArgValue)
        ensures
            copy@ == self@,
    {
        match self {
            ArgValue::Unknown(data) => ArgValue::Unknown(data.clone()),
            ArgValue::Number(number) => ArgValue::Number(*number),
            ArgValue::String16(text) => ArgValue::String16(text.clone()),
            ArgValue::String32(text) => ArgValue::String32(text.clone()),
            ArgValue::AccessedValue(tagged) => ArgValue::AccessedValue(*tagged),
            ArgValue::Enum(group, number) => ArgValue::Enum(group.clone(), *number),
        }
    }
}

/// One decoded instruction.
#[derive(Debug)]
pub struct InstructionValue {
    /// The ID that the script gives.
    pub id: u32,
    /// The name that the configuration gives, if any.
    pub name: Option<String>,
    /// The arguments, in the order of the script.
    pub args: ArgList,
    /// The part of the instruction in the block structure.
    pub code_block: CodeBlock,
}

/// What an [`InstructionValue`] holds.
pub struct InstructionModel {
    pub id: u32,
    pub name: Option<Seq<char>>,
    pub args: Seq<ArgModel>,
    pub code_block: CodeBlock,
}

/// What a list of arguments holds.
pub open spec fn args_view(args: Seq<ArgValue>) -> Seq<ArgModel> {
    args.map_values(|arg: ArgValue| arg@)
}

impl View for InstructionValue {
    type V = InstructionModel;

    open spec fn view(&self) -> InstructionModel {
        InstructionModel {
            id: self.id,
            name: match self.name {
                Some(name) => Some(name@),
                None => None,
            },
            args: self.args@,
            code_block: self.code_block,
        }
    }
}

impl Clone for InstructionValue {
    fn clone(&self) -> (copy: InstructionValue)
        ensures
            copy@ == self@,
    {
        InstructionValue {
            id: self.id,
            name: match &self.name {
                Some(name) => Some(name.clone()),
                None => None,
            },
            args: self.args.clone(),
            code_block: self.code_block,
        }
    }
}

/// What a list of instructions holds.
pub open spec fn program_view(program: Seq<InstructionValue>) -> Seq<InstructionModel> {
    program.map_values(|instruction: InstructionValue| instruction@)
}

/// Whether a byte of a fixed-width string stands for a character: `0x00`
/// pads the string and `0x13` is a marker without text.
pub open spec fn is_text_byte(byte: u8) -> bool {
    byte != 0x00 && byte != 0x13
}

/// The character that a byte of a fixed-width string stands for: `g` for
/// `0x09`, and for every other byte the character of that code point.
pub open spec fn text_char(byte: u8) -> char {
    if byte == 0x09 {
        'g'
    } else {
        byte as char
    }
}

/// The text of a fixed-width string.
pub open spec fn decode_text(buf: Seq<u8>) -> Seq<char> {
    buf.filter(|byte: u8| is_text_byte(byte)).map_values(|byte: u8| text_char(byte))
}

/// The text of `buf` with one more byte behind it.
pub proof fn lemma_decode_text_push(buf: Seq<u8>, byte: u8)
    ensures
        decode_text(buf.push(byte)) == if is_text_byte(byte) {
            decode_text(buf).push(text_char(byte))
        } else {
            decode_text(buf)
        },
{
    let keep = |byte: u8| is_text_byte(byte);
    buf.lemma_filter_push(byte, keep);
    assert(decode_text(buf.push(byte)) == buf.push(byte).filter(keep).map_values(
        |byte: u8| text_char(byte),
    ));
    if is_text_byte(byte) {
        assert(buf.filter(keep).push(byte).map_values(|byte: u8| text_char(byte))
            =~= buf.filter(keep).map_values(|byte: u8| text_char(byte)).push(text_char(byte)));
    }
}

/// A string of nothing but padding has no text.
pub proof fn lemma_text_of_padding(buf: Seq<u8>)
    requires
        forall|i: int| 0 <= i < buf.len() ==> buf[i] == 0x00,
    ensures
        decode_text(buf) == Seq::<char>::empty(),
    decreases buf.len(),
{
    if buf.len() > 0 {
        lemma_text_of_padding(buf.drop_last());
        lemma_decode_text_push(buf.drop_last(), buf.last());
        assert(buf.drop_last().push(buf.last()) == buf);
    } else {
        reveal(Seq::filter);
    }
}

/// The text of two runs of bytes, one behind the other, is the text of the
/// first and then the text of the second.
pub proof fn lemma_text_concat(first: Seq<u8>, second: Seq<u8>)
    ensures
        decode_text(first + second) == decode_text(first) + decode_text(second),
    decreases second.len(),
{
    if second.len() > 0 {
        lemma_text_concat(first, second.drop_last());
        lemma_decode_text_push(first + second.drop_last(), second.last());
        lemma_decode_text_push(second.drop_last(), second.last());
        assert(decode_text(first) + decode_text(second.drop_last()).push(text_char(second.last()))
            == (decode_text(first) + decode_text(second.drop_last())).push(
            text_char(second.last()),
        ));
    } else {
        assert(decode_text(second) == Seq::<char>::empty()) by {
            reveal(Seq::filter);
        }
    }
}

/// What one byte adds to the text, wherever it stands in the string: `0x00`
/// and `0x13` nothing, `0x09` the letter `g`, and every other byte the
/// character of its own code point.
pub proof fn lemma_text_of_byte(before: Seq<u8>, byte: u8, behind: Seq<u8>)
    ensures
        decode_text(before + seq![byte] + behind) == decode_text(before) + (if byte == 0x00 || byte
            == 0x13 {
            Seq::<char>::empty()
        } else if byte == 0x09 {
            seq!['g']
        } else {
            seq![byte as char]
        }) + decode_text(behind),
{
    lemma_text_concat(before + seq![byte], behind);
    lemma_text_concat(before, seq![byte]);
    lemma_decode_text_push(Seq::<u8>::empty(), byte);
    assert(decode_text(Seq::<u8>::empty()) == Seq::<char>::empty()) by {
        reveal(Seq::filter);
    }
}

/// Reads the text of a fixed-width string.
pub fn process_string_buf(buf: &[u8]) -> (text: String)
    ensures
        text@ == decode_text(buf@),
{
    let mut text = String::new();
    let mut i: usize = 0;
    assert(decode_text(Seq::<u8>::empty()) == Seq::<char>::empty()) by {
        reveal(Seq::filter);
    }
    while i < buf.len()
        invariant
            i <= buf@.len(),
            text@ == decode_text(buf@.take(i as int)),
        decreases buf@.len() - i,
    {
        let byte = buf[i];
        proof {
            lemma_decode_text_push(buf@.take(i as int), byte);
            assert(buf@.take(i + 1) == buf@.take(i as int).push(byte));
        }
        if byte != 0x00 && byte != 0x13 {
            if byte == 0x09 {
                text.push('g');
            } else {
                text.push(byte as char);
            }
        }
        i += 1;
    }
    assert(buf@.take(i as int) == buf@);
    text
}

/// The accessed value that a tag and a number stand for. The literal tag is
/// tried first.
pub open spec fn tagged_value(
    literal_tag: BBSNumber,
    variable_tag: BBSNumber,
    tag: BBSNumber,
    value: BBSNumber,
) -> TaggedValue {
    if tag == literal_tag {
        TaggedValue::Literal(value)
    } else if tag == variable_tag {
        TaggedValue::Variable(value)
    } else {
        TaggedValue::Improper { tag, value }
    }
}

/// The number of bytes that arguments of these types take up together.
pub open spec fn total_size(types: Seq<ArgType>) -> nat
    decreases types.len(),
{
    if types.len() == 0 {
        0
    } else {
        total_size(types.drop_last()) + types.last().byte_size()
    }
}

/// The name to show for an instruction: none where the configuration gives
/// the empty name.
pub open spec fn display_name(name: Seq<char>) -> Option<Seq<char>> {
    if name.len() == 0 {
        None
    } else {
        Some(name)
    }
}

/// The sum of the first `n` counts at the front of `input`.
pub open spec fn jump_entries(n: nat, input: Seq<u8>) -> nat
    decreases n,
{
    if n == 0 {
        0
    } else {
        jump_entries((n - 1) as nat, input) + le_u32(input.skip(4 * (n - 1))) as nat
    }
}

proof fn lemma_total_size_step(types: Seq<ArgType>, i: int)
    requires
        0 <= i < types.len(),
    ensures
        total_size(types.take(i + 1)) == total_size(types.take(i)) + types[i].byte_size(),
{
    assert(types.take(i + 1).drop_last() == types.take(i));
}

proof fn lemma_total_size_prefix(types: Seq<ArgType>, i: int)
    requires
        0 <= i <= types.len(),
    ensures
        total_size(types.take(i)) <= total_size(types),
    decreases types.len() - i,
{
    if i < types.len() {
        lemma_total_size_step(types, i);
        lemma_total_size_prefix(types, i + 1);
    } else {
        assert(types.take(i) == types);
    }
}

impl ScriptConfig {
    /// The value of an argument of type `ty` at the front of `input`.
    pub open spec fn argument_value(self, ty: ArgType, input: Seq<u8>) -> ArgModel
        recommends
            input.len() >= ty.byte_size(),
    {
        match ty {
            ArgType::Unknown(n) => ArgModel::Unknown(input.take(n as int)),
            ArgType::String16 => ArgModel::String16(decode_text(input.take(STRING16_SIZE as int))),
            ArgType::String32 => ArgModel::String32(decode_text(input.take(STRING32_SIZE as int))),
            ArgType::Number => ArgModel::Number(le_i32(input)),
            ArgType::Enum(group) => ArgModel::Enum(group@, le_i32(input)),
            ArgType::AccessedValue => ArgModel::AccessedValue(
                tagged_value(
                    self.literal_tag,
                    self.variable_tag,
                    le_i32(input),
                    le_i32(input.skip(4)),
                ),
            ),
        }
    }

    /// One argument of type `ty` off the front of `input`: its value and the
    /// rest of the input, or nothing where the input is too short.
    pub open spec fn decode_argument(self, ty: ArgType, input: Seq<u8>) -> Option<
        (ArgModel, Seq<u8>),
    > {
        if input.len() < ty.byte_size() {
            None
        } else {
            Some((self.argument_value(ty, input), input.skip(ty.byte_size() as int)))
        }
    }

    /// Arguments of the types `types` off the front of `input`, back to back:
    /// their values and the rest of the input, or nothing where the input is
    /// too short for all of them.
    pub open spec fn decode_arguments(self, types: Seq<ArgType>, input: Seq<u8>) -> Option<
        (Seq<ArgModel>, Seq<u8>),
    > {
        if input.len() < total_size(types) {
            None
        } else {
            Some(
                (
                    Seq::new(
                        types.len(),
                        |i: int|
                            self.argument_value(
                                types[i],
                                input.skip(total_size(types.take(i)) as int),
                            ),
                    ),
                    input.skip(total_size(types) as int),
                ),
            )
        }
    }

    /// One instruction of the fixed layout off the front of `input`: an ID
    /// that `id_map` knows, then the arguments that `id_map` declares for it.
    pub open spec fn decode_sized(
        self,
        id_map: Map<u32, SizedInstruction>,
        input: Seq<u8>,
    ) -> Result<(InstructionModel, Seq<u8>), ErrorModel> {
        if input.len() < 4 {
            Err(ErrorModel::UnexpectedEnd)
        } else if !id_map.contains_key(le_u32(input)) {
            Err(ErrorModel::UnknownInstructionID(le_u32(input)))
        } else {
            let id = le_u32(input);
            match self.decode_arguments(id_map[id].args@, input.skip(4)) {
                None => Err(ErrorModel::UnexpectedEnd),
                Some((args, rest)) => Ok(
                    (
                        InstructionModel {
                            id,
                            name: display_name(id_map[id].name@),
                            args,
                            code_block: id_map[id].code_block,
                        },
                        rest,
                    ),
                ),
            }
        }
    }

    /// One instruction of the size-prefixed layout off the front of `input`:
    /// an ID, a size, then the arguments that the instruction of that ID has
    /// at that size. An ID that `id_map` lacks stands for an instruction
    /// without name, declared arguments or part in the block structure.
    pub open spec fn decode_unsized(
        self,
        id_map: Map<u32, UnsizedInstruction>,
        input: Seq<u8>,
    ) -> Result<(InstructionModel, Seq<u8>), ErrorModel> {
        if input.len() < 8 {
            Err(ErrorModel::UnexpectedEnd)
        } else {
            let id = le_u32(input);
            let size = le_u32(input.skip(4)) as usize;
            let known = id_map.contains_key(id);
            let types = if known {
                id_map[id].sized_args(size)
            } else {
                UnsizedInstruction::args_for_size(Seq::empty(), size)
            };
            match self.decode_arguments(types, input.skip(8)) {
                None => Err(ErrorModel::UnexpectedEnd),
                Some((args, rest)) => Ok(
                    (
                        InstructionModel {
                            id,
                            name: if known {
                                display_name(id_map[id].name@)
                            } else {
                                None
                            },
                            args,
                            code_block: if known {
                                id_map[id].code_block
                            } else {
                                CodeBlock::NoBlock
                            },
                        },
                        rest,
                    ),
                ),
            }
        }
    }

    /// One instruction off the front of `input`, in the layout of the
    /// configuration.
    pub open spec fn decode_instruction(self, input: Seq<u8>) -> Result<
        (InstructionModel, Seq<u8>),
        ErrorModel,
    > {
        match self.instructions {
            InstructionInfo::Sized(id_map) => self.decode_sized(id_map@, input),
            InstructionInfo::Unsized(id_map) => self.decode_unsized(id_map@, input),
        }
    }

    /// The instructions that fill `input` from its first byte to its last.
    pub open spec fn decode_script(self, input: Seq<u8>) -> Result<
        Seq<InstructionModel>,
        ErrorModel,
    >
        decreases input.len(),
    {
        if input.len() == 0 {
            Ok(Seq::empty())
        } else {
            match self.decode_instruction(input) {
                Err(e) => Err(e),
                Ok((first, rest)) => match self.decode_script(rest) {
                    Err(e) => Err(e),
                    Ok(others) => Ok(seq![first] + others),
                },
            }
        }
    }

    /// The instructions of the script `input`: behind one count for each
    /// jump-table group and behind the jump table itself, whose entries take
    /// [`JUMP_ENTRY_LENGTH`] bytes each. A jump table that leaves no byte for
    /// instructions is an error.
    pub open spec fn decode(self, input: Seq<u8>) -> Result<Seq<InstructionModel>, ErrorModel> {
        let groups = self.jump_table_ids@.len();
        let table = JUMP_ENTRY_LENGTH as nat * jump_entries(groups, input);
        if input.len() < 4 * groups {
            Err(ErrorModel::UnexpectedEnd)
        } else if table >= input.len() - 4 * groups {
            Err(ErrorModel::IncorrectJumpTableSize(decimal_nat(table)))
        } else {
            self.decode_script(input.skip((4 * groups + table) as int))
        }
    }

    /// Decodes one argument of type `arg_type` off the front of `input`.
    pub fn parse_argument(&self, arg_type: &ArgType, input: ByteCursor) -> (r: Result<
        (ArgValue, ByteCursor),
        BBScriptError,
    >)
        ensures
            match self.decode_argument(*arg_type, input@) {
                Some((value, rest)) => r is Ok && r->Ok_0.0@ == value && r->Ok_0.1@ == rest,
                None => r is Err && r->Err_0@ == ErrorModel::UnexpectedEnd,
            },
    {
        let ghost start = input@;
        let mut cursor = input;
        match arg_type {
            ArgType::Unknown(n) => match cursor.read_bytes(*n) {
                Ok(data) => Ok((ArgValue::Unknown(RawData::from_vec(data)), cursor)),
                Err(e) => Err(e),
            },
            ArgType::String16 => match cursor.read_array::<STRING16_SIZE>() {
                Ok(buf) => Ok((ArgValue::String16(process_string_buf(&buf)), cursor)),
                Err(e) => Err(e),
            },
            ArgType::String32 => match cursor.read_array::<STRING32_SIZE>() {
                Ok(buf) => Ok((ArgValue::String32(process_string_buf(&buf)), cursor)),
                Err(e) => Err(e),
            },
            ArgType::Number => match cursor.read_i32_le() {
                Ok(number) => Ok((ArgValue::Number(number), cursor)),
                Err(e) => Err(e),
            },
            ArgType::Enum(group) => match cursor.read_i32_le() {
                Ok(number) => Ok((ArgValue::Enum(group.clone(), number), cursor)),
                Err(e) => Err(e),
            },
            ArgType::AccessedValue => {
                let tag = match cursor.read_i32_le() {
                    Ok(tag) => tag,
                    Err(e) => return Err(e),
                };
                let value = match cursor.read_i32_le() {
                    Ok(value) => value,
                    Err(e) => return Err(e),
                };
                let tagged = if tag == self.literal_tag {
                    TaggedValue::Literal(value)
                } else if tag == self.variable_tag {
                    TaggedValue::Variable(value)
                } else {
                    TaggedValue::Improper { tag, value }
                };
                assert(cursor@ == start.skip(8));
                Ok((ArgValue::AccessedValue(tagged), cursor))
            },
        }
    }

    /// Decodes arguments of the types `types` off the front of `input`, back
    /// to back.
    pub fn parse_arguments(&self, types: &Vec<ArgType>, input: ByteCursor) -> (r: Result<
        (ArgList, ByteCursor),
        BBScriptError,
    >)
        ensures
            match self.decode_arguments(types@, input@) {
                Some((values, rest)) => r is Ok && r->Ok_0.0@ == values && r->Ok_0.1@ == rest,
                None => r is Err && r->Err_0@ == ErrorModel::UnexpectedEnd,
            },
    {
        let ghost start = input@;
        let mut cursor = input;
        let mut values: Vec<ArgValue> = Vec::new();
        let mut i: usize = 0;
        while i < types.len()
            invariant
                start == input@,
                i <= types@.len(),
                total_size(types@.take(i as int)) <= start.len(),
                cursor@ == start.skip(total_size(types@.take(i as int)) as int),
                values@.len() == i,
                forall|k: int|
                    0 <= k < i ==> (#[trigger] values@[k])@ == self.argument_value(
                        types@[k],
                        start.skip(total_size(types@.take(k)) as int),
                    ),
            decreases types@.len() - i,
        {
            let ghost before = total_size(types@.take(i as int));
            proof {
                lemma_total_size_step(types@, i as int);
                lemma_total_size_prefix(types@, i + 1);
            }
            match self.parse_argument(&types[i], cursor) {
                Ok((value, rest)) => {
                    values.push(value);
                    cursor = rest;
                },
                Err(e) => {
                    return Err(e);
                },
            }
            assert(start.skip(before as int).skip(types@[i as int].byte_size() as int)
                == start.skip((before + types@[i as int].byte_size()) as int));
            i += 1;
        }
        assert(types@.take(i as int) == types@);
        Ok((ArgList::from_vec(values), cursor))
    }

    /// Decodes one instruction of the fixed layout off the front of `input`.
    pub fn parse_sized(&self, id_map: &HashMap<u32, SizedInstruction>, input: ByteCursor) -> (r:
        Result<(InstructionValue, ByteCursor), BBScriptError>)
        ensures
            match self.decode_sized(id_map@, input@) {
                Ok((instruction, rest)) => r is Ok && r->Ok_0.0@ == instruction && r->Ok_0.1@
                    == rest,
                Err(e) => r is Err && r->Err_0@ == e,
            },
    {
        let mut cursor = input;
        let instruction_id = match cursor.read_u32_le() {
            Ok(id) => id,
            Err(e) => return Err(e),
        };
        let instruction = match id_map.get(&instruction_id) {
            Some(instruction) => instruction,
            None => return Err(BBScriptError::UnknownInstructionID(instruction_id)),
        };
        let instruction_name = if instruction.name.as_str().is_empty() {
            None
        } else {
            Some(instruction.name.clone())
        };
        match self.parse_arguments(instruction.args(), cursor) {
            Ok((args, rest)) => Ok(
                (
                    InstructionValue {
                        id: instruction_id,
                        name: instruction_name,
                        args,
                        code_block: instruction.code_block,
                    },
                    rest,
                ),
            ),
            Err(e) => Err(e),
        }
    }

    /// Decodes one instruction of the size-prefixed layout off the front of
    /// `input`.
    pub fn parse_unsized(
        &self,
        id_map: &HashMap<u32, UnsizedInstruction>,
        input: ByteCursor,
    ) -> (r: Result<(InstructionValue, ByteCursor), BBScriptError>)
        ensures
            match self.decode_unsized(id_map@, input@) {
                Ok((instruction, rest)) => r is Ok && r->Ok_0.0@ == instruction && r->Ok_0.1@
                    == rest,
                Err(e) => r is Err && r->Err_0@ == e,
            },
    {
        let ghost start = input@;
        let mut cursor = input;
        let instruction_id = match cursor.read_u32_le() {
            Ok(id) => id,
            Err(e) => return Err(e),
        };
        let instruction_size = match cursor.read_u32_le() {
            Ok(size) => size,
            Err(e) => return Err(e),
        };
        assert(cursor@ == start.skip(8));
        let unknown = UnsizedInstruction::new();
        let instruction = match id_map.get(&instruction_id) {
            Some(instruction) => instruction,
            None => &unknown,
        };
        let instruction_name = if instruction.name.as_str().is_empty() {
            None
        } else {
            Some(instruction.name.clone())
        };
        let types = instruction.args_with_known_size(instruction_size as usize);
        match self.parse_arguments(&types, cursor) {
            Ok((args, rest)) => Ok(
                (
                    InstructionValue {
                        id: instruction_id,
                        name: instruction_name,
                        args,
                        code_block: instruction.code_block,
                    },
                    rest,
                ),
            ),
            Err(e) => Err(e),
        }
    }

    /// Decodes instructions off `input` until nothing is left of it.
    #[verifier::loop_isolation(false)]
    pub fn parse_script(&self, input: ByteCursor) -> (r: Result<
        Vec<InstructionValue>,
        BBScriptError,
    >)
        ensures
            match self.decode_script(input@) {
                Ok(program) => r is Ok && program_view(r->Ok_0@) == program,
                Err(e) => r is Err && r->Err_0@ == e,
            },
    {
        let ghost start = input@;
        let mut cursor = input;
        let mut program: Vec<InstructionValue> = Vec::new();
        assert(program_view(program@) + self.decode_script(start)->Ok_0 == self.decode_script(
            start,
        )->Ok_0);
        match &self.instructions {
            InstructionInfo::Sized(id_map) => {
                while cursor.remaining() != 0
                    invariant
                        self.decode_script(start) == followed_by(
                            program_view(program@),
                            self.decode_script(cursor@),
                        ),
                    decreases cursor@.len(),
                {
                    let ghost done = program_view(program@);
                    match self.parse_sized(id_map, cursor) {
                        Ok((instruction, rest)) => {
                            proof {
                                lemma_followed_by_step(done, instruction@, self.decode_script(rest@));
                            }
                            program.push(instruction);
                            cursor = rest;
                            assert(program_view(program@) == done.push(instruction@));
                        },
                        Err(e) => {
                            return Err(e);
                        },
                    }
                }
            },
            InstructionInfo::Unsized(id_map) => {
                while cursor.remaining() != 0
                    invariant
                        self.decode_script(start) == followed_by(
                            program_view(program@),
                            self.decode_script(cursor@),
                        ),
                    decreases cursor@.len(),
                {
                    let ghost done = program_view(program@);
                    match self.parse_unsized(id_map, cursor) {
                        Ok((instruction, rest)) => {
                            proof {
                                lemma_followed_by_step(done, instruction@, self.decode_script(rest@));
                            }
                            program.push(instruction);
                            cursor = rest;
                            assert(program_view(program@) == done.push(instruction@));
                        },
                        Err(e) => {
                            return Err(e);
                        },
                    }
                }
            },
        }
        assert(program_view(program@) + Seq::<InstructionModel>::empty() == program_view(
            program@,
        ));
        Ok(program)
    }

    /// Decodes the script `input`.
    pub fn parse(&self, input: Bytes) -> (r: Result<Vec<InstructionValue>, BBScriptError>)
        ensures
            self.decodes_to(bytes_contents(input), r),
    {
        self.parse_cursor(ByteCursor::new(input))
    }

    /// Decodes the script that `input` has yet to hand out.
    pub fn parse_cursor(&self, input: ByteCursor) -> (r: Result<
        Vec<InstructionValue>,
        BBScriptError,
    >)
        ensures
            self.decodes_to(input@, r),
    {
        let mut cursor = input;
        let ghost start = cursor@;
        let groups = self.jump_table_ids.len();
        let mut entries: u128 = 0;
        let mut i: usize = 0;
        assert(start.skip(0) == start);
        while i < groups
            invariant
                start == input@,
                i <= groups,
                groups == self.jump_table_ids@.len(),
                4 * i <= start.len(),
                cursor@ == start.skip(4 * i),
                entries == jump_entries(i as nat, start),
                entries <= i * 0xFFFF_FFFF,
            decreases groups - i,
        {
            match cursor.read_u32_le() {
                Ok(count) => {
                    entries = entries + count as u128;
                },
                Err(e) => {
                    return Err(e);
                },
            }
            i += 1;
        }
        assert(entries <= 0xFFFF_FFFF_FFFF_FFFF * 0xFFFF_FFFF);
        let jump_table_size: u128 = JUMP_ENTRY_LENGTH as u128 * entries;
        if jump_table_size >= cursor.remaining() as u128 {
            let mut size = String::new();
            push_decimal(&mut size, jump_table_size);
            return Err(BBScriptError::IncorrectJumpTableSize(size));
        }
        match cursor.skip(jump_table_size as usize) {
            Ok(()) => {},
            Err(e) => {
                return Err(e);
            },
        }
        assert(cursor@ == start.skip((4 * groups + jump_table_size) as int)) by {
            assert(start.skip(4 * groups).skip(jump_table_size as int) == start.skip(
                (4 * groups + jump_table_size) as int,
            ));
        }
        self.parse_script(cursor)
    }
}

/// Arguments are decoded one after the other: no types take no bytes, and
/// one more type behind the others is one more argument off what the others
/// leave of the input.
pub proof fn lemma_decode_arguments_in_order(
    config: ScriptConfig,
    types: Seq<ArgType>,
    last: ArgType,
    input: Seq<u8>,
)
    ensures
        config.decode_arguments(Seq::empty(), input) == Some((Seq::<ArgModel>::empty(), input)),
        config.decode_arguments(types.push(last), input) == match config.decode_arguments(
            types,
            input,
        ) {
            None => None,
            Some((values, rest)) => match config.decode_argument(last, rest) {
                None => None,
                Some((value, rest)) => Some((values.push(value), rest)),
            },
        },
{
    let all = types.push(last);
    assert(all.take(types.len() as int) == types);
    if input.len() >= total_size(all) {
        let (values, rest) = config.decode_arguments(types, input)->Some_0;
        let value = config.decode_argument(last, rest)->Some_0.0;
        let decoded = config.decode_arguments(all, input)->Some_0.0;
        assert forall|i: int| 0 <= i < all.len() implies decoded[i] == values.push(value)[i] by {
            if i < types.len() {
                assert(all.take(i) == types.take(i));
            }
        }
    }
}

/// The value of an argument depends on the bytes of the argument alone, not
/// on what follows them.
pub proof fn lemma_argument_value_prefix(
    config: ScriptConfig,
    ty: ArgType,
    bytes: Seq<u8>,
    more: Seq<u8>,
)
    requires
        bytes.len() >= ty.byte_size(),
    ensures
        config.argument_value(ty, bytes + more) == config.argument_value(ty, bytes),
{
    let all = bytes + more;
    match ty {
        ArgType::Unknown(n) => {
            assert(all.take(n as int) == bytes.take(n as int));
        },
        ArgType::String16 => {
            assert(all.take(STRING16_SIZE as int) == bytes.take(STRING16_SIZE as int));
        },
        ArgType::String32 => {
            assert(all.take(STRING32_SIZE as int) == bytes.take(STRING32_SIZE as int));
        },
        ArgType::Number => {},
        ArgType::Enum(_) => {},
        ArgType::AccessedValue => {
            assert(all.skip(4) == bytes.skip(4) + more);
        },
    }
}

/// Arguments that decode from some bytes decode to the same values from
/// those bytes with more behind them, and leave the more behind them.
pub proof fn lemma_decode_arguments_prefix(
    config: ScriptConfig,
    types: Seq<ArgType>,
    bytes: Seq<u8>,
    more: Seq<u8>,
)
    requires
        config.decode_arguments(types, bytes) is Some,
    ensures
        config.decode_arguments(types, bytes + more) == Some(
            (
                config.decode_arguments(types, bytes)->Some_0.0,
                config.decode_arguments(types, bytes)->Some_0.1 + more,
            ),
        ),
{
    let all = bytes + more;
    let (values, rest) = config.decode_arguments(types, bytes)->Some_0;
    let (longer, behind) = config.decode_arguments(types, all)->Some_0;
    assert(behind == rest + more);
    assert forall|i: int| 0 <= i < types.len() implies longer[i] == values[i] by {
        let offset = total_size(types.take(i)) as int;
        lemma_total_size_step(types, i);
        lemma_total_size_prefix(types, i + 1);
        assert(all.skip(offset) == bytes.skip(offset) + more);
        lemma_argument_value_prefix(config, types[i], bytes.skip(offset), more);
    }
    assert(longer == values);
}

/// An instruction that decodes from some bytes decodes to the same
/// instruction from those bytes with more behind them, and leaves the more
/// behind it.
pub proof fn lemma_decode_instruction_prefix(config: ScriptConfig, bytes: Seq<u8>, more: Seq<u8>)
    requires
        config.decode_instruction(bytes) is Ok,
    ensures
        config.decode_instruction(bytes + more) == Ok::<(InstructionModel, Seq<u8>), ErrorModel>(
            (
                config.decode_instruction(bytes)->Ok_0.0,
                config.decode_instruction(bytes)->Ok_0.1 + more,
            ),
        ),
{
    let all = bytes + more;
    match config.instructions {
        InstructionInfo::Sized(id_map) => {
            assert(all.skip(4) == bytes.skip(4) + more);
            lemma_decode_arguments_prefix(
                config,
                id_map@[le_u32(bytes)].args@,
                bytes.skip(4),
                more,
            );
        },
        InstructionInfo::Unsized(id_map) => {
            let id = le_u32(bytes);
            let size = le_u32(bytes.skip(4)) as usize;
            let types = if id_map@.contains_key(id) {
                id_map@[id].sized_args(size)
            } else {
                UnsizedInstruction::args_for_size(Seq::empty(), size)
            };
            assert(all.skip(8) == bytes.skip(8) + more);
            assert(le_u32(all.skip(4)) == le_u32(bytes.skip(4)));
            lemma_decode_arguments_prefix(config, types, bytes.skip(8), more);
        },
    }
}

/// Two scripts, one behind the other, decode to the instructions of the
/// first and then those of the second: a script holds one record for each
/// instruction that is in it, in the order of the bytes.
pub proof fn lemma_decode_script_concat(config: ScriptConfig, first: Seq<u8>, second: Seq<u8>)
    requires
        config.decode_script(first) is Ok,
    ensures
        config.decode_script(first + second) == followed_by(
            config.decode_script(first)->Ok_0,
            config.decode_script(second),
        ),
    decreases first.len(),
{
    if first.len() == 0 {
        assert(first + second == second);
        if let Ok(others) = config.decode_script(second) {
            assert(Seq::<InstructionModel>::empty() + others == others);
        }
    } else {
        let (instruction, rest) = config.decode_instruction(first)->Ok_0;
        lemma_decode_instruction_prefix(config, first, second);
        lemma_decode_script_concat(config, rest, second);
        lemma_followed_by_step(
            Seq::empty(),
            instruction,
            followed_by(config.decode_script(rest)->Ok_0, config.decode_script(second)),
        );
        if let Ok(others) = config.decode_script(second) {
            let done = config.decode_script(rest)->Ok_0;
            assert(seq![instruction] + (done + others) == (seq![instruction] + done) + others);
        }
    }
}

/// The number of bytes that an instruction of the fixed layout takes up: its
/// ID and the arguments that `id_map` declares for it.
pub open spec fn sized_length(
    id_map: Map<u32, SizedInstruction>,
    instruction: InstructionModel,
) -> nat {
    4 + total_size(id_map[instruction.id].args@)
}

/// The number of bytes that instructions of the fixed layout take up
/// together.
pub open spec fn sized_script_length(
    id_map: Map<u32, SizedInstruction>,
    program: Seq<InstructionModel>,
) -> nat
    decreases program.len(),
{
    if program.len() == 0 {
        0
    } else {
        sized_length(id_map, program[0]) + sized_script_length(id_map, program.skip(1))
    }
}

/// A fixed-layout script holds as many instructions as fill it: where it
/// decodes, the instructions are all known to the configuration and take up
/// the input from its first byte to its last, with nothing left over.
pub proof fn lemma_sized_script_fills_input(config: ScriptConfig, input: Seq<u8>)
    requires
        config.instructions is Sized,
        config.decode_script(input) is Ok,
    ensures
        sized_script_length(config.instructions->Sized_0@, config.decode_script(input)->Ok_0)
            == input.len(),
        forall|i: int|
            0 <= i < config.decode_script(input)->Ok_0.len()
                ==> config.instructions->Sized_0@.contains_key(
                (#[trigger] config.decode_script(input)->Ok_0[i]).id,
            ),
    decreases input.len(),
{
    if input.len() > 0 {
        let id_map = config.instructions->Sized_0@;
        let (first, rest) = config.decode_instruction(input)->Ok_0;
        lemma_sized_script_fills_input(config, rest);
        let others = config.decode_script(rest)->Ok_0;
        let program = seq![first] + others;
        assert(program.skip(1) == others);
        assert forall|i: int| 0 <= i < program.len() implies id_map.contains_key(
            (#[trigger] program[i]).id,
        ) by {
            if i > 0 {
                assert(program[i] == others[i - 1]);
            }
        }
    }
}

impl ScriptConfig {
    /// Whether `outcome` is what decoding `input` must give: the instructions
    /// that `input` decodes to, or the error that it runs into.
    pub open spec fn decodes_to(
        self,
        input: Seq<u8>,
        outcome: Result<Vec<InstructionValue>, BBScriptError>,
    ) -> bool {
        match self.decode(input) {
            Ok(program) => outcome is Ok && program_view(outcome->Ok_0@) == program,
            Err(e) => outcome is Err && outcome->Err_0@ == e,
        }
    }
}

/// Decoding has no hidden state: whatever two runs over the same bytes give,
/// they give the same instructions or the same error.
pub proof fn lemma_decoding_is_repeatable(
    config: ScriptConfig,
    input: Seq<u8>,
    first: Result<Vec<InstructionValue>, BBScriptError>,
    second: Result<Vec<InstructionValue>, BBScriptError>,
)
    requires
        config.decodes_to(input, first),
        config.decodes_to(input, second),
    ensures
        first is Ok <==> second is Ok,
        first is Ok ==> program_view(first->Ok_0@) == program_view(second->Ok_0@),
        first is Err ==> first->Err_0@ == second->Err_0@,
{
}

/// A jump table that takes up all that is left of the input, or more, is an
/// error whatever the instructions are: no other part of the configuration
/// and no byte behind the counts is looked at.
pub proof fn lemma_jump_table_too_large(config: ScriptConfig, other: ScriptConfig, input: Seq<u8>)
    requires
        other.jump_table_ids@.len() == config.jump_table_ids@.len(),
        input.len() >= 4 * config.jump_table_ids@.len(),
        JUMP_ENTRY_LENGTH * jump_entries(config.jump_table_ids@.len(), input) >= input.len() - 4
            * config.jump_table_ids@.len(),
    ensures
        config.decode(input) == Err::<Seq<InstructionModel>, ErrorModel>(
            ErrorModel::IncorrectJumpTableSize(
                decimal_nat(
                    JUMP_ENTRY_LENGTH as nat * jump_entries(config.jump_table_ids@.len(), input),
                ),
            ),
        ),
        other.decode(input) == config.decode(input),
{
}

/// An accessed value decodes whatever its tag is: to a literal under the
/// literal tag, to a variable under the variable tag, where that is another
/// tag, and to an improper value, which keeps the tag, under any other.
pub proof fn lemma_accessed_value(config: ScriptConfig, input: Seq<u8>)
    requires
        input.len() >= 8,
    ensures
        ({
            let tag = le_i32(input);
            let value = le_i32(input.skip(4));
            let decoded = config.decode_argument(ArgType::AccessedValue, input);
            &&& decoded is Some
            &&& decoded->Some_0.1 == input.skip(8)
            &&& tag == config.literal_tag ==> decoded->Some_0.0 == ArgModel::AccessedValue(
                TaggedValue::Literal(value),
            )
            &&& tag == config.variable_tag && tag != config.literal_tag ==> decoded->Some_0.0
                == ArgModel::AccessedValue(TaggedValue::Variable(value))
            &&& tag != config.variable_tag && tag != config.literal_tag ==> decoded->Some_0.0
                == ArgModel::AccessedValue(TaggedValue::Improper { tag, value })
        }),
{
}

/// The instructions `done` and then what `rest` gives, where it gives any.
pub open spec fn followed_by(
    done: Seq<InstructionModel>,
    rest: Result<Seq<InstructionModel>, ErrorModel>,
) -> Result<
    Seq<InstructionModel>,
    ErrorModel,
> {
    match rest {
        Ok(others) => Ok(done + others),
        Err(e) => Err(e),
    }
}

proof fn lemma_followed_by_step(
    done: Seq<InstructionModel>,
    first: InstructionModel,
    rest: Result<Seq<InstructionModel>, ErrorModel>,
)
    ensures
        followed_by(done, followed_by(seq![first], rest)) == followed_by(done.push(first), rest),
{
    if let Ok(others) = rest {
        assert(done + (seq![first] + others) == done.push(first) + others);
    }
}

} // verus!
