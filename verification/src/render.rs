//! Rendering instructions as indented text.
//!
//! Every instruction becomes one line: its name, a colon and its arguments.
//! Instructions that open a block end their line with ` {`; instructions that
//! close one start it with `} `. Lines are indented with tabs, one for each
//! block that is open around them.
//!
//! [`ScriptConfig::program_text`] says what the text of a list of
//! instructions is, and [`ScriptConfig::render`] computes it.

use crate::cursor::bytes_contents;
use crate::error::{BBScriptError, ErrorModel};
use crate::game_config::{CodeBlock, ScriptConfig, TaggedValue};
use crate::parser::{
    args_view, program_view, ArgModel, ArgValue, InstructionModel, InstructionValue,
};
use crate::text::{
    decimal, decimal_nat, push_decimal, push_hex, push_number, push_tabs, tabs, upper_hex,
};
use bytes::Bytes;
use vstd::prelude::*;
use vstd::string::StringExecFns;

verus! {

/// The two counters of the renderer, as numbers without bound.
pub struct IndentModel {
    /// The depth of the lines behind the current one.
    pub indent: nat,
    /// The depth of the current line.
    pub prev_indent: nat,
}

impl IndentModel {
    /// The counters before the first line.
    pub open spec fn start() -> IndentModel {
        IndentModel { indent: 0, prev_indent: 0 }
    }

    /// What `indent` becomes when an instruction of this role is met: a
    /// top-level block starts at depth 1 and ends at depth 0, a nested block
    /// adds one level and its end takes one away, as far as there is one.
    pub open spec fn target(self, code_block: CodeBlock) -> nat {
        match code_block {
            CodeBlock::BeginTop => 1,
            CodeBlock::Begin => self.indent + 1,
            CodeBlock::EndTop => 0,
            CodeBlock::End => if self.indent > 0 {
                (self.indent - 1) as nat
            } else {
                0
            },
            CodeBlock::NoBlock => self.indent,
        }
    }

    /// Whether the instruction closes a block.
    pub open spec fn closes(code_block: CodeBlock) -> bool {
        code_block == CodeBlock::EndTop || code_block == CodeBlock::End
    }

    /// Whether stepping back for a closing line is undone: the end of a
    /// nested block may not bring the line to depth 0, only the end of a
    /// top-level block may.
    pub open spec fn steps_back_up(self, code_block: CodeBlock) -> bool {
        code_block == CodeBlock::End && self.prev_indent == 1
    }

    /// The depth of the line of an instruction of this role: a closing line
    /// stands one level further out than the lines before it.
    pub open spec fn line_depth(self, code_block: CodeBlock) -> nat {
        if Self::closes(code_block) && self.prev_indent > 0 && !self.steps_back_up(code_block) {
            (self.prev_indent - 1) as nat
        } else {
            self.prev_indent
        }
    }

    /// The counters behind the line of an instruction of this role.
    pub open spec fn step(self, code_block: CodeBlock) -> IndentModel {
        let indent = if self.steps_back_up(code_block) {
            self.target(code_block) + 1
        } else {
            self.target(code_block)
        };
        IndentModel { indent, prev_indent: indent }
    }
}

/// Between two lines the counters agree, and no line takes the depth up by
/// more than one level.
pub proof fn lemma_counters_agree(state: IndentModel, code_block: CodeBlock)
    ensures
        state.step(code_block).prev_indent == state.step(code_block).indent,
        state.step(code_block).indent <= state.indent + 1,
{
}

/// What a line does where the counters agree at `depth`, as they do between
/// lines. A line that opens a block stands at `depth` and puts what follows
/// one level deeper, or at depth 1 for a top-level block. The end of a
/// top-level block stands one level out, if there is one, and puts what
/// follows at depth 0. The end of a nested block stands one level out and
/// leaves what follows there, but never goes from depth 1 to depth 0. Any other
/// line stands at `depth` and leaves it as it is.
pub proof fn lemma_depth_between_lines(depth: nat, code_block: CodeBlock)
    ensures
        ({
            let state = IndentModel { indent: depth, prev_indent: depth };
            let out = if depth > 0 {
                (depth - 1) as nat
            } else {
                0
            };
            let held = if depth > 1 {
                (depth - 1) as nat
            } else {
                depth
            };
            match code_block {
                CodeBlock::NoBlock => state.line_depth(code_block) == depth && state.step(
                    code_block,
                ).indent == depth,
                CodeBlock::BeginTop => state.line_depth(code_block) == depth && state.step(
                    code_block,
                ).indent == 1,
                CodeBlock::Begin => state.line_depth(code_block) == depth && state.step(
                    code_block,
                ).indent == depth + 1,
                CodeBlock::EndTop => state.line_depth(code_block) == out && state.step(
                    code_block,
                ).indent == 0,
                CodeBlock::End => state.line_depth(code_block) == held && state.step(
                    code_block,
                ).indent == held,
            }
        }),
{
}

/// The two counters of the renderer.
#[derive(Debug, Clone, Copy, PartialEq, Eq, Structural)]
pub struct Indenter {
    /// The depth of the lines behind the current one.
    pub indent: usize,
    /// The depth of the current line.
    pub prev_indent: usize,
}

impl View for Indenter {
    type V = IndentModel;

    open spec fn view(&self) -> IndentModel {
        IndentModel { indent: self.indent as nat, prev_indent: self.prev_indent as nat }
    }
}

impl Indenter {
    /// The counters before the first line.
    pub fn new() -> (indenter: Indenter)
        ensures
            indenter@ == IndentModel::start(),
    {
        Indenter { indent: 0, prev_indent: 0 }
    }

    /// Takes the counters past the line of an instruction of this role and
    /// returns the depth of that line.
    pub fn advance(&mut self, code_block: CodeBlock) -> (depth: usize)
        requires
            old(self).indent < usize::MAX,
        ensures
            depth == old(self)@.line_depth(code_block),
            final(self)@ == old(self)@.step(code_block),
    {
        let closes = match code_block {
            CodeBlock::BeginTop => {
                self.indent = 1;
                false
            },
            CodeBlock::Begin => {
                self.indent += 1;
                false
            },
            CodeBlock::EndTop => {
                self.indent = 0;
                true
            },
            CodeBlock::End => {
                if self.indent > 0 {
                    self.indent -= 1;
                }
                true
            },
            CodeBlock::NoBlock => false,
        };
        if closes && self.prev_indent > 0 {
            self.prev_indent -= 1;
            if self.prev_indent == 0 && code_block != CodeBlock::EndTop {
                self.prev_indent += 1;
                self.indent += 1;
            }
        }
        let depth = self.prev_indent;
        self.prev_indent = self.indent;
        depth
    }
}

/// What a closing line starts with.
pub open spec fn closing_mark(code_block: CodeBlock) -> Seq<char> {
    if IndentModel::closes(code_block) {
        "} "@
    } else {
        Seq::empty()
    }
}

/// What the line of an instruction of this role ends with: an opening brace
/// where it opens a block, an empty line behind it where it closes a
/// top-level block.
pub open spec fn line_end(code_block: CodeBlock) -> Seq<char> {
    match code_block {
        CodeBlock::BeginTop => " {\n"@,
        CodeBlock::Begin => " {\n"@,
        CodeBlock::EndTop => "\n\n"@,
        CodeBlock::End => "\n"@,
        CodeBlock::NoBlock => "\n"@,
    }
}

/// The name that an instruction is shown under: its own, or `unknown` and its
/// ID.
pub open spec fn name_text(instruction: InstructionModel) -> Seq<char> {
    match instruction.name {
        Some(name) => name,
        None => "unknown"@ + decimal_nat(instruction.id as nat),
    }
}

/// `first` and then `rest`, where both are there.
pub open spec fn text_then(first: Seq<char>, rest: Result<Seq<char>, ErrorModel>) -> Result<
    Seq<char>,
    ErrorModel,
> {
    match rest {
        Ok(rest) => Ok(first + rest),
        Err(e) => Err(e),
    }
}

impl ScriptConfig {
    /// The text of one argument.
    ///
    /// A variable is shown by its name where it has one and by its number
    /// where it has none. A member of an enum group is shown by its name in
    /// brackets where it has one and by its bare number where it has none; a
    /// group that the configuration lacks is an error.
    pub open spec fn arg_text(self, arg: ArgModel) -> Result<Seq<char>, ErrorModel> {
        match arg {
            ArgModel::Unknown(data) => Ok("0x"@ + upper_hex(data)),
            ArgModel::Number(number) => Ok(decimal(number as int)),
            ArgModel::String16(text) => Ok("s16("@ + text + ")"@),
            ArgModel::String32(text) => Ok("s32("@ + text + ")"@),
            ArgModel::AccessedValue(TaggedValue::Improper { tag, value }) => Ok(
                "BadTag("@ + decimal(tag as int) + ", "@ + decimal(value as int) + ")"@,
            ),
            ArgModel::AccessedValue(TaggedValue::Variable(id)) => Ok(
                "var("@ + (if self.named_variables@.contains_key(id) {
                    self.named_variables@[id]
                } else {
                    decimal(id as int)
                }) + ")"@,
            ),
            ArgModel::AccessedValue(TaggedValue::Literal(value)) => Ok(
                "int("@ + decimal(value as int) + ")"@,
            ),
            ArgModel::Enum(group, number) => if !self.named_value_maps@.contains_key(group) {
                Err(ErrorModel::BadEnumReference(group))
            } else if self.named_value_maps@[group].contains_key(number) {
                Ok("("@ + self.named_value_maps@[group][number] + ")"@)
            } else {
                Ok(decimal(number as int))
            },
        }
    }

    /// The texts of the arguments, with `, ` between them; the error of the
    /// first argument that has one.
    pub open spec fn args_text(self, args: Seq<ArgModel>) -> Result<Seq<char>, ErrorModel>
        decreases args.len(),
    {
        if args.len() == 0 {
            Ok(Seq::empty())
        } else {
            match self.args_text(args.drop_last()) {
                Err(e) => Err(e),
                Ok(before) => match self.arg_text(args.last()) {
                    Err(e) => Err(e),
                    Ok(last) => if args.len() == 1 {
                        Ok(last)
                    } else {
                        Ok(before + ", "@ + last)
                    },
                },
            }
        }
    }

    /// The line of one instruction at the given depth.
    pub open spec fn line_text(self, depth: nat, instruction: InstructionModel) -> Result<
        Seq<char>,
        ErrorModel,
    > {
        match self.args_text(instruction.args) {
            Err(e) => Err(e),
            Ok(args) => Ok(
                tabs(depth) + closing_mark(instruction.code_block) + name_text(instruction) + ": "@
                    + args + line_end(instruction.code_block),
            ),
        }
    }

    /// The lines of `program`, rendered with the counters at `state`; the
    /// error of the first line that has one.
    pub open spec fn lines_text(self, state: IndentModel, program: Seq<InstructionModel>) -> Result<
        Seq<char>,
        ErrorModel,
    >
        decreases program.len(),
    {
        if program.len() == 0 {
            Ok(Seq::empty())
        } else {
            match self.line_text(state.line_depth(program[0].code_block), program[0]) {
                Err(e) => Err(e),
                Ok(line) => text_then(
                    line,
                    self.lines_text(state.step(program[0].code_block), program.skip(1)),
                ),
            }
        }
    }

    /// The text of `program`.
    pub open spec fn program_text(self, program: Seq<InstructionModel>) -> Result<
        Seq<char>,
        ErrorModel,
    > {
        self.lines_text(IndentModel::start(), program)
    }

    /// The text of a script: of the instructions that `input` decodes to.
    pub open spec fn script_text(self, input: Seq<u8>) -> Result<Seq<char>, ErrorModel> {
        match self.decode(input) {
            Err(e) => Err(e),
            Ok(program) => self.program_text(program),
        }
    }
}

/// How a member of an enum group is shown: a group that the configuration
/// lacks is an error that names the group; a number without a name in its
/// group is shown bare; a number with a name is shown as the name in brackets.
pub proof fn lemma_enum_resolution(config: ScriptConfig, group: Seq<char>, number: i32)
    ensures
        !config.named_value_maps@.contains_key(group) ==> config.arg_text(
            ArgModel::Enum(group, number),
        ) == Err::<Seq<char>, ErrorModel>(ErrorModel::BadEnumReference(group)),
        config.named_value_maps@.contains_key(group)
            && !config.named_value_maps@[group].contains_key(number) ==> config.arg_text(
            ArgModel::Enum(group, number),
        ) == Ok::<Seq<char>, ErrorModel>(decimal(number as int)),
        config.named_value_maps@.contains_key(group) && config.named_value_maps@[group].contains_key(
            number,
        ) ==> config.arg_text(ArgModel::Enum(group, number)) == Ok::<Seq<char>, ErrorModel>(
            "("@ + config.named_value_maps@[group][number] + ")"@,
        ),
{
}

impl ScriptConfig {
    /// Whether `arg` can be rendered: every argument can, but a member of an
    /// enum group that the configuration lacks.
    pub open spec fn can_render(self, arg: ArgModel) -> bool {
        arg matches ArgModel::Enum(group, _) ==> self.named_value_maps@.contains_key(group)
    }
}

/// The one way for an argument not to render: it names an enum group that the
/// configuration lacks, and the error names that group.
pub proof fn lemma_arg_text_fails_on_missing_group(config: ScriptConfig, arg: ArgModel)
    ensures
        config.arg_text(arg) is Ok <==> config.can_render(arg),
        config.arg_text(arg) matches Err(e) ==> arg matches ArgModel::Enum(group, _) && e
            == ErrorModel::BadEnumReference(group),
{
}

/// A list of arguments renders exactly where each of them does.
pub proof fn lemma_args_text_succeeds(config: ScriptConfig, args: Seq<ArgModel>)
    ensures
        config.args_text(args) is Ok <==> forall|i: int|
            0 <= i < args.len() ==> config.can_render(#[trigger] args[i]),
    decreases args.len(),
{
    if args.len() > 0 {
        let before = args.drop_last();
        lemma_args_text_succeeds(config, before);
        lemma_arg_text_fails_on_missing_group(config, args.last());
        if config.args_text(args) is Ok {
            assert forall|i: int| 0 <= i < args.len() implies config.can_render(
                #[trigger] args[i],
            ) by {
                if i < before.len() {
                    assert(before[i] == args[i]);
                }
            }
        }
        if forall|i: int| 0 <= i < args.len() ==> config.can_render(#[trigger] args[i]) {
            assert forall|i: int| 0 <= i < before.len() implies config.can_render(
                #[trigger] before[i],
            ) by {
                assert(before[i] == args[i]);
            }
        }
    }
}

/// Rendering succeeds exactly where every argument of every instruction can
/// be rendered, whatever the block structure is.
pub proof fn lemma_lines_text_succeeds(
    config: ScriptConfig,
    state: IndentModel,
    program: Seq<InstructionModel>,
)
    ensures
        config.lines_text(state, program) is Ok <==> forall|i: int, j: int|
            0 <= i < program.len() && 0 <= j < program[i].args.len() ==> config.can_render(
                #[trigger] program[i].args[j],
            ),
    decreases program.len(),
{
    if program.len() > 0 {
        let rest = program.skip(1);
        lemma_lines_text_succeeds(config, state.step(program[0].code_block), rest);
        lemma_args_text_succeeds(config, program[0].args);
        if config.lines_text(state, program) is Ok {
            assert forall|i: int, j: int|
                0 <= i < program.len() && 0 <= j < program[i].args.len() implies config.can_render(
                #[trigger] program[i].args[j],
            ) by {
                if i > 0 {
                    assert(config.can_render(rest[i - 1].args[j]));
                }
            }
        }
        if forall|i: int, j: int|
            0 <= i < program.len() && 0 <= j < program[i].args.len() ==> config.can_render(
                #[trigger] program[i].args[j],
            ) {
            assert forall|i: int, j: int|
                0 <= i < rest.len() && 0 <= j < rest[i].args.len() implies config.can_render(
                #[trigger] rest[i].args[j],
            ) by {
                assert(rest[i] == program[i + 1]);
            }
        }
    }
}

/// Renders one argument.
pub fn arg_to_string(config: &ScriptConfig, arg: &ArgValue) -> (r: Result<String, BBScriptError>)
    ensures
        match config.arg_text(arg@) {
            Ok(text) => r is Ok && r->Ok_0@ == text,
            Err(e) => r is Err && r->Err_0@ == e,
        },
{
    let mut out = String::new();
    match arg {
        ArgValue::Unknown(data) => {
            out.append("0x");
            push_hex(&mut out, data.as_slice());
        },
        ArgValue::Number(number) => {
            push_number(&mut out, *number);
        },
        ArgValue::String16(text) => {
            out.append("s16(");
            out.append(text.as_str());
            out.append(")");
        },
        ArgValue::String32(text) => {
            out.append("s32(");
            out.append(text.as_str());
            out.append(")");
        },
        ArgValue::AccessedValue(TaggedValue::Improper { tag, value }) => {
            out.append("BadTag(");
            push_number(&mut out, *tag);
            out.append(", ");
            push_number(&mut out, *value);
            out.append(")");
        },
        ArgValue::AccessedValue(TaggedValue::Variable(id)) => {
            out.append("var(");
            match config.named_variables.get_by_left(*id) {
                Some(name) => out.append(name.as_str()),
                None => push_number(&mut out, *id),
            }
            out.append(")");
        },
        ArgValue::AccessedValue(TaggedValue::Literal(value)) => {
            out.append("int(");
            push_number(&mut out, *value);
            out.append(")");
        },
        ArgValue::Enum(group, number) => match config.named_value_maps.get(group) {
            Some(names) => match names.get_by_left(*number) {
                Some(name) => {
                    out.append("(");
                    out.append(name.as_str());
                    out.append(")");
                },
                None => {
                    push_number(&mut out, *number);
                },
            },
            None => {
                return Err(BBScriptError::BadEnumReference(group.clone()));
            },
        },
    }
    Ok(out)
}

impl ScriptConfig {
    /// Renders the arguments of one instruction.
    pub fn args_to_string(&self, args: &[ArgValue]) -> (r: Result<String, BBScriptError>)
        ensures
            match self.args_text(args_view(args@)) {
                Ok(text) => r is Ok && r->Ok_0@ == text,
                Err(e) => r is Err && r->Err_0@ == e,
            },
    {
        let ghost all = args_view(args@);
        let mut out = String::new();
        let mut i: usize = 0;
        while i < args.len()
            invariant
                all == args_view(args@),
                i <= args@.len(),
                self.args_text(all.take(i as int)) == Ok::<Seq<char>, ErrorModel>(out@),
            decreases args@.len() - i,
        {
            assert(all.take(i + 1).drop_last() == all.take(i as int));
            let text = match arg_to_string(self, &args[i]) {
                Ok(text) => text,
                Err(e) => {
                    proof {
                        lemma_args_text_error(self, all, i + 1);
                    }
                    return Err(e);
                },
            };
            if i > 0 {
                out.append(", ");
            }
            out.append(text.as_str());
            i += 1;
        }
        assert(all.take(i as int) == all);
        Ok(out)
    }

    /// Renders the line of one instruction at the given depth.
    pub fn line_to_string(&self, depth: usize, instruction: &InstructionValue) -> (r: Result<
        String,
        BBScriptError,
    >)
        ensures
            match self.line_text(depth as nat, instruction@) {
                Ok(text) => r is Ok && r->Ok_0@ == text,
                Err(e) => r is Err && r->Err_0@ == e,
            },
    {
        let args = match self.args_to_string(instruction.args.as_slice()) {
            Ok(args) => args,
            Err(e) => return Err(e),
        };
        let mut out = String::new();
        push_tabs(&mut out, depth);
        match instruction.code_block {
            CodeBlock::EndTop => out.append("} "),
            CodeBlock::End => out.append("} "),
            _ => {},
        }
        match &instruction.name {
            Some(name) => out.append(name.as_str()),
            None => {
                out.append("unknown");
                push_decimal(&mut out, instruction.id as u128);
            },
        }
        out.append(": ");
        out.append(args.as_str());
        match instruction.code_block {
            CodeBlock::BeginTop => out.append(" {\n"),
            CodeBlock::Begin => out.append(" {\n"),
            CodeBlock::EndTop => out.append("\n\n"),
            _ => out.append("\n"),
        }
        Ok(out)
    }

    /// Renders a list of instructions.
    pub fn render(&self, program: &Vec<InstructionValue>) -> (r: Result<String, BBScriptError>)
        ensures
            match self.program_text(program_view(program@)) {
                Ok(text) => r is Ok && r->Ok_0@ == text,
                Err(e) => r is Err && r->Err_0@ == e,
            },
    {
        let ghost all = program_view(program@);
        let mut out = String::new();
        let mut indenter = Indenter::new();
        let mut i: usize = 0;
        assert(all.skip(0) == all);
        while i < program.len()
            invariant
                all == program_view(program@),
                i <= program@.len(),
                indenter.indent <= i,
                self.program_text(all) == text_then(
                    out@,
                    self.lines_text(indenter@, all.skip(i as int)),
                ),
            decreases program@.len() - i,
        {
            let instruction = &program[i];
            let ghost written = out@;
            assert(all.skip(i as int).skip(1) == all.skip(i + 1));
            let depth = indenter.advance(instruction.code_block);
            let line = match self.line_to_string(depth, instruction) {
                Ok(line) => line,
                Err(e) => return Err(e),
            };
            out.append(line.as_str());
            proof {
                lemma_text_then_step(
                    written,
                    line@,
                    self.lines_text(indenter@, all.skip(i + 1)),
                );
            }
            i += 1;
        }
        Ok(out)
    }

    /// Decodes the script `input` and renders its instructions.
    pub fn parse_to_string(&self, input: Bytes) -> (r: Result<String, BBScriptError>)
        ensures
            match self.script_text(bytes_contents(input)) {
                Ok(text) => r is Ok && r->Ok_0@ == text,
                Err(e) => r is Err && r->Err_0@ == e,
            },
    {
        match self.parse(input) {
            Ok(program) => self.render(&program),
            Err(e) => Err(e),
        }
    }
}

/// An error among the first `n` arguments is the error of all of them.
proof fn lemma_args_text_error(config: &ScriptConfig, args: Seq<ArgModel>, n: int)
    requires
        0 <= n <= args.len(),
        config.args_text(args.take(n)) is Err,
    ensures
        config.args_text(args) == config.args_text(args.take(n)),
    decreases args.len() - n,
{
    if n < args.len() {
        assert(args.take(n + 1).drop_last() == args.take(n));
        lemma_args_text_error(config, args, n + 1);
    } else {
        assert(args.take(n) == args);
    }
}

proof fn lemma_text_then_step(
    written: Seq<char>,
    line: Seq<char>,
    rest: Result<Seq<char>, ErrorModel>,
)
    ensures
        text_then(written, text_then(line, rest)) == text_then(written + line, rest),
{
    if let Ok(rest) = rest {
        assert(written + (line + rest) == (written + line) + rest);
    }
}

} // verus!
