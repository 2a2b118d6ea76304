//! The configuration of one game: what its instructions look like and what
//! its numbers are called.
//!
//! Nothing here reads a file. A [`ScriptConfig`] is built by its user, from
//! whatever source, and handed to the decoder and the renderer, which only
//! read it.

use crate::assoc::{
    assoc_map, keys_distinct, lemma_assoc_dom, lemma_assoc_find, lemma_assoc_len, lemma_assoc_value,
    values_distinct,
};
use crate::error::{BBScriptError, ErrorModel};
use std::collections::HashMap;
use vstd::prelude::*;

verus! {

/// The number type of the scripts.
pub type BBSNumber = i32;

/// What an instruction does to the block structure of the rendered text.
#[derive(Debug, Clone, Copy, PartialEq, Eq, Structural)]
pub enum CodeBlock {
    /// Neither opens nor closes a block.
    NoBlock,
    /// Opens a top-level block.
    BeginTop,
    /// Opens a nested block.
    Begin,
    /// Closes a top-level block.
    EndTop,
    /// Closes a nested block.
    End,
}

/// A number that says of itself whether it is a constant or the ID of a
/// variable.
#[derive(Debug, Clone, Copy, PartialEq, Eq, Structural)]
pub enum TaggedValue {
    /// A constant.
    Literal(BBSNumber),
    /// The ID of a variable.
    Variable(BBSNumber),
    /// A value under a tag that is neither the literal nor the variable tag.
    Improper { tag: BBSNumber, value: BBSNumber },
}

/// How one argument of an instruction is laid out.
#[derive(Debug)]
pub enum ArgType {
    /// That many bytes of unknown meaning.
    Unknown(usize),
    /// Text in 16 bytes.
    String16,
    /// Text in 32 bytes.
    String32,
    /// A number.
    Number,
    /// A number that names a member of the enum group of this name.
    Enum(String),
    /// A tag and a number: see [`TaggedValue`].
    AccessedValue,
}

/// The width of an [`ArgType::String16`].
pub const STRING16_SIZE: usize = 16;

/// The width of an [`ArgType::String32`].
pub const STRING32_SIZE: usize = 32;

impl ArgType {
    /// The number of bytes that an argument of this type takes up.
    pub open spec fn byte_size(self) -> nat {
        match self {
            ArgType::Unknown(n) => n as nat,
            ArgType::String16 => STRING16_SIZE as nat,
            ArgType::String32 => STRING32_SIZE as nat,
            ArgType::Number => 4,
            ArgType::Enum(_) => 4,
            ArgType::AccessedValue => 8,
        }
    }
}

impl Clone for ArgType {
    fn clone(&self) -> (copy: ArgType)
        ensures
            copy == *self,
    {
        match self {
            ArgType::Unknown(n) => ArgType::Unknown(*n),
            ArgType::String16 => ArgType::String16,
            ArgType::String32 => ArgType::String32,
            ArgType::Number => ArgType::Number,
            ArgType::Enum(group) => ArgType::Enum(group.clone()),
            ArgType::AccessedValue => ArgType::AccessedValue,
        }
    }
}

/// An instruction of a fixed layout: its arguments are the same wherever it
/// occurs.
#[derive(Debug, Clone)]
pub struct SizedInstruction {
    /// The name to render; empty where the instruction has none.
    pub name: String,
    /// Its part in the block structure.
    pub code_block: CodeBlock,
    /// The layout of its arguments, in order.
    pub args: Vec<ArgType>,
}

impl SizedInstruction {
    /// The layout of the arguments, in order.
    pub fn args(&self) -> (types: &Vec<ArgType>)
        ensures
            types@ == self.args@,
    {
        &self.args
    }
}

/// An instruction of the size-prefixed layout: each occurrence says how many
/// bytes it takes up.
#[derive(Debug, Clone)]
pub struct UnsizedInstruction {
    /// The name to render; empty where the instruction has none.
    pub name: String,
    /// Its part in the block structure.
    pub code_block: CodeBlock,
    /// The layout of its arguments, in order; empty where it is not known.
    pub args: Vec<ArgType>,
}

/// The bytes of a size-prefixed instruction that precede its arguments: the
/// ID and the size, four bytes each.
pub const UNSIZED_HEADER_SIZE: usize = 8;

impl UnsizedInstruction {
    /// The argument list of an occurrence that says it is `size` bytes long,
    /// header included, of an instruction that declares the arguments
    /// `declared`.
    ///
    /// Declared arguments are taken as they are. Where none are declared, what
    /// follows the header is one run of raw bytes, and nothing where the size
    /// does not reach beyond the header.
    pub open spec fn args_for_size(declared: Seq<ArgType>, size: usize) -> Seq<ArgType> {
        if declared.len() > 0 {
            declared
        } else if size > UNSIZED_HEADER_SIZE {
            seq![ArgType::Unknown((size - UNSIZED_HEADER_SIZE) as usize)]
        } else {
            seq![]
        }
    }

    /// The argument list of an occurrence of this instruction that says it is
    /// `size` bytes long.
    pub open spec fn sized_args(self, size: usize) -> Seq<ArgType> {
        Self::args_for_size(self.args@, size)
    }

    /// The instruction that stands in for one that the configuration lacks:
    /// no name, no arguments, no part in the block structure.
    pub fn new() -> (unknown: UnsizedInstruction)
        ensures
            unknown.name@ == Seq::<char>::empty(),
            unknown.code_block == CodeBlock::NoBlock,
            unknown.args@ == Seq::<ArgType>::empty(),
    {
        UnsizedInstruction { name: String::new(), code_block: CodeBlock::NoBlock, args: Vec::new() }
    }

    /// The argument list of an occurrence that says it is `size` bytes long.
    pub fn args_with_known_size(&self, size: usize) -> (types: Vec<ArgType>)
        ensures
            types@ == self.sized_args(size),
    {
        let mut types: Vec<ArgType> = Vec::new();
        if self.args.len() > 0 {
            let mut i: usize = 0;
            while i < self.args.len()
                invariant
                    i <= self.args@.len(),
                    types@ == self.args@.take(i as int),
                decreases self.args@.len() - i,
            {
                types.push(self.args[i].clone());
                i += 1;
            }
        } else if size > UNSIZED_HEADER_SIZE {
            types.push(ArgType::Unknown(size - UNSIZED_HEADER_SIZE));
        }
        types
    }
}

/// The instruction catalogue, in one of the two layouts.
#[derive(Debug, Clone)]
pub enum InstructionInfo {
    /// Fixed layout: an instruction is its ID and then its arguments.
    Sized(HashMap<u32, SizedInstruction>),
    /// Size-prefixed layout: an instruction is its ID, its size and then its
    /// arguments.
    Unsized(HashMap<u32, UnsizedInstruction>),
}

/// A two-way table between numbers and names: no number has two names and no
/// name two numbers.
///
/// Its view is the map from each number to its name.
#[derive(Debug)]
pub struct NameTable {
    entries: Vec<(BBSNumber, String)>,
}

impl View for NameTable {
    type V = Map<BBSNumber, Seq<char>>;

    closed spec fn view(&self) -> Map<BBSNumber, Seq<char>> {
        assoc_map(self.pairs())
    }
}

impl Clone for NameTable {
    fn clone(&self) -> (copy: NameTable)
        ensures
            copy@ == self@,
    {
        proof {
            use_type_invariant(self);
        }
        let mut entries: Vec<(BBSNumber, String)> = Vec::new();
        let mut i: usize = 0;
        while i < self.entries.len()
            invariant
                i <= self.entries@.len(),
                entries@ == self.entries@.take(i as int),
            decreases self.entries@.len() - i,
        {
            entries.push((self.entries[i].0, self.entries[i].1.clone()));
            i += 1;
        }
        assert(self.entries@.take(i as int) == self.entries@);
        NameTable { entries }
    }
}

impl NameTable {
    /// The pairs of the table, names as sequences of characters.
    spec fn pairs(&self) -> Seq<(BBSNumber, Seq<char>)> {
        self.entries@.map_values(|e: (BBSNumber, String)| (e.0, e.1@))
    }

    #[verifier::type_invariant]
    spec fn pairs_distinct(&self) -> bool {
        keys_distinct(self.pairs()) && values_distinct(self.pairs())
    }

    /// Whether some number of the table is called `name`.
    pub open spec fn has_name(&self, name: Seq<char>) -> bool {
        exists|id: BBSNumber| self@.contains_key(id) && #[trigger] self@[id] == name
    }

    /// The empty table.
    pub fn new() -> (table: NameTable)
        ensures
            table@ == Map::<BBSNumber, Seq<char>>::empty(),
    {
        NameTable { entries: Vec::new() }
    }

    /// The number of pairs in the table.
    pub fn len(&self) -> (n: usize)
        ensures
            n == self@.dom().len(),
            self@.dom().finite(),
    {
        proof {
            use_type_invariant(self);
            lemma_assoc_len(self.pairs());
        }
        self.entries.len()
    }

    /// Adds the pair of `id` and `name`, unless the table already holds one of
    /// the two. Says whether it added the pair.
    #[verifier::loop_isolation(false)]
    pub fn insert(&mut self, id: BBSNumber, name: String) -> (inserted: bool)
        ensures
            inserted <==> !old(self)@.contains_key(id) && !old(self).has_name(name@),
            inserted ==> final(self)@ == old(self)@.insert(id, name@),
            !inserted ==> final(self)@ == old(self)@,
    {
        proof {
            use_type_invariant(&*self);
        }
        let ghost before = self.pairs();
        let mut i: usize = 0;
        while i < self.entries.len()
            invariant
                *self == *old(self),
                i <= before.len(),
                forall|k: int| 0 <= k < i ==> (#[trigger] before[k]).0 != id,
                forall|k: int| 0 <= k < i ==> (#[trigger] before[k]).1 != name@,
            decreases before.len() - i,
        {
            if self.entries[i].0 == id {
                proof {
                    lemma_assoc_value(before, i as int);
                }
                return false;
            }
            if self.entries[i].1 == name {
                proof {
                    lemma_assoc_value(before, i as int);
                }
                return false;
            }
            i += 1;
        }
        proof {
            lemma_assoc_dom(before, id);
            if old(self).has_name(name@) {
                let k = choose|k: BBSNumber|
                    old(self)@.contains_key(k) && #[trigger] old(self)@[k] == name@;
                lemma_assoc_find(before, k);
            }
        }
        let mut entries: Vec<(BBSNumber, String)> = Vec::new();
        core::mem::swap(&mut entries, &mut self.entries);
        entries.push((id, name));
        let ghost after = entries@.map_values(|e: (BBSNumber, String)| (e.0, e.1@));
        proof {
            assert(after.drop_last() == before);
            assert forall|a: int, b: int| 0 <= a < b < after.len() implies (#[trigger] after[a]).0
                != (#[trigger] after[b]).0 && after[a].1 != after[b].1 by {
                assert(before[a] == after[a]);
                if b < before.len() {
                    assert(before[b] == after[b]);
                }
            }
        }
        self.entries = entries;
        true
    }

    /// The name of `id`, if it has one.
    #[verifier::loop_isolation(false)]
    pub fn get_by_left(&self, id: BBSNumber) -> (name: Option<&String>)
        ensures
            self@.contains_key(id) ==> name is Some && name->Some_0@ == self@[id],
            !self@.contains_key(id) ==> name is None,
    {
        proof {
            use_type_invariant(self);
        }
        let ghost pairs = self.pairs();
        let mut i: usize = 0;
        while i < self.entries.len()
            invariant
                i <= pairs.len(),
                forall|k: int| 0 <= k < i ==> (#[trigger] pairs[k]).0 != id,
            decreases pairs.len() - i,
        {
            if self.entries[i].0 == id {
                proof {
                    lemma_assoc_value(pairs, i as int);
                }
                return Some(&self.entries[i].1);
            }
            i += 1;
        }
        proof {
            lemma_assoc_dom(pairs, id);
        }
        None
    }

    /// The number called `name`, if there is one.
    #[verifier::loop_isolation(false)]
    pub fn get_by_right(&self, name: &String) -> (id: Option<BBSNumber>)
        ensures
            self.has_name(name@) ==> id is Some && self@.contains_key(id->Some_0)
                && self@[id->Some_0] == name@,
            !self.has_name(name@) ==> id is None,
            forall|k: BBSNumber|
                self@.contains_key(k) && #[trigger] self@[k] == name@ ==> id == Some(k),
    {
        proof {
            use_type_invariant(self);
        }
        let ghost pairs = self.pairs();
        let mut i: usize = 0;
        while i < self.entries.len()
            invariant
                i <= pairs.len(),
                forall|k: int| 0 <= k < i ==> (#[trigger] pairs[k]).1 != name@,
            decreases pairs.len() - i,
        {
            if self.entries[i].1 == *name {
                proof {
                    let found = pairs[i as int].0;
                    lemma_assoc_value(pairs, i as int);
                    assert forall|k: BBSNumber|
                        self@.contains_key(k) && #[trigger] self@[k] == name@ implies k
                        == found by {
                        lemma_assoc_find(pairs, k);
                    }
                }
                return Some(self.entries[i].0);
            }
            i += 1;
        }
        proof {
            assert forall|k: BBSNumber| self@.contains_key(k) implies #[trigger] self@[k]
                != name@ by {
                lemma_assoc_find(pairs, k);
            }
        }
        None
    }
}

/// The enum groups of a configuration: a name table under each group name.
///
/// Its view is the map from each group name to the view of its table.
#[derive(Debug)]
pub struct EnumGroups {
    groups: Vec<(String, NameTable)>,
}

impl View for EnumGroups {
    type V = Map<Seq<char>, Map<BBSNumber, Seq<char>>>;

    closed spec fn view(&self) -> Map<Seq<char>, Map<BBSNumber, Seq<char>>> {
        assoc_map(self.pairs())
    }
}

impl Clone for EnumGroups {
    fn clone(&self) -> (copy: EnumGroups)
        ensures
            copy@ == self@,
    {
        proof {
            use_type_invariant(self);
        }
        let ghost pairs = self.pairs();
        let mut groups: Vec<(String, NameTable)> = Vec::new();
        let mut i: usize = 0;
        while i < self.groups.len()
            invariant
                i <= pairs.len(),
                pairs == self.pairs(),
                groups@.len() == i,
                groups@.map_values(|g: (String, NameTable)| (g.0@, g.1@)) == pairs.take(i as int),
            decreases pairs.len() - i,
        {
            let ghost copied = groups@.map_values(|g: (String, NameTable)| (g.0@, g.1@));
            let name = self.groups[i].0.clone();
            let table = self.groups[i].1.clone();
            groups.push((name, table));
            i += 1;
            proof {
                let now = groups@.map_values(|g: (String, NameTable)| (g.0@, g.1@));
                assert forall|k: int| 0 <= k < i implies now[k] == pairs[k] by {
                    if k < i - 1 {
                        assert(copied[k] == pairs.take(i - 1)[k]);
                    }
                }
            }
        }
        assert(pairs.take(i as int) == pairs);
        EnumGroups { groups }
    }
}

impl EnumGroups {
    /// The groups, each as its name and the view of its table.
    spec fn pairs(&self) -> Seq<(Seq<char>, Map<BBSNumber, Seq<char>>)> {
        self.groups@.map_values(|g: (String, NameTable)| (g.0@, g.1@))
    }

    #[verifier::type_invariant]
    spec fn names_distinct(&self) -> bool {
        keys_distinct(self.pairs())
    }

    /// No groups.
    pub fn new() -> (groups: EnumGroups)
        ensures
            groups@ == Map::<Seq<char>, Map<BBSNumber, Seq<char>>>::empty(),
    {
        EnumGroups { groups: Vec::new() }
    }

    /// The number of groups.
    pub fn len(&self) -> (n: usize)
        ensures
            n == self@.dom().len(),
            self@.dom().finite(),
    {
        proof {
            use_type_invariant(self);
            lemma_assoc_len(self.pairs());
        }
        self.groups.len()
    }

    /// Adds `table` under `name`, unless a group of that name is already
    /// there. Says whether it added the group.
    #[verifier::loop_isolation(false)]
    pub fn insert(&mut self, name: String, table: NameTable) -> (inserted: bool)
        ensures
            inserted <==> !old(self)@.contains_key(name@),
            inserted ==> final(self)@ == old(self)@.insert(name@, table@),
            !inserted ==> final(self)@ == old(self)@,
    {
        proof {
            use_type_invariant(&*self);
        }
        let ghost before = self.pairs();
        let mut i: usize = 0;
        while i < self.groups.len()
            invariant
                *self == *old(self),
                i <= before.len(),
                forall|k: int| 0 <= k < i ==> (#[trigger] before[k]).0 != name@,
            decreases before.len() - i,
        {
            if self.groups[i].0 == name {
                proof {
                    lemma_assoc_value(before, i as int);
                }
                return false;
            }
            i += 1;
        }
        proof {
            lemma_assoc_dom(before, name@);
        }
        let mut groups: Vec<(String, NameTable)> = Vec::new();
        core::mem::swap(&mut groups, &mut self.groups);
        groups.push((name, table));
        let ghost after = groups@.map_values(|g: (String, NameTable)| (g.0@, g.1@));
        proof {
            assert(after.drop_last() == before);
            assert forall|a: int, b: int| 0 <= a < b < after.len() implies (#[trigger] after[a]).0
                != (#[trigger] after[b]).0 by {
                assert(before[a] == after[a]);
                if b < before.len() {
                    assert(before[b] == after[b]);
                }
            }
        }
        self.groups = groups;
        true
    }

    /// The table of the group called `name`, if there is one.
    #[verifier::loop_isolation(false)]
    pub fn get(&self, name: &String) -> (table: Option<&NameTable>)
        ensures
            self@.contains_key(name@) ==> table is Some && table->Some_0@ == self@[name@],
            !self@.contains_key(name@) ==> table is None,
    {
        proof {
            use_type_invariant(self);
        }
        let ghost pairs = self.pairs();
        let mut i: usize = 0;
        while i < self.groups.len()
            invariant
                i <= pairs.len(),
                forall|k: int| 0 <= k < i ==> (#[trigger] pairs[k]).0 != name@,
            decreases pairs.len() - i,
        {
            if self.groups[i].0 == *name {
                proof {
                    lemma_assoc_value(pairs, i as int);
                }
                return Some(&self.groups[i].1);
            }
            i += 1;
        }
        proof {
            lemma_assoc_dom(pairs, name@);
        }
        None
    }
}

/// The configuration of one game.
#[derive(Debug, Clone)]
pub struct ScriptConfig {
    /// The groups of the jump table. A script starts with one count for each of
    /// them; only their number matters here.
    pub jump_table_ids: Vec<String>,
    /// The instruction catalogue.
    pub instructions: InstructionInfo,
    /// The tag of an accessed value that is a constant.
    pub literal_tag: BBSNumber,
    /// The tag of an accessed value that is the ID of a variable.
    pub variable_tag: BBSNumber,
    /// The names of the variables.
    pub named_variables: NameTable,
    /// The enum groups, by name.
    pub named_value_maps: EnumGroups,
}

impl ScriptConfig {
    /// The number that `name` stands for in the enum group `group`, as a map
    /// from names to numbers would give it.
    pub open spec fn named_value_of(self, group: Seq<char>, name: Seq<char>) -> Result<
        BBSNumber,
        ErrorModel,
    > {
        if !self.named_value_maps@.contains_key(group) {
            Err(ErrorModel::BadEnumReference(group))
        } else if !exists|number: BBSNumber|
            self.named_value_maps@[group].contains_key(number)
                && #[trigger] self.named_value_maps@[group][number] == name {
            Err(ErrorModel::NoAssociatedValue(group, name))
        } else {
            Ok(
                choose|number: BBSNumber|
                    self.named_value_maps@[group].contains_key(number)
                        && #[trigger] self.named_value_maps@[group][number] == name,
            )
        }
    }

    /// Looks up the number that `name` stands for in the enum group `group`.
    pub fn named_value(&self, group: &String, name: &String) -> (r: Result<
        BBSNumber,
        BBScriptError,
    >)
        ensures
            match self.named_value_of(group@, name@) {
                Ok(number) => r == Ok::<BBSNumber, BBScriptError>(number),
                Err(e) => r is Err && r->Err_0@ == e,
            },
            r is Ok ==> self.named_value_maps@[group@][r->Ok_0] == name@,
    {
        match self.named_value_maps.get(group) {
            None => Err(BBScriptError::BadEnumReference(group.clone())),
            Some(names) => match names.get_by_right(name) {
                Some(number) => Ok(number),
                None => Err(BBScriptError::NoAssociatedValue(group.clone(), name.clone())),
            },
        }
    }
}

} // verus!
