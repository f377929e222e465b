//! What the printer reads, and the names of things.

use super::super::lowering::{
    LetBindingNameGroupId, RecordPunId, SourceBinderId, SourceExpressionId,
};
use super::super::state::CheckedModule;
use super::super::types::{FileId, Name, SmolStrId, Type, TypeId, Types};
use crate::collections::IdMap;
use crate::indexing::items::{TermItemId, TypeItemId};
use crate::indexing::module::IndexedModule;
use crate::text::{decimal, hex_digit, lower_case, push_decimal, to_lowercase};
use vstd::prelude::*;

verus! {

/// A module that has been checked.
pub struct ModuleData {
    pub indexed: IndexedModule,
    pub checked: CheckedModule,
}

/// The name that a pattern of the source binds.
#[derive(Debug)]
pub enum SourceBinderName {
    Variable(String),
    Named(String),
    Other,
}

/// A field of a record pattern that binds a variable of its name.
#[derive(Debug)]
pub struct PunName {
    pub id: RecordPunId,
    pub name: Option<String>,
}

/// The names of the source.
pub struct LoweredNames {
    pub binders: IdMap<SourceBinderName>,
    pub lets: IdMap<String>,
    /// The puns of all record patterns, in order.
    pub puns: Vec<PunName>,
}

/// What is asked of the printer of types. Requests that begin, fork or change a
/// scope of names have no answer; the others are answered by a text.
#[allow(inconsistent_fields)]
#[derive(Clone, Copy, Debug, PartialEq, Eq, Structural)]
pub enum TypeRequest {
    /// A new scope of names. The kinds of quantified variables are left out in
    /// signatures.
    Begin { signature: bool },
    /// A scope of names that begins with the names of another.
    Fork { scope: usize },
    /// The type in a scope.
    Render { scope: usize, type_id: TypeId },
    /// The type in a scope of its own.
    RenderAlone { signature: bool, type_id: TypeId },
    /// The name and the kind of a type.
    KindSignature { scope: usize, item: TypeItemId, kind: TypeId },
    /// The name of a type variable in a scope.
    DisplayName { scope: usize, name: Name },
    /// The type variable gets the name that answers another request.
    Assign { scope: usize, rigid: TypeId, display: usize },
    /// The type variable gets the name, or one like it.
    Allocate { scope: usize, name: Name, text: SmolStrId },
}

/// Reads a module.
pub struct Printer<'a> {
    pub file: FileId,
    pub own: &'a ModuleData,
    pub others: &'a IdMap<ModuleData>,
    pub types: &'a Types,
    pub lowered: &'a LoweredNames,
    /// The name of the module, where types are shown with it.
    pub qualifier: Option<&'a String>,
}

impl<'a> Printer<'a> {
    /// The modules can be looked up in.
    pub open spec fn wf(self) -> bool {
        &&& is_readable(*self.own)
        &&& forall|key: u64| #[trigger]
            self.others@.contains_key(key) ==> is_readable(self.others@[key])
    }

    /// The module of a file, if it is known.
    pub open spec fn module_of(self, file: FileId) -> Option<ModuleData> {
        if file == self.file {
            Some(*self.own)
        } else if self.others@.contains_key(file.raw as u64) {
            Some(self.others@[file.raw as u64])
        } else {
            None
        }
    }

    pub fn module_data(&self, file: FileId) -> (module: Option<&ModuleData>)
        ensures
            match module {
                Some(module) => self.module_of(file) == Some(*module),
                None => self.module_of(file) is None,
            },
    {
        if file == self.file {
            Some(self.own)
        } else {
            self.others.get(file.raw as u64)
        }
    }

    /// The name of a term, if it is known.
    pub open spec fn term_text(self, file: FileId, id: TermItemId) -> Option<Seq<char>> {
        match self.module_of(file) {
            Some(module) => term_text_in(module, id),
            None => None,
        }
    }

    pub fn term_name(&self, file: FileId, id: TermItemId) -> (name: Option<String>)
        ensures
            optional_text(name) == self.term_text(file, id),
    {
        let module = self.module_data(file)?;
        term_name_in(module, id)
    }

    /// The name of a type, if it is known.
    pub open spec fn type_text(self, file: FileId, id: TypeItemId) -> Option<Seq<char>> {
        match self.module_of(file) {
            Some(module) => if id.raw < module.indexed@.items.types.len() {
                module.indexed@.items.types[id.raw as int].name
            } else {
                None
            },
            None => None,
        }
    }

    pub fn type_item_name(&self, file: FileId, id: TypeItemId) -> (name: Option<String>)
        ensures
            optional_text(name) == self.type_text(file, id),
    {
        let module = self.module_data(file)?;
        if id.raw as usize >= module.indexed.items.types.len() {
            return None;
        }
        match &module.indexed.items.types.get(id.raw).name {
            Some(name) => Some(name.clone()),
            None => None,
        }
    }

    /// The name of a local declaration, or one made of its number.
    pub open spec fn local_text(self, source: LetBindingNameGroupId) -> Seq<char> {
        if self.lowered.lets@.contains_key(source.raw as u64) {
            self.lowered.lets@[source.raw as u64]@
        } else {
            "<let#"@ + decimal(source.raw as nat) + ">"@
        }
    }

    pub fn local_declaration_name(&self, source: LetBindingNameGroupId) -> (name: String)
        ensures
            name@ == self.local_text(source),
    {
        match self.lowered.lets.get(source.raw as u64) {
            Some(name) => name.clone(),
            None => {
                let mut name = "<let#".to_owned();
                push_decimal(&mut name, source.raw as u64);
                name.append(">");
                name
            },
        }
    }

    /// The name of a record pun, or one made of its number.
    pub open spec fn pun_text(self, pun: RecordPunId) -> Seq<char> {
        match first_pun(self.lowered.puns@, pun) {
            Some(name) => name,
            None => "<pun#"@ + decimal(pun.raw as nat) + ">"@,
        }
    }

    pub fn record_pun_name(&self, pun: RecordPunId) -> (name: String)
        ensures
            name@ == self.pun_text(pun),
    {
        let puns = &self.lowered.puns;
        let mut index: usize = 0;
        assert(puns@.skip(0) =~= puns@);
        while index < puns.len()
            invariant
                index <= puns.len(),
                *puns == self.lowered.puns,
                first_pun(puns@, pun) == first_pun(puns@.skip(index as int), pun),
            decreases puns.len() - index,
        {
            assert(puns@.skip(index as int).skip(1) =~= puns@.skip(index + 1));
            if puns[index].id == pun {
                if let Some(name) = &puns[index].name {
                    return name.clone();
                }
            }
            index += 1;
        }
        let mut name = "<pun#".to_owned();
        push_decimal(&mut name, pun.raw as u64);
        name.append(">");
        name
    }

    /// The name of the variable that a pattern of the source binds, or one made of
    /// the pattern's number.
    pub open spec fn source_binder_text(self, binder: SourceBinderId) -> Seq<char> {
        let known = self.lowered.binders@;
        let key = binder.raw as u64;
        if known.contains_key(key) && known[key] is Variable {
            known[key]->Variable_0@
        } else if known.contains_key(key) && known[key] is Named {
            known[key]->Named_0@
        } else {
            "<binder#"@ + decimal(binder.raw as nat) + ">"@
        }
    }

    pub fn source_binder_name(&self, binder: SourceBinderId) -> (name: String)
        ensures
            name@ == self.source_binder_text(binder),
    {
        match self.lowered.binders.get(binder.raw as u64) {
            Some(SourceBinderName::Variable(name)) => name.clone(),
            Some(SourceBinderName::Named(name)) => name.clone(),
            _ => {
                let mut name = "<binder#".to_owned();
                push_decimal(&mut name, binder.raw as u64);
                name.append(">");
                name
            },
        }
    }

    /// The text of an identity; none is empty.
    pub open spec fn interned_text(self, id: SmolStrId) -> Seq<char> {
        if id.raw < self.types@.texts.len() {
            self.types@.texts[id.raw as int]
        } else {
            Seq::empty()
        }
    }

    pub fn interned_name(&self, id: SmolStrId) -> (name: String)
        ensures
            name@ == self.interned_text(id),
    {
        match self.types.lookup_smol_str(id) {
            Some(name) => name.clone(),
            None => String::new(),
        }
    }

    /// A type's name with its module, where that is shown.
    pub open spec fn local_type_text(self, name: Seq<char>) -> Seq<char> {
        match self.qualifier {
            Some(module) => module@ + "."@ + name,
            None => name,
        }
    }

    pub fn display_local_type_name(&self, name: &str) -> (display: String)
        ensures
            display@ == self.local_type_text(name@),
    {
        match self.qualifier {
            Some(module) => {
                let mut display = module.clone();
                display.append(".");
                display.append(name);
                display
            },
            None => name.to_owned(),
        }
    }

    /// The type of an identity, if there is one.
    pub open spec fn type_of(self, id: TypeId) -> Option<Type> {
        if self.types@.has_type(id) {
            Some(self.types@.type_at(id))
        } else {
            None
        }
    }

    pub fn lookup_type(&self, id: TypeId) -> (t: Option<Type>)
        ensures
            t == self.type_of(id),
    {
        if self.types.holds(id) {
            Some(self.types.lookup_type(id))
        } else {
            None
        }
    }
}

/// The module can be looked up in, and its items can be counted.
pub open spec fn is_readable(module: ModuleData) -> bool {
    &&& module.indexed@.pairs.wf()
    &&& module.indexed@.items.terms.len() <= u32::MAX
    &&& module.indexed@.items.types.len() <= u32::MAX
}

/// Whether the module can be looked up in, and its items can be counted.
pub fn has_readable_index(module: &ModuleData) -> (readable: bool)
    ensures
        readable == is_readable(*module),
{
    module.indexed.pairs.is_well_formed() && module.indexed.items.terms.len() <= u32::MAX as usize
        && module.indexed.items.types.len() <= u32::MAX as usize
}

/// The text of a name that may be missing.
pub open spec fn optional_text(name: Option<String>) -> Option<Seq<char>> {
    match name {
        Some(name) => Some(name@),
        None => None,
    }
}

/// The name of a module's term, if it has one.
pub open spec fn term_text_in(module: ModuleData, id: TermItemId) -> Option<Seq<char>> {
    if id.raw < module.indexed@.items.terms.len() {
        module.indexed@.items.terms[id.raw as int].name
    } else {
        None
    }
}

pub fn term_name_in(module: &ModuleData, id: TermItemId) -> (name: Option<String>)
    ensures
        optional_text(name) == term_text_in(*module, id),
{
    if id.raw as usize >= module.indexed.items.terms.len() {
        return None;
    }
    match &module.indexed.items.terms.get(id.raw).name {
        Some(name) => Some(name.clone()),
        None => None,
    }
}

/// The name of a pun, the first one where there are several.
pub open spec fn first_pun(puns: Seq<PunName>, pun: RecordPunId) -> Option<Seq<char>>
    decreases puns.len(),
{
    if puns.len() == 0 {
        None
    } else if puns[0].id == pun && puns[0].name is Some {
        Some(puns[0].name->0@)
    } else {
        first_pun(puns.skip(1), pun)
    }
}

// Literals

/// The character has no visible form.
pub open spec fn is_control_character(value: char) -> bool {
    (value as u32) < 32 || 127 <= (value as u32) < 160
}

/// A character as it is written.
pub open spec fn character_text(value: char) -> Seq<char> {
    if value == '\n' {
        "'\\n'"@
    } else if value == '\r' {
        "'\\r'"@
    } else if value == '\t' {
        "'\\t'"@
    } else if value == '\\' {
        "'\\\\'"@
    } else if value == '\'' {
        "'\\''"@
    } else if value == '\0' {
        "'\\0'"@
    } else if is_control_character(value) {
        "'\\x"@ + seq![
            hex_digit(value as nat / 16),
            hex_digit(value as nat % 16),
        ] + "'"@
    } else {
        "'"@ + seq![value] + "'"@
    }
}

/// A digit in hexadecimal notation.
fn hexadecimal(value: u32) -> (digit: char)
    requires
        value < 16,
    ensures
        digit == hex_digit(value as nat),
{
    if value < 10 {
        (value as u8 + 48) as char
    } else {
        (value as u8 + 87) as char
    }
}

/// A character as it is written.
pub fn character_literal(value: char) -> (text: String)
    ensures
        text@ == character_text(value),
{
    if value == '\n' {
        return "'\\n'".to_owned();
    }
    if value == '\r' {
        return "'\\r'".to_owned();
    }
    if value == '\t' {
        return "'\\t'".to_owned();
    }
    if value == '\\' {
        return "'\\\\'".to_owned();
    }
    if value == '\'' {
        return "'\\''".to_owned();
    }
    if value == '\0' {
        return "'\\0'".to_owned();
    }
    let code: u32 = value as u32;
    if code < 32 || (127 <= code && code < 160) {
        let mut text = "'\\x".to_owned();
        text.push(hexadecimal(code / 16));
        text.push(hexadecimal(code % 16));
        assert(text@ =~= "'\\x"@ + seq![hex_digit(value as nat / 16), hex_digit(
            value as nat % 16,
        )]);
        text.append("'");
        return text;
    }
    let mut text = "'".to_owned();
    text.push(value);
    assert(text@ =~= "'"@ + seq![value]);
    text.append("'");
    text
}

/// The name of the variable of an operator section.
pub open spec fn section_text(source: SourceExpressionId) -> Seq<char> {
    "v"@ + decimal(source.raw as nat)
}

pub fn section_name(source: SourceExpressionId) -> (name: String)
    ensures
        name@ == section_text(source),
{
    let mut name = "v".to_owned();
    push_decimal(&mut name, source.raw as u64);
    name
}

/// A name that begins in lower case; none where it is empty.
pub open spec fn uncapitalized(name: Seq<char>) -> Option<Seq<char>> {
    if name.len() == 0 {
        None
    } else {
        Some(lower_case(name[0]) + name.skip(1))
    }
}

/// A name that begins in lower case.
pub fn uncapitalize(name: &str) -> (lower: Option<String>)
    ensures
        optional_text(lower) == uncapitalized(name@),
{
    let count: usize = name.unicode_len();
    if count == 0 {
        return None;
    }
    let mut lower = to_lowercase(name.get_char(0));
    let rest = name.substring_char(1, count);
    assert(rest@ =~= name@.skip(1));
    lower.append(rest);
    Some(lower)
}

} // verus!
