//! The commands a client can issue, and their mathematical model.
//!
//! A `Command` carries owned strings; its view [`CommandView`] carries the
//! character sequences alone, and is what the codec contracts and the
//! round-trip laws speak about. Columns are deliberately not modelled:
//! tables in this design carry only a name, and the wire format encodes
//! none of a column's data.

use vstd::prelude::*;

use crate::utils::string_fits;

verus! {

/// A table column. Schema data is out of this design's scope: nothing
/// constructs, encodes or reads a column, and the type exists only so that
/// `Command::CreateTable` can keep its field layout.
#[derive(Debug, PartialEq)]
pub struct Column {
    _column_type: ColumnType,
    _is_optional: bool,
    _is_primary_key: bool,
    _is_foreign_key: bool,
}

#[derive(Debug, PartialEq)]
enum ColumnType {
    _Uint8,
    _Sint8,
    _Uint32,
    _Sint32,
    _Text,
}

/// The leading byte identifying a command or response variant on the wire.
#[derive(Clone, Copy, Debug, PartialEq, Eq, Structural)]
pub enum CommandDiscriminant {
    CreateDatabase,
    OpenDatabase,
    CreateTable,
    ListDatabases,
    ListTables,
}

impl CommandDiscriminant {
    /// The wire byte of this discriminant.
    pub open spec fn spec_byte(self) -> u8 {
        match self {
            CommandDiscriminant::CreateDatabase => 0x00,
            CommandDiscriminant::OpenDatabase => 0x01,
            CommandDiscriminant::CreateTable => 0x02,
            CommandDiscriminant::ListDatabases => 0x03,
            CommandDiscriminant::ListTables => 0x04,
        }
    }

    /// The discriminant a byte identifies, `None` for an unknown byte.
    pub fn from_byte(byte: u8) -> (r: Option<CommandDiscriminant>)
        ensures
            r is Some <==> byte <= 4,
            r matches Some(d) ==> d.spec_byte() == byte,
    {
        match byte {
            0x00 => Some(CommandDiscriminant::CreateDatabase),
            0x01 => Some(CommandDiscriminant::OpenDatabase),
            0x02 => Some(CommandDiscriminant::CreateTable),
            0x03 => Some(CommandDiscriminant::ListDatabases),
            0x04 => Some(CommandDiscriminant::ListTables),
            _ => None,
        }
    }

    /// The wire byte of this discriminant.
    pub fn to_byte(self) -> (r: u8)
        ensures
            r == self.spec_byte(),
    {
        match self {
            CommandDiscriminant::CreateDatabase => 0x00,
            CommandDiscriminant::OpenDatabase => 0x01,
            CommandDiscriminant::CreateTable => 0x02,
            CommandDiscriminant::ListDatabases => 0x03,
            CommandDiscriminant::ListTables => 0x04,
        }
    }
}

/// A client command.
#[derive(Debug, PartialEq)]
pub enum Command {
    CreateDatabase { name: String },
    CreateTable { name: String, cols: Vec<Column> },
    OpenDatabase { name: String },
    ListDatabases,
    ListTables,
}

/// The model of a command: the same variants over character sequences.
pub ghost enum CommandView {
    CreateDatabase { name: Seq<char> },
    CreateTable { name: Seq<char> },
    OpenDatabase { name: Seq<char> },
    ListDatabases,
    ListTables,
}

impl View for Command {
    type V = CommandView;

    open spec fn view(&self) -> CommandView {
        match self {
            Command::CreateDatabase { name } => CommandView::CreateDatabase { name: name@ },
            Command::CreateTable { name, cols } => CommandView::CreateTable { name: name@ },
            Command::OpenDatabase { name } => CommandView::OpenDatabase { name: name@ },
            Command::ListDatabases => CommandView::ListDatabases,
            Command::ListTables => CommandView::ListTables,
        }
    }
}

impl DeepView for Command {
    type V = CommandView;

    open spec fn deep_view(&self) -> CommandView {
        self.view()
    }
}

impl Command {
    /// Whether this command fits the wire format; decides [`CommandView::wf`].
    pub fn check_wf(&self) -> (r: bool)
        ensures
            r == self@.wf(),
    {
        match self {
            Command::CreateDatabase { name } => name.as_str().as_bytes().len() <= u32::MAX as usize,
            Command::CreateTable { name, cols } => name.as_str().as_bytes().len() <= u32::MAX
                as usize,
            Command::OpenDatabase { name } => name.as_str().as_bytes().len() <= u32::MAX as usize,
            Command::ListDatabases => true,
            Command::ListTables => true,
        }
    }
}

impl CommandView {
    /// A command is well formed when its name's UTF-8 encoding fits the
    /// wire format's `u32` length prefix.
    pub open spec fn wf(self) -> bool {
        match self {
            CommandView::CreateDatabase { name } => string_fits(name),
            CommandView::CreateTable { name } => string_fits(name),
            CommandView::OpenDatabase { name } => string_fits(name),
            CommandView::ListDatabases => true,
            CommandView::ListTables => true,
        }
    }
}

} // verus!
