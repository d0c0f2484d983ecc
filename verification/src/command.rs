//! The kinds of command that the engine is given as text.

use crate::strings::{first_piece, first_piece_of, starts_with_chars, starts_with_text};
use crate::text::{chars_of, same_chars};
use vstd::prelude::*;

verus! {

/// A command to the program around the engine. Such a command starts with
/// a point.
#[derive(Debug, PartialEq)]
pub enum MetaCommand {
    Exit,
    ListTables,
    PrintData,
    Persist,
    Restore,
    Unknown(String),
}

/// A command to the engine. Its first word, up to the first blank, says
/// what it is; the command is kept whole.
#[derive(Debug, PartialEq)]
pub enum DbCommand {
    Insert(String),
    Delete(String),
    Update(String),
    CreateTable(String),
    Select(String),
    Unknown(String),
}

/// A command of either kind.
#[derive(Debug, PartialEq)]
pub enum CommandType {
    MetaCommand(MetaCommand),
    DbCommand(DbCommand),
}

/// Whether the text `s` is the literal `literal`.
fn is_text(s: &Vec<char>, literal: &str) -> (r: bool)
    ensures
        r == (s@ == literal@),
{
    same_chars(s, &chars_of(literal))
}

/// Whether `m` is the command to the program that the text names:
/// `.exit`, `.tables`, `.data`, `.persist` or `.restore`, written exactly
/// so; any other text is an unknown command, which keeps the text.
pub open spec fn is_meta_command_of(m: MetaCommand, text: Seq<char>) -> bool {
    &&& m is Exit <==> text == ".exit"@
    &&& m is ListTables <==> text == ".tables"@
    &&& m is PrintData <==> text == ".data"@
    &&& m is Persist <==> text == ".persist"@
    &&& m is Restore <==> text == ".restore"@
    &&& m matches MetaCommand::Unknown(c) ==> c@ == text
}

/// Whether `c` is the command to the engine that the text is, by its first
/// word: `insert`, `update`, `delete`, `create` or `select`, in lower
/// case; a text with any other first word is an unknown command. The
/// command keeps the text.
pub open spec fn is_db_command_of(c: DbCommand, text: Seq<char>) -> bool {
    &&& c.text()@ == text
    &&& c is Insert <==> first_piece(text, ' ') == "insert"@
    &&& c is Update <==> first_piece(text, ' ') == "update"@
    &&& c is Delete <==> first_piece(text, ' ') == "delete"@
    &&& c is CreateTable <==> first_piece(text, ' ') == "create"@
    &&& c is Select <==> first_piece(text, ' ') == "select"@
}

impl MetaCommand {
    /// The command to the program that the text `command` names.
    pub fn new(command: String) -> (r: MetaCommand)
        ensures
            is_meta_command_of(r, command@),
            r matches MetaCommand::Unknown(c) ==> c == command,
    {
        proof {
            reveal_strlit(".exit");
            reveal_strlit(".tables");
            reveal_strlit(".data");
            reveal_strlit(".persist");
            reveal_strlit(".restore");
            assert(".exit"@[1] == 'e' && ".tables"@[1] == 't' && ".data"@[1] == 'd'
                && ".persist"@[1] == 'p' && ".restore"@[1] == 'r');
        }
        let s = chars_of(command.as_str());
        if is_text(&s, ".exit") {
            MetaCommand::Exit
        } else if is_text(&s, ".tables") {
            MetaCommand::ListTables
        } else if is_text(&s, ".data") {
            MetaCommand::PrintData
        } else if is_text(&s, ".persist") {
            MetaCommand::Persist
        } else if is_text(&s, ".restore") {
            MetaCommand::Restore
        } else {
            MetaCommand::Unknown(command)
        }
    }
}

impl DbCommand {
    /// The text of the command, whatever its kind.
    pub open spec fn text(self) -> String {
        match self {
            DbCommand::Insert(c) => c,
            DbCommand::Delete(c) => c,
            DbCommand::Update(c) => c,
            DbCommand::CreateTable(c) => c,
            DbCommand::Select(c) => c,
            DbCommand::Unknown(c) => c,
        }
    }

    /// The command to the engine that the text `command` is.
    pub fn new(command: String) -> (r: DbCommand)
        ensures
            is_db_command_of(r, command@),
            r.text() == command,
    {
        proof {
            reveal_strlit("insert");
            reveal_strlit("update");
            reveal_strlit("delete");
            reveal_strlit("create");
            reveal_strlit("select");
            assert("insert"@[0] == 'i' && "update"@[0] == 'u' && "delete"@[0] == 'd'
                && "create"@[0] == 'c' && "select"@[0] == 's');
        }
        let word = first_piece_of(&chars_of(command.as_str()), ' ');
        if is_text(&word, "insert") {
            DbCommand::Insert(command)
        } else if is_text(&word, "update") {
            DbCommand::Update(command)
        } else if is_text(&word, "delete") {
            DbCommand::Delete(command)
        } else if is_text(&word, "create") {
            DbCommand::CreateTable(command)
        } else if is_text(&word, "select") {
            DbCommand::Select(command)
        } else {
            DbCommand::Unknown(command)
        }
    }
}

/// Tells the two kinds of command apart: a text that starts with a point is
/// a command to the program, any other a command to the engine; and says
/// which command of its kind the text is.
pub fn handle_commands(cmd: &String) -> (r: CommandType)
    ensures
        match r {
            CommandType::MetaCommand(m) => starts_with_text(cmd@, "."@) && is_meta_command_of(
                m,
                cmd@,
            ),
            CommandType::DbCommand(c) => !starts_with_text(cmd@, "."@) && is_db_command_of(c, cmd@),
        },
{
    let s = chars_of(cmd.as_str());
    if starts_with_chars(&s, &chars_of(".")) {
        CommandType::MetaCommand(MetaCommand::new(cmd.clone()))
    } else {
        CommandType::DbCommand(DbCommand::new(cmd.clone()))
    }
}

} // verus!
