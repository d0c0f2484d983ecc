//! Reading commands from text with regular expressions.
//!
//! What a regular expression matches is not stated here: each result of the
//! crate `regex` has a name, and the contracts say what is made of the named
//! results. The same holds of the lower-case form and the trimmed form of a
//! text, which the standard library defines over all of Unicode.

use crate::strings::{
    contains_chars, contains_text, remove_char, remove_text, split_chars, split_on,
    text_of_chars, without_char, without_text,
};
use crate::text::chars_of;
use regex::Regex;
use vstd::prelude::*;

verus! {

/// One column of a create command, as it was written.
#[derive(PartialEq, Debug)]
pub struct ParsedColumn {
    pub name: String,
    pub datatype: String,
    pub is_pk: bool,
    pub is_nullable: bool,
}

/// The lower-case form of a text.
pub uninterp spec fn lowercased(s: Seq<char>) -> Seq<char>;

/// A text without the white space at its start and at its end.
pub uninterp spec fn trimmed(s: Seq<char>) -> Seq<char>;

/// `haystack` with each match of the regular expression `pattern` replaced
/// by `rep`; `None` if `pattern` is no regular expression.
pub uninterp spec fn regex_replaced(
    pattern: Seq<char>,
    haystack: Seq<char>,
    rep: Seq<char>,
) -> Option<Seq<char>>;

/// The capture groups of the first match of the regular expression
/// `pattern` in `haystack`, the whole match first, each group with its
/// text if it took part in the match; `None` if there is no match or
/// `pattern` is no regular expression.
pub uninterp spec fn regex_captured(pattern: Seq<char>, haystack: Seq<char>) -> Option<
    Seq<Option<Seq<char>>>,
>;

/// The capture groups of all matches of the regular expression `pattern`
/// in `haystack`, match by match; `None` if `pattern` is no regular
/// expression.
pub uninterp spec fn regex_captured_all(pattern: Seq<char>, haystack: Seq<char>) -> Option<
    Seq<Seq<Option<Seq<char>>>>,
>;

/// The texts of the capture groups `groups`.
pub open spec fn group_texts(groups: Seq<Option<String>>) -> Seq<Option<Seq<char>>> {
    Seq::new(
        groups.len(),
        |i: int|
            match groups[i] {
                Some(s) => Some(s@),
                None => None,
            },
    )
}

/// The texts of the capture groups of the matches `matches`.
pub open spec fn match_texts(matches: Seq<Vec<Option<String>>>) -> Seq<Seq<Option<Seq<char>>>> {
    Seq::new(matches.len(), |i: int| group_texts(matches[i]@))
}

/// The lower-case form of `s`.
///
/// Trusted: `str::to_lowercase` of the standard library. The contract
/// gives its result a name and says nothing else of it.
#[verifier::external_body]
fn to_lowercase(s: &str) -> (r: String)
    ensures
        r@ == lowercased(s@),
{
    s.to_lowercase()
}

/// `s` without the white space at its start and at its end.
///
/// Trusted: `str::trim` of the standard library. The contract gives its
/// result a name and says nothing else of it.
#[verifier::external_body]
fn trim(s: &str) -> (r: String)
    ensures
        r@ == trimmed(s@),
{
    s.trim().to_string()
}

/// `haystack` with each match of `pattern` replaced by `rep`.
///
/// Trusted: `Regex::new` and `Regex::replace_all` of the crate `regex`.
/// The contract gives the result a name and says nothing else of it; a
/// pattern that `Regex::new` refuses gives `None`.
#[verifier::external_body]
fn regex_replace_all(pattern: &str, haystack: &str, rep: &str) -> (r: Option<String>)
    ensures
        match r {
            Some(s) => regex_replaced(pattern@, haystack@, rep@) == Some(s@),
            None => regex_replaced(pattern@, haystack@, rep@) is None,
        },
{
    match Regex::new(pattern) {
        Ok(re) => Some(re.replace_all(haystack, rep).into_owned()),
        Err(_) => None,
    }
}

/// The capture groups of the first match of `pattern` in `haystack`.
///
/// Trusted: `Regex::new`, `Regex::captures`, `Captures::len` and
/// `Captures::get` of the crate `regex`. The contract gives the result a
/// name and says nothing else of it; a pattern that `Regex::new` refuses
/// gives `None`, as a text without a match does.
#[verifier::external_body]
fn regex_captures(pattern: &str, haystack: &str) -> (r: Option<Vec<Option<String>>>)
    ensures
        match r {
            Some(groups) => regex_captured(pattern@, haystack@) == Some(group_texts(groups@)),
            None => regex_captured(pattern@, haystack@) is None,
        },
{
    let re = Regex::new(pattern).ok()?;
    let caps = re.captures(haystack)?;
    Some((0..caps.len()).map(|i| caps.get(i).map(|m| m.as_str().to_string())).collect())
}

/// The capture groups of all matches of `pattern` in `haystack`.
///
/// Trusted: `Regex::new`, `Regex::captures_iter`, `Captures::len` and
/// `Captures::get` of the crate `regex`. The contract gives the result a
/// name and says nothing else of it; a pattern that `Regex::new` refuses
/// gives `None`.
#[verifier::external_body]
fn regex_captures_iter(pattern: &str, haystack: &str) -> (r: Option<Vec<Vec<Option<String>>>>)
    ensures
        match r {
            Some(matches) => regex_captured_all(pattern@, haystack@) == Some(
                match_texts(matches@),
            ),
            None => regex_captured_all(pattern@, haystack@) is None,
        },
{
    let re = Regex::new(pattern).ok()?;
    let groups = |caps: regex::Captures| {
        (0..caps.len()).map(|i| caps.get(i).map(|m| m.as_str().to_string())).collect()
    };
    Some(re.captures_iter(haystack).map(groups).collect())
}

/// The regular expression for a run of white space.
pub open spec fn whitespace_run() -> Seq<char> {
    "\\s+"@
}

/// The regular expression for an insert command: its first group is the
/// table, its second the column list, its third the list of rows.
pub open spec fn insert_pattern() -> Seq<char> {
    "[a-z]*\\s*[a-z]*\\s*([a-z]*)\\s*\\(((?:.|\\n)+)\\)\\s*[a-z]*\\s*(\\((?:.|\\n)+\\))"@
}

/// The regular expression for one row of an insert command: its first
/// group is what stands between the brackets.
pub open spec fn row_pattern() -> Seq<char> {
    "\\(((\\d|[a-z]|[A-Z]|,|\\s|')*)\\)"@
}

/// The regular expression for a create command: its first group is the
/// table, its second the list of columns.
pub open spec fn create_pattern() -> Seq<char> {
    "create table ([a-z]*)\\s*\\(((?:.|\\n)+)\\)"@
}

/// The text of a command in the form in which it is read: in lower case,
/// without white space at its ends, and with one blank for each run of
/// white space.
pub open spec fn sanitized(input: Seq<char>) -> Seq<char> {
    let cmd = trimmed(lowercased(input));
    match regex_replaced(whitespace_run(), cmd, " "@) {
        Some(t) => t,
        None => cmd,
    }
}

/// Brings the text of a command into the form in which it is read.
pub fn sanitize_user_input(input: String) -> (r: String)
    ensures
        r@ == sanitized(input@),
{
    let cmd = to_lowercase(input.as_str());
    let cmd = trim(cmd.as_str());
    match regex_replace_all("\\s+", cmd.as_str(), " ") {
        Some(t) => t,
        None => cmd,
    }
}

/// The text of the capture group `i`; empty if there is no such group or
/// it took no part in the match.
pub open spec fn group_or_empty(groups: Seq<Option<Seq<char>>>, i: int) -> Seq<char> {
    if 0 <= i < groups.len() {
        match groups[i] {
            Some(t) => t,
            None => Seq::empty(),
        }
    } else {
        Seq::empty()
    }
}

/// The text of the capture group `i`; empty if there is no such group or
/// it took no part in the match.
pub fn group_text(groups: &Vec<Option<String>>, i: usize) -> (r: String)
    ensures
        r@ == group_or_empty(group_texts(groups@), i as int),
{
    if i < groups.len() {
        match &groups[i] {
            Some(t) => t.clone(),
            None => String::new(),
        }
    } else {
        String::new()
    }
}

/// The strings of the pieces `pieces`.
fn texts_of_pieces(pieces: &Vec<Vec<char>>) -> (r: Vec<String>)
    ensures
        crate::value::texts(r@) == crate::strings::piece_views(pieces@),
{
    let mut r: Vec<String> = Vec::new();
    let mut i: usize = 0;
    while i < pieces.len()
        invariant
            i <= pieces@.len(),
            r@.len() == i,
            forall|j: int| 0 <= j < i ==> (#[trigger] r@[j])@ == pieces@[j]@,
        decreases pieces@.len() - i,
    {
        r.push(text_of_chars(&pieces[i]));
        i += 1;
    }
    assert(crate::value::texts(r@) =~= crate::strings::piece_views(pieces@));
    r
}

/// The names of a column list: the list without blanks, split at its
/// commas.
pub open spec fn column_names_of(list: Seq<char>) -> Seq<Seq<char>> {
    split_on(without_char(list, ' '), ',')
}

/// The names of the column list `list`.
pub fn column_list(list: &str) -> (r: Vec<String>)
    ensures
        crate::value::texts(r@) == column_names_of(list@),
{
    let v = remove_char(&chars_of(list), ' ');
    texts_of_pieces(&split_chars(&v, ','))
}

/// The texts of one row: what stands between its brackets, without
/// blanks and quotation marks, split at its commas.
pub open spec fn row_values_of(row: Seq<char>) -> Seq<Seq<char>> {
    split_on(without_char(without_char(without_char(row, ' '), '"'), '\''), ',')
}

/// The texts of the row `row`.
pub fn row_values(row: &str) -> (r: Vec<String>)
    ensures
        crate::value::texts(r@) == row_values_of(row@),
{
    let v = remove_char(&chars_of(row), ' ');
    let v = remove_char(&v, '"');
    let v = remove_char(&v, '\'');
    texts_of_pieces(&split_chars(&v, ','))
}

/// The rows of an insert command, from the capture groups of the matches
/// of the row pattern: for each match, the texts of its first group.
pub open spec fn rows_of(matches: Seq<Seq<Option<Seq<char>>>>) -> Seq<Seq<Seq<char>>> {
    Seq::new(matches.len(), |i: int| row_values_of(group_or_empty(matches[i], 1)))
}

/// The rows of an insert command, from the capture groups of the matches
/// of the row pattern.
pub fn rows_from_matches(matches: &Vec<Vec<Option<String>>>) -> (r: Vec<Vec<String>>)
    ensures
        crate::value::nested_texts(r@) == rows_of(match_texts(matches@)),
{
    let mut r: Vec<Vec<String>> = Vec::new();
    let mut i: usize = 0;
    while i < matches.len()
        invariant
            i <= matches@.len(),
            r@.len() == i,
            forall|j: int|
                0 <= j < i ==> crate::value::texts((#[trigger] r@[j])@) == rows_of(
                    match_texts(matches@),
                )[j],
        decreases matches@.len() - i,
    {
        let row = group_text(&matches[i], 1);
        r.push(row_values(row.as_str()));
        i += 1;
    }
    assert(crate::value::nested_texts(r@) =~= rows_of(match_texts(matches@)));
    r
}

/// What an insert command says, from its sanitized text: the table, the
/// names of the column list and the rows; `None` if the text is no insert
/// command.
pub open spec fn insert_info(cmd: Seq<char>) -> Option<
    (Seq<char>, Seq<Seq<char>>, Seq<Seq<Seq<char>>>),
> {
    match regex_captured(insert_pattern(), cmd) {
        None => None,
        Some(groups) => {
            let rows = match regex_captured_all(row_pattern(), group_or_empty(groups, 3)) {
                Some(matches) => rows_of(matches),
                None => Seq::empty(),
            };
            Some((group_or_empty(groups, 1), column_names_of(group_or_empty(groups, 2)), rows))
        },
    }
}

/// Reads an insert command: the table, the column list and the rows of
/// texts. `None` if the text is no insert command.
pub fn extract_info_from_insert_cmd(cmd: String) -> (r: Option<
    (String, Vec<String>, Vec<Vec<String>>),
>)
    ensures
        match r {
            Some((table, columns, values)) => insert_info(sanitized(cmd@)) == Some(
                (table@, crate::value::texts(columns@), crate::value::nested_texts(values@)),
            ),
            None => insert_info(sanitized(cmd@)) is None,
        },
{
    let cmd = sanitize_user_input(cmd);
    let groups = match regex_captures(
        "[a-z]*\\s*[a-z]*\\s*([a-z]*)\\s*\\(((?:.|\\n)+)\\)\\s*[a-z]*\\s*(\\((?:.|\\n)+\\))",
        cmd.as_str(),
    ) {
        Some(groups) => groups,
        None => {
            return None;
        },
    };
    let table_name = group_text(&groups, 1);
    let columns = group_text(&groups, 2);
    let values_list = group_text(&groups, 3);
    let values = match regex_captures_iter(
        "\\(((\\d|[a-z]|[A-Z]|,|\\s|')*)\\)",
        values_list.as_str(),
    ) {
        Some(matches) => rows_from_matches(&matches),
        None => Vec::new(),
    };
    assert(values@.len() == 0 ==> crate::value::nested_texts(values@) =~= Seq::empty());
    Some((table_name, column_list(columns.as_str()), values))
}

/// A column as it was written: its name, the name of its type, whether it
/// is a primary key, and whether it is marked `not null`.
pub open spec fn written_column(c: ParsedColumn) -> (Seq<char>, Seq<char>, bool, bool) {
    (c.name@, c.datatype@, c.is_pk, c.is_nullable)
}

/// The columns `v` as they were written.
pub open spec fn written_columns(v: Seq<ParsedColumn>) -> Seq<(Seq<char>, Seq<char>, bool, bool)> {
    Seq::new(v.len(), |i: int| written_column(v[i]))
}

/// The column that a declaration names, once the words `primary key` and
/// `not null` are taken out of it and it is trimmed: a declaration of two
/// words, with one blank between them, gives a column with the first as
/// its name and the second as the name of its type. Any other declaration
/// gives none.
pub open spec fn declared_column(rest: Seq<char>, is_pk: bool, is_nullable: bool) -> Option<
    (Seq<char>, Seq<char>, bool, bool),
> {
    let words = split_on(rest, ' ');
    if words.len() == 2 {
        Some((words[0], words[1], is_pk, is_nullable))
    } else {
        None
    }
}

/// The column that the declaration `rest` names.
pub fn column_from_declaration(rest: &str, is_pk: bool, is_nullable: bool) -> (r: Option<
    ParsedColumn,
>)
    ensures
        match r {
            Some(c) => declared_column(rest@, is_pk, is_nullable) == Some(written_column(c)),
            None => declared_column(rest@, is_pk, is_nullable) is None,
        },
{
    let words = split_chars(&chars_of(rest), ' ');
    if words.len() == 2 {
        Some(
            ParsedColumn {
                name: text_of_chars(&words[0]),
                datatype: text_of_chars(&words[1]),
                is_pk,
                is_nullable,
            },
        )
    } else {
        None
    }
}

/// The column that one piece of the column list of a create command
/// declares. The piece is read in lower case. It declares a primary key
/// if it holds the words `primary key`, and is marked if it holds the
/// words `not null`; without these words, and trimmed, it has to be a
/// name and the name of a type.
pub open spec fn column_of_piece(piece: Seq<char>) -> Option<(Seq<char>, Seq<char>, bool, bool)> {
    let l = lowercased(piece);
    let rest = trimmed(without_text(without_text(l, "primary key"@), "not null"@));
    declared_column(rest, contains_text(l, "primary key"@), contains_text(l, "not null"@))
}

/// The columns that the pieces of a column list declare, in the order of
/// the pieces; a piece that declares none is passed over.
pub open spec fn columns_of_pieces(pieces: Seq<Seq<char>>) -> Seq<
    (Seq<char>, Seq<char>, bool, bool),
>
    decreases pieces.len(),
{
    if pieces.len() == 0 {
        Seq::empty()
    } else {
        let before = columns_of_pieces(pieces.drop_last());
        match column_of_piece(pieces.last()) {
            Some(c) => before.push(c),
            None => before,
        }
    }
}

/// What a create command says, from its sanitized text: the table and the
/// columns; `None` if the text is no create command.
pub open spec fn create_info(cmd: Seq<char>) -> Option<
    (Seq<char>, Seq<(Seq<char>, Seq<char>, bool, bool)>),
> {
    match regex_captured(create_pattern(), cmd) {
        None => None,
        Some(groups) => Some(
            (
                group_or_empty(groups, 1),
                columns_of_pieces(split_on(group_or_empty(groups, 2), ',')),
            ),
        ),
    }
}

/// Reads a create command: the table and its columns. `None` if the text
/// is no create command.
pub fn extract_info_from_create_table_cmd(cmd: String) -> (r: Option<(String, Vec<ParsedColumn>)>)
    ensures
        match r {
            Some((table, columns)) => create_info(sanitized(cmd@)) == Some(
                (table@, written_columns(columns@)),
            ),
            None => create_info(sanitized(cmd@)) is None,
        },
{
    let cmd = sanitize_user_input(cmd);
    let groups = match regex_captures(
        "create table ([a-z]*)\\s*\\(((?:.|\\n)+)\\)",
        cmd.as_str(),
    ) {
        Some(groups) => groups,
        None => {
            return None;
        },
    };
    let table_name = group_text(&groups, 1);
    let list = group_text(&groups, 2);
    let pieces = split_chars(&chars_of(list.as_str()), ',');
    let ghost all = crate::strings::piece_views(pieces@);
    let primary_key = chars_of("primary key");
    let not_null = chars_of("not null");
    let mut parsed_columns: Vec<ParsedColumn> = Vec::new();
    let mut i: usize = 0;
    assert(written_columns(parsed_columns@) =~= columns_of_pieces(all.take(0)));
    while i < pieces.len()
        invariant
            i <= pieces@.len(),
            all == crate::strings::piece_views(pieces@),
            primary_key@ == "primary key"@,
            not_null@ == "not null"@,
            written_columns(parsed_columns@) == columns_of_pieces(all.take(i as int)),
        decreases pieces@.len() - i,
    {
        assert(all.take(i + 1).drop_last() =~= all.take(i as int));
        assert(all.take(i + 1).last() == pieces@[i as int]@);
        let piece = text_of_chars(&pieces[i]);
        let l = chars_of(to_lowercase(piece.as_str()).as_str());
        let is_pk = contains_chars(&l, &primary_key);
        let is_nullable = contains_chars(&l, &not_null);
        let rest = remove_text(&remove_text(&l, &primary_key), &not_null);
        let rest = trim(text_of_chars(&rest).as_str());
        let ghost before = written_columns(parsed_columns@);
        match column_from_declaration(rest.as_str(), is_pk, is_nullable) {
            Some(c) => {
                parsed_columns.push(c);
                assert(written_columns(parsed_columns@) =~= before.push(written_column(c)));
            },
            None => {},
        }
        i += 1;
    }
    assert(all.take(pieces@.len() as int) =~= all);
    Some((table_name, parsed_columns))
}

} // verus!
