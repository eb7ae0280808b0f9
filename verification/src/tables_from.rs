//! The tables of a `FROM`.

use vstd::prelude::*;
use crate::ast::{FromTable, QueryAst, QueryBody, SelectAst, TableExtras, TableSource};
use crate::error::{fails_with, Failure, SqlError, SqlResult};
use crate::paths::{last_name, path_file_name};
use crate::text::{chars_of, join_with, joined_with, string_copy, substring, texts};

verus! {

/// A table that is read: where it is, and the name that it is given.
#[derive(Debug)]
pub struct TableRef {
    pub path: String,
    pub alias: Option<String>,
}

/// A table that is read, as a value.
pub struct Table {
    pub path: Seq<char>,
    pub alias: Option<Seq<char>>,
}

impl View for TableRef {
    type V = Table;

    open spec fn view(&self) -> Table {
        Table {
            path: self.path@,
            alias: match self.alias {
                Some(alias) => Some(alias@),
                None => None,
            },
        }
    }
}

/// Whether nothing is said of how to read a table.
pub open spec fn table_is_plain(extras: TableExtras) -> bool {
    !extras.args && extras.with_hints == 0 && !extras.version && !extras.with_ordinality
        && extras.partitions == 0 && !extras.json_path && !extras.sample && extras.index_hints == 0
}

/// Whether nothing is said of how to read a table.
fn is_plain_table(extras: &TableExtras) -> (plain: bool)
    ensures
        plain == table_is_plain(*extras),
{
    !extras.args && extras.with_hints == 0 && !extras.version && !extras.with_ordinality
        && extras.partitions == 0 && !extras.json_path && !extras.sample && extras.index_hints == 0
}

/// The failure for what is no table.
pub open spec fn no_table() -> Failure {
    Failure::Unsupported("only direct table paths or registered table names are supported"@)
}

/// The table that a `FROM` reads.
pub open spec fn table_of(source: TableSource) -> Result<Table, Failure> {
    match source {
        TableSource::Table { name, alias, extras } => match name {
            Some(parts) => if table_is_plain(extras) {
                Ok(
                    Table {
                        path: joined_with(texts(parts@), "."@),
                        alias: match alias {
                            Some(alias) => Some(alias@),
                            None => None,
                        },
                    },
                )
            } else {
                Err(Failure::Unsupported("only direct table scans are supported"@))
            },
            None => Err(no_table()),
        },
        _ => Err(no_table()),
    }
}

/// Whether a result is the table that a `FROM` reads.
pub open spec fn gives_table(
    result: SqlResult<TableRef>,
    expected: Result<Table, Failure>,
) -> bool {
    match expected {
        Ok(table) => result matches Ok(found) && found@ == table,
        Err(failure) => fails_with(result, failure),
    }
}

/// The table that a `FROM` reads.
pub fn parse_table_factor(source: &TableSource) -> (result: SqlResult<TableRef>)
    ensures
        gives_table(result, table_of(*source)),
{
    match source {
        TableSource::Table { name, alias, extras } => match name {
            Some(parts) => {
                if !is_plain_table(extras) {
                    return Err(SqlError::unsupported("only direct table scans are supported"));
                }
                let path = join_with(parts.as_slice(), ".");
                let alias = match alias {
                    Some(alias) => Some(string_copy(alias)),
                    None => None,
                };
                Ok(TableRef { path, alias })
            },
            None => Err(
                SqlError::unsupported(
                    "only direct table paths or registered table names are supported",
                ),
            ),
        },
        _ => Err(
            SqlError::unsupported("only direct table paths or registered table names are supported"),
        ),
    }
}

/// Whether a mark stands in a text for the last time at `place`.
pub open spec fn last_mark(text: Seq<char>, mark: char, place: int) -> bool {
    &&& 0 <= place < text.len()
    &&& text[place] == mark
    &&& forall|later: int| place < later < text.len() ==> #[trigger] text[later] != mark
}

/// What precedes the last dot of a text, unless it is the first character.
pub open spec fn before_dot(name: Seq<char>) -> Seq<char> {
    if exists|place: int| last_mark(name, '.', place) {
        let place = choose|place: int| last_mark(name, '.', place);
        if place > 0 {
            name.take(place)
        } else {
            name
        }
    } else {
        name
    }
}

/// The name of a table: that of its file, without what follows the last dot, and none where
/// a path ends with no name.
pub open spec fn table_name(path: Seq<char>) -> Seq<char> {
    match last_name(path) {
        Some(name) => before_dot(name),
        None => Seq::empty(),
    }
}

/// Where a mark stands in a text for the last time.
fn find_last(characters: &[char], mark: char) -> (found: Option<usize>)
    ensures
        match found {
            Some(place) => last_mark(characters@, mark, place as int),
            None => forall|place: int| 0 <= place < characters@.len() ==> #[trigger] characters@[place]
                != mark,
        },
{
    let mut rest: usize = characters.len();
    while rest > 0
        invariant
            rest <= characters@.len(),
            forall|later: int| rest <= later < characters@.len() ==> #[trigger] characters@[later]
                != mark,
        decreases rest,
    {
        if characters[rest - 1] == mark {
            return Some(rest - 1);
        }
        rest -= 1;
    }
    None
}

/// There is one last place of a mark.
proof fn lemma_last_mark_once(text: Seq<char>, mark: char, left: int, right: int)
    requires
        last_mark(text, mark, left),
        last_mark(text, mark, right),
    ensures
        left == right,
{
    if left < right {
        assert(text[right] != mark);
    } else if right < left {
        assert(text[left] != mark);
    }
}

/// The name of a table: that of its file, without what follows the last dot.
pub fn table_file_name(path: &str) -> (name: String)
    ensures
        name@ == table_name(path@),
{
    let file = match path_file_name(path) {
        Some(file) => file,
        None => {
            let none = String::new();
            assert(none@ =~= Seq::empty());
            return none;
        },
    };
    let characters = chars_of(file.as_str());
    match find_last(characters.as_slice(), '.') {
        Some(place) => {
            proof {
                let chosen = choose|place: int| last_mark(file@, '.', place);
                lemma_last_mark_once(file@, '.', chosen, place as int);
            }
            if place > 0 {
                let stem = substring(file.as_str(), 0, place);
                assert(stem@ =~= file@.take(place as int));
                return stem;
            }
        },
        None => {},
    }
    file
}

/// The name that a table goes by: its alias, else the name of its file.
pub open spec fn name_of(table: Table) -> Seq<char> {
    match table.alias {
        Some(alias) => alias,
        None => table_name(table.path),
    }
}

/// The name that a table goes by: its alias, else the name of its file.
pub fn table_ref_alias_or_name(table: &TableRef) -> (name: String)
    ensures
        name@ == name_of(table@),
{
    match &table.alias {
        Some(alias) => string_copy(alias),
        None => table_file_name(table.path.as_str()),
    }
}

/// The one table of a `FROM`.
pub open spec fn single_table(select: SelectAst) -> Result<Table, Failure> {
    if select.from@.len() != 1 {
        Err(Failure::Unsupported("expected exactly one FROM table"@))
    } else if select.from@[0].joins@.len() != 0 {
        Err(Failure::Unsupported("only direct table scans are supported"@))
    } else {
        table_of(select.from@[0].relation)
    }
}

/// The one table of a `FROM`.
pub fn parse_from(select: &SelectAst) -> (result: SqlResult<TableRef>)
    ensures
        gives_table(result, single_table(*select)),
{
    if select.from.len() != 1 {
        return Err(SqlError::unsupported("expected exactly one FROM table"));
    }
    if select.from[0].joins.len() != 0 {
        return Err(SqlError::unsupported("only direct table scans are supported"));
    }
    parse_table_factor(&select.from[0].relation)
}

/// The tables of a list, the first failure where one is none.
pub open spec fn listed_tables(from: Seq<FromTable>) -> Result<Seq<Table>, Failure>
    decreases from.len(),
{
    if from.len() == 0 {
        Ok(Seq::empty())
    } else {
        match listed_tables(from.drop_last()) {
            Err(failure) => Err(failure),
            Ok(earlier) => match table_of(from.last().relation) {
                Err(failure) => Err(failure),
                Ok(table) => Ok(earlier.push(table)),
            },
        }
    }
}

/// Whether a table of the list has others joined to it.
pub open spec fn any_joins(from: Seq<FromTable>) -> bool {
    exists|index: int| 0 <= index < from.len() && (#[trigger] from[index]).joins@.len() != 0
}

/// The tables of a `FROM` that lists several with commas, `None` where it does not.
pub open spec fn comma_tables(select: SelectAst) -> Result<Option<Seq<Table>>, Failure> {
    if select.from@.len() < 2 || any_joins(select.from@) {
        Ok(None)
    } else {
        match listed_tables(select.from@) {
            Ok(tables) => Ok(Some(tables)),
            Err(failure) => Err(failure),
        }
    }
}

/// Tables as values.
pub open spec fn table_views(tables: Seq<TableRef>) -> Seq<Table> {
    tables.map_values(|table: TableRef| table@)
}

proof fn lemma_tables_fail(from: Seq<FromTable>, count: int)
    requires
        0 <= count <= from.len(),
        listed_tables(from.take(count)) is Err,
    ensures
        listed_tables(from) == listed_tables(from.take(count)),
    decreases from.len() - count,
{
    if count < from.len() {
        assert(from.take(count + 1).drop_last() =~= from.take(count));
        lemma_tables_fail(from, count + 1);
    } else {
        assert(from.take(count) =~= from);
    }
}

/// Whether a table of the list has others joined to it.
pub fn has_joins(from: &Vec<FromTable>) -> (joined: bool)
    ensures
        joined == any_joins(from@),
{
    let mut index: usize = 0;
    while index < from.len()
        invariant
            index <= from@.len(),
            forall|earlier: int|
                0 <= earlier < index ==> (#[trigger] from@[earlier]).joins@.len() == 0,
        decreases from@.len() - index,
    {
        if from[index].joins.len() != 0 {
            assert(from@[index as int].joins@.len() != 0);
            return true;
        }
        index += 1;
    }
    false
}

/// The tables of a list.
fn parse_listed_tables(from: &Vec<FromTable>) -> (result: SqlResult<Vec<TableRef>>)
    ensures
        match listed_tables(from@) {
            Ok(tables) => result matches Ok(found) && table_views(found@) == tables,
            Err(failure) => fails_with(result, failure),
        },
{
    let mut tables: Vec<TableRef> = Vec::new();
    let mut index: usize = 0;
    proof {
        assert(from@.take(0) =~= Seq::empty());
        assert(table_views(tables@) =~= Seq::empty());
    }
    while index < from.len()
        invariant
            index <= from@.len(),
            listed_tables(from@.take(index as int)) == Ok::<Seq<Table>, Failure>(
                table_views(tables@),
            ),
        decreases from@.len() - index,
    {
        assert(from@.take(index + 1).drop_last() =~= from@.take(index as int));
        assert(from@.take(index + 1).last() == from@[index as int]);
        match parse_table_factor(&from[index].relation) {
            Ok(table) => {
                let ghost before = tables@;
                tables.push(table);
                assert(table_views(tables@) =~= table_views(before).push(table@));
            },
            Err(error) => {
                proof {
                    lemma_tables_fail(from@, index + 1);
                }
                return Err(error);
            },
        }
        index += 1;
    }
    assert(from@.take(index as int) =~= from@);
    Ok(tables)
}

/// The tables of a `FROM` that lists several with commas, `None` where it does not.
pub fn parse_comma_join_table_refs(select: &SelectAst) -> (result: SqlResult<Option<Vec<TableRef>>>)
    ensures
        match comma_tables(*select) {
            Ok(Some(tables)) => result matches Ok(Some(found)) && table_views(found@) == tables,
            Ok(None) => result matches Ok(None),
            Err(failure) => fails_with(result, failure),
        },
{
    if select.from.len() < 2 || has_joins(&select.from) {
        return Ok(None);
    }
    match parse_listed_tables(&select.from) {
        Ok(tables) => Ok(Some(tables)),
        Err(error) => Err(error),
    }
}

/// How many tables the `FROM` of a `SELECT` reads, joined ones too.
pub open spec fn table_count(from: Seq<FromTable>) -> int
    decreases from.len(),
{
    if from.len() == 0 {
        0
    } else {
        table_count(from.drop_last()) + 1 + from.last().joins@.len()
    }
}

/// Whether a `SELECT` reads more than two tables.
pub fn reads_many_tables(select: &SelectAst) -> (many: bool)
    ensures
        many == (table_count(select.from@) > 2),
{
    let mut count: usize = 0;
    let mut index: usize = 0;
    assert(select.from@.take(0) =~= Seq::empty());
    while index < select.from.len()
        invariant
            index <= select.from@.len(),
            count <= 2,
            count == table_count(select.from@.take(index as int)),
        decreases select.from@.len() - index,
    {
        assert(select.from@.take(index + 1).drop_last() =~= select.from@.take(index as int));
        let joins: usize = select.from[index].joins.len();
        if joins > 1 || count + 1 + joins > 2 {
            proof {
                lemma_count_grows(select.from@, index + 1);
            }
            return true;
        }
        count = count + 1 + joins;
        index += 1;
    }
    assert(select.from@.take(index as int) =~= select.from@);
    false
}

proof fn lemma_count_grows(from: Seq<FromTable>, count: int)
    requires
        0 <= count <= from.len(),
    ensures
        table_count(from.take(count)) <= table_count(from),
    decreases from.len() - count,
{
    if count < from.len() {
        assert(from.take(count + 1).drop_last() =~= from.take(count));
        lemma_count_grows(from, count + 1);
    } else {
        assert(from.take(count) =~= from);
    }
}

/// The subquery that a `FROM` reads in place of a table.
pub open spec fn derived_query(select: SelectAst) -> Option<QueryAst> {
    if select.from@.len() == 1 && select.from@[0].joins@.len() == 0 {
        match select.from@[0].relation {
            TableSource::Derived { subquery, .. } => Some(*subquery),
            _ => None,
        }
    } else {
        None
    }
}

/// The subquery that a `FROM` reads in place of a table.
pub fn parse_derived_from(select: &SelectAst) -> (query: Option<&QueryAst>)
    ensures
        match derived_query(*select) {
            Some(expected) => query matches Some(query) && *query == expected,
            None => query is None,
        },
{
    if select.from.len() == 1 && select.from[0].joins.len() == 0 {
        match &select.from[0].relation {
            TableSource::Derived { subquery, .. } => Some(&**subquery),
            _ => None,
        }
    } else {
        None
    }
}

/// Whether the body of a query combines others.
pub open spec fn combines(body: QueryBody) -> bool
    decreases body,
{
    match body {
        QueryBody::SetOperation { .. } => true,
        QueryBody::Query(query) => combines(query.body),
        _ => false,
    }
}

/// Whether the body of a query combines others.
pub fn query_contains_set_operation(body: &QueryBody) -> (found: bool)
    ensures
        found == combines(*body),
    decreases *body,
{
    match body {
        QueryBody::SetOperation { .. } => true,
        QueryBody::Query(query) => query_contains_set_operation(&query.body),
        _ => false,
    }
}

} // verus!
