//! Column names and the tables they belong to.

use vstd::prelude::*;
use crate::ast::{SqlExpr, SqlExprKind};
use crate::error::{fails_with, Failure, SqlError, SqlResult};
use crate::plan::Projection;
use crate::text::{
    chars_of, joined, lowered, str_eq, string_copy, substring, texts, to_ascii_lowercase,
};

verus! {

/// The prefix that the columns of a benchmark table have.
pub open spec fn table_prefix(alias: Seq<char>) -> Option<Seq<char>> {
    let table = lowered(alias);
    if table == "customer"@ {
        Some("c"@)
    } else if table == "orders"@ {
        Some("o"@)
    } else if table == "lineitem"@ {
        Some("l"@)
    } else if table == "part"@ {
        Some("p"@)
    } else if table == "partsupp"@ {
        Some("ps"@)
    } else if table == "supplier"@ {
        Some("s"@)
    } else if table == "nation"@ {
        Some("n"@)
    } else if table == "region"@ {
        Some("r"@)
    } else {
        None
    }
}

/// The prefix that the columns of a benchmark table have.
pub fn tpch_alias_prefix(alias: &str) -> (prefix: Option<&'static str>)
    ensures
        match table_prefix(alias@) {
            Some(expected) => prefix matches Some(prefix) && prefix@ == expected,
            None => prefix is None,
        },
{
    let table = to_ascii_lowercase(alias);
    let table = table.as_str();
    if str_eq(table, "customer") {
        Some("c")
    } else if str_eq(table, "orders") {
        Some("o")
    } else if str_eq(table, "lineitem") {
        Some("l")
    } else if str_eq(table, "part") {
        Some("p")
    } else if str_eq(table, "partsupp") {
        Some("ps")
    } else if str_eq(table, "supplier") {
        Some("s")
    } else if str_eq(table, "nation") {
        Some("n")
    } else if str_eq(table, "region") {
        Some("r")
    } else {
        None
    }
}

/// The texts of string slices.
pub open spec fn slice_texts(slices: Seq<&str>) -> Seq<Seq<char>> {
    slices.map_values(|slice: &str| slice@)
}

/// Whether `index` is the first alias whose columns have the prefix.
pub open spec fn first_with_prefix(prefix: Seq<char>, aliases: Seq<Seq<char>>, index: int) -> bool {
    &&& 0 <= index < aliases.len()
    &&& table_prefix(aliases[index]) == Some(prefix)
    &&& forall|earlier: int|
        0 <= earlier < index ==> table_prefix(#[trigger] aliases[earlier]) != Some(prefix)
}

/// The first alias whose columns have the prefix.
pub fn infer_tpch_table_alias<'a>(prefix: &str, aliases: &[&'a str]) -> (alias: Option<&'a str>)
    ensures
        match alias {
            Some(alias) => exists|index: int| #[trigger]
                first_with_prefix(prefix@, slice_texts(aliases@), index) && slice_texts(
                    aliases@,
                )[index] == alias@,
            None => forall|index: int|
                0 <= index < aliases@.len() ==> table_prefix(
                    #[trigger] slice_texts(aliases@)[index],
                ) != Some(prefix@),
        },
{
    let mut index: usize = 0;
    while index < aliases.len()
        invariant
            index <= aliases@.len(),
            forall|earlier: int|
                0 <= earlier < index ==> table_prefix(
                    #[trigger] slice_texts(aliases@)[earlier],
                ) != Some(prefix@),
        decreases aliases@.len() - index,
    {
        match tpch_alias_prefix(aliases[index]) {
            Some(found) => {
                if str_eq(found, prefix) {
                    assert(slice_texts(aliases@)[index as int] == aliases@[index as int]@);
                    assert(first_with_prefix(prefix@, slice_texts(aliases@), index as int));
                    return Some(aliases[index]);
                }
            },
            None => {},
        }
        index += 1;
    }
    None
}

/// Whether the first underscore of a text stands at `place`.
pub open spec fn first_underscore(text: Seq<char>, place: int) -> bool {
    &&& 0 <= place < text.len()
    &&& text[place] == '_'
    &&& forall|earlier: int| 0 <= earlier < place ==> #[trigger] text[earlier] != '_'
}

/// What stands before the first underscore, `None` where there is none.
pub open spec fn column_prefix(column: Seq<char>) -> Option<Seq<char>> {
    if exists|place: int| first_underscore(column, place) {
        Some(column.take(choose|place: int| first_underscore(column, place)))
    } else {
        None
    }
}

/// What stands before the first underscore, `None` where there is none.
fn read_column_prefix(column: &str) -> (prefix: Option<String>)
    ensures
        match column_prefix(column@) {
            Some(expected) => prefix matches Some(prefix) && prefix@ == expected,
            None => prefix is None,
        },
{
    let characters = chars_of(column);
    let mut place: usize = 0;
    while place < characters.len()
        invariant
            characters@ == column@,
            place <= characters@.len(),
            forall|earlier: int| 0 <= earlier < place ==> #[trigger] column@[earlier] != '_',
        decreases characters@.len() - place,
    {
        if characters[place] == '_' {
            proof {
                assert(first_underscore(column@, place as int));
                let found = choose|place: int| first_underscore(column@, place);
                assert(found == place);
                assert(column@.take(place as int) =~= column@.subrange(0, place as int));
            }
            return Some(substring(column, 0, place));
        }
        place += 1;
    }
    None
}

/// Whether a column without a table belongs, by its prefix, to the table of the alias.
pub open spec fn column_belongs(column: Seq<char>, table_alias: Option<Seq<char>>) -> bool {
    match (table_alias, column_prefix(column)) {
        (Some(alias), Some(prefix)) => table_prefix(alias) == Some(prefix),
        _ => false,
    }
}

/// Whether a column without a table belongs, by its prefix, to the table of the alias.
pub fn unqualified_column_matches_table_alias(column: &str, table_alias: Option<&str>) -> (belongs:
    bool)
    ensures
        belongs == column_belongs(column@, alias_view(table_alias)),
{
    match table_alias {
        Some(alias) => match read_column_prefix(column) {
            Some(prefix) => match tpch_alias_prefix(alias) {
                Some(expected) => str_eq(expected, prefix.as_str()),
                None => false,
            },
            None => false,
        },
        None => false,
    }
}

/// The columns with one more, unless it is there.
pub open spec fn with_column(columns: Seq<Seq<char>>, column: Seq<char>) -> Seq<Seq<char>> {
    if columns.contains(column) {
        columns
    } else {
        columns.push(column)
    }
}

/// The columns with more of them, each unless it is there.
pub open spec fn with_columns(columns: Seq<Seq<char>>, more: Seq<Seq<char>>) -> Seq<Seq<char>>
    decreases more.len(),
{
    if more.len() == 0 {
        columns
    } else {
        with_column(with_columns(columns, more.drop_last()), more.last())
    }
}

/// Adding columns keeps those that are there, in their places, and leaves none twice.
pub proof fn law_with_columns(columns: Seq<Seq<char>>, more: Seq<Seq<char>>)
    requires
        columns.no_duplicates(),
    ensures
        with_columns(columns, more).no_duplicates(),
        columns.len() <= with_columns(columns, more).len(),
        with_columns(columns, more).take(columns.len() as int) =~= columns,
        forall|column: Seq<char>| #[trigger]
            with_columns(columns, more).contains(column) <==> columns.contains(column)
                || more.contains(column),
    decreases more.len(),
{
    let all = with_columns(columns, more);
    if more.len() > 0 {
        let shorter = more.drop_last();
        let last = more.last();
        let earlier = with_columns(columns, shorter);
        law_with_columns(columns, shorter);
        assert(more =~= shorter.push(last));
        assert forall|column: Seq<char>| #[trigger] all.contains(column) <==> columns.contains(
            column,
        ) || more.contains(column) by {
            lemma_push_holds(shorter, last, column);
            lemma_push_holds(earlier, last, column);
        }
        if !earlier.contains(last) {
            assert(all.take(columns.len() as int) =~= earlier.take(columns.len() as int));
            assert forall|left: int, right: int|
                0 <= left < all.len() && 0 <= right < all.len() && left != right implies all[left]
                != all[right] by {
                if left == earlier.len() {
                    assert(earlier.contains(earlier[right]));
                } else if right == earlier.len() {
                    assert(earlier.contains(earlier[left]));
                }
            }
        }
    } else {
        assert(all.take(columns.len() as int) =~= columns);
    }
}

proof fn lemma_push_holds<T>(list: Seq<T>, last: T, value: T)
    ensures
        list.push(last).contains(value) <==> list.contains(value) || value == last,
{
    let longer = list.push(last);
    if list.contains(value) {
        let place = choose|place: int| 0 <= place < list.len() && list[place] == value;
        assert(longer[place] == value);
    }
    assert(longer[list.len() as int] == last);
    if longer.contains(value) && value != last {
        let place = choose|place: int| 0 <= place < longer.len() && longer[place] == value;
        assert(list[place] == value);
    }
}

/// Whether one of the strings is the given text.
pub fn contains_text(strings: &[String], wanted: &str) -> (found: bool)
    ensures
        found == texts(strings@).contains(wanted@),
{
    let mut index: usize = 0;
    while index < strings.len()
        invariant
            index <= strings@.len(),
            forall|earlier: int| 0 <= earlier < index ==> (#[trigger] strings@[earlier])@ != wanted@,
        decreases strings@.len() - index,
    {
        if str_eq(strings[index].as_str(), wanted) {
            assert(texts(strings@)[index as int] == wanted@);
            return true;
        }
        index += 1;
    }
    proof {
        if texts(strings@).contains(wanted@) {
            let place = choose|place: int|
                0 <= place < strings@.len() && texts(strings@)[place] == wanted@;
            assert(strings@[place]@ == wanted@);
        }
    }
    false
}

/// Adds a column, unless it is there.
pub fn add_column_once(columns: &mut Vec<String>, column: String)
    ensures
        texts(final(columns)@) == with_column(texts(old(columns)@), column@),
{
    if !contains_text(columns.as_slice(), column.as_str()) {
        let ghost before = columns@;
        columns.push(column);
        assert(texts(columns@) =~= texts(before).push(column@));
    }
}

/// Adds columns, each unless it is there.
pub fn add_columns_once(columns: &mut Vec<String>, more: Vec<String>)
    ensures
        texts(final(columns)@) == with_columns(texts(old(columns)@), texts(more@)),
{
    let ghost all = more@;
    let ghost before = texts(columns@);
    assert(texts(all).take(0) =~= Seq::empty());
    for column in rest: more
        invariant
            rest.seq() == all,
            before == texts(old(columns)@),
            texts(columns@) == with_columns(before, texts(all).take(rest.index())),
    {
        let ghost index = rest.index();
        proof {
            assert(column == all[index]);
            let longer = texts(all).take(index + 1);
            assert(longer.drop_last() =~= texts(all).take(index));
            assert(longer.last() == column@);
        }
        add_column_once(columns, column);
    }
    assert(texts(all).take(all.len() as int) =~= texts(all));
}

/// The columns of a projection, `None` for all of them.
pub open spec fn projected(projection: Projection) -> Option<Seq<Seq<char>>> {
    match projection {
        Projection::All => None,
        Projection::Columns(columns) => Some(texts(columns@)),
    }
}

/// The columns of a projection with more of them.
pub open spec fn projected_with(projection: Option<Seq<Seq<char>>>, more: Seq<Seq<char>>) -> Option<
    Seq<Seq<char>>,
> {
    match projection {
        Some(columns) => Some(with_columns(columns, more)),
        None => None,
    }
}

/// The projection with more columns, each unless it is there; all columns stay all.
pub fn add_projection_columns(
    projection: Projection,
    columns: Vec<String>,
) -> (extended: Projection)
    ensures
        projected(extended) == projected_with(projected(projection), texts(columns@)),
{
    match projection {
        Projection::All => Projection::All,
        Projection::Columns(existing) => {
            let mut all = existing;
            add_columns_once(&mut all, columns);
            Projection::Columns(all)
        },
    }
}

/// The tables that columns are looked for in: one, by its alias where it has one, or
/// several that are joined.
#[derive(Clone, Copy)]
pub enum Scope<'a> {
    Table(Option<&'a str>),
    Join(&'a [&'a str]),
}

/// A column qualified by its table.
pub open spec fn qualified(table: Seq<char>, column: Seq<char>) -> Seq<char> {
    table + "."@ + column
}

/// The first alias, in order, whose columns have the prefix.
pub open spec fn alias_with_prefix(
    prefix: Seq<char>,
    aliases: Seq<Seq<char>>,
) -> Option<Seq<char>> {
    if exists|index: int| first_with_prefix(prefix, aliases, index) {
        Some(aliases[choose|index: int| first_with_prefix(prefix, aliases, index)])
    } else {
        None
    }
}

/// The tables that columns are looked for in, as values.
pub enum Tables {
    Table(Option<Seq<char>>),
    Join(Seq<Seq<char>>),
}

/// The text of an alias.
pub open spec fn alias_view(alias: Option<&str>) -> Option<Seq<char>> {
    match alias {
        Some(alias) => Some(alias@),
        None => None,
    }
}

impl<'a> View for Scope<'a> {
    type V = Tables;

    open spec fn view(&self) -> Tables {
        match *self {
            Scope::Table(alias) => Tables::Table(alias_view(alias)),
            Scope::Join(aliases) => Tables::Join(slice_texts(aliases@)),
        }
    }
}

/// The name that a column goes by. Of one table it is the bare name; of joined tables it
/// is qualified, a bare one by the table that its prefix tells.
pub open spec fn column_in(expr: SqlExpr, scope: Tables) -> Result<Seq<char>, Failure> {
    match expr.kind {
        SqlExprKind::Identifier(name) => match scope {
            Tables::Table(_) => Ok(name@),
            Tables::Join(aliases) => match column_prefix(name@) {
                Some(prefix) => match alias_with_prefix(prefix, aliases) {
                    Some(alias) => Ok(qualified(alias, name@)),
                    None => Err(Failure::UnknownColumn(name@)),
                },
                None => Err(Failure::UnknownColumn(name@)),
            },
        },
        SqlExprKind::CompoundIdentifier(names) => if names@.len() != 2 {
            Err(Failure::Unsupported("expected column identifier, got "@ + expr.text@))
        } else {
            let table = names@[0]@;
            let column = names@[1]@;
            match scope {
                Tables::Table(Some(alias)) => if alias == table {
                    Ok(column)
                } else {
                    Err(Failure::UnknownColumn(qualified(table, column)))
                },
                Tables::Table(None) => Ok(column),
                Tables::Join(aliases) => if aliases.contains(table) {
                    Ok(qualified(table, column))
                } else {
                    Err(Failure::UnknownColumn(qualified(table, column)))
                },
            }
        },
        _ => Err(Failure::Unsupported("expected column identifier, got "@ + expr.text@)),
    }
}

/// Whether a result is the name that a column goes by.
pub open spec fn names_column(expr: SqlExpr, scope: Tables, result: SqlResult<String>) -> bool {
    match column_in(expr, scope) {
        Ok(name) => result matches Ok(column) && column@ == name,
        Err(failure) => fails_with(result, failure),
    }
}

/// A column qualified by its table.
fn qualify(table: &str, column: &str) -> (name: String)
    ensures
        name@ == qualified(table@, column@),
{
    let dotted = joined(table, ".");
    joined(dotted.as_str(), column)
}

/// The first alias whose columns have the prefix of the column.
pub(crate) fn alias_by_prefix<'a>(column: &str, aliases: &[&'a str]) -> (alias: Option<&'a str>)
    ensures
        match column_prefix(column@) {
            Some(prefix) => match alias_with_prefix(prefix, slice_texts(aliases@)) {
                Some(expected) => alias matches Some(alias) && alias@ == expected,
                None => alias is None,
            },
            None => alias is None,
        },
{
    match read_column_prefix(column) {
        Some(prefix) => {
            let alias = infer_tpch_table_alias(prefix.as_str(), aliases);
            proof {
                if alias is Some {
                    let all = slice_texts(aliases@);
                    let index = choose|index: int| #[trigger]
                        first_with_prefix(prefix@, all, index) && all[index] == alias->0@;
                    let found = choose|index: int| first_with_prefix(prefix@, all, index);
                    assert(first_with_prefix(prefix@, all, found));
                    if found < index {
                        assert(table_prefix(all[found]) != Some(prefix@));
                    } else if index < found {
                        assert(table_prefix(all[index]) != Some(prefix@));
                    }
                }
            }
            alias
        },
        None => None,
    }
}

/// The name that a column goes by.
pub fn sql_column_name(expr: &SqlExpr, scope: Scope<'_>) -> (result: SqlResult<String>)
    ensures
        names_column(*expr, scope@, result),
{
    match &expr.kind {
        SqlExprKind::Identifier(name) => match scope {
            Scope::Table(_) => Ok(string_copy(name)),
            Scope::Join(aliases) => match alias_by_prefix(name.as_str(), aliases) {
                Some(alias) => Ok(qualify(alias, name.as_str())),
                None => Err(SqlError::unknown_column(name.as_str())),
            },
        },
        SqlExprKind::CompoundIdentifier(names) => {
            if names.len() != 2 {
                return Err(
                    SqlError::UnsupportedSql(
                        joined("expected column identifier, got ", expr.text.as_str()),
                    ),
                );
            }
            let table = names[0].as_str();
            let column = names[1].as_str();
            match scope {
                Scope::Table(Some(alias)) => {
                    if str_eq(alias, table) {
                        Ok(string_copy(&names[1]))
                    } else {
                        Err(SqlError::UnknownColumn(qualify(table, column)))
                    }
                },
                Scope::Table(None) => Ok(string_copy(&names[1])),
                Scope::Join(aliases) => {
                    let mut index: usize = 0;
                    while index < aliases.len()
                        invariant
                            index <= aliases@.len(),
                            forall|earlier: int|
                                0 <= earlier < index ==> #[trigger] slice_texts(aliases@)[earlier]
                                    != table@,
                            table@ == names@[0]@,
                            column@ == names@[1]@,
                            names@.len() == 2,
                            expr.kind == SqlExprKind::CompoundIdentifier(*names),
                            scope == Scope::Join(aliases),
                        decreases aliases@.len() - index,
                    {
                        if str_eq(aliases[index], table) {
                            assert(slice_texts(aliases@)[index as int] == table@);
                            return Ok(qualify(table, column));
                        }
                        index += 1;
                    }
                    Err(SqlError::UnknownColumn(qualify(table, column)))
                },
            }
        },
        _ => Err(
            SqlError::UnsupportedSql(
                joined("expected column identifier, got ", expr.text.as_str()),
            ),
        ),
    }
}

/// The column and the field that an expression accesses: two names of which the first is
/// not the alias of the table, or a column and a field behind the name of the table.
/// `None` where it accesses no field.
pub open spec fn struct_field_of(expr: SqlExpr, scope: Tables) -> Option<(Seq<char>, Seq<char>)> {
    match expr.kind {
        SqlExprKind::CompoundIdentifier(names) => match scope {
            Tables::Table(Some(alias)) => if names@.len() == 2 && names@[0]@ != alias {
                Some((names@[0]@, names@[1]@))
            } else if names@.len() == 3 && names@[0]@ == alias {
                Some((names@[1]@, names@[2]@))
            } else {
                None
            },
            Tables::Table(None) => if names@.len() == 3 {
                Some((names@[1]@, names@[2]@))
            } else {
                None
            },
            Tables::Join(_) => None,
        },
        _ => None,
    }
}

/// The column and the field that an expression accesses.
pub fn parse_struct_field_access(expr: &SqlExpr, scope: Scope<'_>) -> (access: Option<
    (String, String),
>)
    ensures
        match struct_field_of(*expr, scope@) {
            Some((column, field)) => access matches Some((found, part)) && found@ == column
                && part@ == field,
            None => access is None,
        },
{
    match &expr.kind {
        SqlExprKind::CompoundIdentifier(names) => match scope {
            Scope::Table(Some(alias)) => {
                if names.len() == 2 && !str_eq(names[0].as_str(), alias) {
                    Some((string_copy(&names[0]), string_copy(&names[1])))
                } else if names.len() == 3 && str_eq(names[0].as_str(), alias) {
                    Some((string_copy(&names[1]), string_copy(&names[2])))
                } else {
                    None
                }
            },
            Scope::Table(None) => {
                if names.len() == 3 {
                    Some((string_copy(&names[1]), string_copy(&names[2])))
                } else {
                    None
                }
            },
            Scope::Join(_) => None,
        },
        _ => None,
    }
}

/// The name under which an expression is put out: a column by its bare name, anything
/// else by its text.
pub open spec fn output_name(expr: SqlExpr) -> Seq<char> {
    match expr.kind {
        SqlExprKind::Identifier(name) => name@,
        SqlExprKind::CompoundIdentifier(names) => if names@.len() > 0 {
            names@.last()@
        } else {
            expr.text@
        },
        _ => expr.text@,
    }
}

/// The name under which an expression is put out.
pub fn column_output_name(expr: &SqlExpr) -> (name: String)
    ensures
        name@ == output_name(*expr),
{
    match &expr.kind {
        SqlExprKind::Identifier(name) => string_copy(name),
        SqlExprKind::CompoundIdentifier(names) => {
            if names.len() > 0 {
                string_copy(&names[names.len() - 1])
            } else {
                string_copy(&expr.text)
            }
        },
        _ => string_copy(&expr.text),
    }
}

/// A column is among columns with more of them where it is among either.
pub proof fn lemma_with_columns_holds(
    columns: Seq<Seq<char>>,
    more: Seq<Seq<char>>,
    column: Seq<char>,
)
    ensures
        with_columns(columns, more).contains(column) <==> columns.contains(column)
            || more.contains(column),
    decreases more.len(),
{
    if more.len() > 0 {
        let earlier = with_columns(columns, more.drop_last());
        lemma_with_columns_holds(columns, more.drop_last(), column);
        lemma_push_holds(more.drop_last(), more.last(), column);
        lemma_push_holds(earlier, more.last(), column);
        assert(more =~= more.drop_last().push(more.last()));
    }
}

} // verus!
