//! Expressions of SQL: how they are written, what they name, and what they come to for a row. The
//! conditions and assignments of the statements are related to each other by them.

use vstd::prelude::*;

use crate::sqlite::SqlTerm;
use crate::text::{decimal, holds_part, joined, signed_decimal, stands_at};

verus! {

/// An expression of SQL, as far as the statements use them.
pub enum SqlExpr {
    /// The column with this name.
    Column(Seq<char>),
    /// The first parameter.
    Parameter,
    /// A literal as it is written, and what it stands for.
    Literal(Seq<char>, SqlTerm),
    /// `NULLIF(e, '')`.
    NullIfEmpty(Box<SqlExpr>),
    /// `e IS NOT NULL`.
    IsThere(Box<SqlExpr>),
    /// `COALESCE(e)`, where the arguments are those of `Else`.
    Coalesce(Box<SqlExpr>),
    /// Two arguments of `COALESCE`: the first that is not null counts.
    Else(Box<SqlExpr>, Box<SqlExpr>),
    /// `a <> b`.
    Differs(Box<SqlExpr>, Box<SqlExpr>),
    /// `a = b`.
    Equals(Box<SqlExpr>, Box<SqlExpr>),
    /// `a * b`.
    Times(Box<SqlExpr>, Box<SqlExpr>),
    /// `a AND b`.
    Both(Box<SqlExpr>, Box<SqlExpr>),
    /// `a OR b`.
    Either(Box<SqlExpr>, Box<SqlExpr>),
    /// `(e)`.
    Group(Box<SqlExpr>),
    /// `CASE WHEN a THEN b ELSE c END`.
    Case(Box<SqlExpr>, Box<SqlExpr>, Box<SqlExpr>),
}

/// The text of an expression.
pub open spec fn sql_text(expr: SqlExpr) -> Seq<char>
    decreases expr,
{
    match expr {
        SqlExpr::Column(name) => name,
        SqlExpr::Parameter => "?1"@,
        SqlExpr::Literal(written, _) => written,
        SqlExpr::NullIfEmpty(e) => "NULLIF("@ + sql_text(*e) + ", '')"@,
        SqlExpr::IsThere(e) => sql_text(*e) + " IS NOT NULL"@,
        SqlExpr::Coalesce(e) => "COALESCE("@ + sql_text(*e) + ")"@,
        SqlExpr::Else(a, b) => sql_text(*a) + ", "@ + sql_text(*b),
        SqlExpr::Differs(a, b) => sql_text(*a) + " <> "@ + sql_text(*b),
        SqlExpr::Equals(a, b) => sql_text(*a) + " = "@ + sql_text(*b),
        SqlExpr::Times(a, b) => sql_text(*a) + " * "@ + sql_text(*b),
        SqlExpr::Both(a, b) => sql_text(*a) + " AND "@ + sql_text(*b),
        SqlExpr::Either(a, b) => sql_text(*a) + " OR "@ + sql_text(*b),
        SqlExpr::Group(e) => "("@ + sql_text(*e) + ")"@,
        SqlExpr::Case(a, b, c) => "CASE WHEN "@ + sql_text(*a) + " THEN "@ + sql_text(*b)
            + " ELSE "@ + sql_text(*c) + " END"@,
    }
}

/// The number that a comparison comes to.
pub open spec fn truth(yes: bool) -> SqlTerm {
    SqlTerm::Integer(
        if yes {
            1
        } else {
            0
        },
    )
}

/// Whether a condition that comes to this value is met.
pub open spec fn is_true(value: SqlTerm) -> bool {
    value matches SqlTerm::Integer(n) && n != 0
}

/// Whether a condition that comes to this value is known not to be met.
pub open spec fn is_false(value: SqlTerm) -> bool {
    value == SqlTerm::Integer(0)
}

/// What an expression comes to for a row, given by what each column holds, and for a value of the
/// first parameter. A comparison with null is null; two other values are equal where they are the
/// same. Beside null, a column is taken to hold values of one kind; what is multiplied is taken to
/// be whole numbers, and their product to be one that a column can hold.
pub open spec fn sql_value(
    expr: SqlExpr,
    row: spec_fn(Seq<char>) -> SqlTerm,
    parameter: SqlTerm,
) -> SqlTerm
    decreases expr,
{
    match expr {
        SqlExpr::Column(name) => row(name),
        SqlExpr::Parameter => parameter,
        SqlExpr::Literal(_, value) => value,
        SqlExpr::NullIfEmpty(e) => {
            let value = sql_value(*e, row, parameter);
            if value == SqlTerm::Text(seq![]) {
                SqlTerm::Null
            } else {
                value
            }
        },
        SqlExpr::IsThere(e) => truth(!(sql_value(*e, row, parameter) is Null)),
        SqlExpr::Coalesce(e) => sql_value(*e, row, parameter),
        SqlExpr::Else(a, b) => {
            let value = sql_value(*a, row, parameter);
            if value is Null {
                sql_value(*b, row, parameter)
            } else {
                value
            }
        },
        SqlExpr::Differs(a, b) => {
            let x = sql_value(*a, row, parameter);
            let y = sql_value(*b, row, parameter);
            if x is Null || y is Null {
                SqlTerm::Null
            } else {
                truth(x != y)
            }
        },
        SqlExpr::Equals(a, b) => {
            let x = sql_value(*a, row, parameter);
            let y = sql_value(*b, row, parameter);
            if x is Null || y is Null {
                SqlTerm::Null
            } else {
                truth(x == y)
            }
        },
        SqlExpr::Times(a, b) => {
            match (sql_value(*a, row, parameter), sql_value(*b, row, parameter)) {
                (SqlTerm::Integer(x), SqlTerm::Integer(y)) => SqlTerm::Integer((x * y) as i64),
                _ => SqlTerm::Null,
            }
        },
        SqlExpr::Both(a, b) => {
            let x = sql_value(*a, row, parameter);
            let y = sql_value(*b, row, parameter);
            if is_false(x) || is_false(y) {
                truth(false)
            } else if is_true(x) && is_true(y) {
                truth(true)
            } else {
                SqlTerm::Null
            }
        },
        SqlExpr::Either(a, b) => {
            let x = sql_value(*a, row, parameter);
            let y = sql_value(*b, row, parameter);
            if is_true(x) || is_true(y) {
                truth(true)
            } else if is_false(x) && is_false(y) {
                truth(false)
            } else {
                SqlTerm::Null
            }
        },
        SqlExpr::Group(e) => sql_value(*e, row, parameter),
        SqlExpr::Case(a, b, c) => if is_true(sql_value(*a, row, parameter)) {
            sql_value(*b, row, parameter)
        } else {
            sql_value(*c, row, parameter)
        },
    }
}

/// Whether an expression names a column.
pub open spec fn names_column(expr: SqlExpr, column: Seq<char>) -> bool
    decreases expr,
{
    match expr {
        SqlExpr::Column(name) => name == column,
        SqlExpr::Parameter | SqlExpr::Literal(_, _) => false,
        SqlExpr::NullIfEmpty(e)
        | SqlExpr::IsThere(e)
        | SqlExpr::Coalesce(e)
        | SqlExpr::Group(e) => names_column(*e, column),
        SqlExpr::Else(a, b)
        | SqlExpr::Differs(a, b)
        | SqlExpr::Equals(a, b)
        | SqlExpr::Times(a, b)
        | SqlExpr::Both(a, b)
        | SqlExpr::Either(a, b) => names_column(*a, column) || names_column(*b, column),
        SqlExpr::Case(a, b, c) => names_column(*a, column) || names_column(*b, column)
            || names_column(*c, column),
    }
}

/// Whether an expression uses the first parameter.
pub open spec fn uses_parameter(expr: SqlExpr) -> bool
    decreases expr,
{
    match expr {
        SqlExpr::Parameter => true,
        SqlExpr::Column(_) | SqlExpr::Literal(_, _) => false,
        SqlExpr::NullIfEmpty(e)
        | SqlExpr::IsThere(e)
        | SqlExpr::Coalesce(e)
        | SqlExpr::Group(e) => uses_parameter(*e),
        SqlExpr::Else(a, b)
        | SqlExpr::Differs(a, b)
        | SqlExpr::Equals(a, b)
        | SqlExpr::Times(a, b)
        | SqlExpr::Both(a, b)
        | SqlExpr::Either(a, b) => uses_parameter(*a) || uses_parameter(*b),
        SqlExpr::Case(a, b, c) => uses_parameter(*a) || uses_parameter(*b) || uses_parameter(*c),
    }
}

pub open spec fn column(name: Seq<char>) -> Box<SqlExpr> {
    Box::new(SqlExpr::Column(name))
}

/// The empty text.
pub open spec fn empty_text() -> Box<SqlExpr> {
    Box::new(SqlExpr::Literal("''"@, SqlTerm::Text(seq![])))
}

/// The condition of which one part has to be met.
pub open spec fn any_of(parts: Seq<SqlExpr>) -> SqlExpr
    recommends
        parts.len() > 0,
    decreases parts.len(),
{
    if parts.len() <= 1 {
        parts[0]
    } else {
        SqlExpr::Either(Box::new(any_of(parts.drop_last())), Box::new(parts.last()))
    }
}

/// The texts of the expressions.
pub open spec fn sql_texts(parts: Seq<SqlExpr>) -> Seq<Seq<char>> {
    parts.map_values(|part: SqlExpr| sql_text(part))
}

/// A condition of which one part has to be met is written with `OR` between the parts.
pub proof fn lemma_any_of_text(parts: Seq<SqlExpr>)
    requires
        parts.len() > 0,
    ensures
        sql_text(any_of(parts)) == joined(sql_texts(parts), " OR "@),
    decreases parts.len(),
{
    if parts.len() > 1 {
        lemma_any_of_text(parts.drop_last());
        assert(sql_texts(parts).drop_last() =~= sql_texts(parts.drop_last()));
    }
}

/// A condition of which one part has to be met is met exactly where one is.
pub proof fn lemma_any_of_value(
    parts: Seq<SqlExpr>,
    row: spec_fn(Seq<char>) -> SqlTerm,
    parameter: SqlTerm,
)
    requires
        parts.len() > 0,
    ensures
        is_true(sql_value(any_of(parts), row, parameter)) <==> exists|i: int|
            0 <= i < parts.len() && is_true(sql_value(#[trigger] parts[i], row, parameter)),
    decreases parts.len(),
{
    if parts.len() > 1 {
        let rest = parts.drop_last();
        lemma_any_of_value(rest, row, parameter);
        assert(any_of(parts) == SqlExpr::Either(Box::new(any_of(rest)), Box::new(parts.last())));
        assert(parts.last() == parts[parts.len() - 1]);
        if is_true(sql_value(any_of(rest), row, parameter)) {
            let i = choose|i: int|
                0 <= i < rest.len() && is_true(sql_value(#[trigger] rest[i], row, parameter));
            assert(parts[i] == rest[i]);
        }
        if exists|i: int|
            0 <= i < parts.len() && is_true(sql_value(#[trigger] parts[i], row, parameter)) {
            let i = choose|i: int|
                0 <= i < parts.len() && is_true(sql_value(#[trigger] parts[i], row, parameter));
            if i < rest.len() {
                assert(rest[i] == parts[i]);
            }
        }
    } else {
        assert(any_of(parts) == parts[0]);
    }
}

/// A condition of which one part has to be met names what its parts name.
pub proof fn lemma_any_of_names(parts: Seq<SqlExpr>, name: Seq<char>)
    requires
        parts.len() > 0,
    ensures
        names_column(any_of(parts), name) <==> exists|i: int|
            0 <= i < parts.len() && names_column(#[trigger] parts[i], name),
        uses_parameter(any_of(parts)) <==> exists|i: int|
            0 <= i < parts.len() && uses_parameter(#[trigger] parts[i]),
    decreases parts.len(),
{
    if parts.len() > 1 {
        let rest = parts.drop_last();
        lemma_any_of_names(rest, name);
        assert(parts.last() == parts[parts.len() - 1]);
        assert forall|i: int| 0 <= i < rest.len() implies #[trigger] rest[i] == parts[i] by {}
        if names_column(any_of(rest), name) {
            let i = choose|i: int| 0 <= i < rest.len() && names_column(#[trigger] rest[i], name);
            assert(names_column(parts[i], name));
        }
        if uses_parameter(any_of(rest)) {
            let i = choose|i: int| 0 <= i < rest.len() && uses_parameter(#[trigger] rest[i]);
            assert(uses_parameter(parts[i]));
        }
        if exists|i: int| 0 <= i < parts.len() && names_column(#[trigger] parts[i], name) {
            let i = choose|i: int| 0 <= i < parts.len() && names_column(#[trigger] parts[i], name);
            if i < rest.len() {
                assert(names_column(rest[i], name));
            }
        }
        if exists|i: int| 0 <= i < parts.len() && uses_parameter(#[trigger] parts[i]) {
            let i = choose|i: int| 0 <= i < parts.len() && uses_parameter(#[trigger] parts[i]);
            if i < rest.len() {
                assert(uses_parameter(rest[i]));
            }
        }
    } else {
        assert(any_of(parts) == parts[0]);
    }
}

/// The arguments of `COALESCE`, one after the other.
pub open spec fn arguments(parts: Seq<SqlExpr>) -> SqlExpr
    recommends
        parts.len() > 0,
    decreases parts.len(),
{
    if parts.len() <= 1 {
        parts[0]
    } else {
        SqlExpr::Else(Box::new(arguments(parts.drop_last())), Box::new(parts.last()))
    }
}

/// The arguments of `COALESCE` are written with commas between them.
pub proof fn lemma_arguments_text(parts: Seq<SqlExpr>)
    requires
        parts.len() > 0,
    ensures
        sql_text(arguments(parts)) == joined(sql_texts(parts), ", "@),
    decreases parts.len(),
{
    if parts.len() > 1 {
        lemma_arguments_text(parts.drop_last());
        assert(sql_texts(parts).drop_last() =~= sql_texts(parts.drop_last()));
    }
}

/// The arguments of `COALESCE` name what each of them names.
pub proof fn lemma_arguments_names(parts: Seq<SqlExpr>, name: Seq<char>)
    requires
        parts.len() > 0,
        names_column(arguments(parts), name),
    ensures
        exists|i: int| 0 <= i < parts.len() && names_column(#[trigger] parts[i], name),
    decreases parts.len(),
{
    if parts.len() > 1 {
        let rest = parts.drop_last();
        assert(parts.last() == parts[parts.len() - 1]);
        if names_column(arguments(rest), name) {
            lemma_arguments_names(rest, name);
            let i = choose|i: int| 0 <= i < rest.len() && names_column(#[trigger] rest[i], name);
            assert(names_column(parts[i], name));
        }
    }
}

/// Arguments that use no parameter, and are written without question marks.
pub proof fn lemma_arguments_unmarked(parts: Seq<SqlExpr>)
    requires
        parts.len() > 0,
        forall|i: int|
            0 <= i < parts.len() ==> is_unmarked(#[trigger] parts[i]) && !uses_parameter(parts[i]),
    ensures
        is_unmarked(arguments(parts)),
        !uses_parameter(arguments(parts)),
    decreases parts.len(),
{
    if parts.len() > 1 {
        let rest = parts.drop_last();
        assert(parts.last() == parts[parts.len() - 1]);
        assert forall|i: int| 0 <= i < rest.len() implies is_unmarked(#[trigger] rest[i])
            && !uses_parameter(rest[i]) by {
            assert(rest[i] == parts[i]);
        }
        lemma_arguments_unmarked(rest);
    }
}

/// What an expression comes to depends on the columns that it names alone.
pub proof fn lemma_value_of_named(
    expr: SqlExpr,
    a: spec_fn(Seq<char>) -> SqlTerm,
    b: spec_fn(Seq<char>) -> SqlTerm,
    parameter: SqlTerm,
)
    requires
        forall|name: Seq<char>| #[trigger] names_column(expr, name) ==> a(name) == b(name),
    ensures
        sql_value(expr, a, parameter) == sql_value(expr, b, parameter),
    decreases expr,
{
    match expr {
        SqlExpr::Column(name) => {
            assert(names_column(expr, name));
        },
        SqlExpr::Parameter | SqlExpr::Literal(_, _) => {},
        SqlExpr::NullIfEmpty(e)
        | SqlExpr::IsThere(e)
        | SqlExpr::Coalesce(e)
        | SqlExpr::Group(e) => {
            assert forall|name: Seq<char>| #[trigger] names_column(*e, name) implies a(name) == b(
                name,
            ) by {
                assert(names_column(expr, name));
            }
            lemma_value_of_named(*e, a, b, parameter);
        },
        SqlExpr::Else(x, y)
        | SqlExpr::Differs(x, y)
        | SqlExpr::Equals(x, y)
        | SqlExpr::Times(x, y)
        | SqlExpr::Both(x, y)
        | SqlExpr::Either(x, y) => {
            assert forall|name: Seq<char>|
                (#[trigger] names_column(*x, name)) implies a(name) == b(name) by {
                assert(names_column(expr, name));
            }
            assert forall|name: Seq<char>|
                (#[trigger] names_column(*y, name)) implies a(name) == b(name) by {
                assert(names_column(expr, name));
            }
            lemma_value_of_named(*x, a, b, parameter);
            lemma_value_of_named(*y, a, b, parameter);
        },
        SqlExpr::Case(x, y, z) => {
            assert forall|name: Seq<char>|
                (#[trigger] names_column(*x, name)) implies a(name) == b(name) by {
                assert(names_column(expr, name));
            }
            assert forall|name: Seq<char>|
                (#[trigger] names_column(*y, name)) implies a(name) == b(name) by {
                assert(names_column(expr, name));
            }
            assert forall|name: Seq<char>|
                (#[trigger] names_column(*z, name)) implies a(name) == b(name) by {
                assert(names_column(expr, name));
            }
            lemma_value_of_named(*x, a, b, parameter);
            lemma_value_of_named(*y, a, b, parameter);
            lemma_value_of_named(*z, a, b, parameter);
        },
    }
}

/// Whether no column and no literal of an expression is written with a question mark.
pub open spec fn is_unmarked(expr: SqlExpr) -> bool
    decreases expr,
{
    match expr {
        SqlExpr::Parameter => true,
        SqlExpr::Column(name) => !name.contains('?'),
        SqlExpr::Literal(written, _) => !written.contains('?'),
        SqlExpr::NullIfEmpty(e)
        | SqlExpr::IsThere(e)
        | SqlExpr::Coalesce(e)
        | SqlExpr::Group(e) => is_unmarked(*e),
        SqlExpr::Else(a, b)
        | SqlExpr::Differs(a, b)
        | SqlExpr::Equals(a, b)
        | SqlExpr::Times(a, b)
        | SqlExpr::Both(a, b)
        | SqlExpr::Either(a, b) => is_unmarked(*a) && is_unmarked(*b),
        SqlExpr::Case(a, b, c) => is_unmarked(*a) && is_unmarked(*b) && is_unmarked(*c),
    }
}

/// A part of a text is part of what the text is part of.
pub proof fn lemma_part_of_whole(before: Seq<char>, text: Seq<char>, after: Seq<char>)
    ensures
        forall|c: char|
            #![trigger (before + text + after).contains(c)]
            (before + text + after).contains(c) <==> before.contains(c) || text.contains(c)
                || after.contains(c),
        forall|part: Seq<char>|
            #![trigger holds_part(before + text + after, part)]
            holds_part(text, part) ==> holds_part(before + text + after, part),
{
    let whole = before + text + after;
    assert forall|c: char| #[trigger] whole.contains(c) <==> before.contains(c) || text.contains(c)
        || after.contains(c) by {
        if before.contains(c) {
            let i = choose|i: int| 0 <= i < before.len() && before[i] == c;
            assert(whole[i] == c);
        }
        if text.contains(c) {
            let i = choose|i: int| 0 <= i < text.len() && text[i] == c;
            assert(whole[before.len() + i] == c);
        }
        if after.contains(c) {
            let i = choose|i: int| 0 <= i < after.len() && after[i] == c;
            assert(whole[before.len() + text.len() + i] == c);
        }
        if whole.contains(c) {
            let i = choose|i: int| 0 <= i < whole.len() && whole[i] == c;
            if i < before.len() {
                assert(before[i] == c);
            } else if i < before.len() + text.len() {
                assert(text[i - before.len()] == c);
            } else {
                assert(after[i - before.len() - text.len()] == c);
            }
        }
    }
    assert forall|part: Seq<char>| holds_part(text, part) implies #[trigger] holds_part(
        whole,
        part,
    ) by {
        let at = choose|at: int| stands_at(text, at, part);
        assert(whole.subrange(before.len() + at, before.len() + at + part.len()) =~= text.subrange(
            at,
            at + part.len(),
        ));
        assert(stands_at(whole, before.len() + at, part));
    }
}

/// A text without question marks does not hold the first parameter.
pub proof fn lemma_unmarked_text(text: Seq<char>)
    requires
        !text.contains('?'),
    ensures
        !holds_part(text, "?1"@),
{
    reveal_strlit("?1");
    if holds_part(text, "?1"@) {
        let at = choose|at: int| stands_at(text, at, "?1"@);
        assert(text.subrange(at, at + 2)[0] == '?');
        assert(text[at] == '?');
    }
}

proof fn lemma_words_are_unmarked()
    ensures
        !"NULLIF("@.contains('?'),
        !", '')"@.contains('?'),
        !" IS NOT NULL"@.contains('?'),
        !"COALESCE("@.contains('?'),
        !")"@.contains('?'),
        !", "@.contains('?'),
        !" <> "@.contains('?'),
        !" = "@.contains('?'),
        !" * "@.contains('?'),
        !" AND "@.contains('?'),
        !" OR "@.contains('?'),
        !"("@.contains('?'),
        !"CASE WHEN "@.contains('?'),
        !" THEN "@.contains('?'),
        !" ELSE "@.contains('?'),
        !" END"@.contains('?'),
{
    reveal_strlit("NULLIF(");
    reveal_strlit(", '')");
    reveal_strlit(" IS NOT NULL");
    reveal_strlit("COALESCE(");
    reveal_strlit(")");
    reveal_strlit(", ");
    reveal_strlit(" <> ");
    reveal_strlit(" = ");
    reveal_strlit(" * ");
    reveal_strlit(" AND ");
    reveal_strlit(" OR ");
    reveal_strlit("(");
    reveal_strlit("CASE WHEN ");
    reveal_strlit(" THEN ");
    reveal_strlit(" ELSE ");
    reveal_strlit(" END");
}

/// Whether a text holds the first parameter where it is said to be used, and no question mark
/// where it is not.
pub open spec fn marks(text: Seq<char>, used: bool) -> bool {
    &&& text.contains('?') <==> used
    &&& used ==> holds_part(text, "?1"@)
}

pub proof fn lemma_marks_two(x: Seq<char>, word: Seq<char>, y: Seq<char>, in_x: bool, in_y: bool)
    requires
        marks(x, in_x),
        marks(y, in_y),
        !word.contains('?'),
    ensures
        marks(x + word + y, in_x || in_y),
{
    lemma_part_of_whole(x, word, y);
    lemma_part_of_whole(seq![], x, word + y);
    lemma_part_of_whole(x + word, y, seq![]);
    assert(seq![] + x + (word + y) =~= x + word + y);
    assert(x + word + y + seq![] =~= x + word + y);
}

proof fn lemma_marks(expr: SqlExpr)
    requires
        is_unmarked(expr),
    ensures
        marks(sql_text(expr), uses_parameter(expr)),
    decreases expr,
{
    lemma_words_are_unmarked();
    match expr {
        SqlExpr::Column(_) | SqlExpr::Literal(_, _) => {},
        SqlExpr::Parameter => {
            reveal_strlit("?1");
            let text = "?1"@;
            assert(text[0] == '?');
            assert(text.subrange(0, 2) =~= text);
            assert(stands_at(text, 0, text));
        },
        SqlExpr::NullIfEmpty(e) => {
            lemma_marks(*e);
            lemma_part_of_whole("NULLIF("@, sql_text(*e), ", '')"@);
        },
        SqlExpr::IsThere(e) => {
            lemma_marks(*e);
            lemma_part_of_whole(seq![], sql_text(*e), " IS NOT NULL"@);
            assert(seq![] + sql_text(*e) + " IS NOT NULL"@ =~= sql_text(expr));
        },
        SqlExpr::Coalesce(e) => {
            lemma_marks(*e);
            lemma_part_of_whole("COALESCE("@, sql_text(*e), ")"@);
        },
        SqlExpr::Group(e) => {
            lemma_marks(*e);
            lemma_part_of_whole("("@, sql_text(*e), ")"@);
        },
        SqlExpr::Else(a, b) => {
            lemma_marks(*a);
            lemma_marks(*b);
            lemma_marks_two(
                sql_text(*a),
                ", "@,
                sql_text(*b),
                uses_parameter(*a),
                uses_parameter(*b),
            );
        },
        SqlExpr::Differs(a, b) => {
            lemma_marks(*a);
            lemma_marks(*b);
            lemma_marks_two(
                sql_text(*a),
                " <> "@,
                sql_text(*b),
                uses_parameter(*a),
                uses_parameter(*b),
            );
        },
        SqlExpr::Equals(a, b) => {
            lemma_marks(*a);
            lemma_marks(*b);
            lemma_marks_two(
                sql_text(*a),
                " = "@,
                sql_text(*b),
                uses_parameter(*a),
                uses_parameter(*b),
            );
        },
        SqlExpr::Times(a, b) => {
            lemma_marks(*a);
            lemma_marks(*b);
            lemma_marks_two(
                sql_text(*a),
                " * "@,
                sql_text(*b),
                uses_parameter(*a),
                uses_parameter(*b),
            );
        },
        SqlExpr::Both(a, b) => {
            lemma_marks(*a);
            lemma_marks(*b);
            lemma_marks_two(
                sql_text(*a),
                " AND "@,
                sql_text(*b),
                uses_parameter(*a),
                uses_parameter(*b),
            );
        },
        SqlExpr::Either(a, b) => {
            lemma_marks(*a);
            lemma_marks(*b);
            lemma_marks_two(
                sql_text(*a),
                " OR "@,
                sql_text(*b),
                uses_parameter(*a),
                uses_parameter(*b),
            );
        },
        SqlExpr::Case(a, b, c) => {
            lemma_marks(*a);
            lemma_marks(*b);
            lemma_marks(*c);
            let when = "CASE WHEN "@ + sql_text(*a);
            let chosen = when + " THEN "@ + sql_text(*b);
            let other = chosen + " ELSE "@ + sql_text(*c);
            let used = uses_parameter(*a) || uses_parameter(*b);
            lemma_part_of_whole("CASE WHEN "@, sql_text(*a), seq![]);
            assert("CASE WHEN "@ + sql_text(*a) + seq![] =~= when);
            lemma_marks_two(when, " THEN "@, sql_text(*b), uses_parameter(*a), uses_parameter(*b));
            lemma_marks_two(chosen, " ELSE "@, sql_text(*c), used, uses_parameter(*c));
            lemma_part_of_whole(seq![], other, " END"@);
            assert(seq![] + other + " END"@ =~= other + " END"@);
        },
    }
}

/// Whether the first parameter is used anywhere.
pub open spec fn any_used(used: Seq<bool>) -> bool {
    exists|i: int| 0 <= i < used.len() && #[trigger] used[i]
}

/// Joined texts hold the first parameter where one of them does.
pub proof fn lemma_joined_marks(parts: Seq<Seq<char>>, separator: Seq<char>, used: Seq<bool>)
    requires
        parts.len() == used.len(),
        forall|i: int| 0 <= i < parts.len() ==> marks(#[trigger] parts[i], used[i]),
        !separator.contains('?'),
    ensures
        marks(joined(parts, separator), any_used(used)),
    decreases parts.len(),
{
    if parts.len() == 1 {
        assert(marks(parts[0], used[0]));
    } else if parts.len() > 1 {
        let rest = parts.drop_last();
        let rest_used = used.drop_last();
        assert forall|i: int| 0 <= i < rest.len() implies marks(#[trigger] rest[i], rest_used[i]) by {
            assert(rest[i] == parts[i]);
        }
        lemma_joined_marks(rest, separator, rest_used);
        assert(marks(parts[parts.len() - 1], used[parts.len() - 1]));
        lemma_marks_two(
            joined(rest, separator),
            separator,
            parts.last(),
            any_used(rest_used),
            used.last(),
        );
        if any_used(rest_used) {
            let i = choose|i: int| 0 <= i < rest_used.len() && #[trigger] rest_used[i];
            assert(used[i]);
        }
        if any_used(used) {
            let i = choose|i: int| 0 <= i < used.len() && #[trigger] used[i];
            if i < rest_used.len() {
                assert(rest_used[i]);
            }
        }
    }
}

/// A condition of which one part has to be met is written without question marks where its parts
/// are.
pub proof fn lemma_any_of_unmarked(parts: Seq<SqlExpr>)
    requires
        parts.len() > 0,
        forall|i: int| 0 <= i < parts.len() ==> is_unmarked(#[trigger] parts[i]),
    ensures
        is_unmarked(any_of(parts)),
    decreases parts.len(),
{
    if parts.len() > 1 {
        let rest = parts.drop_last();
        assert(parts.last() == parts[parts.len() - 1]);
        assert forall|i: int| 0 <= i < rest.len() implies is_unmarked(#[trigger] rest[i]) by {
            assert(rest[i] == parts[i]);
        }
        lemma_any_of_unmarked(rest);
    }
}

/// The first parameter is written in the text of an expression exactly where it is used.
pub proof fn lemma_parameter_in_text(expr: SqlExpr)
    requires
        is_unmarked(expr),
    ensures
        sql_text(expr).contains('?') <==> uses_parameter(expr),
        holds_part(sql_text(expr), "?1"@) <==> uses_parameter(expr),
        marks(sql_text(expr), uses_parameter(expr)),
{
    lemma_marks(expr);
    if !uses_parameter(expr) {
        lemma_unmarked_text(sql_text(expr));
    }
}

/// Whether a literal is written as SQL writes its value.
pub open spec fn is_written_as(written: Seq<char>, value: SqlTerm) -> bool {
    match value {
        SqlTerm::Null => written == "NULL"@,
        SqlTerm::Integer(n) => written == signed_decimal(n as int),
        SqlTerm::Text(text) => !text.contains('\'') && written == seq!['\''] + text + seq!['\''],
        SqlTerm::Seconds(_) => false,
    }
}

/// Whether every literal of an expression is written as SQL writes its value.
pub open spec fn literals_are_true(expr: SqlExpr) -> bool
    decreases expr,
{
    match expr {
        SqlExpr::Parameter | SqlExpr::Column(_) => true,
        SqlExpr::Literal(written, value) => is_written_as(written, value),
        SqlExpr::NullIfEmpty(e)
        | SqlExpr::IsThere(e)
        | SqlExpr::Coalesce(e)
        | SqlExpr::Group(e) => literals_are_true(*e),
        SqlExpr::Else(a, b)
        | SqlExpr::Differs(a, b)
        | SqlExpr::Equals(a, b)
        | SqlExpr::Times(a, b)
        | SqlExpr::Both(a, b)
        | SqlExpr::Either(a, b) => literals_are_true(*a) && literals_are_true(*b),
        SqlExpr::Case(a, b, c) => literals_are_true(*a) && literals_are_true(*b)
            && literals_are_true(*c),
    }
}

/// The literals that the statements use are written as SQL writes their values.
pub proof fn lemma_literals()
    ensures
        is_written_as("NULL"@, SqlTerm::Null),
        is_written_as("0"@, SqlTerm::Integer(0)),
        is_written_as("1"@, SqlTerm::Integer(1)),
        is_written_as("1000"@, SqlTerm::Integer(1_000)),
        is_written_as("''"@, SqlTerm::Text(seq![])),
        is_written_as("'user'"@, SqlTerm::Text("user"@)),
{
    reveal_strlit("0");
    reveal_strlit("1");
    reveal_strlit("1000");
    reveal_strlit("''");
    reveal_strlit("'user'");
    reveal_strlit("user");
    assert(decimal(0) =~= "0"@);
    assert(decimal(1) =~= "1"@);
    assert(decimal(10) =~= seq!['1', '0']);
    assert(decimal(100) =~= seq!['1', '0', '0']);
    assert(decimal(1_000) =~= "1000"@);
    assert("''"@ =~= seq!['\''] + Seq::<char>::empty() + seq!['\'']);
    assert("'user'"@ =~= seq!['\''] + "user"@ + seq!['\'']);
}

/// Arguments whose literals are written as SQL writes them are so one after the other.
pub proof fn lemma_arguments_literals(parts: Seq<SqlExpr>)
    requires
        parts.len() > 0,
        forall|i: int| 0 <= i < parts.len() ==> literals_are_true(#[trigger] parts[i]),
    ensures
        literals_are_true(arguments(parts)),
    decreases parts.len(),
{
    if parts.len() > 1 {
        let rest = parts.drop_last();
        assert(parts.last() == parts[parts.len() - 1]);
        assert forall|i: int| 0 <= i < rest.len() implies literals_are_true(#[trigger] rest[i]) by {
            assert(rest[i] == parts[i]);
        }
        lemma_arguments_literals(rest);
    }
}

/// A query that selects these expressions, up to what they are selected from.
pub open spec fn select_text(selected: Seq<SqlExpr>) -> Seq<char> {
    "SELECT "@ + joined(sql_texts(selected), ", "@)
}

/// One more expression is selected by writing it behind a comma.
pub proof fn lemma_select_one_more(selected: Seq<SqlExpr>, next: SqlExpr)
    requires
        selected.len() > 0,
    ensures
        select_text(selected.push(next)) == select_text(selected) + ", "@ + sql_text(next),
{
    let all = selected.push(next);
    assert(sql_texts(all).drop_last() =~= sql_texts(selected));
    assert(sql_texts(all).last() == sql_text(next));
    let list = joined(sql_texts(selected), ", "@);
    assert("SELECT "@ + (list + ", "@ + sql_text(next)) =~= "SELECT "@ + list + ", "@ + sql_text(
        next,
    ));
}

/// A single expression is selected by its text.
pub proof fn lemma_select_one(expr: SqlExpr)
    ensures
        select_text(seq![expr]) == "SELECT "@ + sql_text(expr),
{
    assert(sql_texts(seq![expr]) =~= seq![sql_text(expr)]);
}

} // verus!
