//! What the parser reads from a sequence of tokens: the statements of the
//! dialect as functions of the tokens and a position. Each gives what was
//! read, or what was wrong, and the position at which reading stopped.

use vstd::prelude::*;
use crate::ast::{AssignmentView, ColumnDefinitionView, ConditionView, NodeView, ShowType};
use crate::error::Fault;
use crate::number::int_of;
use crate::tokens::{Command, DataType, Helper, Operator, TokenView};
use crate::value::ValueView;

verus! {

/// What was read, or what was wrong, and where reading stopped.
pub type Read<T> = (Result<T, Fault>, int);

/// The token at a position, `EOF` behind the end.
pub open spec fn or_eof(ts: Seq<TokenView>, p: int) -> TokenView {
    if 0 <= p < ts.len() {
        ts[p]
    } else {
        TokenView::EOF
    }
}

/// Whether a token stands at a position.
pub open spec fn within(ts: Seq<TokenView>, p: int) -> bool {
    0 <= p < ts.len()
}

/// The error for a token that had to come and did not.
pub open spec fn unexpected(expected: TokenView, found: TokenView, pos: int) -> Fault {
    Fault::UnexpectedToken { expected, found, pos: pos as usize }
}

/// The error for an identifier that had to come and did not.
pub open spec fn no_ident(found: TokenView, pos: int) -> Fault {
    unexpected(TokenView::IDENT(Seq::<char>::empty()), found, pos)
}

/// The error of stepping over the token at `p` where `expected` has to
/// stand, if it is an error.
pub open spec fn expecting(ts: Seq<TokenView>, p: int, expected: TokenView) -> Option<Fault> {
    if within(ts, p) && ts[p] == expected {
        None
    } else {
        Some(unexpected(expected, or_eof(ts, p), p + 1))
    }
}

/// A value: an integer literal, or an identifier between single quotes,
/// which is a text.
pub open spec fn value_at(ts: Seq<TokenView>, p: int) -> Read<ValueView> {
    if within(ts, p) && ts[p] is INT {
        match int_of(ts[p]->INT_0) {
            Some(i) => (Ok(ValueView::Int(i)), p + 1),
            None => (Err(Fault::InvalidNumber { literal: ts[p]->INT_0, pos: p as usize }), p),
        }
    } else if within(ts, p) && ts[p] is SINGLEQUOTE {
        if within(ts, p + 1) && ts[p + 1] is IDENT {
            match expecting(ts, p + 2, TokenView::SINGLEQUOTE('\'')) {
                None => (Ok(ValueView::String(ts[p + 1]->IDENT_0)), p + 3),
                Some(e) => (Err(e), p + 3),
            }
        } else {
            (Err(no_ident(TokenView::EOF, p + 2)), p + 2)
        }
    } else {
        (Err(no_ident(TokenView::EOF, p)), p)
    }
}

/// A term: an expression in parentheses, or a column, an operator, and a
/// column or a value.
pub open spec fn term_at(ts: Seq<TokenView>, p: int) -> Read<ConditionView>
    decreases ts.len() - p, 0int,
{
    if within(ts, p) && ts[p] == TokenView::LPAREN('(') {
        let (inner, q) = expression_at(ts, p + 1);
        match inner {
            Err(e) => (Err(e), q),
            Ok(expr) => match expecting(ts, q, TokenView::RPAREN(')')) {
                None => (Ok(expr), q + 1),
                Some(e) => (Err(e), q + 1),
            },
        }
    } else if !(within(ts, p) && ts[p] is IDENT) {
        (Err(no_ident(or_eof(ts, p), p + 1)), p + 1)
    } else if !(within(ts, p + 1) && ts[p + 1] is Operator) {
        (
            Err(unexpected(TokenView::Operator(Operator::AND), or_eof(ts, p + 1), p + 2)),
            p + 2,
        )
    } else {
        let left = ConditionView::Column(ts[p]->IDENT_0);
        let operator = ts[p + 1]->Operator_0;
        if within(ts, p + 2) && ts[p + 2] is IDENT {
            (
                Ok(
                    ConditionView::Comparison {
                        operator,
                        left: Box::new(left),
                        right: Box::new(ConditionView::Column(ts[p + 2]->IDENT_0)),
                    },
                ),
                p + 3,
            )
        } else if within(ts, p + 2) && (ts[p + 2] is INT || ts[p + 2] is SINGLEQUOTE) {
            let (value, q) = value_at(ts, p + 2);
            match value {
                Err(e) => (Err(e), q),
                Ok(v) => (
                    Ok(
                        ConditionView::Comparison {
                            operator,
                            left: Box::new(left),
                            right: Box::new(ConditionView::Value(v)),
                        },
                    ),
                    q,
                ),
            }
        } else {
            (Err(no_ident(or_eof(ts, p + 2), p + 2)), p + 2)
        }
    }
}

/// The terms that follow a term, each after `AND` or `OR`, joined to it from
/// the left.
pub open spec fn joined_at(ts: Seq<TokenView>, p: int, left: ConditionView) -> Read<ConditionView>
    decreases ts.len() - p, 1int,
{
    if within(ts, p) && (ts[p] == TokenView::Operator(Operator::AND) || ts[p] == TokenView::Operator(
        Operator::OR,
    )) {
        let (right, q) = term_at(ts, p + 1);
        match right {
            Err(e) => (Err(e), q),
            Ok(term) => if p < q <= ts.len() {
                joined_at(
                    ts,
                    q,
                    ConditionView::Comparison {
                        operator: ts[p]->Operator_0,
                        left: Box::new(left),
                        right: Box::new(term),
                    },
                )
            } else {
                (
                    Ok(
                        ConditionView::Comparison {
                            operator: ts[p]->Operator_0,
                            left: Box::new(left),
                            right: Box::new(term),
                        },
                    ),
                    q,
                )
            },
        }
    } else {
        (Ok(left), p)
    }
}

/// An expression: a term, and the terms that are joined to it.
pub open spec fn expression_at(ts: Seq<TokenView>, p: int) -> Read<ConditionView>
    decreases ts.len() - p, 2int,
{
    let (first, q) = term_at(ts, p);
    match first {
        Err(e) => (Err(e), q),
        Ok(term) => if p <= q <= ts.len() {
            joined_at(ts, q, term)
        } else {
            (Ok(term), q)
        },
    }
}

/// A `WHERE` clause, if one stands at the position.
pub open spec fn where_at(ts: Seq<TokenView>, p: int) -> Read<Option<ConditionView>> {
    if within(ts, p) && ts[p] == TokenView::Command(Command::WHERE) {
        let (clause, q) = expression_at(ts, p + 1);
        match clause {
            Err(e) => (Err(e), q),
            Ok(condition) => (Ok(Some(condition)), q),
        }
    } else {
        (Ok(None), p)
    }
}

/// The name at a position: the identifier there, or the error for none,
/// which names the token `found` and the position after the step.
pub open spec fn name_at(ts: Seq<TokenView>, p: int, found: TokenView) -> Result<Seq<char>, Fault> {
    if within(ts, p) && ts[p] is IDENT {
        Ok(ts[p]->IDENT_0)
    } else {
        Err(no_ident(found, p + 1))
    }
}

/// The column names of a `SELECT`, with the names `acc` before them:
/// identifiers with commas between. The token behind the last name is
/// stepped over where it is no identifier.
pub open spec fn names_at(ts: Seq<TokenView>, p: int, acc: Seq<Seq<char>>) -> (Seq<Seq<char>>, int)
    decreases ts.len() - p,
{
    if within(ts, p) && ts[p] is IDENT {
        if within(ts, p + 1) && ts[p + 1] == TokenView::COMMA(',') {
            names_at(ts, p + 2, acc.push(ts[p]->IDENT_0))
        } else {
            (acc.push(ts[p]->IDENT_0), p + 1)
        }
    } else {
        (acc, p + 1)
    }
}

/// `SELECT` columns `FROM` table, a `WHERE` clause or none, and `;`.
pub open spec fn select_at(ts: Seq<TokenView>, p: int) -> Read<NodeView> {
    let (columns, q) = if within(ts, p + 1) && ts[p + 1] == TokenView::Operator(Operator::ASTERISK) {
        (seq!["*"@], p + 2)
    } else {
        names_at(ts, p + 1, Seq::<Seq<char>>::empty())
    };
    let (clause, r) = where_at(ts, q + 2);
    if expecting(ts, p, TokenView::Command(Command::SELECT)) is Some {
        (Err(expecting(ts, p, TokenView::Command(Command::SELECT))->0), p + 1)
    } else if expecting(ts, q, TokenView::Command(Command::FROM)) is Some {
        (Err(expecting(ts, q, TokenView::Command(Command::FROM))->0), q + 1)
    } else if name_at(ts, q + 1, TokenView::EOF) is Err {
        (Err(name_at(ts, q + 1, TokenView::EOF)->Err_0), q + 2)
    } else if clause is Err {
        (Err(clause->Err_0), r)
    } else if expecting(ts, r, TokenView::SEMICOLON(';')) is Some {
        (Err(expecting(ts, r, TokenView::SEMICOLON(';'))->0), r + 1)
    } else {
        (
            Ok(
                NodeView::Select {
                    columns,
                    table_name: name_at(ts, q + 1, TokenView::EOF)->Ok_0,
                    where_clause: clause->Ok_0,
                },
            ),
            r + 1,
        )
    }
}

/// The values of an `INSERT`, with the values `acc` before them: integer
/// literals and quoted identifiers, with commas anywhere between, up to a
/// closing parenthesis or the end of the tokens.
pub open spec fn values_at(ts: Seq<TokenView>, p: int, acc: Seq<ValueView>) -> Read<Seq<ValueView>>
    decreases ts.len() - p,
{
    if !within(ts, p) {
        (Ok(acc), p)
    } else if ts[p] is INT {
        match int_of(ts[p]->INT_0) {
            Some(i) => values_at(ts, p + 1, acc.push(ValueView::Int(i))),
            None => (Err(Fault::InvalidNumber { literal: ts[p]->INT_0, pos: p as usize }), p),
        }
    } else if ts[p] is SINGLEQUOTE {
        if within(ts, p + 1) && ts[p + 1] is IDENT {
            match expecting(ts, p + 2, TokenView::SINGLEQUOTE('\'')) {
                None => values_at(ts, p + 3, acc.push(ValueView::String(ts[p + 1]->IDENT_0))),
                Some(e) => (Err(e), p + 3),
            }
        } else {
            (Err(no_ident(TokenView::EOF, p + 2)), p + 2)
        }
    } else if ts[p] == TokenView::COMMA(',') {
        values_at(ts, p + 1, acc)
    } else if ts[p] == TokenView::RPAREN(')') {
        (Ok(acc), p + 1)
    } else {
        (Err(no_ident(TokenView::EOF, p)), p)
    }
}

/// `INSERT INTO` table `VALUES (` values `);`.
pub open spec fn insert_at(ts: Seq<TokenView>, p: int) -> Read<NodeView> {
    let (values, q) = values_at(ts, p + 5, Seq::<ValueView>::empty());
    if expecting(ts, p, TokenView::Command(Command::INSERT)) is Some {
        (Err(expecting(ts, p, TokenView::Command(Command::INSERT))->0), p + 1)
    } else if expecting(ts, p + 1, TokenView::Command(Command::INTO)) is Some {
        (Err(expecting(ts, p + 1, TokenView::Command(Command::INTO))->0), p + 2)
    } else if name_at(ts, p + 2, TokenView::EOF) is Err {
        (Err(name_at(ts, p + 2, TokenView::EOF)->Err_0), p + 3)
    } else if expecting(ts, p + 3, TokenView::Command(Command::VALUES)) is Some {
        (Err(expecting(ts, p + 3, TokenView::Command(Command::VALUES))->0), p + 4)
    } else if expecting(ts, p + 4, TokenView::LPAREN('(')) is Some {
        (Err(expecting(ts, p + 4, TokenView::LPAREN('('))->0), p + 5)
    } else if values is Err {
        (Err(values->Err_0), q)
    } else if expecting(ts, q, TokenView::SEMICOLON(';')) is Some {
        (Err(expecting(ts, q, TokenView::SEMICOLON(';'))->0), q + 1)
    } else {
        (
            Ok(
                NodeView::Insert {
                    table_name: name_at(ts, p + 2, TokenView::EOF)->Ok_0,
                    values: values->Ok_0,
                },
            ),
            q + 1,
        )
    }
}

/// The assignments of an `UPDATE`, with the assignments `acc` before them:
/// column `=` value, with commas between. The token behind the last
/// assignment is stepped over where it is no identifier.
pub open spec fn assignments_at(ts: Seq<TokenView>, p: int, acc: Seq<AssignmentView>) -> Read<
    Seq<AssignmentView>,
>
    decreases ts.len() - p,
{
    if within(ts, p) && ts[p] is IDENT {
        match expecting(ts, p + 1, TokenView::Operator(Operator::EQUALS)) {
            Some(e) => (Err(e), p + 2),
            None => {
                let (value, q) = value_at(ts, p + 2);
                match value {
                    Err(e) => (Err(e), q),
                    Ok(v) => {
                        let next = acc.push(AssignmentView { column: ts[p]->IDENT_0, value: v });
                        if within(ts, q) && ts[q] == TokenView::COMMA(',') && p < q {
                            assignments_at(ts, q + 1, next)
                        } else {
                            (Ok(next), q)
                        }
                    },
                }
            },
        }
    } else {
        (Ok(acc), p + 1)
    }
}

/// `UPDATE` table `SET` assignments, a `WHERE` clause or none, and `;`.
pub open spec fn update_at(ts: Seq<TokenView>, p: int) -> Read<NodeView> {
    let (assignments, q) = assignments_at(ts, p + 3, Seq::<AssignmentView>::empty());
    let (clause, r) = where_at(ts, q);
    if expecting(ts, p, TokenView::Command(Command::UPDATE)) is Some {
        (Err(expecting(ts, p, TokenView::Command(Command::UPDATE))->0), p + 1)
    } else if name_at(ts, p + 1, TokenView::EOF) is Err {
        (Err(name_at(ts, p + 1, TokenView::EOF)->Err_0), p + 2)
    } else if expecting(ts, p + 2, TokenView::Command(Command::SET)) is Some {
        (Err(expecting(ts, p + 2, TokenView::Command(Command::SET))->0), p + 3)
    } else if assignments is Err {
        (Err(assignments->Err_0), q)
    } else if clause is Err {
        (Err(clause->Err_0), r)
    } else if expecting(ts, r, TokenView::SEMICOLON(';')) is Some {
        (Err(expecting(ts, r, TokenView::SEMICOLON(';'))->0), r + 1)
    } else {
        (
            Ok(
                NodeView::Update {
                    table_name: name_at(ts, p + 1, TokenView::EOF)->Ok_0,
                    assignments: assignments->Ok_0,
                    where_clause: clause->Ok_0,
                },
            ),
            r + 1,
        )
    }
}

/// `DELETE FROM` table and a `WHERE` clause or none.
pub open spec fn delete_at(ts: Seq<TokenView>, p: int) -> Read<NodeView> {
    let (clause, r) = where_at(ts, p + 3);
    if expecting(ts, p, TokenView::Command(Command::DELETE)) is Some {
        (Err(expecting(ts, p, TokenView::Command(Command::DELETE))->0), p + 1)
    } else if expecting(ts, p + 1, TokenView::Command(Command::FROM)) is Some {
        (Err(expecting(ts, p + 1, TokenView::Command(Command::FROM))->0), p + 2)
    } else if name_at(ts, p + 2, TokenView::EOF) is Err {
        (Err(name_at(ts, p + 2, TokenView::EOF)->Err_0), p + 3)
    } else if clause is Err {
        (Err(clause->Err_0), r)
    } else {
        (
            Ok(
                NodeView::Delete {
                    table_name: name_at(ts, p + 2, TokenView::EOF)->Ok_0,
                    where_clause: clause->Ok_0,
                },
            ),
            r,
        )
    }
}

/// `USE` database.
pub open spec fn use_at(ts: Seq<TokenView>, p: int) -> Read<NodeView> {
    if expecting(ts, p, TokenView::Command(Command::USE)) is Some {
        (Err(expecting(ts, p, TokenView::Command(Command::USE))->0), p + 1)
    } else {
        match name_at(ts, p + 1, TokenView::EOF) {
            Err(e) => (Err(e), p + 2),
            Ok(name) => (Ok(NodeView::USE { database_name: name }), p + 2),
        }
    }
}

/// `SHOW TABLES;` or `SHOW DATABASES;`.
pub open spec fn show_at(ts: Seq<TokenView>, p: int) -> Read<NodeView> {
    if expecting(ts, p, TokenView::Command(Command::SHOW)) is Some {
        (Err(expecting(ts, p, TokenView::Command(Command::SHOW))->0), p + 1)
    } else if !(within(ts, p + 1) && (ts[p + 1] == TokenView::Command(Command::TABLES) || ts[p + 1]
        == TokenView::Command(Command::DATABASES))) {
        (Err(Fault::ShowNotSupported), p + 2)
    } else {
        match expecting(ts, p + 2, TokenView::SEMICOLON(';')) {
            Some(e) => (Err(e), p + 3),
            None => (
                Ok(
                    NodeView::Show {
                        show_type: if ts[p + 1] == TokenView::Command(Command::TABLES) {
                            ShowType::TABLES
                        } else {
                            ShowType::DATABASES
                        },
                    },
                ),
                p + 3,
            ),
        }
    }
}

/// `CREATE DATABASE` name.
pub open spec fn create_database_at(ts: Seq<TokenView>, p: int) -> Read<NodeView> {
    if expecting(ts, p, TokenView::Command(Command::CREATE)) is Some {
        (Err(expecting(ts, p, TokenView::Command(Command::CREATE))->0), p + 1)
    } else if expecting(ts, p + 1, TokenView::Command(Command::DATABASE)) is Some {
        (Err(expecting(ts, p + 1, TokenView::Command(Command::DATABASE))->0), p + 2)
    } else {
        match name_at(ts, p + 2, or_eof(ts, p + 3)) {
            Err(e) => (Err(e), p + 3),
            Ok(name) => (Ok(NodeView::CreateDatabase { database_name: name }), p + 3),
        }
    }
}

/// The qualifiers of a column, with the qualifiers `acc` before them: the
/// keywords that follow, each as its name in capitals.
pub open spec fn constraints_at(ts: Seq<TokenView>, p: int, acc: Seq<Seq<char>>) -> (
    Seq<Seq<char>>,
    int,
)
    decreases ts.len() - p,
{
    if within(ts, p) && ts[p] is Helper {
        constraints_at(ts, p + 1, acc.push(ts[p]->Helper_0.name()))
    } else {
        (acc, p)
    }
}

/// The columns of a `CREATE TABLE`, with the columns `acc` before them: a
/// name, a type and qualifiers each, with commas between, up to a closing
/// parenthesis, the end of the tokens, or a column that no comma follows.
pub open spec fn definitions_at(ts: Seq<TokenView>, p: int, acc: Seq<ColumnDefinitionView>) -> Read<
    Seq<ColumnDefinitionView>,
>
    decreases ts.len() - p,
{
    if !within(ts, p) {
        (Ok(acc), p)
    } else if ts[p] is IDENT {
        if !(within(ts, p + 1) && ts[p + 1] is DataType) {
            (
                Err(unexpected(TokenView::DataType(DataType::INTEGER), or_eof(ts, p + 2), p + 2)),
                p + 2,
            )
        } else {
            let (constraints, q) = constraints_at(ts, p + 2, Seq::<Seq<char>>::empty());
            let next = acc.push(
                ColumnDefinitionView {
                    column_name: ts[p]->IDENT_0,
                    column_type: ts[p + 1]->DataType_0,
                    columns_constraints: constraints,
                },
            );
            if within(ts, q) && ts[q] == TokenView::COMMA(',') && p < q {
                definitions_at(ts, q + 1, next)
            } else {
                (Ok(next), q)
            }
        }
    } else if ts[p] == TokenView::RPAREN(')') {
        (Ok(acc), p + 1)
    } else {
        (Err(no_ident(ts[p], p)), p)
    }
}

/// `CREATE TABLE` name `(` columns `)`.
pub open spec fn create_table_at(ts: Seq<TokenView>, p: int) -> Read<NodeView> {
    let (columns, q) = definitions_at(ts, p + 4, Seq::<ColumnDefinitionView>::empty());
    if expecting(ts, p, TokenView::Command(Command::CREATE)) is Some {
        (Err(expecting(ts, p, TokenView::Command(Command::CREATE))->0), p + 1)
    } else if expecting(ts, p + 1, TokenView::Command(Command::TABLE)) is Some {
        (Err(expecting(ts, p + 1, TokenView::Command(Command::TABLE))->0), p + 2)
    } else if name_at(ts, p + 2, or_eof(ts, p + 3)) is Err {
        (Err(name_at(ts, p + 2, or_eof(ts, p + 3))->Err_0), p + 3)
    } else if expecting(ts, p + 3, TokenView::LPAREN('(')) is Some {
        (Err(expecting(ts, p + 3, TokenView::LPAREN('('))->0), p + 4)
    } else if columns is Err {
        (Err(columns->Err_0), q)
    } else {
        (
            Ok(
                NodeView::CreateTable {
                    table_name: name_at(ts, p + 2, or_eof(ts, p + 3))->Ok_0,
                    columns: columns->Ok_0,
                },
            ),
            q,
        )
    }
}

/// The statement that a sequence of tokens spells: which one is read goes
/// by the first token, and for `CREATE` by the second.
pub open spec fn statement_of(ts: Seq<TokenView>) -> Result<NodeView, Fault> {
    if !within(ts, 0) {
        Err(Fault::UnsupportedCommand)
    } else if ts[0] == TokenView::Command(Command::CREATE) {
        if within(ts, 1) && ts[1] == TokenView::Command(Command::TABLE) {
            create_table_at(ts, 0).0
        } else if within(ts, 1) && ts[1] == TokenView::Command(Command::DATABASE) {
            create_database_at(ts, 0).0
        } else {
            Err(Fault::UnsupportedCommand)
        }
    } else if ts[0] == TokenView::Command(Command::SELECT) {
        select_at(ts, 0).0
    } else if ts[0] == TokenView::Command(Command::INSERT) {
        insert_at(ts, 0).0
    } else if ts[0] == TokenView::Command(Command::UPDATE) {
        update_at(ts, 0).0
    } else if ts[0] == TokenView::Command(Command::DELETE) {
        delete_at(ts, 0).0
    } else if ts[0] == TokenView::Command(Command::USE) {
        use_at(ts, 0).0
    } else if ts[0] == TokenView::Command(Command::SHOW) {
        show_at(ts, 0).0
    } else {
        Err(Fault::UnsupportedCommand)
    }
}

} // verus!
