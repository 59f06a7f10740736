//! Reading statements from tokens.

use vstd::prelude::*;
use crate::ast::{ASTNode, Assignment, ColumnDefinition, Condition, ShowType};
use crate::error::{Fault, SqlError};
use crate::grammar::{
    assignments_at, constraints_at, create_database_at, create_table_at, definitions_at,
    delete_at, expecting, expression_at, insert_at, joined_at, names_at, or_eof, select_at, show_at, statement_of, term_at, update_at, use_at, value_at,
    values_at, where_at, within, Read,
};
use crate::lexer::{token_views, tokenize, tokens_from, lexable_from};
use crate::number::parse_i64;
use crate::text::{string_from_chars, trimmed, trimmed_of};
use crate::tokens::{Command, DataType, Helper, Operator, Token, TokenView};
use crate::value::ASTValue;

verus! {

/// A parser over the tokens of a statement; `position` is the token that
/// comes next.
pub struct Parser {
    pub tokens: Vec<Token>,
    pub position: usize,
}

/// The token at a position as a mathematical value, `EOF` behind the end.
pub open spec fn token_or_eof(tokens: Seq<Token>, pos: int) -> TokenView {
    if 0 <= pos < tokens.len() {
        tokens[pos]@
    } else {
        TokenView::EOF
    }
}

impl Parser {
    /// A parser at the first of the tokens.
    pub fn new(tokens: Vec<Token>) -> (parser: Parser)
        ensures
            parser.tokens == tokens,
            parser.position == 0,
    {
        Parser { tokens, position: 0 }
    }

    /// The token that comes next, if one does.
    pub fn peek(&self) -> (token: Option<&Token>)
        ensures
            token == if self.position < self.tokens@.len() {
                Some(&self.tokens@[self.position as int])
            } else {
                None
            },
    {
        if self.position < self.tokens.len() {
            Some(&self.tokens[self.position])
        } else {
            None
        }
    }

    /// Gives the token that comes next, if one does, and steps over it; the
    /// position goes up by one also where none does.
    pub fn consume(&mut self) -> (token: Option<&Token>)
        requires
            old(self).position < usize::MAX,
        ensures
            final(self).tokens == old(self).tokens,
            final(self).position == old(self).position + 1,
            token == if old(self).position < old(self).tokens@.len() {
                Some(&old(self).tokens@[old(self).position as int])
            } else {
                None
            },
    {
        let at = self.position;
        self.position += 1;
        if at < self.tokens.len() {
            Some(&self.tokens[at])
        } else {
            None
        }
    }

    /// Steps over the token that comes next and says whether it is the one
    /// that has to come. Where it is another, or none comes, the error names
    /// both, with `EOF` for none, and the position after the step.
    pub fn expect(&mut self, expected: Token) -> (met: Result<(), SqlError>)
        requires
            old(self).position < usize::MAX,
        ensures
            final(self).tokens == old(self).tokens,
            final(self).position == old(self).position + 1,
            match met {
                Ok(()) => token_or_eof(old(self).tokens@, old(self).position as int) == expected@
                    && old(self).position < old(self).tokens@.len(),
                Err(e) => {
                    &&& !(token_or_eof(old(self).tokens@, old(self).position as int) == expected@
                        && old(self).position < old(self).tokens@.len())
                    &&& e matches SqlError::UnexpectedToken { expected: wanted, found, pos }
                    &&& wanted@ == expected@
                    &&& found@ == token_or_eof(old(self).tokens@, old(self).position as int)
                    &&& pos == old(self).position + 1
                },
            },
    {
        let at = self.position;
        self.position += 1;
        if at < self.tokens.len() {
            if self.tokens[at].same(&expected) {
                Ok(())
            } else {
                Err(
                    SqlError::UnexpectedToken {
                        expected,
                        found: self.tokens[at].duplicate(),
                        pos: self.position,
                    },
                )
            }
        } else {
            Err(SqlError::UnexpectedToken { expected, found: Token::EOF, pos: self.position })
        }
    }
}

impl Parser {
    /// The tokens as mathematical values.
    pub open spec fn ts(&self) -> Seq<TokenView> {
        token_views(self.tokens@)
    }

    /// Whether the position has room to go over every token and a little
    /// further.
    pub open spec fn roomy(&self) -> bool {
        self.position + self.tokens@.len() + 16 <= usize::MAX && 2 * self.tokens@.len() + 16
            <= usize::MAX
    }

    /// Whether the parser is `before` but for its position.
    pub open spec fn moved_from(&self, before: &Parser) -> bool {
        self.tokens == before.tokens
    }

    /// Steps over the token at the position where `expected` has to stand.
    fn step(&mut self, expected: Token) -> (met: Result<(), SqlError>)
        requires
            old(self).position < usize::MAX,
        ensures
            final(self).moved_from(old(self)),
            final(self).position == old(self).position + 1,
            match met {
                Ok(()) => expecting(old(self).ts(), old(self).position as int, expected@) is None
                    && final(self).position <= final(self).tokens@.len(),
                Err(e) => expecting(old(self).ts(), old(self).position as int, expected@) == Some(
                    e@,
                ),
            },
    {
        let ghost at = self.position as int;
        assert(at < self.tokens@.len() ==> self.ts()[at] == self.tokens@[at]@);
        self.expect(expected)
    }

    /// The identifier at the position as a text, and steps over the token
    /// there whatever it is.
    fn take_name(&mut self) -> (name: Option<String>)
        requires
            old(self).position < usize::MAX,
        ensures
            final(self).moved_from(old(self)),
            final(self).position == old(self).position + 1,
            match name {
                Some(text) => within(old(self).ts(), old(self).position as int) && old(
                    self).ts()[old(self).position as int] == TokenView::IDENT(text@) && final(
                    self).position <= final(self).tokens@.len(),
                None => !(within(old(self).ts(), old(self).position as int) && old(
                    self).ts()[old(self).position as int] is IDENT),
            },
    {
        let at = self.position;
        self.position += 1;
        if at < self.tokens.len() {
            assert(self.ts()[at as int] == self.tokens@[at as int]@);
            match &self.tokens[at] {
                Token::IDENT(name) => Some(string_from_chars(name)),
                _ => None,
            }
        } else {
            None
        }
    }

    /// A copy of the token at a position, `EOF` behind the end.
    fn token_or_end(&self, at: usize) -> (token: Token)
        ensures
            token@ == or_eof(self.ts(), at as int),
    {
        if at < self.tokens.len() {
            assert(self.ts()[at as int] == self.tokens@[at as int]@);
            self.tokens[at].duplicate()
        } else {
            Token::EOF
        }
    }

    /// Whether the token at a position is the given one.
    fn is_at(&self, at: usize, token: &Token) -> (is: bool)
        ensures
            is == (within(self.ts(), at as int) && self.ts()[at as int] == token@),
    {
        if at < self.tokens.len() {
            assert(self.ts()[at as int] == self.tokens@[at as int]@);
            self.tokens[at].same(token)
        } else {
            false
        }
    }

    /// Reads a value.
    fn parse_value(&mut self) -> (done: Result<ASTValue, SqlError>)
        requires
            old(self).roomy(),
        ensures
            final(self).moved_from(old(self)),
            final(self).position == value_at(old(self).ts(), old(self).position as int).1,
            match done {
                Ok(value) => value_at(old(self).ts(), old(self).position as int).0 == Ok::<
                    crate::value::ValueView,
                    Fault,
                >(value@) && final(self).position <= final(self).tokens@.len(),
                Err(e) => value_at(old(self).ts(), old(self).position as int).0 == Err::<
                    crate::value::ValueView,
                    Fault,
                >(e@),
            },
    {
        let at = self.position;
        if at < self.tokens.len() {
            assert(self.ts()[at as int] == self.tokens@[at as int]@);
            match &self.tokens[at] {
                Token::INT(val) => {
                    match parse_i64(val) {
                        Some(i) => {
                            self.position += 1;
                            return Ok(ASTValue::Int(i));
                        },
                        None => {
                            return Err(
                                SqlError::InvalidNumber {
                                    literal: string_from_chars(val),
                                    pos: self.position,
                                },
                            );
                        },
                    }
                },
                Token::SINGLEQUOTE(_) => {
                    self.position += 1;
                    match self.take_name() {
                        Some(text) => {
                            match self.step(Token::SINGLEQUOTE('\'')) {
                                Ok(()) => {
                                    return Ok(ASTValue::String(text));
                                },
                                Err(e) => {
                                    return Err(e);
                                },
                            }
                        },
                        None => {
                            return Err(
                                SqlError::UnexpectedToken {
                                    expected: Token::IDENT(Vec::new()),
                                    found: Token::EOF,
                                    pos: self.position,
                                },
                            );
                        },
                    }
                },
                _ => {},
            }
        }
        Err(
            SqlError::UnexpectedToken {
                expected: Token::IDENT(Vec::new()),
                found: Token::EOF,
                pos: self.position,
            },
        )
    }
}

/// Whether a parser that read a condition did as the grammar says.
pub open spec fn read_condition(
    done: Result<Condition, SqlError>,
    pos: usize,
    wanted: Read<crate::ast::ConditionView>,
) -> bool {
    pos == wanted.1 && match done {
        Ok(condition) => wanted.0 == Ok::<crate::ast::ConditionView, Fault>(condition@),
        Err(e) => wanted.0 == Err::<crate::ast::ConditionView, Fault>(e@),
    }
}

/// Whether a parser that read a statement did as the grammar says.
pub open spec fn read_node(
    done: Result<ASTNode, SqlError>,
    pos: usize,
    wanted: Read<crate::ast::NodeView>,
) -> bool {
    pos == wanted.1 && match done {
        Ok(node) => wanted.0 == Ok::<crate::ast::NodeView, Fault>(node@),
        Err(e) => wanted.0 == Err::<crate::ast::NodeView, Fault>(e@),
    }
}

impl Parser {
    /// Reads a term of a condition.
    fn parse_term(&mut self) -> (done: Result<Condition, SqlError>)
        requires
            old(self).roomy(),
        ensures
            final(self).moved_from(old(self)),
            read_condition(
                done,
                final(self).position,
                term_at(old(self).ts(), old(self).position as int),
            ),
            done is Ok ==> old(self).position < final(self).position <= final(self).tokens@.len(),
        decreases old(self).tokens@.len() - old(self).position, 0int,
    {
        let at = self.position;
        let ghost ts = self.ts();
        if self.is_at(at, &Token::LPAREN('(')) {
            self.position += 1;
            let expr = match self.parse_expression() {
                Ok(expr) => expr,
                Err(e) => {
                    return Err(e);
                },
            };
            return match self.step(Token::RPAREN(')')) {
                Ok(()) => Ok(expr),
                Err(e) => Err(e),
            };
        }
        let left = match self.take_name() {
            Some(name) => Condition::Column(name),
            None => {
                return Err(
                    SqlError::UnexpectedToken {
                        expected: Token::IDENT(Vec::new()),
                        found: self.token_or_end(at),
                        pos: self.position,
                    },
                );
            },
        };
        let op_at = self.position;
        self.position += 1;
        let operator = if op_at < self.tokens.len() {
            assert(ts[op_at as int] == self.tokens@[op_at as int]@);
            match &self.tokens[op_at] {
                Token::Operator(op) => Some(*op),
                _ => None,
            }
        } else {
            None
        };
        let operator = match operator {
            Some(op) => op,
            None => {
                return Err(
                    SqlError::UnexpectedToken {
                        expected: Token::Operator(Operator::AND),
                        found: self.token_or_end(op_at),
                        pos: self.position,
                    },
                );
            },
        };
        let right_at = self.position;
        let kind: u8 = if right_at < self.tokens.len() {
            assert(ts[right_at as int] == self.tokens@[right_at as int]@);
            match &self.tokens[right_at] {
                Token::IDENT(_) => 1,
                Token::INT(_) => 2,
                Token::SINGLEQUOTE(_) => 2,
                _ => 0,
            }
        } else {
            0
        };
        let right = if kind == 1 {
            match self.take_name() {
                Some(name) => Condition::Column(name),
                None => Condition::Column(String::new()),
            }
        } else if kind == 2 {
            match self.parse_value() {
                Ok(value) => Condition::Value(value),
                Err(e) => {
                    return Err(e);
                },
            }
        } else {
            return Err(
                SqlError::UnexpectedToken {
                    expected: Token::IDENT(Vec::new()),
                    found: self.token_or_end(right_at),
                    pos: self.position,
                },
            );
        };
        let ghost left_view = left@;
        let ghost right_view = right@;
        let whole = Condition::Comparison { operator, left: Box::new(left), right: Box::new(right) };
        assert(whole@ == crate::ast::ConditionView::Comparison {
            operator,
            left: Box::new(left_view),
            right: Box::new(right_view),
        });
        Ok(whole)
    }

    /// Reads the terms that are joined to a term by `AND` and `OR`.
    fn parse_joined(&mut self, left: Condition) -> (done: Result<Condition, SqlError>)
        requires
            old(self).roomy(),
            old(self).position <= old(self).tokens@.len(),
        ensures
            final(self).moved_from(old(self)),
            read_condition(
                done,
                final(self).position,
                joined_at(old(self).ts(), old(self).position as int, left@),
            ),
            done is Ok ==> old(self).position <= final(self).position <= final(
                self).tokens@.len(),
        decreases old(self).tokens@.len() - old(self).position, 1int,
    {
        let at = self.position;
        let ghost ts = self.ts();
        let operator = if at < self.tokens.len() {
            assert(ts[at as int] == self.tokens@[at as int]@);
            match &self.tokens[at] {
                Token::Operator(Operator::AND) => Some(Operator::AND),
                Token::Operator(Operator::OR) => Some(Operator::OR),
                _ => None,
            }
        } else {
            None
        };
        match operator {
            None => Ok(left),
            Some(operator) => {
                self.position += 1;
                let right = match self.parse_term() {
                    Ok(right) => right,
                    Err(e) => {
                        return Err(e);
                    },
                };
                let ghost left_view = left@;
                let ghost right_view = right@;
                let whole = Condition::Comparison {
                    operator,
                    left: Box::new(left),
                    right: Box::new(right),
                };
                assert(whole@ == crate::ast::ConditionView::Comparison {
                    operator,
                    left: Box::new(left_view),
                    right: Box::new(right_view),
                });
                self.parse_joined(whole)
            },
        }
    }

    /// Reads an expression: a term and what is joined to it.
    fn parse_expression(&mut self) -> (done: Result<Condition, SqlError>)
        requires
            old(self).roomy(),
        ensures
            final(self).moved_from(old(self)),
            read_condition(
                done,
                final(self).position,
                expression_at(old(self).ts(), old(self).position as int),
            ),
            done is Ok ==> old(self).position < final(self).position <= final(self).tokens@.len(),
        decreases old(self).tokens@.len() - old(self).position, 2int,
    {
        let left = match self.parse_term() {
            Ok(left) => left,
            Err(e) => {
                return Err(e);
            },
        };
        self.parse_joined(left)
    }

    /// Reads a condition, as it stands behind `WHERE`.
    pub fn parse_condition(&mut self) -> (done: Result<Condition, SqlError>)
        requires
            old(self).roomy(),
        ensures
            final(self).moved_from(old(self)),
            read_condition(
                done,
                final(self).position,
                expression_at(old(self).ts(), old(self).position as int),
            ),
            done is Ok ==> final(self).position <= final(self).tokens@.len(),
    {
        self.parse_expression()
    }
}

/// The texts of a list as sequences of characters.
pub open spec fn text_views(texts: Seq<String>) -> Seq<Seq<char>> {
    Seq::new(texts.len(), |i: int| texts[i]@)
}

/// The values of a list as mathematical values.
pub open spec fn value_list(values: Seq<ASTValue>) -> Seq<crate::value::ValueView> {
    Seq::new(values.len(), |i: int| values[i]@)
}

/// The assignments of a list as mathematical values.
pub open spec fn assignment_list(assignments: Seq<Assignment>) -> Seq<crate::ast::AssignmentView> {
    Seq::new(assignments.len(), |i: int| assignments[i]@)
}

/// The column definitions of a list as mathematical values.
pub open spec fn definition_list(definitions: Seq<ColumnDefinition>) -> Seq<
    crate::ast::ColumnDefinitionView,
> {
    Seq::new(definitions.len(), |i: int| definitions[i]@)
}

/// The character vectors of a list as sequences of characters.
pub open spec fn word_list(words: Seq<Vec<char>>) -> Seq<Seq<char>> {
    Seq::new(words.len(), |i: int| words[i]@)
}

impl Parser {
    /// Reads a `WHERE` clause, if one stands at the position.
    fn parse_where(&mut self) -> (done: Result<Option<Condition>, SqlError>)
        requires
            old(self).roomy(),
        ensures
            final(self).moved_from(old(self)),
            final(self).position == where_at(old(self).ts(), old(self).position as int).1,
            match done {
                Ok(clause) => where_at(old(self).ts(), old(self).position as int).0 == Ok::<
                    Option<crate::ast::ConditionView>,
                    Fault,
                >(crate::ast::clause_view(clause)) && (final(self).position <= final(
                    self).tokens@.len() || final(self).position == old(self).position),
                Err(e) => where_at(old(self).ts(), old(self).position as int).0 == Err::<
                    Option<crate::ast::ConditionView>,
                    Fault,
                >(e@),
            },
    {
        if self.is_at(self.position, &Token::Command(Command::WHERE)) {
            self.position += 1;
            match self.parse_condition() {
                Ok(condition) => Ok(Some(condition)),
                Err(e) => Err(e),
            }
        } else {
            Ok(None)
        }
    }

    /// Reads `SELECT` columns `FROM` table, a `WHERE` clause or none, and
    /// `;`.
    #[verifier::loop_isolation(false)]
    pub fn parse_select(&mut self) -> (done: Result<ASTNode, SqlError>)
        requires
            old(self).roomy(),
        ensures
            final(self).moved_from(old(self)),
            read_node(
                done,
                final(self).position,
                select_at(old(self).ts(), old(self).position as int),
            ),
    {
        let ghost ts = self.ts();
        let ghost start = self.position as int;
        match self.step(Token::Command(Command::SELECT)) {
            Ok(()) => {},
            Err(e) => {
                return Err(e);
            },
        }
        let mut columns: Vec<String> = Vec::new();
        if self.is_at(self.position, &Token::Operator(Operator::ASTERISK)) {
            self.position += 1;
            columns.push("*".to_string());
            assert(text_views(columns@) =~= seq!["*"@]);
        } else {
            let ghost from = self.position as int;
            assert(text_views(columns@) =~= Seq::<Seq<char>>::empty());
            loop
                invariant
                    self.moved_from(old(self)),
                    self.position <= self.tokens@.len(),
                    names_at(ts, from, Seq::<Seq<char>>::empty()) == names_at(
                        ts,
                        self.position as int,
                        text_views(columns@),
                    ),
                decreases self.tokens@.len() - self.position,
            {
                let ghost before = text_views(columns@);
                match self.take_name() {
                    Some(name) => {
                        columns.push(name);
                        assert(text_views(columns@) =~= before.push(name@));
                        if self.is_at(self.position, &Token::COMMA(',')) {
                            self.position += 1;
                        } else {
                            break ;
                        }
                    },
                    None => {
                        break ;
                    },
                }
            }
        }
        let ghost q = self.position as int;
        match self.step(Token::Command(Command::FROM)) {
            Ok(()) => {},
            Err(e) => {
                return Err(e);
            },
        }
        let table_name = match self.take_name() {
            Some(name) => name,
            None => {
                return Err(
                    SqlError::UnexpectedToken {
                        expected: Token::IDENT(Vec::new()),
                        found: Token::EOF,
                        pos: self.position,
                    },
                );
            },
        };
        let where_clause = match self.parse_where() {
            Ok(clause) => clause,
            Err(e) => {
                return Err(e);
            },
        };
        match self.step(Token::SEMICOLON(';')) {
            Ok(()) => {},
            Err(e) => {
                return Err(e);
            },
        }
        Ok(ASTNode::Select { columns, table_name, where_clause })
    }

    /// Reads `INSERT INTO` table `VALUES (` values `);`.
    #[verifier::loop_isolation(false)]
    pub fn parse_insert(&mut self) -> (done: Result<ASTNode, SqlError>)
        requires
            old(self).roomy(),
        ensures
            final(self).moved_from(old(self)),
            read_node(
                done,
                final(self).position,
                insert_at(old(self).ts(), old(self).position as int),
            ),
    {
        let ghost ts = self.ts();
        match self.step(Token::Command(Command::INSERT)) {
            Ok(()) => {},
            Err(e) => {
                return Err(e);
            },
        }
        match self.step(Token::Command(Command::INTO)) {
            Ok(()) => {},
            Err(e) => {
                return Err(e);
            },
        }
        let table_name = match self.take_name() {
            Some(name) => name,
            None => {
                return Err(
                    SqlError::UnexpectedToken {
                        expected: Token::IDENT(Vec::new()),
                        found: Token::EOF,
                        pos: self.position,
                    },
                );
            },
        };
        match self.step(Token::Command(Command::VALUES)) {
            Ok(()) => {},
            Err(e) => {
                return Err(e);
            },
        }
        match self.step(Token::LPAREN('(')) {
            Ok(()) => {},
            Err(e) => {
                return Err(e);
            },
        }
        let mut values: Vec<ASTValue> = Vec::new();
        let ghost from = self.position as int;
        assert(value_list(values@) =~= Seq::<crate::value::ValueView>::empty());
        while self.position < self.tokens.len()
            invariant
                self.moved_from(old(self)),
                self.position <= self.tokens@.len(),
                values_at(ts, from, Seq::<crate::value::ValueView>::empty()) == values_at(
                    ts,
                    self.position as int,
                    value_list(values@),
                ),
            decreases self.tokens@.len() - self.position,
        {
            let at = self.position;
            let ghost before = value_list(values@);
            assert(ts[at as int] == self.tokens@[at as int]@);
            let kind: u8 = match &self.tokens[at] {
                Token::INT(_) => 1,
                Token::SINGLEQUOTE(_) => 1,
                Token::COMMA(c) => if *c == ',' {
                    2
                } else {
                    0
                },
                Token::RPAREN(c) => if *c == ')' {
                    3
                } else {
                    0
                },
                _ => 0,
            };
            if kind == 1 {
                match self.parse_value() {
                    Ok(value) => {
                        values.push(value);
                        assert(value_list(values@) =~= before.push(value@));
                    },
                    Err(e) => {
                        return Err(e);
                    },
                }
            } else if kind == 2 {
                self.position += 1;
            } else if kind == 3 {
                self.position += 1;
                break ;
            } else {
                return Err(
                    SqlError::UnexpectedToken {
                        expected: Token::IDENT(Vec::new()),
                        found: Token::EOF,
                        pos: self.position,
                    },
                );
            }
        }
        match self.step(Token::SEMICOLON(';')) {
            Ok(()) => {},
            Err(e) => {
                return Err(e);
            },
        }
        Ok(ASTNode::Insert { table_name, values })
    }

    /// Reads the assignments of an `UPDATE`.
    #[verifier::loop_isolation(false)]
    fn parse_assignments(&mut self) -> (done: Result<Vec<Assignment>, SqlError>)
        requires
            old(self).roomy(),
            old(self).position <= old(self).tokens@.len(),
        ensures
            final(self).moved_from(old(self)),
            final(self).position == assignments_at(
                old(self).ts(),
                old(self).position as int,
                Seq::<crate::ast::AssignmentView>::empty(),
            ).1,
            final(self).position <= final(self).tokens@.len() + 1,
            match done {
                Ok(assignments) => assignments_at(
                    old(self).ts(),
                    old(self).position as int,
                    Seq::<crate::ast::AssignmentView>::empty(),
                ).0 == Ok::<Seq<crate::ast::AssignmentView>, Fault>(assignment_list(assignments@)),
                Err(e) => assignments_at(
                    old(self).ts(),
                    old(self).position as int,
                    Seq::<crate::ast::AssignmentView>::empty(),
                ).0 == Err::<Seq<crate::ast::AssignmentView>, Fault>(e@),
            },
    {
        let ghost ts = self.ts();
        let mut assignments: Vec<Assignment> = Vec::new();
        let ghost from = self.position as int;
        assert(assignment_list(assignments@) =~= Seq::<crate::ast::AssignmentView>::empty());
        loop
            invariant
                self.moved_from(old(self)),
                self.position <= self.tokens@.len(),
                assignments_at(ts, from, Seq::<crate::ast::AssignmentView>::empty())
                    == assignments_at(ts, self.position as int, assignment_list(assignments@)),
            decreases self.tokens@.len() - self.position,
        {
            let ghost before = assignment_list(assignments@);
            let column = match self.take_name() {
                Some(name) => name,
                None => {
                    break ;
                },
            };
            match self.step(Token::Operator(Operator::EQUALS)) {
                Ok(()) => {},
                Err(e) => {
                    return Err(e);
                },
            }
            let value = match self.parse_value() {
                Ok(value) => value,
                Err(e) => {
                    return Err(e);
                },
            };
            assignments.push(Assignment { column, value });
            assert(assignment_list(assignments@) =~= before.push(
                crate::ast::AssignmentView { column: column@, value: value@ },
            ));
            if self.is_at(self.position, &Token::COMMA(',')) {
                self.position += 1;
            } else {
                break ;
            }
        }
        Ok(assignments)
    }

    /// Reads `UPDATE` table `SET` assignments, a `WHERE` clause or none,
    /// and `;`.
    pub fn parse_update(&mut self) -> (done: Result<ASTNode, SqlError>)
        requires
            old(self).roomy(),
        ensures
            final(self).moved_from(old(self)),
            read_node(
                done,
                final(self).position,
                update_at(old(self).ts(), old(self).position as int),
            ),
    {
        let ghost ts = self.ts();
        match self.step(Token::Command(Command::UPDATE)) {
            Ok(()) => {},
            Err(e) => {
                return Err(e);
            },
        }
        let table_name = match self.take_name() {
            Some(name) => name,
            None => {
                return Err(
                    SqlError::UnexpectedToken {
                        expected: Token::IDENT(Vec::new()),
                        found: Token::EOF,
                        pos: self.position,
                    },
                );
            },
        };
        match self.step(Token::Command(Command::SET)) {
            Ok(()) => {},
            Err(e) => {
                return Err(e);
            },
        }
        let assignments = match self.parse_assignments() {
            Ok(assignments) => assignments,
            Err(e) => {
                return Err(e);
            },
        };
        let where_clause = match self.parse_where() {
            Ok(clause) => clause,
            Err(e) => {
                return Err(e);
            },
        };
        match self.step(Token::SEMICOLON(';')) {
            Ok(()) => {},
            Err(e) => {
                return Err(e);
            },
        }
        Ok(ASTNode::Update { table_name, assignments, where_clause })
    }

    /// Reads `DELETE FROM` table and a `WHERE` clause or none.
    pub fn parse_delete(&mut self) -> (done: Result<ASTNode, SqlError>)
        requires
            old(self).roomy(),
        ensures
            final(self).moved_from(old(self)),
            read_node(
                done,
                final(self).position,
                delete_at(old(self).ts(), old(self).position as int),
            ),
    {
        match self.step(Token::Command(Command::DELETE)) {
            Ok(()) => {},
            Err(e) => {
                return Err(e);
            },
        }
        match self.step(Token::Command(Command::FROM)) {
            Ok(()) => {},
            Err(e) => {
                return Err(e);
            },
        }
        let table_name = match self.take_name() {
            Some(name) => name,
            None => {
                return Err(
                    SqlError::UnexpectedToken {
                        expected: Token::IDENT(Vec::new()),
                        found: Token::EOF,
                        pos: self.position,
                    },
                );
            },
        };
        let where_clause = match self.parse_where() {
            Ok(clause) => clause,
            Err(e) => {
                return Err(e);
            },
        };
        Ok(ASTNode::Delete { table_name, where_clause })
    }

    /// Reads `USE` database.
    pub fn parse_use(&mut self) -> (done: Result<ASTNode, SqlError>)
        requires
            old(self).roomy(),
        ensures
            final(self).moved_from(old(self)),
            read_node(done, final(self).position, use_at(old(self).ts(), old(self).position as int)),
    {
        match self.step(Token::Command(Command::USE)) {
            Ok(()) => {},
            Err(e) => {
                return Err(e);
            },
        }
        match self.take_name() {
            Some(database_name) => Ok(ASTNode::USE { database_name }),
            None => Err(
                SqlError::UnexpectedToken {
                    expected: Token::IDENT(Vec::new()),
                    found: Token::EOF,
                    pos: self.position,
                },
            ),
        }
    }

    /// Reads `SHOW TABLES;` or `SHOW DATABASES;`.
    pub fn parse_show(&mut self) -> (done: Result<ASTNode, SqlError>)
        requires
            old(self).roomy(),
        ensures
            final(self).moved_from(old(self)),
            read_node(
                done,
                final(self).position,
                show_at(old(self).ts(), old(self).position as int),
            ),
    {
        match self.step(Token::Command(Command::SHOW)) {
            Ok(()) => {},
            Err(e) => {
                return Err(e);
            },
        }
        let at = self.position;
        self.position += 1;
        let show_type = if self.is_at(at, &Token::Command(Command::TABLES)) {
            ShowType::TABLES
        } else if self.is_at(at, &Token::Command(Command::DATABASES)) {
            ShowType::DATABASES
        } else {
            return Err(SqlError::ShowNotSupported);
        };
        match self.step(Token::SEMICOLON(';')) {
            Ok(()) => {},
            Err(e) => {
                return Err(e);
            },
        }
        Ok(ASTNode::Show { show_type })
    }

    /// Reads `CREATE DATABASE` name.
    pub fn parse_create_database(&mut self) -> (done: Result<ASTNode, SqlError>)
        requires
            old(self).roomy(),
        ensures
            final(self).moved_from(old(self)),
            read_node(
                done,
                final(self).position,
                create_database_at(old(self).ts(), old(self).position as int),
            ),
    {
        match self.step(Token::Command(Command::CREATE)) {
            Ok(()) => {},
            Err(e) => {
                return Err(e);
            },
        }
        match self.step(Token::Command(Command::DATABASE)) {
            Ok(()) => {},
            Err(e) => {
                return Err(e);
            },
        }
        match self.take_name() {
            Some(database_name) => Ok(ASTNode::CreateDatabase { database_name }),
            None => Err(
                SqlError::UnexpectedToken {
                    expected: Token::IDENT(Vec::new()),
                    found: self.token_or_end(self.position),
                    pos: self.position,
                },
            ),
        }
    }

    /// Reads `CREATE TABLE` name `(` columns `)`.
    #[verifier::loop_isolation(false)]
    pub fn parse_create_table(&mut self) -> (done: Result<ASTNode, SqlError>)
        requires
            old(self).roomy(),
        ensures
            final(self).moved_from(old(self)),
            read_node(
                done,
                final(self).position,
                create_table_at(old(self).ts(), old(self).position as int),
            ),
    {
        let ghost ts = self.ts();
        match self.step(Token::Command(Command::CREATE)) {
            Ok(()) => {},
            Err(e) => {
                return Err(e);
            },
        }
        match self.step(Token::Command(Command::TABLE)) {
            Ok(()) => {},
            Err(e) => {
                return Err(e);
            },
        }
        let table_name = match self.take_name() {
            Some(name) => name,
            None => {
                return Err(
                    SqlError::UnexpectedToken {
                        expected: Token::IDENT(Vec::new()),
                        found: self.token_or_end(self.position),
                        pos: self.position,
                    },
                );
            },
        };
        match self.step(Token::LPAREN('(')) {
            Ok(()) => {},
            Err(e) => {
                return Err(e);
            },
        }
        let mut columns: Vec<ColumnDefinition> = Vec::new();
        let ghost from = self.position as int;
        assert(definition_list(columns@) =~= Seq::<crate::ast::ColumnDefinitionView>::empty());
        while self.position < self.tokens.len()
            invariant
                self.moved_from(old(self)),
                self.position <= self.tokens@.len(),
                definitions_at(ts, from, Seq::<crate::ast::ColumnDefinitionView>::empty())
                    == definitions_at(ts, self.position as int, definition_list(columns@)),
            decreases self.tokens@.len() - self.position,
        {
            let at = self.position;
            let ghost before = definition_list(columns@);
            assert(ts[at as int] == self.tokens@[at as int]@);
            let kind: u8 = match &self.tokens[at] {
                Token::IDENT(_) => 1,
                Token::RPAREN(c) => if *c == ')' {
                    2
                } else {
                    0
                },
                _ => 0,
            };
            if kind == 2 {
                self.position += 1;
                break ;
            }
            if kind == 0 {
                return Err(
                    SqlError::UnexpectedToken {
                        expected: Token::IDENT(Vec::new()),
                        found: self.token_or_end(self.position),
                        pos: self.position,
                    },
                );
            }
            let column_name = match self.take_name() {
                Some(name) => name,
                None => String::new(),
            };
            let type_at = self.position;
            self.position += 1;
            let column_type = if type_at < self.tokens.len() {
                assert(ts[type_at as int] == self.tokens@[type_at as int]@);
                match &self.tokens[type_at] {
                    Token::DataType(typ) => Some(*typ),
                    _ => None,
                }
            } else {
                None
            };
            let column_type = match column_type {
                Some(typ) => typ,
                None => {
                    return Err(
                        SqlError::UnexpectedToken {
                            expected: Token::DataType(DataType::INTEGER),
                            found: self.token_or_end(self.position),
                            pos: self.position,
                        },
                    );
                },
            };
            let mut constraints: Vec<Vec<char>> = Vec::new();
            let ghost helpers_from = self.position as int;
            assert(word_list(constraints@) =~= Seq::<Seq<char>>::empty());
            loop
                invariant
                    self.moved_from(old(self)),
                    type_at < self.position <= self.tokens@.len(),
                    constraints_at(ts, helpers_from, Seq::<Seq<char>>::empty()) == constraints_at(
                        ts,
                        self.position as int,
                        word_list(constraints@),
                    ),
                decreases self.tokens@.len() - self.position,
            {
                let here = self.position;
                let helper = if here < self.tokens.len() {
                    assert(ts[here as int] == self.tokens@[here as int]@);
                    match &self.tokens[here] {
                        Token::Helper(helper) => Some(*helper),
                        _ => None,
                    }
                } else {
                    None
                };
                match helper {
                    Some(helper) => {
                        let ghost words = word_list(constraints@);
                        constraints.push(crate::lexer::chars_of(helper.to_string().as_str()));
                        assert(word_list(constraints@) =~= words.push(helper.name()));
                        self.position += 1;
                    },
                    None => {
                        break ;
                    },
                }
            }
            let ghost the_constraints = word_list(constraints@);
            let definition = ColumnDefinition {
                column_name,
                column_type,
                columns_constraints: constraints,
            };
            assert(definition@.columns_constraints =~= the_constraints);
            columns.push(definition);
            assert(definition_list(columns@) =~= before.push(definition@));
            if self.is_at(self.position, &Token::COMMA(',')) {
                self.position += 1;
            } else {
                break ;
            }
        }
        Ok(ASTNode::CreateTable { table_name, columns })
    }
}

/// Reads the statement that a list of tokens spells.
pub fn parse_tokens(tokens: Vec<Token>) -> (done: Result<ASTNode, SqlError>)
    requires
        2 * tokens@.len() + 16 <= usize::MAX,
    ensures
        match done {
            Ok(node) => statement_of(token_views(tokens@)) == Ok::<crate::ast::NodeView, Fault>(
                node@,
            ),
            Err(e) => statement_of(token_views(tokens@)) == Err::<crate::ast::NodeView, Fault>(e@),
        },
{
    let mut parser = Parser::new(tokens);
    let ghost ts = parser.ts();
    if parser.is_at(0, &Token::Command(Command::CREATE)) {
        if parser.is_at(1, &Token::Command(Command::TABLE)) {
            parser.parse_create_table()
        } else if parser.is_at(1, &Token::Command(Command::DATABASE)) {
            parser.parse_create_database()
        } else {
            Err(SqlError::UnsupportedCommand)
        }
    } else if parser.is_at(0, &Token::Command(Command::SELECT)) {
        parser.parse_select()
    } else if parser.is_at(0, &Token::Command(Command::INSERT)) {
        parser.parse_insert()
    } else if parser.is_at(0, &Token::Command(Command::UPDATE)) {
        parser.parse_update()
    } else if parser.is_at(0, &Token::Command(Command::DELETE)) {
        parser.parse_delete()
    } else if parser.is_at(0, &Token::Command(Command::USE)) {
        parser.parse_use()
    } else if parser.is_at(0, &Token::Command(Command::SHOW)) {
        parser.parse_show()
    } else {
        Err(SqlError::UnsupportedCommand)
    }
}

/// What reading a statement from a text gives: the text is trimmed and cut
/// into tokens, and the tokens are read. A text that holds a character
/// which starts no token, or that is too long to be indexed, is a
/// `LexError` at position 0.
pub open spec fn command_of(command: Seq<char>) -> Result<crate::ast::NodeView, Fault> {
    let text = trimmed_of(command);
    if !lexable_from(text, 0) || text.len() + 2 > usize::MAX || 2 * tokens_from(text, 0).len() + 16
        > usize::MAX {
        Err(Fault::LexError { pos: 0, reason: "the statement cannot be cut into tokens"@ })
    } else {
        statement_of(tokens_from(text, 0))
    }
}

/// Reads a statement from the text of a command.
pub fn parse_command(command: &str) -> (done: Result<ASTNode, SqlError>)
    ensures
        match done {
            Ok(node) => command_of(command@) == Ok::<crate::ast::NodeView, Fault>(node@),
            Err(e) => command_of(command@) == Err::<crate::ast::NodeView, Fault>(e@),
        },
{
    let text = trimmed(command);
    let tokens = match tokenize(text.as_str()) {
        Some(tokens) => tokens,
        None => {
            return Err(
                SqlError::LexError {
                    pos: 0,
                    reason: "the statement cannot be cut into tokens".to_string(),
                },
            );
        },
    };
    assert(token_views(tokens@).len() == tokens@.len());
    if tokens.len() > (usize::MAX - 16) / 2 {
        return Err(
            SqlError::LexError {
                pos: 0,
                reason: "the statement cannot be cut into tokens".to_string(),
            },
        );
    }
    parse_tokens(tokens)
}

} // verus!
