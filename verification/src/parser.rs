//! The recursive-descent parser: turns the scanner's token stream into
//! the statement tree the resolver and the compiler walk.
//!
//! Every parsing function consumes tokens moving strictly forward, which
//! is what the termination measures below record: each recursive call
//! either works on a strictly shorter remainder of the stream, or moves
//! to a strictly smaller grammar production at the same position.

use vstd::prelude::*;
use vstd::string::StringExecFns;
use crate::error::Error;
use crate::expr::{Assign, Binary, Call, Expr, Grouping, Literal, Unary, Variable};
use crate::scanner::wf_token_stream;
use crate::stmt::{Block, Expression, Function, If, Print, Return, Stmt, Var, While};
use crate::token::{Token, TokenType};

verus! {

/// The token the parser is looking at: the current one, or the final
/// `Eof` token once the stream is exhausted.
pub open spec fn spec_peek(tokens: Seq<Token>, current: int) -> Token {
    if current < tokens.len() {
        tokens[current]
    } else {
        tokens[tokens.len() - 1]
    }
}

/// The parser state: the token stream, the statements parsed so far, and
/// the read position.
pub struct Parser {
    tokens: Vec<Token>,
    stmts: Vec<Stmt>,
    current: usize,
    had_error: bool,
    errors: Vec<Error>,
}

impl Parser {
    /// The bookkeeping every parsing step preserves: the stream keeps the
    /// scanner's shape and the read position never leaves it.
    pub closed spec fn wf(&self) -> bool {
        &&& wf_token_stream(self.tokens@)
        &&& self.current <= self.tokens@.len()
    }

    /// The parse errors recorded so far.
    pub closed spec fn spec_errors(&self) -> Seq<Error> {
        self.errors@
    }

    pub fn new() -> (r: Parser)
        ensures
            r.spec_errors() == Seq::<Error>::empty(),
    {
        Parser {
            tokens: Vec::new(),
            stmts: Vec::new(),
            current: 0,
            had_error: false,
            errors: Vec::new(),
        }
    }

    /// Parses a token stream into a list of top-level statements.
    /// Parsing stops at the `Eof` token or at the first syntax error;
    /// at most one error is ever recorded per parse, and the returned
    /// flag reports exactly whether one was.
    #[verifier::loop_isolation(false)]
    pub fn parse(&mut self, tokens: Vec<Token>) -> (r: (Vec<Stmt>, bool))
        requires
            wf_token_stream(tokens@),
        ensures
            final(self).wf(),
            final(self).spec_errors().len() <= 1,
            r.1 == (final(self).spec_errors().len() == 1),
    {
        self.restart(tokens);
        let mut done = false;
        while !self.is_at_end() && !done
            invariant
                self.wf(),
                self.had_error == (self.errors@.len() == 1),
                self.errors@.len() <= 1,
                self.had_error ==> done,
            decreases
                self.tokens@.len() - self.current,
                if done {
                    0int
                } else {
                    1int
                },
        {
            if self.peek_type() == TokenType::Eof {
                done = true;
            } else {
                let e = self.parse_decl();
                match e {
                    Ok(stmt) => {
                        self.stmts.push(stmt);
                    },
                    Err(error) => {
                        self.emit_error(error);
                        done = true;
                    },
                }
            }
        }
        let mut stmts: Vec<Stmt> = Vec::new();
        core::mem::swap(&mut stmts, &mut self.stmts);
        (stmts, self.had_error)
    }

    /// Returns to a fresh state over the given token stream, dropping any
    /// diagnostics of an earlier parse, so that each parse stands alone.
    fn restart(&mut self, tokens: Vec<Token>)
        requires
            wf_token_stream(tokens@),
        ensures
            final(self).wf(),
            final(self).spec_errors() == Seq::<Error>::empty(),
            final(self).had_error == false,
    {
        self.tokens = tokens;
        self.stmts.clear();
        self.current = 0;
        self.had_error = false;
        self.errors.clear();
    }

    // decl => fun_decl | var_decl | stmt
    fn parse_decl(&mut self) -> (r: Result<Stmt, Error>)
        requires
            old(self).wf(),
        ensures
            final(self).wf(),
            final(self).tokens == old(self).tokens,
            final(self).errors == old(self).errors,
            final(self).had_error == old(self).had_error,
            old(self).current <= final(self).current,
            r is Ok ==> old(self).current < final(self).current,
        decreases self.tokens@.len() - self.current, 24int,
    {
        if self.is_fun_decl() {
            self.parse_fun_decl()
        } else if self.is_var_decl() {
            self.parse_var_decl()
        } else {
            self.parse_stmt()
        }
    }

    // fun_decl => "fun" id "(" parameters? ")" block_stmt
    // parameters => id ( "," id )*
    #[verifier::loop_isolation(false)]
    fn parse_fun_decl(&mut self) -> (r: Result<Stmt, Error>)
        requires
            old(self).wf(),
        ensures
            final(self).wf(),
            final(self).tokens == old(self).tokens,
            final(self).errors == old(self).errors,
            final(self).had_error == old(self).had_error,
            old(self).current <= final(self).current,
            r is Ok ==> old(self).current < final(self).current,
        decreases self.tokens@.len() - self.current, 23int,
    {
        // "fun"
        self.pop();

        // id
        let name = match self.parse_id() {
            Ok(t) => t,
            Err(er) => {
                return Err(er);
            },
        };

        // "("
        match self.pop_assert(TokenType::LeftParen, " to open function parameter list.") {
            Ok(_) => {},
            Err(er) => {
                return Err(er);
            },
        }
        let mut params: Vec<Token> = Vec::new();
        if !self.pop_if(TokenType::RightParen) {
            // one or more parameters: first
            let p = match self.parse_id() {
                Ok(t) => t,
                Err(er) => {
                    return Err(er);
                },
            };
            params.push(p);

            // the rest
            while self.pop_if(TokenType::Comma)
                invariant
                    self.wf(),
                    self.tokens == old(self).tokens,
                    self.errors == old(self).errors,
                    self.had_error == old(self).had_error,
                    old(self).current < self.current,
                decreases self.tokens@.len() - self.current,
            {
                let p = match self.parse_id() {
                    Ok(t) => t,
                    Err(er) => {
                        return Err(er);
                    },
                };
                params.push(p);
            }

            // ")"
            match self.pop_assert(TokenType::RightParen, " to close function parameter list.") {
                Ok(_) => {},
                Err(er) => {
                    return Err(er);
                },
            }
        }
        // block_stmt
        match self.peek_assert(TokenType::LeftBrace, " to begin function body.") {
            Ok(_) => {},
            Err(er) => {
                return Err(er);
            },
        }
        let body = match self.parse_block_stmt() {
            Ok(s) => s,
            Err(er) => {
                return Err(er);
            },
        };
        match body {
            Stmt::Block(block) => Ok(
                Stmt::Function(Function { name, params, body: block.statements }),
            ),
            _ => Err(self.make_error(String::from_str("Expected a block as the function body."))),
        }
    }

    // var_decl => "var" id ( "=" expr )? ";"
    fn parse_var_decl(&mut self) -> (r: Result<Stmt, Error>)
        requires
            old(self).wf(),
        ensures
            final(self).wf(),
            final(self).tokens == old(self).tokens,
            final(self).errors == old(self).errors,
            final(self).had_error == old(self).had_error,
            old(self).current <= final(self).current,
            r is Ok ==> old(self).current < final(self).current,
        decreases self.tokens@.len() - self.current, 23int,
    {
        // "var"
        self.pop();

        // id
        let name = match self.parse_id() {
            Ok(t) => t,
            Err(er) => {
                return Err(er);
            },
        };

        // ( "=" expr )?    [ aka init ]
        let init: Option<Expr> = if self.peek_type() == TokenType::Equal {
            self.pop();
            let expr = match self.parse_expr() {
                Ok(e) => e,
                Err(er) => {
                    return Err(er);
                },
            };
            Some(expr)
        } else {
            None
        };

        // ";"
        match self.pop_assert(TokenType::Semicolon, " to complete the variable declaration.") {
            Ok(_) => {},
            Err(er) => {
                return Err(er);
            },
        }
        Ok(Stmt::Var(Var { name, init }))
    }

    fn parse_id(&mut self) -> (r: Result<Token, Error>)
        requires
            old(self).wf(),
        ensures
            final(self).wf(),
            final(self).tokens == old(self).tokens,
            final(self).errors == old(self).errors,
            final(self).had_error == old(self).had_error,
            old(self).current <= final(self).current,
            r is Ok ==> old(self).current < final(self).current,
    {
        if self.peek_type() == TokenType::Identifier {
            Ok(self.pop())
        } else {
            Err(self.make_error(String::from_str("Expected an identifier here.")))
        }
    }

    // stmt => print_stmt | block_stmt | if_stmt | expr_stmt | while_stmt
    //       | for_stmt | return_stmt
    fn parse_stmt(&mut self) -> (r: Result<Stmt, Error>)
        requires
            old(self).wf(),
        ensures
            final(self).wf(),
            final(self).tokens == old(self).tokens,
            final(self).errors == old(self).errors,
            final(self).had_error == old(self).had_error,
            old(self).current <= final(self).current,
            r is Ok ==> old(self).current < final(self).current,
        decreases self.tokens@.len() - self.current, 22int,
    {
        match self.peek_type() {
            TokenType::Print => self.parse_print_stmt(),
            TokenType::LeftBrace => self.parse_block_stmt(),
            TokenType::If => self.parse_if_stmt(),
            TokenType::While => self.parse_while_stmt(),
            TokenType::For => self.parse_for_stmt(),
            TokenType::Return => self.parse_return_stmt(),
            _ => self.parse_expr_stmt(),
        }
    }

    // print_stmt => "print" expr ";"
    fn parse_print_stmt(&mut self) -> (r: Result<Stmt, Error>)
        requires
            old(self).wf(),
        ensures
            final(self).wf(),
            final(self).tokens == old(self).tokens,
            final(self).errors == old(self).errors,
            final(self).had_error == old(self).had_error,
            old(self).current <= final(self).current,
            r is Ok ==> old(self).current < final(self).current,
        decreases self.tokens@.len() - self.current, 21int,
    {
        // "print"
        self.pop();

        // expr
        let expression = match self.parse_expr() {
            Ok(e) => e,
            Err(er) => {
                return Err(er);
            },
        };

        // ";"
        match self.pop_assert(TokenType::Semicolon, " to complete the print statement.") {
            Ok(_) => {},
            Err(er) => {
                return Err(er);
            },
        }
        Ok(Stmt::Print(Print { expression }))
    }

    // block_stmt => "{" decl* "}"
    #[verifier::loop_isolation(false)]
    fn parse_block_stmt(&mut self) -> (r: Result<Stmt, Error>)
        requires
            old(self).wf(),
            spec_peek(old(self).tokens@, old(self).current as int).token_type
                == TokenType::LeftBrace,
        ensures
            final(self).wf(),
            final(self).tokens == old(self).tokens,
            final(self).errors == old(self).errors,
            final(self).had_error == old(self).had_error,
            old(self).current <= final(self).current,
            r is Ok ==> old(self).current < final(self).current,
        decreases self.tokens@.len() - self.current, 21int,
    {
        // "{"
        let line = self.pop().line;

        // decl*
        let mut stmts: Vec<Stmt> = Vec::new();
        while self.peek_type() != TokenType::RightBrace && !self.is_at_end()
            invariant
                self.wf(),
                self.tokens == old(self).tokens,
                self.errors == old(self).errors,
                self.had_error == old(self).had_error,
                old(self).current < self.current,
            decreases self.tokens@.len() - self.current,
        {
            let s = match self.parse_decl() {
                Ok(s) => s,
                Err(er) => {
                    return Err(er);
                },
            };
            stmts.push(s);
        }

        // "}"
        match self.pop_assert(TokenType::RightBrace, " to complete the block statement.") {
            Ok(_) => {},
            Err(er) => {
                return Err(er);
            },
        }
        Ok(Stmt::Block(Block { statements: stmts, line }))
    }

    // if_stmt => "if" "(" expr ")" stmt ( "else" stmt )?
    fn parse_if_stmt(&mut self) -> (r: Result<Stmt, Error>)
        requires
            old(self).wf(),
        ensures
            final(self).wf(),
            final(self).tokens == old(self).tokens,
            final(self).errors == old(self).errors,
            final(self).had_error == old(self).had_error,
            old(self).current <= final(self).current,
            r is Ok ==> old(self).current < final(self).current,
        decreases self.tokens@.len() - self.current, 21int,
    {
        // "if"
        self.pop();

        // "("
        match self.pop_assert(TokenType::LeftParen, " to open the if-statement condition-clause") {
            Ok(_) => {},
            Err(er) => {
                return Err(er);
            },
        }

        // expr
        let condition = match self.parse_expr() {
            Ok(e) => e,
            Err(er) => {
                return Err(er);
            },
        };

        // ")"
        match self.pop_assert(
            TokenType::RightParen,
            " to close the if-statement condition-clause.",
        ) {
            Ok(_) => {},
            Err(er) => {
                return Err(er);
            },
        }

        // stmt
        let then_branch = match self.parse_stmt() {
            Ok(s) => Box::new(s),
            Err(er) => {
                return Err(er);
            },
        };

        // ( "else" stmt )?
        let else_branch = if self.peek_type() == TokenType::Else {
            self.pop();
            match self.parse_stmt() {
                Ok(s) => Some(Box::new(s)),
                Err(er) => {
                    return Err(er);
                },
            }
        } else {
            None
        };
        Ok(Stmt::If(If { condition, then_branch, else_branch }))
    }

    // while_stmt => "while" "(" expr ")" stmt
    fn parse_while_stmt(&mut self) -> (r: Result<Stmt, Error>)
        requires
            old(self).wf(),
        ensures
            final(self).wf(),
            final(self).tokens == old(self).tokens,
            final(self).errors == old(self).errors,
            final(self).had_error == old(self).had_error,
            old(self).current <= final(self).current,
            r is Ok ==> old(self).current < final(self).current,
        decreases self.tokens@.len() - self.current, 21int,
    {
        // "while"
        self.pop();

        // "("
        match self.pop_assert(
            TokenType::LeftParen,
            " to open the while-statement condition-clause.",
        ) {
            Ok(_) => {},
            Err(er) => {
                return Err(er);
            },
        }

        // expr
        let condition = match self.parse_expr() {
            Ok(e) => e,
            Err(er) => {
                return Err(er);
            },
        };

        // ")"
        match self.pop_assert(
            TokenType::RightParen,
            " to close the while-statement condition-clause.",
        ) {
            Ok(_) => {},
            Err(er) => {
                return Err(er);
            },
        }

        // stmt
        let body = match self.parse_stmt() {
            Ok(s) => Box::new(s),
            Err(er) => {
                return Err(er);
            },
        };
        Ok(Stmt::While(While { condition, body }))
    }

    // for_stmt => "for" "(" ( var_decl | expr_stmt | ";" ) ( expr )? ";" ( expr )? ")" stmt
    fn parse_for_stmt(&mut self) -> (r: Result<Stmt, Error>)
        requires
            old(self).wf(),
        ensures
            final(self).wf(),
            final(self).tokens == old(self).tokens,
            final(self).errors == old(self).errors,
            final(self).had_error == old(self).had_error,
            old(self).current <= final(self).current,
            r is Ok ==> old(self).current < final(self).current,
        decreases self.tokens@.len() - self.current, 21int,
    {
        // "for"
        let line = self.pop().line;

        // "("
        match self.pop_assert(TokenType::LeftParen, " to open the for-statement control-clause.") {
            Ok(_) => {},
            Err(er) => {
                return Err(er);
            },
        }

        // ( var_decl | expr_stmt | ";" )
        let init: Option<Stmt> = match self.peek_type() {
            TokenType::Var => {
                let s = match self.parse_var_decl() {
                    Ok(s) => s,
                    Err(er) => {
                        return Err(er);
                    },
                };
                Some(s)
            },
            TokenType::Semicolon => {
                self.pop();
                None
            },
            _ => {
                let s = match self.parse_expr_stmt() {
                    Ok(s) => s,
                    Err(er) => {
                        return Err(er);
                    },
                };
                Some(s)
            },
        };

        // ( expr )?
        let condition = if self.peek_type() != TokenType::Semicolon {
            match self.parse_expr() {
                Ok(e) => e,
                Err(er) => {
                    return Err(er);
                },
            }
        } else {
            // desugar the missing condition to a true literal
            Expr::Literal(
                Literal {
                    value: Token {
                        token_type: TokenType::True,
                        lexeme: String::from_str("true"),
                        line,
                    },
                },
            )
        };

        // ";"
        match self.pop_assert(
            TokenType::Semicolon,
            " to complete the for-statement condition-expression.",
        ) {
            Ok(_) => {},
            Err(er) => {
                return Err(er);
            },
        }

        // ( expr )?
        let incr: Option<Expr> = if self.peek_type() != TokenType::RightParen {
            let e = match self.parse_expr() {
                Ok(e) => e,
                Err(er) => {
                    return Err(er);
                },
            };
            Some(e)
        } else {
            None
        };

        // ")"
        match self.pop_assert(TokenType::RightParen, " to close the for-statement control-clause.") {
            Ok(_) => {},
            Err(er) => {
                return Err(er);
            },
        }

        // stmt
        let mut body = match self.parse_stmt() {
            Ok(s) => s,
            Err(er) => {
                return Err(er);
            },
        };

        // desugar incr
        match incr {
            Some(incr) => {
                let mut statements: Vec<Stmt> = Vec::new();
                statements.push(body);
                statements.push(Stmt::Expression(Expression { expression: incr }));
                body = Stmt::Block(Block { statements, line });
            },
            None => {},
        }

        // desugar condition
        body = Stmt::While(While { condition, body: Box::new(body) });

        // desugar init
        match init {
            Some(init) => {
                let mut statements: Vec<Stmt> = Vec::new();
                statements.push(init);
                statements.push(body);
                body = Stmt::Block(Block { statements, line });
            },
            None => {},
        }
        Ok(body)
    }

    // expr_stmt => expr ";"
    fn parse_expr_stmt(&mut self) -> (r: Result<Stmt, Error>)
        requires
            old(self).wf(),
        ensures
            final(self).wf(),
            final(self).tokens == old(self).tokens,
            final(self).errors == old(self).errors,
            final(self).had_error == old(self).had_error,
            old(self).current <= final(self).current,
            r is Ok ==> old(self).current < final(self).current,
        decreases self.tokens@.len() - self.current, 21int,
    {
        // expr
        let expression = match self.parse_expr() {
            Ok(e) => e,
            Err(er) => {
                return Err(er);
            },
        };

        // ";"
        match self.pop_assert(TokenType::Semicolon, " to complete the expression statement.") {
            Ok(_) => {},
            Err(er) => {
                return Err(er);
            },
        }
        Ok(Stmt::Expression(Expression { expression }))
    }

    // return_stmt => "return" expr? ";"
    fn parse_return_stmt(&mut self) -> (r: Result<Stmt, Error>)
        requires
            old(self).wf(),
        ensures
            final(self).wf(),
            final(self).tokens == old(self).tokens,
            final(self).errors == old(self).errors,
            final(self).had_error == old(self).had_error,
            old(self).current <= final(self).current,
            r is Ok ==> old(self).current < final(self).current,
        decreases self.tokens@.len() - self.current, 21int,
    {
        // "return"
        let keyword = self.pop();

        // expr? ";"
        let value: Option<Expr> = if self.pop_if(TokenType::Semicolon) {
            None
        } else {
            let expr = match self.parse_expr() {
                Ok(e) => e,
                Err(er) => {
                    return Err(er);
                },
            };
            match self.pop_assert(TokenType::Semicolon, " to complete the return statment.") {
                Ok(_) => {},
                Err(er) => {
                    return Err(er);
                },
            }
            Some(expr)
        };
        Ok(Stmt::Return(Return { keyword, value }))
    }

    // expr => assign
    fn parse_expr(&mut self) -> (r: Result<Expr, Error>)
        requires
            old(self).wf(),
        ensures
            final(self).wf(),
            final(self).tokens == old(self).tokens,
            final(self).errors == old(self).errors,
            final(self).had_error == old(self).had_error,
            old(self).current <= final(self).current,
            r is Ok ==> old(self).current < final(self).current,
        decreases self.tokens@.len() - self.current, 20int,
    {
        self.parse_assign()
    }

    // assign => ( id "=" assign ) | or
    fn parse_assign(&mut self) -> (r: Result<Expr, Error>)
        requires
            old(self).wf(),
        ensures
            final(self).wf(),
            final(self).tokens == old(self).tokens,
            final(self).errors == old(self).errors,
            final(self).had_error == old(self).had_error,
            old(self).current <= final(self).current,
            r is Ok ==> old(self).current < final(self).current,
        decreases self.tokens@.len() - self.current, 19int,
    {
        let expr = match self.parse_or() {
            Ok(e) => e,
            Err(er) => {
                return Err(er);
            },
        };
        if self.peek_type() == TokenType::Equal {
            let equal = self.pop();
            let rhs = match self.parse_assign() {
                Ok(e) => e,
                Err(er) => {
                    return Err(er);
                },
            };
            match expr {
                Expr::Variable(lhs) => Ok(Expr::Assign(Assign { lhs, rhs: Box::new(rhs) })),
                _ => Err(
                    Error::from_token(
                        &equal,
                        String::from_str("Cannot assign to the expression on the left hand side."),
                    ),
                ),
            }
        } else {
            Ok(expr)
        }
    }

    // or => and ( "or" and )*
    #[verifier::loop_isolation(false)]
    fn parse_or(&mut self) -> (r: Result<Expr, Error>)
        requires
            old(self).wf(),
        ensures
            final(self).wf(),
            final(self).tokens == old(self).tokens,
            final(self).errors == old(self).errors,
            final(self).had_error == old(self).had_error,
            old(self).current <= final(self).current,
            r is Ok ==> old(self).current < final(self).current,
        decreases self.tokens@.len() - self.current, 18int,
    {
        let mut expr = match self.parse_and() {
            Ok(e) => e,
            Err(er) => {
                return Err(er);
            },
        };
        while self.is_or()
            invariant
                self.wf(),
                self.tokens == old(self).tokens,
                self.errors == old(self).errors,
                self.had_error == old(self).had_error,
                old(self).current < self.current,
            decreases self.tokens@.len() - self.current,
        {
            let operator = self.pop();
            let right = match self.parse_and() {
                Ok(e) => e,
                Err(er) => {
                    return Err(er);
                },
            };
            expr = Expr::Binary(
                Binary { left: Box::new(expr), operator, right: Box::new(right) },
            );
        }
        Ok(expr)
    }

    // and => eq ( "and" eq )*
    #[verifier::loop_isolation(false)]
    fn parse_and(&mut self) -> (r: Result<Expr, Error>)
        requires
            old(self).wf(),
        ensures
            final(self).wf(),
            final(self).tokens == old(self).tokens,
            final(self).errors == old(self).errors,
            final(self).had_error == old(self).had_error,
            old(self).current <= final(self).current,
            r is Ok ==> old(self).current < final(self).current,
        decreases self.tokens@.len() - self.current, 17int,
    {
        let mut expr = match self.parse_eq() {
            Ok(e) => e,
            Err(er) => {
                return Err(er);
            },
        };
        while self.is_and()
            invariant
                self.wf(),
                self.tokens == old(self).tokens,
                self.errors == old(self).errors,
                self.had_error == old(self).had_error,
                old(self).current < self.current,
            decreases self.tokens@.len() - self.current,
        {
            let operator = self.pop();
            let right = match self.parse_eq() {
                Ok(e) => e,
                Err(er) => {
                    return Err(er);
                },
            };
            expr = Expr::Binary(
                Binary { left: Box::new(expr), operator, right: Box::new(right) },
            );
        }
        Ok(expr)
    }

    // eq => cmp ( ( "==" | "!=" ) cmp )*
    #[verifier::loop_isolation(false)]
    fn parse_eq(&mut self) -> (r: Result<Expr, Error>)
        requires
            old(self).wf(),
        ensures
            final(self).wf(),
            final(self).tokens == old(self).tokens,
            final(self).errors == old(self).errors,
            final(self).had_error == old(self).had_error,
            old(self).current <= final(self).current,
            r is Ok ==> old(self).current < final(self).current,
        decreases self.tokens@.len() - self.current, 16int,
    {
        let mut expr = match self.parse_cmp() {
            Ok(e) => e,
            Err(er) => {
                return Err(er);
            },
        };
        while self.is_eq()
            invariant
                self.wf(),
                self.tokens == old(self).tokens,
                self.errors == old(self).errors,
                self.had_error == old(self).had_error,
                old(self).current < self.current,
            decreases self.tokens@.len() - self.current,
        {
            let operator = self.pop();
            let right = match self.parse_cmp() {
                Ok(e) => e,
                Err(er) => {
                    return Err(er);
                },
            };
            expr = Expr::Binary(
                Binary { left: Box::new(expr), operator, right: Box::new(right) },
            );
        }
        Ok(expr)
    }

    // cmp => term ( ( "<" | "<=" | ">" | ">=" ) term )*
    #[verifier::loop_isolation(false)]
    fn parse_cmp(&mut self) -> (r: Result<Expr, Error>)
        requires
            old(self).wf(),
        ensures
            final(self).wf(),
            final(self).tokens == old(self).tokens,
            final(self).errors == old(self).errors,
            final(self).had_error == old(self).had_error,
            old(self).current <= final(self).current,
            r is Ok ==> old(self).current < final(self).current,
        decreases self.tokens@.len() - self.current, 15int,
    {
        let mut expr = match self.parse_term() {
            Ok(e) => e,
            Err(er) => {
                return Err(er);
            },
        };
        while self.is_cmp()
            invariant
                self.wf(),
                self.tokens == old(self).tokens,
                self.errors == old(self).errors,
                self.had_error == old(self).had_error,
                old(self).current < self.current,
            decreases self.tokens@.len() - self.current,
        {
            let operator = self.pop();
            let right = match self.parse_term() {
                Ok(e) => e,
                Err(er) => {
                    return Err(er);
                },
            };
            expr = Expr::Binary(
                Binary { left: Box::new(expr), operator, right: Box::new(right) },
            );
        }
        Ok(expr)
    }

    // term => factor ( ( "+" | "-" ) factor )*
    #[verifier::loop_isolation(false)]
    fn parse_term(&mut self) -> (r: Result<Expr, Error>)
        requires
            old(self).wf(),
        ensures
            final(self).wf(),
            final(self).tokens == old(self).tokens,
            final(self).errors == old(self).errors,
            final(self).had_error == old(self).had_error,
            old(self).current <= final(self).current,
            r is Ok ==> old(self).current < final(self).current,
        decreases self.tokens@.len() - self.current, 14int,
    {
        let mut expr = match self.parse_factor() {
            Ok(e) => e,
            Err(er) => {
                return Err(er);
            },
        };
        while self.is_term()
            invariant
                self.wf(),
                self.tokens == old(self).tokens,
                self.errors == old(self).errors,
                self.had_error == old(self).had_error,
                old(self).current < self.current,
            decreases self.tokens@.len() - self.current,
        {
            let operator = self.pop();
            let right = match self.parse_factor() {
                Ok(e) => e,
                Err(er) => {
                    return Err(er);
                },
            };
            expr = Expr::Binary(
                Binary { left: Box::new(expr), operator, right: Box::new(right) },
            );
        }
        Ok(expr)
    }

    // factor => unary ( ( "*" | "/" ) unary )*
    #[verifier::loop_isolation(false)]
    fn parse_factor(&mut self) -> (r: Result<Expr, Error>)
        requires
            old(self).wf(),
        ensures
            final(self).wf(),
            final(self).tokens == old(self).tokens,
            final(self).errors == old(self).errors,
            final(self).had_error == old(self).had_error,
            old(self).current <= final(self).current,
            r is Ok ==> old(self).current < final(self).current,
        decreases self.tokens@.len() - self.current, 13int,
    {
        let mut expr = match self.parse_unary() {
            Ok(e) => e,
            Err(er) => {
                return Err(er);
            },
        };
        while self.is_factor()
            invariant
                self.wf(),
                self.tokens == old(self).tokens,
                self.errors == old(self).errors,
                self.had_error == old(self).had_error,
                old(self).current < self.current,
            decreases self.tokens@.len() - self.current,
        {
            let operator = self.pop();
            let right = match self.parse_unary() {
                Ok(e) => e,
                Err(er) => {
                    return Err(er);
                },
            };
            expr = Expr::Binary(
                Binary { left: Box::new(expr), operator, right: Box::new(right) },
            );
        }
        Ok(expr)
    }

    // unary => ( ( "!" | "-" ) unary ) | call
    fn parse_unary(&mut self) -> (r: Result<Expr, Error>)
        requires
            old(self).wf(),
        ensures
            final(self).wf(),
            final(self).tokens == old(self).tokens,
            final(self).errors == old(self).errors,
            final(self).had_error == old(self).had_error,
            old(self).current <= final(self).current,
            r is Ok ==> old(self).current < final(self).current,
        decreases self.tokens@.len() - self.current, 12int,
    {
        if self.is_unary() {
            let operator = self.pop();
            let right = match self.parse_unary() {
                Ok(e) => e,
                Err(er) => {
                    return Err(er);
                },
            };
            Ok(Expr::Unary(Unary { operator, right: Box::new(right) }))
        } else {
            self.parse_call()
        }
    }

    // call => grouping ( "(" arguments? ")" )* | grouping
    #[verifier::loop_isolation(false)]
    fn parse_call(&mut self) -> (r: Result<Expr, Error>)
        requires
            old(self).wf(),
        ensures
            final(self).wf(),
            final(self).tokens == old(self).tokens,
            final(self).errors == old(self).errors,
            final(self).had_error == old(self).had_error,
            old(self).current <= final(self).current,
            r is Ok ==> old(self).current < final(self).current,
        decreases self.tokens@.len() - self.current, 11int,
    {
        let mut expr = match self.parse_grouping() {
            Ok(e) => e,
            Err(er) => {
                return Err(er);
            },
        };
        while self.pop_if(TokenType::LeftParen)
            invariant
                self.wf(),
                self.tokens == old(self).tokens,
                self.errors == old(self).errors,
                self.had_error == old(self).had_error,
                old(self).current < self.current,
            decreases self.tokens@.len() - self.current,
        {
            expr = match self.parse_arguments(expr) {
                Ok(e) => e,
                Err(er) => {
                    return Err(er);
                },
            };
        }
        Ok(expr)
    }

    // arguments => expr ( "," expr )*
    #[verifier::loop_isolation(false)]
    fn parse_arguments(&mut self, callee: Expr) -> (r: Result<Expr, Error>)
        requires
            old(self).wf(),
            old(self).current >= 1,
        ensures
            final(self).wf(),
            final(self).tokens == old(self).tokens,
            final(self).errors == old(self).errors,
            final(self).had_error == old(self).had_error,
            old(self).current <= final(self).current,
        decreases self.tokens@.len() - self.current, 21int,
    {
        let mut args: Vec<Box<Expr>> = Vec::new();
        let paren: Token;
        if !self.pop_if(TokenType::RightParen) {
            let mut more = true;
            while more
                invariant
                    self.wf(),
                    self.tokens == old(self).tokens,
                    self.errors == old(self).errors,
                    self.had_error == old(self).had_error,
                    old(self).current <= self.current,
                decreases self.tokens@.len() - self.current, if more {
                    1int
                } else {
                    0int
                },
            {
                let e = match self.parse_expr() {
                    Ok(e) => e,
                    Err(er) => {
                        return Err(er);
                    },
                };
                args.push(Box::new(e));
                more = self.pop_if(TokenType::Comma);
            }
            paren = match self.pop_assert(TokenType::RightParen, " to finish function call.") {
                Ok(t) => t,
                Err(er) => {
                    return Err(er);
                },
            };
        } else {
            paren = self.previous_token();
        }
        Ok(Expr::Call(Call { callee: Box::new(callee), paren, arguments: args }))
    }

    // grouping => ( "(" expr ")" ) | primary
    fn parse_grouping(&mut self) -> (r: Result<Expr, Error>)
        requires
            old(self).wf(),
        ensures
            final(self).wf(),
            final(self).tokens == old(self).tokens,
            final(self).errors == old(self).errors,
            final(self).had_error == old(self).had_error,
            old(self).current <= final(self).current,
            r is Ok ==> old(self).current < final(self).current,
        decreases self.tokens@.len() - self.current, 10int,
    {
        if self.is_grouping() {
            self.pop();
            let inner = match self.parse_expr() {
                Ok(e) => e,
                Err(er) => {
                    return Err(er);
                },
            };
            match self.pop_assert(TokenType::RightParen, " to close the grouping.") {
                Ok(_) => {},
                Err(er) => {
                    return Err(er);
                },
            }
            Ok(Expr::Grouping(Grouping { expression: Box::new(inner) }))
        } else {
            self.parse_primary()
        }
    }

    // primary => "true" | "false" | "nil" | IDENTIFIER | NUMBER | STRING
    fn parse_primary(&mut self) -> (r: Result<Expr, Error>)
        requires
            old(self).wf(),
        ensures
            final(self).wf(),
            final(self).tokens == old(self).tokens,
            final(self).errors == old(self).errors,
            final(self).had_error == old(self).had_error,
            old(self).current <= final(self).current,
            r is Ok ==> old(self).current < final(self).current,
        decreases self.tokens@.len() - self.current, 9int,
    {
        if self.is_primary() {
            if self.is_id() {
                Ok(Expr::Variable(Variable { name: self.pop(), jump: -1 }))
            } else {
                Ok(Expr::Literal(Literal { value: self.pop() }))
            }
        } else {
            Err(self.make_error(String::from_str("Expected a primary expression here.")))
        }
    }

    fn is_fun_decl(&self) -> (r: bool)
        requires
            self.wf(),
        ensures
            r == (spec_peek(self.tokens@, self.current as int).token_type == TokenType::Fun),
    {
        self.peek_type() == TokenType::Fun
    }

    fn is_var_decl(&self) -> (r: bool)
        requires
            self.wf(),
        ensures
            r == (spec_peek(self.tokens@, self.current as int).token_type == TokenType::Var),
    {
        self.peek_type() == TokenType::Var
    }

    fn is_or(&self) -> (r: bool)
        requires
            self.wf(),
        ensures
            r == (spec_peek(self.tokens@, self.current as int).token_type == TokenType::Or),
    {
        self.peek_type() == TokenType::Or
    }

    fn is_and(&self) -> (r: bool)
        requires
            self.wf(),
        ensures
            r == (spec_peek(self.tokens@, self.current as int).token_type == TokenType::And),
    {
        self.peek_type() == TokenType::And
    }

    fn is_eq(&self) -> (r: bool)
        requires
            self.wf(),
        ensures
            r ==> spec_peek(self.tokens@, self.current as int).token_type != TokenType::Eof,
    {
        match self.peek_type() {
            TokenType::BangEqual | TokenType::EqualEqual => true,
            _ => false,
        }
    }

    fn is_cmp(&self) -> (r: bool)
        requires
            self.wf(),
        ensures
            r ==> spec_peek(self.tokens@, self.current as int).token_type != TokenType::Eof,
    {
        match self.peek_type() {
            TokenType::Greater | TokenType::GreaterEqual | TokenType::Less | TokenType::LessEqual
                => true,
            _ => false,
        }
    }

    fn is_term(&self) -> (r: bool)
        requires
            self.wf(),
        ensures
            r ==> spec_peek(self.tokens@, self.current as int).token_type != TokenType::Eof,
    {
        match self.peek_type() {
            TokenType::Minus | TokenType::Plus => true,
            _ => false,
        }
    }

    fn is_factor(&self) -> (r: bool)
        requires
            self.wf(),
        ensures
            r ==> spec_peek(self.tokens@, self.current as int).token_type != TokenType::Eof,
    {
        match self.peek_type() {
            TokenType::Slash | TokenType::Star => true,
            _ => false,
        }
    }

    fn is_id(&self) -> (r: bool)
        requires
            self.wf(),
        ensures
            r == (spec_peek(self.tokens@, self.current as int).token_type
                == TokenType::Identifier),
    {
        self.peek_type() == TokenType::Identifier
    }

    fn is_unary(&self) -> (r: bool)
        requires
            self.wf(),
        ensures
            r ==> spec_peek(self.tokens@, self.current as int).token_type != TokenType::Eof,
    {
        match self.peek_type() {
            TokenType::Bang | TokenType::Minus => true,
            _ => false,
        }
    }

    fn is_grouping(&self) -> (r: bool)
        requires
            self.wf(),
        ensures
            r == (spec_peek(self.tokens@, self.current as int).token_type
                == TokenType::LeftParen),
    {
        self.peek_type() == TokenType::LeftParen
    }

    fn is_primary(&self) -> (r: bool)
        requires
            self.wf(),
        ensures
            r ==> spec_peek(self.tokens@, self.current as int).token_type != TokenType::Eof,
    {
        match self.peek_type() {
            TokenType::False | TokenType::True | TokenType::Nil | TokenType::Number
                | TokenType::String | TokenType::Identifier => true,
            _ => false,
        }
    }

    /// Consumes the current token and returns it; at the end of the
    /// stream the position stays put and the final token is returned.
    fn pop(&mut self) -> (r: Token)
        requires
            old(self).wf(),
        ensures
            final(self).wf(),
            final(self).tokens == old(self).tokens,
            final(self).stmts == old(self).stmts,
            final(self).errors == old(self).errors,
            final(self).had_error == old(self).had_error,
            final(self).current as int == if old(self).current < old(self).tokens@.len() {
                old(self).current + 1
            } else {
                old(self).current as int
            },
            spec_peek(old(self).tokens@, old(self).current as int).token_type != TokenType::Eof
                ==> final(self).current == old(self).current + 1,
    {
        proof {
            assert(self.tokens.len() == self.tokens@.len());
        }
        if !self.is_at_end() {
            self.current = self.current + 1;
        }
        self.previous_token()
    }

    /// Consumes the current token if it has the expected kind; otherwise
    /// reports what was expected.
    fn pop_assert(&mut self, tt: TokenType, loc: &str) -> (r: Result<Token, Error>)
        requires
            old(self).wf(),
            tt != TokenType::Eof,
        ensures
            final(self).wf(),
            final(self).tokens == old(self).tokens,
            final(self).stmts == old(self).stmts,
            final(self).errors == old(self).errors,
            final(self).had_error == old(self).had_error,
            old(self).current <= final(self).current,
            r is Ok ==> final(self).current == old(self).current + 1,
            r is Err ==> final(self).current == old(self).current,
    {
        if self.peek_type() != tt {
            let msg = String::from_str("Expected '").concat(tt.get_lexeme()).concat("'").concat(
                loc,
            );
            Err(self.make_error(msg))
        } else {
            Ok(self.pop())
        }
    }

    /// Consumes the current token only if it has the given kind.
    fn pop_if(&mut self, tt: TokenType) -> (r: bool)
        requires
            old(self).wf(),
            tt != TokenType::Eof,
        ensures
            final(self).wf(),
            final(self).tokens == old(self).tokens,
            final(self).stmts == old(self).stmts,
            final(self).errors == old(self).errors,
            final(self).had_error == old(self).had_error,
            r ==> final(self).current == old(self).current + 1,
            !r ==> final(self).current == old(self).current,
            r == (spec_peek(old(self).tokens@, old(self).current as int).token_type == tt),
    {
        if self.peek_type() == tt {
            self.pop();
            true
        } else {
            false
        }
    }

    fn peek(&self) -> (r: &Token)
        requires
            self.wf(),
        ensures
            *r == spec_peek(self.tokens@, self.current as int),
    {
        proof {
            assert(self.tokens.len() == self.tokens@.len());
        }
        if self.is_at_end() {
            &self.tokens[self.tokens.len() - 1]
        } else {
            &self.tokens[self.current]
        }
    }

    fn peek_type(&self) -> (r: TokenType)
        requires
            self.wf(),
        ensures
            r == spec_peek(self.tokens@, self.current as int).token_type,
    {
        self.peek().token_type
    }

    /// Checks the current token's kind without consuming it.
    fn peek_assert(&mut self, tt: TokenType, loc: &str) -> (r: Result<(), Error>)
        requires
            old(self).wf(),
        ensures
            *final(self) == *old(self),
            r is Ok ==> spec_peek(old(self).tokens@, old(self).current as int).token_type == tt,
    {
        if self.peek_type() != tt {
            let msg = String::from_str("Expected '").concat(tt.get_lexeme()).concat("'").concat(
                loc,
            );
            Err(self.make_error(msg))
        } else {
            Ok(())
        }
    }

    /// A copy of the most recently consumed token.
    fn previous_token(&self) -> (r: Token)
        requires
            self.wf(),
            self.current >= 1,
    {
        proof {
            assert(self.tokens.len() == self.tokens@.len());
        }
        self.tokens[self.current - 1].clone()
    }

    fn is_at_end(&self) -> (r: bool)
        ensures
            r == (self.current >= self.tokens@.len()),
    {
        self.current >= self.tokens.len()
    }

    /// A syntax error pointing at the current token.
    fn make_error(&self, msg: String) -> (r: Error)
        requires
            self.wf(),
    {
        Error::from_token(self.peek(), msg)
    }

    /// Records a diagnostic and marks the parse as failed.
    fn emit_error(&mut self, error: Error)
        ensures
            final(self).errors@ == old(self).errors@.push(error),
            final(self).had_error == true,
            final(self).tokens == old(self).tokens,
            final(self).stmts == old(self).stmts,
            final(self).current == old(self).current,
    {
        self.errors.push(error);
        self.had_error = true;
    }

    /// The recorded parse errors, for the shell to report.
    pub fn take_errors(&mut self) -> (r: Vec<Error>)
        ensures
            r@ == old(self).spec_errors(),
            final(self).spec_errors() == Seq::<Error>::empty(),
            final(self).wf() == old(self).wf(),
    {
        let mut out: Vec<Error> = Vec::new();
        core::mem::swap(&mut out, &mut self.errors);
        out
    }
}

} // verus!
