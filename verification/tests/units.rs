//! Unit tests for the helper types and the individual phases.

use rlox::compiler::Compiler;
use rlox::parser::Parser;
use rlox::resolver::{ResolveStatus, Resolver};
use rlox::scanner::Scanner;
use rlox::stmt::Stmt;
use rlox::token::TokenType;
use rlox::util::{
    char_at, ifte, is_alpha, is_alphanumeric, is_digit, substring, Stack, Stream, StringCache,
    StringKey, Tree,
};

#[test]
fn character_classes() {
    assert!(is_digit('0') && is_digit('9'));
    assert!(!is_digit('a'));
    assert!(is_alpha('a') && is_alpha('Z') && is_alpha('_'));
    assert!(!is_alpha('1'));
    assert!(is_alphanumeric('a') && is_alphanumeric('7'));
    assert!(!is_alphanumeric(' '));
}

#[test]
fn ifte_selects() {
    assert_eq!(ifte(true, 1, 2), 1);
    assert_eq!(ifte(false, 1, 2), 2);
}

#[test]
fn char_at_and_substring() {
    assert_eq!(char_at("abc", 0), Some('a'));
    assert_eq!(char_at("abc", 2), Some('c'));
    assert_eq!(char_at("abc", 3), None);
    assert_eq!(substring("hello", 1, 3), Some("ell"));
    assert_eq!(substring("hello", 4, 1), Some("o"));
    assert_eq!(substring("hello", 4, 2), None);
    assert_eq!(substring("hello", 9, 1), None);
}

#[test]
fn stack_push_pop_peek() {
    let mut s: Stack<u32> = Stack::new();
    assert!(s.is_empty());
    s.push(1);
    s.push(2);
    s.push(3);
    assert_eq!(s.depth(), 3);
    assert_eq!(*s.peek(0), 3);
    assert_eq!(*s.peek(2), 1);
    *s.peek_mut(1) = 9;
    assert_eq!(s.pop(), 3);
    assert_eq!(s.pop(), 9);
    assert_eq!(s.depth(), 1);
    s.clear();
    assert!(s.is_empty());
}

#[test]
fn stream_cursor_moves() {
    let mut st = Stream::new(vec![10, 20, 30]);
    assert!(st.has_curr());
    assert!(!st.has_prev());
    assert!(st.has_next());
    assert_eq!(*st.curr(), 10);
    assert_eq!(*st.next(), 20);
    st.adv();
    assert_eq!(*st.prev(), 10);
    assert_eq!(*st.curr(), 20);
    st.adv();
    st.adv();
    assert!(!st.has_curr());
    st.rev();
    assert_eq!(*st.curr(), 30);
}

#[test]
fn string_cache_interns() {
    let mut cache = StringCache::new();
    let k1 = cache.puts("alpha");
    let k2 = cache.puts("beta");
    let k3 = cache.puts("alpha");
    assert_eq!(k1, k3);
    assert_ne!(k1, k2);
    assert_eq!(cache.gets(k1).as_str(), "alpha");
    assert_eq!(cache.gets(k2).as_str(), "beta");
    assert_eq!(StringKey::new("alpha"), k1);
}

#[test]
fn tree_nodes_and_children() {
    let mut t: Tree<&str> = Tree::new("root");
    assert!(t.has_node(0));
    assert!(!t.has_node(1));
    let a = t.add_node(0, "a");
    let b = t.add_node(0, "b");
    let c = t.add_node(a, "c");
    assert_eq!(*t.read_node(0), "root");
    assert_eq!(*t.read_node(c), "c");
    assert!(t.is_parent_of(0, a));
    assert!(t.is_parent_of(0, b));
    assert!(t.is_parent_of(a, c));
    assert!(!t.is_parent_of(b, c));
    assert_eq!(t.get_parent_key(c), a);
    assert_eq!(t.get_children(0), &vec![a, b]);
    assert!(t.has_children(a));
    assert!(!t.has_children(b));
    *t.write_node(a) = "a2";
    assert_eq!(*t.read_node(a), "a2");
    let z = t.add_node_with_key(b, "z", 77);
    assert_eq!(z, 77);
    assert!(t.is_parent_of(b, 77));
    assert_eq!(*t.read_node(77), "z");
}

#[test]
fn scanner_produces_expected_kinds() {
    let mut sc = Scanner::new();
    let (tokens, had_error) = sc.scan(String::from("var answer = (1 + 2) * 3; // done"));
    assert!(!had_error);
    let kinds: Vec<TokenType> = tokens.iter().map(|t| t.token_type).collect();
    assert_eq!(
        kinds,
        vec![
            TokenType::Var,
            TokenType::Identifier,
            TokenType::Equal,
            TokenType::LeftParen,
            TokenType::Number,
            TokenType::Plus,
            TokenType::Number,
            TokenType::RightParen,
            TokenType::Star,
            TokenType::Number,
            TokenType::Semicolon,
            TokenType::Eof
        ]
    );
    assert_eq!(tokens[1].lexeme, "answer");
    assert_eq!(tokens[4].lexeme, "1");
}

#[test]
fn scanner_tracks_lines_and_two_char_operators() {
    let mut sc = Scanner::new();
    let (tokens, had_error) = sc.scan(String::from("1\n<= == !=\n>"));
    assert!(!had_error);
    assert_eq!(tokens[0].line, 1);
    assert_eq!(tokens[1].token_type, TokenType::LessEqual);
    assert_eq!(tokens[2].token_type, TokenType::EqualEqual);
    assert_eq!(tokens[3].token_type, TokenType::BangEqual);
    assert_eq!(tokens[3].line, 2);
    assert_eq!(tokens[4].token_type, TokenType::Greater);
    assert_eq!(tokens[4].line, 3);
}

#[test]
fn scanner_reads_string_literals() {
    let mut sc = Scanner::new();
    let (tokens, had_error) = sc.scan(String::from("\"hi there\""));
    assert!(!had_error);
    assert_eq!(tokens[0].token_type, TokenType::String);
    assert_eq!(tokens[0].lexeme, "hi there");
}

#[test]
fn parser_builds_statements() {
    let mut sc = Scanner::new();
    let (tokens, _) = sc.scan(String::from("var x = 1; print x; { x; }"));
    let mut p = Parser::new();
    let (stmts, had_error) = p.parse(tokens);
    assert!(!had_error);
    assert_eq!(stmts.len(), 3);
    assert!(matches!(stmts[0], Stmt::Var(_)));
    assert!(matches!(stmts[1], Stmt::Print(_)));
    assert!(matches!(stmts[2], Stmt::Block(_)));
}

#[test]
fn parser_desugars_for_into_while() {
    let mut sc = Scanner::new();
    let (tokens, _) = sc.scan(String::from("for (var i = 0; i; i) print i;"));
    let mut p = Parser::new();
    let (stmts, had_error) = p.parse(tokens);
    assert!(!had_error);
    assert_eq!(stmts.len(), 1);
    assert!(matches!(stmts[0], Stmt::Block(_)));
}

#[test]
fn parser_rejects_bad_assignment_target() {
    let mut sc = Scanner::new();
    let (tokens, _) = sc.scan(String::from("1 = 2;"));
    let mut p = Parser::new();
    let (_, had_error) = p.parse(tokens);
    assert!(had_error);
}

#[test]
fn resolver_annotates_scope_jumps() {
    let mut sc = Scanner::new();
    let (tokens, _) = sc.scan(String::from("var x = 1; { { print x; } }"));
    let mut p = Parser::new();
    let (stmts, _) = p.parse(tokens);
    let mut r = Resolver::new();
    let (stmts, had_error) = r.resolve(stmts);
    assert!(!had_error);
    // the reference to x sits two blocks below its declaration
    let jump = match &stmts[1] {
        Stmt::Block(outer) => match &outer.statements[0] {
            Stmt::Block(inner) => match &inner.statements[0] {
                Stmt::Print(print) => match &print.expression {
                    rlox::expr::Expr::Variable(v) => v.jump,
                    _ => -99,
                },
                _ => -99,
            },
            _ => -99,
        },
        _ => -99,
    };
    assert_eq!(jump, 2);
}

#[test]
fn resolve_status_lifecycle() {
    let mut status = ResolveStatus::declare(7);
    assert_eq!(status.get_line(), 7);
    assert!(status.is_unread());
    status.define();
    status.mark_as_read();
    assert!(!status.is_unread());
}

#[test]
fn compiler_emits_trailing_return_only_for_empty_program() {
    let mut codegen = Compiler::new();
    let stmts: Vec<Stmt> = Vec::new();
    let (byte_code, had_error) = codegen.compile(&stmts);
    assert!(!had_error);
    assert_eq!(byte_code.code.len(), 1);
    assert_eq!(byte_code.constants, vec![rlox::byte_code::Value::Number(0)]);
}

#[test]
fn token_kind_lexemes() {
    assert_eq!(TokenType::Plus.get_lexeme(), "+");
    assert_eq!(TokenType::BangEqual.get_lexeme(), "!=");
    assert_eq!(TokenType::While.get_lexeme(), "while");
    assert_eq!(TokenType::Eof.get_lexeme(), "[EOF]");
}

#[test]
fn error_from_token_formats_location() {
    let t = rlox::token::Token {
        token_type: TokenType::Identifier,
        lexeme: String::from("spot"),
        line: 12,
    };
    let e = rlox::error::Error::from_token(&t, String::from("boom"));
    assert_eq!(e.line, 12);
    assert_eq!(e.loc, " at 'spot'");
    assert_eq!(e.msg, "boom");
}
