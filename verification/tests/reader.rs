use lisp_core::heap::Heap;
use lisp_core::parser::{is_symbol_char, is_whitespace, ParseError, ParseFailure, Parser, Token};
use lisp_core::printer::Glyph;
use lisp_core::reader::read;
use lisp_core::symbols::SymbolTable;
use lisp_core::value::Value;

fn render(glyphs: &Vec<Glyph>) -> String {
    let mut out = String::new();
    for g in glyphs {
        match g {
            Glyph::Char(u) => out.push(char::from_u32(*u).unwrap()),
            Glyph::Float(bits) => out.push_str(&f64::from_bits(*bits).to_string()),
        }
    }
    out
}

fn print(heap: &Heap, symbols: &SymbolTable, v: Value) -> String {
    render(&v.display(heap, symbols, usize::MAX))
}

fn read_ok(source: &str, heap: &mut Heap, symbols: &mut SymbolTable) -> Vec<Value> {
    read(source, heap, symbols).unwrap().unwrap()
}

fn read_err(source: &str) -> ParseFailure {
    let mut heap = Heap::new();
    let mut symbols = SymbolTable::new();
    read(source, &mut heap, &mut symbols).unwrap().unwrap_err()
}

fn list_items(heap: &Heap, mut v: Value) -> Vec<Value> {
    let mut items = Vec::new();
    while v.is_pair() {
        items.push(v.car(heap));
        v = v.cdr(heap);
    }
    assert!(v.is_nil());
    items
}

fn same(heap: &Heap, a: Value, b: Value) -> bool {
    if a.is_pair() && b.is_pair() {
        same(heap, a.car(heap), b.car(heap)) && same(heap, a.cdr(heap), b.cdr(heap))
    } else if a.is_string() && b.is_string() {
        a.to_string(heap).str == b.to_string(heap).str
    } else {
        a == b
    }
}

#[test]
fn a_sum_is_a_list_of_three() {
    let mut heap = Heap::new();
    let mut symbols = SymbolTable::new();
    let values = read_ok("(+ 1 2)", &mut heap, &mut symbols);
    assert_eq!(values.len(), 1);
    let items = list_items(&heap, values[0]);
    assert_eq!(items.len(), 3);
    assert!(items[0].is_symbol());
    assert_eq!(symbols.lookup(items[0].to_symbol()).unwrap(), "+");
    assert_eq!(items[1], Value::Integer(1));
    assert_eq!(items[2], Value::Integer(2));
    assert_eq!(print(&heap, &symbols, values[0]), "(+ 1 2)");
}

#[test]
fn a_quote_is_a_list_of_two() {
    let mut heap = Heap::new();
    let mut symbols = SymbolTable::new();
    let values = read_ok("'foo", &mut heap, &mut symbols);
    assert_eq!(values.len(), 1);
    let items = list_items(&heap, values[0]);
    assert_eq!(items.len(), 2);
    assert_eq!(symbols.lookup(items[0].to_symbol()).unwrap(), "quote");
    assert_eq!(symbols.lookup(items[1].to_symbol()).unwrap(), "foo");
    assert_eq!(print(&heap, &symbols, values[0]), "(quote foo)");
}

#[test]
fn a_quoted_list_is_read_whole_and_then_wrapped() {
    let mut heap = Heap::new();
    let mut symbols = SymbolTable::new();
    let values = read_ok("'(a 'b) c", &mut heap, &mut symbols);
    assert_eq!(values.len(), 2);
    assert_eq!(print(&heap, &symbols, values[0]), "(quote (a (quote b)))");
    assert_eq!(print(&heap, &symbols, values[1]), "c");
}

#[test]
fn a_string_with_an_escape() {
    let mut heap = Heap::new();
    let mut symbols = SymbolTable::new();
    let values = read_ok("\"a\\nb\"", &mut heap, &mut symbols);
    assert_eq!(values.len(), 1);
    assert!(values[0].is_string());
    assert_eq!(values[0].to_string(&heap).str.as_bytes(), &[b'a', b'\n', b'b']);
    assert_eq!(print(&heap, &symbols, values[0]), "\"a\nb\"");
}

#[test]
fn nil_is_read_as_the_empty_list() {
    let mut heap = Heap::new();
    let mut symbols = SymbolTable::new();
    let values = read_ok("(define x nil)", &mut heap, &mut symbols);
    let items = list_items(&heap, values[0]);
    assert_eq!(items.len(), 3);
    assert!(items[2].is_nil());
    assert!(!items[2].is_symbol());
    assert_eq!(print(&heap, &symbols, values[0]), "(define x ())");
    let alone = read_ok("nil", &mut heap, &mut symbols);
    assert_eq!(alone, vec![Value::nil()]);
    let empty = read_ok("()", &mut heap, &mut symbols);
    assert_eq!(empty, vec![Value::nil()]);
}

#[test]
fn booleans_and_the_parenthesis_behind_them() {
    let tokens = Parser::parse("#t #f(").unwrap();
    assert_eq!(tokens, vec![Token::Bool(true), Token::Bool(false), Token::LeftParen]);
    assert_eq!(Parser::parse("#t").unwrap(), vec![Token::Bool(true)]);
    assert_eq!(Parser::parse("#f)").unwrap(), vec![Token::Bool(false), Token::RightParen]);
    assert_eq!(
        Parser::parse("#tx"),
        Err(ParseFailure { error: ParseError::Input, position: 3 })
    );
    assert_eq!(Parser::parse("#x"), Err(ParseFailure { error: ParseError::Input, position: 2 }));
    assert_eq!(Parser::parse("#"), Err(ParseFailure { error: ParseError::EOF, position: 1 }));
}

#[test]
fn tokens_of_each_kind() {
    let tokens = Parser::parse("(a1 'b \"s\" 12) nil x-y(").unwrap();
    assert_eq!(
        tokens,
        vec![
            Token::LeftParen,
            Token::Symbol("a1".to_string()),
            Token::Quote,
            Token::Symbol("b".to_string()),
            Token::String("s".to_string()),
            Token::Number("12".to_string()),
            Token::RightParen,
            Token::Nil,
            Token::Symbol("x-y".to_string()),
            Token::LeftParen,
        ]
    );
    assert_eq!(Parser::parse("").unwrap(), vec![]);
    assert_eq!(Parser::parse(" \n\t ").unwrap(), vec![]);
    assert_eq!(Parser::parse("nil)").unwrap(), vec![Token::Nil, Token::RightParen]);
    assert_eq!(Parser::parse("nile").unwrap(), vec![Token::Symbol("nile".to_string())]);
    assert_eq!(
        Parser::parse("12(").unwrap(),
        vec![Token::Number("12".to_string()), Token::LeftParen]
    );
}

#[test]
fn escapes_in_strings() {
    let tokens = Parser::parse("\"a\\tb\\\\c\\\"d\\qe\u{e9}\"").unwrap();
    assert_eq!(tokens, vec![Token::String("a\tb\\c\"dqe\u{e9}".to_string())]);
}

#[test]
fn lexical_errors_carry_their_position() {
    assert_eq!(
        Parser::parse("\"abc"),
        Err(ParseFailure { error: ParseError::EOF, position: 4 })
    );
    assert_eq!(
        Parser::parse("\"abc\\"),
        Err(ParseFailure { error: ParseError::EOF, position: 5 })
    );
    assert_eq!(
        Parser::parse("(a @)"),
        Err(ParseFailure { error: ParseError::Input, position: 4 })
    );
    assert_eq!(Parser::parse("12a"), Err(ParseFailure { error: ParseError::Input, position: 3 }));
    assert_eq!(Parser::parse("ab\""), Err(ParseFailure { error: ParseError::Input, position: 3 }));
    assert_eq!(read_err("  [").error, ParseError::Input);
    assert_eq!(read_err("  [").position, 3);
}

#[test]
fn errors_of_the_builder() {
    assert_eq!(read_err(")"), ParseFailure { error: ParseError::Token, position: 1 });
    assert_eq!(read_err("(a b"), ParseFailure { error: ParseError::EOF, position: 3 });
    assert_eq!(read_err("(a (b)"), ParseFailure { error: ParseError::EOF, position: 5 });
    assert_eq!(read_err("'"), ParseFailure { error: ParseError::EOF, position: 1 });
    assert_eq!(read_err("(')"), ParseFailure { error: ParseError::Token, position: 3 });
    let mut heap = Heap::new();
    let mut symbols = SymbolTable::new();
    let bad = vec![Token::Number("1x".to_string())];
    assert_eq!(
        Token::build_ast(bad, &mut heap, &mut symbols),
        Err(ParseFailure { error: ParseError::Token, position: 1 })
    );
    let empty = vec![Token::Number(String::new())];
    assert_eq!(
        Token::build_ast(empty, &mut heap, &mut symbols),
        Err(ParseFailure { error: ParseError::Token, position: 1 })
    );
}

#[test]
fn messages_of_the_errors() {
    assert_eq!(ParseError::EOF.message(), "Unexpected end of input");
    assert_eq!(ParseError::Input.message(), "Unexpected input");
    assert_eq!(ParseError::Token.message(), "Unexpected token");
}

#[test]
fn printing_and_reading_again_gives_an_equal_list() {
    let mut heap = Heap::new();
    let mut symbols = SymbolTable::new();
    let first = read_ok("(a b c)", &mut heap, &mut symbols);
    let text = print(&heap, &symbols, first[0]);
    assert_eq!(text, "(a b c)");
    let second = read_ok(&text, &mut heap, &mut symbols);
    assert_eq!(second.len(), 1);
    assert!(same(&heap, first[0], second[0]));
    assert_ne!(first[0], second[0]);
    let nested = read_ok("(a (b \"s\" 7) () #t)", &mut heap, &mut symbols);
    let again = print(&heap, &symbols, nested[0]);
    assert_eq!(again, "(a (b \"s\" 7) () #t)");
    let reread = read_ok(&again, &mut heap, &mut symbols);
    assert!(same(&heap, nested[0], reread[0]));
}

#[test]
fn numbers_small_and_large() {
    let mut heap = Heap::new();
    let mut symbols = SymbolTable::new();
    let values = read_ok(
        "0 007 2147483647 2147483648 99999999999999999999999999",
        &mut heap,
        &mut symbols,
    );
    assert_eq!(values[0], Value::Integer(0));
    assert_eq!(values[1], Value::Integer(7));
    assert_eq!(values[2], Value::Integer(i32::MAX));
    assert!(values[3].is_bigint());
    assert!(values[4].is_bigint());
    assert_eq!(print(&heap, &symbols, values[1]), "7");
    assert_eq!(print(&heap, &symbols, values[3]), "2147483648");
    assert_eq!(print(&heap, &symbols, values[4]), "99999999999999999999999999");
    assert_eq!(heap.objects().len(), 2);
}

#[test]
fn printed_forms() {
    let mut heap = Heap::new();
    let mut symbols = SymbolTable::new();
    assert_eq!(print(&heap, &symbols, Value::void()), "");
    assert_eq!(print(&heap, &symbols, Value::nil()), "()");
    assert_eq!(print(&heap, &symbols, Value::Bool(true)), "#t");
    assert_eq!(print(&heap, &symbols, Value::Bool(false)), "#f");
    assert_eq!(print(&heap, &symbols, Value::Integer(-120)), "-120");
    assert_eq!(print(&heap, &symbols, Value::Integer(i32::MIN)), "-2147483648");
    assert_eq!(print(&heap, &symbols, Value::Integer(i32::MAX)), "2147483647");
    assert_eq!(print(&heap, &symbols, Value::new(1.5f64.to_bits())), "1.5");
    let id = symbols.intern("lambda".to_string());
    assert_eq!(print(&heap, &symbols, Value::Symbol(id)), "lambda");
    assert_eq!(print(&heap, &symbols, Value::Symbol(99)), "");
    let dotted = Value::Pair(&mut heap, Value::Integer(1), Value::Integer(2));
    assert_eq!(print(&heap, &symbols, dotted), "(1 . 2)");
    let longer = Value::Pair(&mut heap, Value::Integer(0), dotted);
    assert_eq!(print(&heap, &symbols, longer), "(0 1 . 2)");
    let s = Value::String(&mut heap, "a \"b\"".to_string());
    assert_eq!(print(&heap, &symbols, s), "\"a \"b\"\"");
    let v = Value::Vec(&mut heap, vec![Value::Integer(1), s, dotted]);
    assert_eq!(print(&heap, &symbols, v), "#(1, \"a \"b\"\", (1 . 2))");
    let e = Value::Vec(&mut heap, vec![]);
    assert_eq!(print(&heap, &symbols, e), "#()");
    let l = Value::Lambda(
        &mut heap,
        lisp_core::environment::Environment { id: 0 },
        vec![],
        vec![],
    );
    assert_eq!(print(&heap, &symbols, l), "#<procedure>");
    let m = Value::HashMap(&mut heap, vec![]);
    assert_eq!(print(&heap, &symbols, m), "debug: ");
    assert_eq!(print(&heap, &symbols, Value::pointer(lisp_core::value::VType::Pair, 8000)), "debug: ");
}

#[test]
fn printing_stops_where_the_budget_ends() {
    let mut heap = Heap::new();
    let symbols = SymbolTable::new();
    let p = Value::Pair(&mut heap, Value::Integer(1), Value::nil());
    p.set_cdr(&mut heap, p);
    assert_eq!(render(&p.display(&heap, &symbols, 0)), "...");
    assert_eq!(render(&p.display(&heap, &symbols, 1)), "(... ...)");
    assert_eq!(render(&p.display(&heap, &symbols, 4)), "(1 1 1 ... ...)");
    let q = Value::Pair(&mut heap, Value::Integer(1), Value::nil());
    assert_eq!(render(&q.display(&heap, &symbols, 2)), "(1)");
}

#[test]
fn interning_gives_each_name_one_id() {
    let mut symbols = SymbolTable::new();
    assert!(symbols.has_room());
    let a = symbols.intern("a".to_string());
    let b = symbols.intern("b".to_string());
    let a2 = symbols.intern("a".to_string());
    assert_eq!(a, 0);
    assert_eq!(b, 1);
    assert_eq!(a2, a);
    assert_eq!(symbols.lookup(b).unwrap(), "b");
    assert_eq!(symbols.lookup(2), None);
}

#[test]
fn whitespace_is_what_the_standard_library_calls_whitespace() {
    for u in 0..=0x10FFFFu32 {
        if let Some(c) = char::from_u32(u) {
            assert_eq!(is_whitespace(c), c.is_whitespace());
        }
    }
}

#[test]
fn symbol_characters() {
    for c in "abzAZ-+!$%&*/:<=>?~_^".chars() {
        assert!(is_symbol_char(c, true));
        assert!(is_symbol_char(c, false));
    }
    for c in "0123456789".chars() {
        assert!(!is_symbol_char(c, true));
        assert!(is_symbol_char(c, false));
    }
    for c in "()'\"#. ,;@[]{}|\\`\u{e9}".chars() {
        assert!(!is_symbol_char(c, true));
        assert!(!is_symbol_char(c, false));
    }
}

#[test]
fn a_proper_list_is_made_back_to_front() {
    let mut heap = Heap::new();
    let symbols = SymbolTable::new();
    let items = vec![Value::Integer(1), Value::Integer(2), Value::Integer(3)];
    assert!(heap.has_room_for(3));
    let list = heap.make_list(&items);
    assert_eq!(list_items(&heap, list), items);
    assert_eq!(print(&heap, &symbols, list), "(1 2 3)");
    assert_eq!(heap.objects().len(), 3);
    assert_eq!(heap.make_list(&vec![]), Value::nil());
}
