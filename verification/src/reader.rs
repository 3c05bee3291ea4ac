use crate::bignum::{all_digits, bigint_parse, bigint_to_i32, bigint_value, decimal_value};
use crate::heap::Heap;
use crate::parser::{is_digit, lex, lexemes, Lexeme, ParseError, ParseFailure, Parser, Token};
use crate::symbols::SymbolTable;
use crate::text::to_chars;
use crate::value::Value;
use vstd::prelude::*;
use vstd::string::StringExecFns;

verus! {

/// What a text denotes: an atom, or a list of data. The empty list stands for
/// `nil` too.
pub enum Datum {
    Bool(bool),
    Number(Seq<char>),
    Text(Seq<char>),
    Symbol(Seq<char>),
    List(Seq<Datum>),
}

/// What reading one datum gives: the datum and the number of tokens consumed
/// up to there, or an error and the number of tokens consumed when it was
/// detected.
pub enum Reading {
    Read(Datum, int),
    Failed(ParseError, int),
}

/// Whether the text of a number token is one or more decimal digits.
pub open spec fn is_numeral(s: Seq<char>) -> bool {
    s.len() > 0 && all_digits(s)
}

/// The datum that starts at token `pos`.
pub open spec fn read_datum(tokens: Seq<Lexeme>, pos: int) -> Reading
    decreases tokens.len() - pos, 0nat,
{
    if pos < 0 || pos >= tokens.len() {
        Reading::Failed(ParseError::EOF, tokens.len() as int)
    } else {
        match tokens[pos] {
            Lexeme::LeftParen => read_list(tokens, pos + 1, Seq::empty()),
            Lexeme::RightParen => Reading::Failed(ParseError::Token, pos + 1),
            Lexeme::Quote => {
                let inner = read_datum(tokens, pos + 1);
                if inner is Read {
                    Reading::Read(
                        Datum::List(seq![Datum::Symbol("quote"@), inner->Read_0]),
                        inner->Read_1,
                    )
                } else {
                    inner
                }
            },
            Lexeme::Nil => Reading::Read(Datum::List(Seq::empty()), pos + 1),
            Lexeme::Bool(b) => Reading::Read(Datum::Bool(b), pos + 1),
            Lexeme::String(s) => Reading::Read(Datum::Text(s), pos + 1),
            Lexeme::Symbol(s) => Reading::Read(Datum::Symbol(s), pos + 1),
            Lexeme::Number(s) => if is_numeral(s) {
                Reading::Read(Datum::Number(s), pos + 1)
            } else {
                Reading::Failed(ParseError::Token, pos + 1)
            },
        }
    }
}

/// The list whose elements so far are `items` and whose rest starts at token
/// `pos`, up to the parenthesis that closes it.
pub open spec fn read_list(tokens: Seq<Lexeme>, pos: int, items: Seq<Datum>) -> Reading
    decreases tokens.len() - pos, 1nat,
{
    if pos < 0 || pos >= tokens.len() {
        Reading::Failed(ParseError::EOF, tokens.len() as int)
    } else if tokens[pos] is RightParen {
        Reading::Read(Datum::List(items), pos + 1)
    } else {
        let item = read_datum(tokens, pos);
        if item is Read && pos < item->Read_1 <= tokens.len() {
            read_list(tokens, item->Read_1, items.push(item->Read_0))
        } else {
            item
        }
    }
}

/// The data of the tokens from `pos` on, after `done`; or the first error with
/// the number of tokens consumed when it was detected.
pub open spec fn read_all(tokens: Seq<Lexeme>, pos: int, done: Seq<Datum>) -> Result<
    Seq<Datum>,
    (ParseError, int),
>
    decreases tokens.len() - pos,
{
    if pos < 0 || pos >= tokens.len() {
        Ok(done)
    } else {
        let item = read_datum(tokens, pos);
        if item is Failed {
            Err((item->Failed_0, item->Failed_1))
        } else if pos < item->Read_1 <= tokens.len() {
            read_all(tokens, item->Read_1, done.push(item->Read_0))
        } else {
            Ok(done.push(item->Read_0))
        }
    }
}

/// Whether `v` is the proper list of the values `items[from..]`.
pub open spec fn list_is(heap: Heap, v: Value, items: Seq<Value>, from: int) -> bool
    decreases items.len() - from,
{
    if from < 0 || from >= items.len() {
        v == Value::spec_nil()
    } else {
        v.spec_is_pair() && heap.holds(v) && heap.spec_car(v) == items[from] && list_is(
            heap,
            heap.spec_cdr(v),
            items,
            from + 1,
        )
    }
}

/// Whether `v` stands for the number `n`: as an Integer where 32 bits hold it,
/// else as a big integer on the heap.
pub open spec fn number_denotes(heap: Heap, v: Value, n: nat) -> bool {
    if n <= i32::MAX {
        v == Value::spec_integer(n as i32)
    } else {
        v.spec_is_bigint() && heap.holds(v) && bigint_value(heap.object_of(v)->BigInt_0.num) == n
    }
}

/// Whether the value `v` stands for the datum `d`.
pub open spec fn denotes(heap: Heap, names: Seq<Seq<char>>, v: Value, d: Datum) -> bool
    decreases d, 0nat,
{
    match d {
        Datum::Bool(b) => v == Value::spec_bool(b),
        Datum::Number(s) => number_denotes(heap, v, decimal_value(s)),
        Datum::Text(s) => v.spec_is_string() && heap.holds(v) && heap.object_of(v)->String_0.str@
            == s,
        Datum::Symbol(s) => v.spec_is_symbol() && (v.spec_to_symbol() as int) < names.len()
            && names[v.spec_to_symbol() as int] == s,
        Datum::List(items) => list_denotes(heap, names, v, items, 0),
    }
}

/// Whether `v` is a proper list whose elements stand for `items[from..]`.
pub open spec fn list_denotes(
    heap: Heap,
    names: Seq<Seq<char>>,
    v: Value,
    items: Seq<Datum>,
    from: int,
) -> bool
    decreases items, items.len() - from,
{
    if from < 0 || from >= items.len() {
        v == Value::spec_nil()
    } else {
        v.spec_is_pair() && heap.holds(v) && denotes(heap, names, heap.spec_car(v), items[from])
            && list_denotes(heap, names, heap.spec_cdr(v), items, from + 1)
    }
}

/// Whether the second state holds everything that the first holds: the old
/// cells and the old names are as they were.
pub open spec fn extends(h1: Heap, n1: Seq<Seq<char>>, h2: Heap, n2: Seq<Seq<char>>) -> bool {
    &&& h1.cells@.len() <= h2.cells@.len()
    &&& forall|i: int| 0 <= i < h1.cells@.len() ==> #[trigger] h2.cells@[i] == h1.cells@[i]
    &&& n1.len() <= n2.len()
    &&& forall|i: int| 0 <= i < n1.len() ==> #[trigger] n2[i] == n1[i]
}

/// What stands in the first state stands unchanged in a state that extends
/// it.
pub proof fn lemma_holds_extends(
    h1: Heap,
    n1: Seq<Seq<char>>,
    h2: Heap,
    n2: Seq<Seq<char>>,
    v: Value,
)
    requires
        extends(h1, n1, h2, n2),
        h1.holds(v),
    ensures
        h2.holds(v),
        h2.object_of(v) == h1.object_of(v),
{
    assert(h2.cells@[crate::heap::index_of(v.address())] == h1.cells@[crate::heap::index_of(
        v.address(),
    )]);
}

/// A list stays the list it is in a state that extends its own.
pub proof fn lemma_list_is_extends(
    h1: Heap,
    n1: Seq<Seq<char>>,
    h2: Heap,
    n2: Seq<Seq<char>>,
    v: Value,
    items: Seq<Value>,
    from: int,
)
    requires
        extends(h1, n1, h2, n2),
        list_is(h1, v, items, from),
    ensures
        list_is(h2, v, items, from),
    decreases items.len() - from,
{
    if 0 <= from < items.len() {
        lemma_holds_extends(h1, n1, h2, n2, v);
        lemma_list_is_extends(h1, n1, h2, n2, h1.spec_cdr(v), items, from + 1);
    }
}

/// A value stands for the same datum in a state that extends its own.
pub proof fn lemma_denotes_extends(
    h1: Heap,
    n1: Seq<Seq<char>>,
    h2: Heap,
    n2: Seq<Seq<char>>,
    v: Value,
    d: Datum,
)
    requires
        extends(h1, n1, h2, n2),
        denotes(h1, n1, v, d),
    ensures
        denotes(h2, n2, v, d),
    decreases d, 0nat,
{
    match d {
        Datum::Bool(_) => {},
        Datum::Number(s) => {
            if decimal_value(s) > i32::MAX {
                lemma_holds_extends(h1, n1, h2, n2, v);
            }
        },
        Datum::Text(_) => {
            lemma_holds_extends(h1, n1, h2, n2, v);
        },
        Datum::Symbol(_) => {},
        Datum::List(items) => {
            lemma_list_denotes_extends(h1, n1, h2, n2, v, items, 0);
        },
    }
}

/// A list stands for the same data in a state that extends its own.
pub proof fn lemma_list_denotes_extends(
    h1: Heap,
    n1: Seq<Seq<char>>,
    h2: Heap,
    n2: Seq<Seq<char>>,
    v: Value,
    items: Seq<Datum>,
    from: int,
)
    requires
        extends(h1, n1, h2, n2),
        list_denotes(h1, n1, v, items, from),
    ensures
        list_denotes(h2, n2, v, items, from),
    decreases items, items.len() - from,
{
    if 0 <= from < items.len() {
        lemma_holds_extends(h1, n1, h2, n2, v);
        lemma_denotes_extends(h1, n1, h2, n2, h1.spec_car(v), items[from]);
        lemma_list_denotes_extends(h1, n1, h2, n2, h1.spec_cdr(v), items, from + 1);
    }
}

/// The proper list of values that stand for data stands for the list of the
/// data.
pub proof fn lemma_list_of_values(
    heap: Heap,
    names: Seq<Seq<char>>,
    v: Value,
    values: Seq<Value>,
    items: Seq<Datum>,
    from: int,
)
    requires
        values.len() == items.len(),
        0 <= from,
        list_is(heap, v, values, from),
        forall|k: int| from <= k < items.len() ==> denotes(heap, names, values[k], #[trigger] items[k]),
    ensures
        list_denotes(heap, names, v, items, from),
    decreases items.len() - from,
{
    if from < items.len() {
        lemma_list_of_values(heap, names, heap.spec_cdr(v), values, items, from + 1);
    }
}

/// A state that extends one that extends a first one extends the first.
pub proof fn lemma_extends_twice(
    h1: Heap,
    n1: Seq<Seq<char>>,
    h2: Heap,
    n2: Seq<Seq<char>>,
    h3: Heap,
    n3: Seq<Seq<char>>,
)
    requires
        extends(h1, n1, h2, n2),
        extends(h2, n2, h3, n3),
    ensures
        extends(h1, n1, h3, n3),
{
    assert forall|i: int| 0 <= i < h1.cells@.len() implies #[trigger] h3.cells@[i]
        == h1.cells@[i] by {
        assert(h2.cells@[i] == h1.cells@[i]);
    }
    assert forall|i: int| 0 <= i < n1.len() implies #[trigger] n3[i] == n1[i] by {
        assert(n2[i] == n1[i]);
    }
}

/// How building moved the heap and the symbols, given what was read from
/// token `pos` on: the result stands for the datum read, nothing older was
/// touched, and at most three objects and one name were added for each
/// token, less `spare` objects.
pub open spec fn built(
    h1: Heap,
    s1: SymbolTable,
    h2: Heap,
    s2: SymbolTable,
    pos: int,
    len: int,
    spare: int,
    reading: Reading,
    r: Result<(Value, usize), ParseFailure>,
) -> bool {
    &&& h2.wf()
    &&& s2.wf()
    &&& extends(h1, s1@, h2, s2@)
    &&& h1.unmarked() ==> h2.unmarked()
    &&& match reading {
        Reading::Read(d, next) => r is Ok && r->Ok_0.1 == next && pos < next <= len && denotes(
            h2,
            s2@,
            r->Ok_0.0,
            d,
        ) && h2.cells@.len() + spare <= h1.cells@.len() + 3 * (next - pos) && s2@.len()
            <= s1@.len() + (next - pos),
        Reading::Failed(e, p) => r is Err && r->Err_0.error == e && r->Err_0.position == p,
    }
}

/// Whether the text holds decimal digits only, and at least one.
pub fn check_numeral(s: &Vec<char>) -> (r: bool)
    ensures
        r == is_numeral(s@),
{
    if s.len() == 0 {
        return false;
    }
    let mut i: usize = 0;
    while i < s.len()
        invariant
            i <= s@.len(),
            forall|j: int| 0 <= j < i ==> crate::bignum::is_digit(#[trigger] s@[j]),
        decreases s@.len() - i,
    {
        if !is_digit(s[i]) {
            return false;
        }
        i += 1;
    }
    true
}

impl Heap {
    /// The proper list of the given values, allocated back to front.
    pub fn make_list(&mut self, items: &Vec<Value>) -> (v: Value)
        requires
            old(self).wf(),
            old(self).room_for(items@.len() as int),
        ensures
            final(self).wf(),
            list_is(*final(self), v, items@, 0),
            final(self).cells@.len() == old(self).cells@.len() + items@.len(),
            forall|i: int|
                0 <= i < old(self).cells@.len() ==> #[trigger] final(self).cells@[i] == old(
                    self,
                ).cells@[i],
            old(self).unmarked() ==> final(self).unmarked(),
    {
        let mut acc: Value = Value::nil();
        let mut k: usize = items.len();
        let ghost none = Seq::<Seq<char>>::empty();
        while k > 0
            invariant
                k <= items@.len(),
                self.wf(),
                old(self).room_for(items@.len() as int),
                self.cells@.len() == old(self).cells@.len() + (items@.len() - k),
                forall|i: int|
                    0 <= i < old(self).cells@.len() ==> #[trigger] self.cells@[i] == old(
                        self,
                    ).cells@[i],
                old(self).unmarked() ==> self.unmarked(),
                list_is(*self, acc, items@, k as int),
            decreases k,
        {
            k -= 1;
            let ghost before = *self;
            let tail = acc;
            acc = Value::Pair(self, items[k], tail);
            proof {
                assert(extends(before, none, *self, none));
                lemma_list_is_extends(before, none, *self, none, tail, items@, k + 1);
            }
        }
        acc
    }
}

impl Token {
    /// The values of the data that the tokens write, one for each datum at
    /// top level; or the first error with the number of tokens consumed when
    /// it was detected.
    pub fn build_ast(tokens: Vec<Token>, heap: &mut Heap, symbols: &mut SymbolTable) -> (r: Result<
        Vec<Value>,
        ParseFailure,
    >)
        requires
            old(heap).wf(),
            old(symbols).wf(),
            old(heap).room_for(3 * (tokens@.len() as int)),
            old(symbols)@.len() + tokens@.len() <= 0xFFFF_FFFF,
        ensures
            final(heap).wf(),
            final(symbols).wf(),
            extends(*old(heap), old(symbols)@, *final(heap), final(symbols)@),
            old(heap).unmarked() ==> final(heap).unmarked(),
            match read_all(crate::parser::lexemes(tokens@), 0, Seq::empty()) {
                Ok(data) => r is Ok && r->Ok_0@.len() == data.len() && forall|k: int|
                    0 <= k < data.len() ==> denotes(
                        *final(heap),
                        final(symbols)@,
                        r->Ok_0@[k],
                        #[trigger] data[k],
                    ),
                Err((e, p)) => r is Err && r->Err_0.error == e && r->Err_0.position == p,
            },
    {
        let ghost lx = crate::parser::lexemes(tokens@);
        let ghost h0 = *heap;
        let ghost s0 = *symbols;
        let mut exprs: Vec<Value> = Vec::new();
        let ghost mut data: Seq<Datum> = Seq::empty();
        let mut pos: usize = 0;
        while pos < tokens.len()
            invariant
                pos <= tokens@.len(),
                lx == crate::parser::lexemes(tokens@),
                lx.len() == tokens@.len(),
                h0 == *old(heap),
                s0 == *old(symbols),
                heap.wf(),
                symbols.wf(),
                extends(h0, s0@, *heap, symbols@),
                h0.unmarked() ==> heap.unmarked(),
                h0.room_for(3 * (tokens@.len() as int)),
                s0@.len() + tokens@.len() <= 0xFFFF_FFFF,
                heap.cells@.len() <= h0.cells@.len() + 3 * pos,
                symbols@.len() <= s0@.len() + pos,
                exprs@.len() == data.len(),
                forall|k: int|
                    0 <= k < data.len() ==> denotes(*heap, symbols@, exprs@[k], #[trigger] data[k]),
                read_all(lx, 0, Seq::empty()) == read_all(lx, pos as int, data),
            decreases tokens@.len() - pos,
        {
            let ghost h1 = *heap;
            let ghost s1 = *symbols;
            let step = Self::parse_datum(&tokens, pos, heap, symbols);
            proof {
                lemma_extends_twice(h0, s0@, h1, s1@, *heap, symbols@);
            }
            match step {
                Ok((v, next)) => {
                    proof {
                        let d = read_datum(lx, pos as int)->Read_0;
                        assert forall|k: int| 0 <= k < data.len() implies denotes(
                            *heap,
                            symbols@,
                            exprs@[k],
                            #[trigger] data[k],
                        ) by {
                            lemma_denotes_extends(h1, s1@, *heap, symbols@, exprs@[k], data[k]);
                        }
                        data = data.push(d);
                    }
                    exprs.push(v);
                    pos = next;
                },
                Err(e) => {
                    return Err(e);
                },
            }
        }
        Ok(exprs)
    }

    /// Reads the datum that starts at token `pos`.
    pub fn parse_datum(
        tokens: &Vec<Token>,
        pos: usize,
        heap: &mut Heap,
        symbols: &mut SymbolTable,
    ) -> (r: Result<(Value, usize), ParseFailure>)
        requires
            old(heap).wf(),
            old(symbols).wf(),
            pos <= tokens@.len(),
            old(heap).room_for(3 * (tokens@.len() - pos)),
            old(symbols)@.len() + (tokens@.len() - pos) <= 0xFFFF_FFFF,
        ensures
            built(
                *old(heap),
                *old(symbols),
                *final(heap),
                *final(symbols),
                pos as int,
                tokens@.len() as int,
                1,
                read_datum(crate::parser::lexemes(tokens@), pos as int),
                r,
            ),
        decreases tokens@.len() - pos, 0nat,
    {
        let n: usize = tokens.len();
        if pos >= n {
            return Err(ParseFailure { error: ParseError::EOF, position: n });
        }
        assert(crate::parser::lexemes(tokens@)[pos as int] == tokens@[pos as int]@);
        match &tokens[pos] {
            Token::LeftParen => Self::parse_expr(tokens, pos + 1, heap, symbols),
            Token::RightParen => Err(ParseFailure { error: ParseError::Token, position: pos + 1 }),
            Token::Quote => Self::parse_quote(tokens, pos + 1, heap, symbols),
            Token::Nil => Ok((Value::nil(), pos + 1)),
            Token::Bool(b) => Ok((Value::Bool(*b), pos + 1)),
            Token::String(s) => {
                let v = Value::String(heap, s.clone());
                Ok((v, pos + 1))
            },
            Token::Symbol(s) => {
                let id = symbols.intern(s.clone());
                Ok((Value::Symbol(id), pos + 1))
            },
            Token::Number(s) => {
                let digits = to_chars(s.as_str());
                if !check_numeral(&digits) {
                    return Err(ParseFailure { error: ParseError::Token, position: pos + 1 });
                }
                match bigint_parse(s.as_str()) {
                    Some(big) => match bigint_to_i32(&big) {
                        Some(i) => Ok((Value::Integer(i), pos + 1)),
                        None => {
                            let v = Value::BigInt(heap, big);
                            Ok((v, pos + 1))
                        },
                    },
                    None => Err(ParseFailure { error: ParseError::Token, position: pos + 1 }),
                }
            },
        }
    }

    /// Reads the datum behind a quote, which starts at token `pos`, and wraps
    /// it into the list `(quote datum)`.
    pub fn parse_quote(
        tokens: &Vec<Token>,
        pos: usize,
        heap: &mut Heap,
        symbols: &mut SymbolTable,
    ) -> (r: Result<(Value, usize), ParseFailure>)
        requires
            old(heap).wf(),
            old(symbols).wf(),
            0 < pos <= tokens@.len(),
            tokens@[pos - 1] is Quote,
            old(heap).room_for(3 * (tokens@.len() - pos) + 3),
            old(symbols)@.len() + (tokens@.len() - pos) + 1 <= 0xFFFF_FFFF,
        ensures
            built(
                *old(heap),
                *old(symbols),
                *final(heap),
                *final(symbols),
                pos - 1,
                tokens@.len() as int,
                1,
                read_datum(crate::parser::lexemes(tokens@), pos - 1),
                r,
            ),
        decreases tokens@.len() - pos, 1nat,
    {
        let ghost lx = crate::parser::lexemes(tokens@);
        let ghost h0 = *heap;
        let ghost s0 = *symbols;
        assert(lx[pos - 1] == tokens@[pos - 1]@);
        match Self::parse_datum(tokens, pos, heap, symbols) {
            Ok((quoted, next)) => {
                let ghost h1 = *heap;
                let ghost s1 = *symbols;
                let ghost d = read_datum(lx, pos as int)->Read_0;
                let id = symbols.intern(String::from_str("quote"));
                let mut items: Vec<Value> = Vec::new();
                items.push(Value::Symbol(id));
                items.push(quoted);
                let list = heap.make_list(&items);
                proof {
                    assert(extends(h1, s1@, *heap, symbols@));
                    lemma_extends_twice(h0, s0@, h1, s1@, *heap, symbols@);
                    lemma_denotes_extends(h1, s1@, *heap, symbols@, quoted, d);
                    let data = seq![Datum::Symbol("quote"@), d];
                    assert(denotes(*heap, symbols@, items@[0], data[0]));
                    assert(denotes(*heap, symbols@, items@[1], data[1]));
                    lemma_list_of_values(*heap, symbols@, list, items@, data, 0);
                }
                Ok((list, next))
            },
            Err(e) => Err(e),
        }
    }

    /// Reads the elements of a list from behind its opening parenthesis, at
    /// token `pos`, up to the parenthesis that closes it.
    pub fn parse_expr(
        tokens: &Vec<Token>,
        pos: usize,
        heap: &mut Heap,
        symbols: &mut SymbolTable,
    ) -> (r: Result<(Value, usize), ParseFailure>)
        requires
            old(heap).wf(),
            old(symbols).wf(),
            0 < pos <= tokens@.len(),
            tokens@[pos - 1] is LeftParen,
            old(heap).room_for(3 * (tokens@.len() - pos) + 3),
            old(symbols)@.len() + (tokens@.len() - pos) + 1 <= 0xFFFF_FFFF,
        ensures
            built(
                *old(heap),
                *old(symbols),
                *final(heap),
                *final(symbols),
                pos - 1,
                tokens@.len() as int,
                1,
                read_datum(crate::parser::lexemes(tokens@), pos - 1),
                r,
            ),
        decreases tokens@.len() - pos, 1nat,
    {
        let ghost lx = crate::parser::lexemes(tokens@);
        let ghost h0 = *heap;
        let ghost s0 = *symbols;
        assert(lx[pos - 1] == tokens@[pos - 1]@);
        let n: usize = tokens.len();
        let mut items: Vec<Value> = Vec::new();
        let ghost mut data: Seq<Datum> = Seq::empty();
        let mut cur: usize = pos;
        loop
            invariant
                0 < pos <= cur <= n,
                n == tokens@.len(),
                lx == crate::parser::lexemes(tokens@),
                h0 == *old(heap),
                s0 == *old(symbols),
                read_datum(lx, pos - 1) == read_list(lx, pos as int, Seq::empty()),
                heap.wf(),
                symbols.wf(),
                extends(h0, s0@, *heap, symbols@),
                h0.unmarked() ==> heap.unmarked(),
                h0.room_for(3 * (n - pos) + 3),
                s0@.len() + (n - pos) + 1 <= 0xFFFF_FFFF,
                heap.cells@.len() + items@.len() <= h0.cells@.len() + 3 * (cur - pos),
                symbols@.len() <= s0@.len() + (cur - pos),
                items@.len() == data.len(),
                forall|k: int|
                    0 <= k < data.len() ==> denotes(*heap, symbols@, items@[k], #[trigger] data[k]),
                read_list(lx, pos as int, Seq::empty()) == read_list(lx, cur as int, data),
            decreases n - cur,
        {
            if cur >= n {
                return Err(ParseFailure { error: ParseError::EOF, position: n });
            }
            assert(lx[cur as int] == tokens@[cur as int]@);
            match &tokens[cur] {
                Token::RightParen => {
                    let ghost h1 = *heap;
                    let list = heap.make_list(&items);
                    proof {
                        assert(extends(h1, symbols@, *heap, symbols@));
                        lemma_extends_twice(h0, s0@, h1, symbols@, *heap, symbols@);
                        assert forall|k: int| 0 <= k < data.len() implies denotes(
                            *heap,
                            symbols@,
                            items@[k],
                            #[trigger] data[k],
                        ) by {
                            lemma_denotes_extends(h1, symbols@, *heap, symbols@, items@[k], data[k]);
                        }
                        lemma_list_of_values(*heap, symbols@, list, items@, data, 0);
                    }
                    return Ok((list, cur + 1));
                },
                _ => {},
            }
            let ghost h1 = *heap;
            let ghost s1 = *symbols;
            let step = Self::parse_datum(tokens, cur, heap, symbols);
            proof {
                lemma_extends_twice(h0, s0@, h1, s1@, *heap, symbols@);
            }
            match step {
                Ok((v, next)) => {
                    proof {
                        let d = read_datum(lx, cur as int)->Read_0;
                        assert forall|k: int| 0 <= k < data.len() implies denotes(
                            *heap,
                            symbols@,
                            items@[k],
                            #[trigger] data[k],
                        ) by {
                            lemma_denotes_extends(h1, s1@, *heap, symbols@, items@[k], data[k]);
                        }
                        data = data.push(d);
                    }
                    items.push(v);
                    cur = next;
                },
                Err(e) => {
                    return Err(e);
                },
            }
        }
    }
}

/// Whether the heap and the symbol table can take whatever `tokens` tokens
/// may need: three objects and one name for each.
pub open spec fn can_take(heap: Heap, symbols: SymbolTable, tokens: int) -> bool {
    heap.room_for(3 * tokens) && symbols@.len() + tokens <= 0xFFFF_FFFF
}

/// Reads a text: the values of its data, one for each datum at top level.
/// A lexical error comes with the number of characters consumed when it was
/// detected, any other error with the number of tokens. Nothing is read, and
/// `None` is returned, where the heap or the symbol table could not take what
/// the tokens may need.
pub fn read(source: &str, heap: &mut Heap, symbols: &mut SymbolTable) -> (r: Option<
    Result<Vec<Value>, ParseFailure>,
>)
    requires
        old(heap).wf(),
        old(symbols).wf(),
    ensures
        final(heap).wf(),
        final(symbols).wf(),
        extends(*old(heap), old(symbols)@, *final(heap), final(symbols)@),
        old(heap).unmarked() ==> final(heap).unmarked(),
        match lex(source@) {
            Err((e, p)) => r is Some && r->Some_0 is Err && r->Some_0->Err_0.error == e
                && r->Some_0->Err_0.position == p && *final(heap) == *old(heap),
            Ok(tokens) => if can_take(*old(heap), *old(symbols), tokens.len() as int) {
                r is Some && match read_all(tokens, 0, Seq::empty()) {
                    Ok(data) => r->Some_0 is Ok && r->Some_0->Ok_0@.len() == data.len()
                        && forall|k: int|
                        0 <= k < data.len() ==> denotes(
                            *final(heap),
                            final(symbols)@,
                            r->Some_0->Ok_0@[k],
                            #[trigger] data[k],
                        ),
                    Err((e, p)) => r->Some_0 is Err && r->Some_0->Err_0.error == e
                        && r->Some_0->Err_0.position == p,
                }
            } else {
                r is None && *final(heap) == *old(heap)
            },
        },
{
    match Parser::parse(source) {
        Err(e) => Some(Err(e)),
        Ok(tokens) => {
            let n: usize = tokens.len();
            assert(lexemes(tokens@).len() == n);
            if n as u64 > 0xFFFF_FFFF {
                return None;
            }
            let count: u64 = n as u64;
            if !heap.has_room_for(3 * count) || symbols.names.len() as u64 + count > 0xFFFF_FFFF {
                return None;
            }
            Some(Token::build_ast(tokens, heap, symbols))
        },
    }
}

} // verus!
