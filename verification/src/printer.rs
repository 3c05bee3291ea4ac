use crate::bignum::{bigint_to_string, bigint_value, decimal_text, digit_char, signed_decimal_text};
use crate::heap::{Heap, HeapObject};
use crate::symbols::SymbolTable;
use crate::text::to_chars;
use crate::value::Value;
use vstd::prelude::*;

verus! {

/// One piece of printed output: a character, given by its code point, or a float that is left to be
/// written in decimal by the caller, given by its bits.
#[derive(Copy, Clone, Debug, PartialEq, Eq, Structural)]
pub enum Glyph {
    Char(u32),
    Float(u64),
}

/// Text as output.
pub open spec fn glyphs(s: Seq<char>) -> Seq<Glyph>
    decreases s.len(),
{
    if s.len() == 0 {
        Seq::empty()
    } else {
        glyphs(s.drop_last()).push(Glyph::Char(s.last() as u32))
    }
}

/// What stands for output that the budget did not cover.
pub open spec fn ellipsis() -> Seq<char> {
    seq!['.', '.', '.']
}

/// What stands for a value without a printed form.
pub open spec fn debug_text() -> Seq<char> {
    seq!['d', 'e', 'b', 'u', 'g', ':', ' ']
}

pub open spec fn procedure_text() -> Seq<char> {
    seq!['#', '<', 'p', 'r', 'o', 'c', 'e', 'd', 'u', 'r', 'e', '>']
}

/// The printed form of a value, with a budget of `fuel` nested steps: a step
/// into an element or along a list costs one.
pub open spec fn text_of(heap: Heap, names: Seq<Seq<char>>, v: Value, fuel: nat) -> Seq<Glyph>
    decreases fuel, 0nat,
{
    if fuel == 0 {
        glyphs(ellipsis())
    } else if v.spec_is_float() {
        seq![Glyph::Float(v.0)]
    } else if v.spec_is_integer() {
        glyphs(signed_decimal_text(v.spec_to_integer() as int))
    } else if v.spec_is_symbol() {
        if (v.spec_to_symbol() as int) < names.len() {
            glyphs(names[v.spec_to_symbol() as int])
        } else {
            Seq::empty()
        }
    } else if v.spec_is_true() {
        glyphs(seq!['#', 't'])
    } else if v.spec_is_false() {
        glyphs(seq!['#', 'f'])
    } else if v.spec_is_nil() {
        glyphs(seq!['(', ')'])
    } else if v.spec_is_void() {
        Seq::empty()
    } else if !heap.holds(v) {
        glyphs(debug_text())
    } else {
        match heap.object_of(v) {
            HeapObject::Lambda(_) => glyphs(procedure_text()),
            HeapObject::Pair(p) => glyphs(seq!['(']) + text_of(heap, names, p.car, (fuel - 1) as nat)
                + rest_of(heap, names, p.cdr, (fuel - 1) as nat),
            HeapObject::String(s) => glyphs(seq!['"']) + glyphs(s.str@) + glyphs(seq!['"']),
            HeapObject::Vec(x) => glyphs(seq!['#', '(']) + items_of(
                heap,
                names,
                x.vec@,
                (fuel - 1) as nat,
            ) + glyphs(seq![')']),
            HeapObject::BigInt(b) => glyphs(signed_decimal_text(bigint_value(b.num))),
            _ => glyphs(debug_text()),
        }
    }
}

/// The printed form of what follows the first element of a list: the other
/// elements, then `)`, with ` . ` before a last value that is neither a pair
/// nor the empty list.
pub open spec fn rest_of(heap: Heap, names: Seq<Seq<char>>, c: Value, fuel: nat) -> Seq<Glyph>
    decreases fuel, 0nat,
{
    if fuel == 0 {
        glyphs(seq![' ']) + glyphs(ellipsis()) + glyphs(seq![')'])
    } else if c.spec_is_pair() && heap.holds(c) {
        glyphs(seq![' ']) + text_of(heap, names, heap.spec_car(c), (fuel - 1) as nat) + rest_of(
            heap,
            names,
            heap.spec_cdr(c),
            (fuel - 1) as nat,
        )
    } else if c.spec_is_nil() {
        glyphs(seq![')'])
    } else {
        glyphs(seq![' ', '.', ' ']) + text_of(heap, names, c, (fuel - 1) as nat) + glyphs(seq![')'])
    }
}

/// The printed forms of the elements of a vector, with `, ` between them.
pub open spec fn items_of(heap: Heap, names: Seq<Seq<char>>, items: Seq<Value>, fuel: nat) -> Seq<
    Glyph,
>
    decreases fuel, items.len() + 1,
{
    if items.len() == 0 {
        Seq::empty()
    } else if items.len() == 1 {
        text_of(heap, names, items[0], fuel)
    } else {
        items_of(heap, names, items.drop_last(), fuel) + glyphs(seq![',', ' ']) + text_of(
            heap,
            names,
            items.last(),
            fuel,
        )
    }
}

/// The output for text with one more character is the output for the text
/// with that character after it.
pub proof fn lemma_glyphs_push(s: Seq<char>, c: char)
    ensures
        glyphs(s.push(c)) == glyphs(s).push(Glyph::Char(c as u32)),
{
    assert(s.push(c).drop_last() =~= s);
}

/// The output for two texts in a row is the two outputs in a row.
pub proof fn lemma_glyphs_concat(a: Seq<char>, b: Seq<char>)
    ensures
        glyphs(a + b) == glyphs(a) + glyphs(b),
    decreases b.len(),
{
    if b.len() == 0 {
        assert(a + b =~= a);
        assert(glyphs(a) + glyphs(b) =~= glyphs(a));
    } else {
        lemma_glyphs_concat(a, b.drop_last());
        assert((a + b).drop_last() =~= a + b.drop_last());
        assert((a + b).last() == b.last());
        assert(glyphs(a + b) == glyphs(a + b.drop_last()).push(Glyph::Char(b.last() as u32)));
        assert(glyphs(b) == glyphs(b.drop_last()).push(Glyph::Char(b.last() as u32)));
        assert(glyphs(a + b) =~= glyphs(a) + glyphs(b));
    }
}

/// Appends text to the output.
pub fn write_chars(out: &mut Vec<Glyph>, s: &Vec<char>)
    ensures
        final(out)@ == old(out)@ + glyphs(s@),
{
    let mut i: usize = 0;
    assert(out@ =~= old(out)@ + glyphs(s@.subrange(0, 0)));
    while i < s.len()
        invariant
            i <= s@.len(),
            out@ == old(out)@ + glyphs(s@.subrange(0, i as int)),
        decreases s@.len() - i,
    {
        out.push(Glyph::Char(s[i] as u32));
        i += 1;
        proof {
            let now = s@.subrange(0, i as int);
            assert(now.drop_last() =~= s@.subrange(0, i - 1));
            assert(now.last() == s@[i - 1]);
            assert(glyphs(now) == glyphs(now.drop_last()).push(Glyph::Char(now.last() as u32)));
            assert(out@ =~= old(out)@ + glyphs(now));
        }
    }
    assert(s@.subrange(0, i as int) == s@);
}

/// Appends one character.
pub fn write1(out: &mut Vec<Glyph>, a: char)
    ensures
        final(out)@ == old(out)@ + glyphs(seq![a]),
{
    out.push(Glyph::Char(a as u32));
    proof {
        lemma_glyphs_push(Seq::empty(), a);
        assert(seq![a] =~= Seq::empty().push(a));
        assert(out@ =~= old(out)@ + seq![Glyph::Char(a as u32)]);
    }
}

/// Appends two characters.
pub fn write2(out: &mut Vec<Glyph>, a: char, b: char)
    ensures
        final(out)@ == old(out)@ + glyphs(seq![a, b]),
{
    out.push(Glyph::Char(a as u32));
    out.push(Glyph::Char(b as u32));
    proof {
        lemma_glyphs_push(Seq::empty(), a);
        lemma_glyphs_push(seq![a], b);
        assert(seq![a] =~= Seq::empty().push(a));
        assert(seq![a, b] =~= seq![a].push(b));
        assert(out@ =~= old(out)@ + seq![Glyph::Char(a as u32), Glyph::Char(b as u32)]);
    }
}

/// Appends three characters.
pub fn write3(out: &mut Vec<Glyph>, a: char, b: char, c: char)
    ensures
        final(out)@ == old(out)@ + glyphs(seq![a, b, c]),
{
    out.push(Glyph::Char(a as u32));
    out.push(Glyph::Char(b as u32));
    out.push(Glyph::Char(c as u32));
    proof {
        lemma_glyphs_push(Seq::empty(), a);
        lemma_glyphs_push(seq![a], b);
        lemma_glyphs_push(seq![a, b], c);
        assert(seq![a] =~= Seq::empty().push(a));
        assert(seq![a, b] =~= seq![a].push(b));
        assert(seq![a, b, c] =~= seq![a, b].push(c));
        assert(out@ =~= old(out)@ + seq![Glyph::Char(a as u32), Glyph::Char(b as u32), Glyph::Char(c as u32)]);
    }
}

/// Appends a natural number in decimal.
pub fn write_nat(out: &mut Vec<Glyph>, n: u64)
    ensures
        final(out)@ == old(out)@ + glyphs(decimal_text(n as nat)),
    decreases n,
{
    if n >= 10 {
        write_nat(out, n / 10);
    }
    let ghost mid = out@;
    let d: u8 = (n % 10) as u8;
    let c: char = (48u8 + d) as char;
    assert(c == digit_char((n % 10) as nat));
    out.push(Glyph::Char(c as u32));
    proof {
        if n >= 10 {
            lemma_glyphs_push(decimal_text((n / 10) as nat), c);
            assert(out@ =~= old(out)@ + glyphs(decimal_text((n / 10) as nat)).push(Glyph::Char(c as u32)));
        } else {
            lemma_glyphs_push(Seq::empty(), c);
            assert(seq![c] =~= Seq::empty().push(c));
            assert(out@ =~= old(out)@ + seq![Glyph::Char(c as u32)]);
        }
    }
}

/// Appends an integer in decimal.
pub fn write_integer(out: &mut Vec<Glyph>, i: i32)
    ensures
        final(out)@ == old(out)@ + glyphs(signed_decimal_text(i as int)),
{
    if i < 0 {
        out.push(Glyph::Char('-' as u32));
        let m: u64 = (-(i as i64)) as u64;
        write_nat(out, m);
        proof {
            lemma_glyphs_concat(seq!['-'], decimal_text(m as nat));
            lemma_glyphs_push(Seq::empty(), '-');
            assert(seq!['-'] =~= Seq::empty().push('-'));
            assert(out@ =~= old(out)@ + (glyphs(seq!['-']) + glyphs(decimal_text(m as nat))));
        }
    } else {
        write_nat(out, i as u64);
    }
}

/// Appends the printed form of `v`.
pub fn write_value(heap: &Heap, symbols: &SymbolTable, v: Value, fuel: usize, out: &mut Vec<Glyph>)
    ensures
        final(out)@ == old(out)@ + text_of(*heap, symbols@, v, fuel as nat),
    decreases fuel,
{
    let ghost names = symbols@;
    let ghost start = out@;
    if fuel == 0 {
        write3(out, '.', '.', '.');
    } else if v.is_float() {
        out.push(Glyph::Float(v.0));
        assert(out@ =~= start + seq![Glyph::Float(v.0)]);
    } else if v.is_integer() {
        write_integer(out, v.to_integer());
    } else if v.is_symbol() {
        match symbols.lookup(v.to_symbol()) {
            Some(name) => {
                let chars = to_chars(name.as_str());
                write_chars(out, &chars);
            },
            None => {
                assert(out@ =~= start + Seq::<Glyph>::empty());
            },
        }
    } else if v.is_true() {
        write2(out, '#', 't');
    } else if v.is_false() {
        write2(out, '#', 'f');
    } else if v.is_nil() {
        write2(out, '(', ')');
    } else if v.is_void() {
        assert(out@ =~= start + Seq::<Glyph>::empty());
    } else if !heap.contains(v) {
        write_debug(out);
    } else {
        let i = heap.cell_index(v);
        match &heap.cells[i] {
            HeapObject::Lambda(_) => {
                write_procedure(out);
            },
            HeapObject::Pair(p) => {
                write1(out, '(');
                write_value(heap, symbols, p.car, fuel - 1, out);
                let mut c: Value = p.cdr;
                let mut f: usize = fuel - 1;
                let ghost whole = start + text_of(*heap, names, v, fuel as nat);
                assert(out@ + rest_of(*heap, names, c, f as nat) =~= whole);
                while f > 0 && c.is_pair() && heap.contains(c)
                    invariant
                        names == symbols@,
                        f < fuel,
                        out@ + rest_of(*heap, names, c, f as nat) == whole,
                    decreases f,
                {
                    let ghost seen = out@;
                    write1(out, ' ');
                    write_value(heap, symbols, c.car(heap), f - 1, out);
                    assert(out@ + rest_of(*heap, names, heap.spec_cdr(c), (f - 1) as nat)
                        =~= seen + rest_of(*heap, names, c, f as nat));
                    c = c.cdr(heap);
                    f = f - 1;
                }
                let ghost seen = out@;
                if f == 0 {
                    write1(out, ' ');
                    write3(out, '.', '.', '.');
                    write1(out, ')');
                    assert(out@ =~= seen + rest_of(*heap, names, c, f as nat));
                } else if c.is_nil() {
                    write1(out, ')');
                } else {
                    write3(out, ' ', '.', ' ');
                    write_value(heap, symbols, c, f - 1, out);
                    write1(out, ')');
                    assert(out@ =~= seen + rest_of(*heap, names, c, f as nat));
                }
            },
            HeapObject::String(s) => {
                write1(out, '"');
                let chars = to_chars(s.str.as_str());
                write_chars(out, &chars);
                write1(out, '"');
                assert(out@ =~= start + text_of(*heap, names, v, fuel as nat));
            },
            HeapObject::Vec(x) => {
                write2(out, '#', '(');
                let ghost opened = out@;
                let mut k: usize = 0;
                assert(out@ =~= opened + items_of(
                    *heap,
                    names,
                    x.vec@.subrange(0, 0),
                    (fuel - 1) as nat,
                ));
                while k < x.vec.len()
                    invariant
                        k <= x.vec@.len(),
                        fuel > 0,
                        names == symbols@,
                        out@ == opened + items_of(
                            *heap,
                            names,
                            x.vec@.subrange(0, k as int),
                            (fuel - 1) as nat,
                        ),
                    decreases x.vec@.len() - k,
                {
                    if k > 0 {
                        write2(out, ',', ' ');
                    }
                    write_value(heap, symbols, x.vec[k], fuel - 1, out);
                    k += 1;
                    proof {
                        let done = x.vec@.subrange(0, k as int);
                        assert(done.drop_last() =~= x.vec@.subrange(0, k - 1));
                        assert(done.last() == x.vec@[k - 1]);
                        if k == 1 {
                            assert(done[0] == x.vec@[0]);
                            assert(items_of(*heap, names, done.drop_last(), (fuel - 1) as nat)
                                =~= Seq::<Glyph>::empty());
                        }
                        assert(out@ =~= opened + items_of(*heap, names, done, (fuel - 1) as nat));
                    }
                }
                assert(x.vec@.subrange(0, k as int) =~= x.vec@);
                write1(out, ')');
                assert(out@ =~= start + text_of(*heap, names, v, fuel as nat));
            },
            HeapObject::BigInt(b) => {
                let digits = bigint_to_string(&b.num);
                let chars = to_chars(digits.as_str());
                write_chars(out, &chars);
            },
            _ => {
                write_debug(out);
            },
        }
    }
}

/// Appends what stands for a value without a printed form.
pub fn write_debug(out: &mut Vec<Glyph>)
    ensures
        final(out)@ == old(out)@ + glyphs(debug_text()),
{
    write3(out, 'd', 'e', 'b');
    write3(out, 'u', 'g', ':');
    write1(out, ' ');
    proof {
        lemma_glyphs_concat(seq!['d', 'e', 'b'], seq!['u', 'g', ':']);
        lemma_glyphs_concat(seq!['d', 'e', 'b'] + seq!['u', 'g', ':'], seq![' ']);
        assert(seq!['d', 'e', 'b'] + seq!['u', 'g', ':'] + seq![' '] =~= debug_text());
        assert(out@ =~= old(out)@ + (glyphs(seq!['d', 'e', 'b']) + glyphs(seq!['u', 'g', ':'])
            + glyphs(seq![' '])));
    }
}

/// Appends the printed form of a closure.
pub fn write_procedure(out: &mut Vec<Glyph>)
    ensures
        final(out)@ == old(out)@ + glyphs(procedure_text()),
{
    write3(out, '#', '<', 'p');
    write3(out, 'r', 'o', 'c');
    write3(out, 'e', 'd', 'u');
    write3(out, 'r', 'e', '>');
    proof {
        let a = seq!['#', '<', 'p'];
        let b = seq!['r', 'o', 'c'];
        let c = seq!['e', 'd', 'u'];
        let d = seq!['r', 'e', '>'];
        lemma_glyphs_concat(a, b);
        lemma_glyphs_concat(a + b, c);
        lemma_glyphs_concat(a + b + c, d);
        assert(a + b + c + d =~= procedure_text());
        assert(out@ =~= old(out)@ + (glyphs(a) + glyphs(b) + glyphs(c) + glyphs(d)));
    }
}

impl Value {
    /// The printed form of the value in S-expression notation. Where the
    /// budget `fuel` runs out, `...` stands for the rest; a float is handed
    /// out by its bits.
    pub fn display(self, heap: &Heap, symbols: &SymbolTable, fuel: usize) -> (out: Vec<Glyph>)
        ensures
            out@ == text_of(*heap, symbols@, self, fuel as nat),
    {
        let mut out: Vec<Glyph> = Vec::new();
        write_value(heap, symbols, self, fuel, &mut out);
        assert(out@ =~= text_of(*heap, symbols@, self, fuel as nat));
        out
    }
}

} // verus!
