use vstd::prelude::*;

verus! {

/// Bits that are all set in every word that is not a float.
pub const NAN: u64 = 0x7FF0_0000_0000_0000;

/// The three tag bits that tell immediates and the heap kinds apart.
pub const TAG_MASK: u64 = 0x0007_0000_0000_0000;

/// The four bits that tell the immediate kinds apart.
pub const IMMEDIATE_MASK: u64 = 0x0000_F000_0000_0000;

pub const IMMEDIATE_TAG: u64 = 0x0000_0000_0000_0000;
pub const VOID_TAG: u64 = 0x0000_1000_0000_0000;
pub const NIL_TAG: u64 = 0x0000_2000_0000_0000;
pub const BOOL_TAG: u64 = 0x0000_3000_0000_0000;
pub const INT_TAG: u64 = 0x0000_4000_0000_0000;
pub const SYMBOL_TAG: u64 = 0x0000_5000_0000_0000;

pub const LAMBDA_TAG: u64 = 0x0001_0000_0000_0000;
pub const PAIR_TAG: u64 = 0x0002_0000_0000_0000;
pub const VEC_TAG: u64 = 0x0003_0000_0000_0000;
pub const STRING_TAG: u64 = 0x0004_0000_0000_0000;
pub const HASHMAP_TAG: u64 = 0x0005_0000_0000_0000;
pub const BIGINT_TAG: u64 = 0x0006_0000_0000_0000;

/// The low 48 bits, which hold a heap address.
pub const POINTER_MASK: u64 = 0x0000_FFFF_FFFF_FFFF;

/// The kind of a value.
#[derive(Copy, Clone, Debug, PartialEq, Eq, Structural)]
pub enum VType {
    Void,
    Nil,
    Bool,
    Integer,
    Float,
    Symbol,
    Lambda,
    Pair,
    Vec,
    String,
    HashMap,
    BigInt,
}

/// One 64-bit word that holds any runtime value.
#[derive(Copy, Clone, Debug, PartialEq, Eq, Structural)]
pub struct Value(pub u64);

impl From<u64> for Value {
    fn from(v: u64) -> (r: Value) {
        Value(v)
    }
}

impl vstd::std_specs::convert::FromSpecImpl<u64> for Value {
    open spec fn obeys_from_spec() -> bool {
        true
    }

    open spec fn from_spec(v: u64) -> Value {
        Value(v)
    }
}

/// The word `n` with bit `at` copied into every bit above it.
pub open spec fn sign_extended(n: u64, at: u32) -> u64
    recommends
        at < 63,
{
    let keep: u64 = ((1u64 << ((at + 1) as u64)) - 1) as u64;
    if (n >> (at as u64)) & 1 == 1 {
        (n & keep) | !keep
    } else {
        n & keep
    }
}

/// The pointer tag under which a heap object of kind `t` is referred to;
/// 0 for the kinds that live in the word itself.
pub open spec fn pointer_tag(t: VType) -> u64 {
    match t {
        VType::Lambda => LAMBDA_TAG,
        VType::Pair => PAIR_TAG,
        VType::Vec => VEC_TAG,
        VType::String => STRING_TAG,
        VType::HashMap => HASHMAP_TAG,
        VType::BigInt => BIGINT_TAG,
        _ => IMMEDIATE_TAG,
    }
}

pub open spec fn is_heap_kind(t: VType) -> bool {
    t == VType::Lambda || t == VType::Pair || t == VType::Vec || t == VType::String || t
        == VType::HashMap || t == VType::BigInt
}

/// The word of a heap value of kind `t` that points to `addr`.
pub open spec fn pointer_word(t: VType, addr: u64) -> u64 {
    NAN | pointer_tag(t) | (addr & POINTER_MASK)
}

/// How many of the kind predicates hold of a value.
pub open spec fn kinds_held(v: Value) -> int {
    (if v.spec_is_void() { 1int } else { 0 }) + (if v.spec_is_nil() { 1int } else { 0 }) + (if v.spec_is_bool() { 1int } else { 0 })
        + (if v.spec_is_integer() { 1int } else { 0 }) + (if v.spec_is_float() { 1int } else { 0 }) + (if v.spec_is_symbol() { 1int } else { 0 })
        + (if v.spec_is_lambda() { 1int } else { 0 }) + (if v.spec_is_pair() { 1int } else { 0 }) + (if v.spec_is_vec() { 1int } else { 0 })
        + (if v.spec_is_string() { 1int } else { 0 }) + (if v.spec_is_hashmap() { 1int } else { 0 }) + (if v.spec_is_bigint() { 1int } else { 0 })
}

impl Value {
    pub open spec fn spec_is_void(self) -> bool {
        self.0 & NAN == NAN && self.0 & TAG_MASK == IMMEDIATE_TAG && self.0 & IMMEDIATE_MASK
            == VOID_TAG
    }

    pub open spec fn spec_is_nil(self) -> bool {
        self.0 & NAN == NAN && self.0 & TAG_MASK == IMMEDIATE_TAG && self.0 & IMMEDIATE_MASK
            == NIL_TAG
    }

    pub open spec fn spec_is_bool(self) -> bool {
        self.0 & NAN == NAN && self.0 & TAG_MASK == IMMEDIATE_TAG && self.0 & IMMEDIATE_MASK
            == BOOL_TAG
    }

    pub open spec fn spec_is_integer(self) -> bool {
        self.0 & NAN == NAN && self.0 & TAG_MASK == IMMEDIATE_TAG && self.0 & IMMEDIATE_MASK
            == INT_TAG
    }

    pub open spec fn spec_is_symbol(self) -> bool {
        self.0 & NAN == NAN && self.0 & TAG_MASK == IMMEDIATE_TAG && self.0 & IMMEDIATE_MASK
            == SYMBOL_TAG
    }

    pub open spec fn spec_is_float(self) -> bool {
        self.0 & NAN != NAN
    }

    pub open spec fn spec_is_lambda(self) -> bool {
        self.0 & NAN == NAN && self.0 & TAG_MASK == LAMBDA_TAG
    }

    pub open spec fn spec_is_pair(self) -> bool {
        self.0 & NAN == NAN && self.0 & TAG_MASK == PAIR_TAG
    }

    pub open spec fn spec_is_vec(self) -> bool {
        self.0 & NAN == NAN && self.0 & TAG_MASK == VEC_TAG
    }

    pub open spec fn spec_is_string(self) -> bool {
        self.0 & NAN == NAN && self.0 & TAG_MASK == STRING_TAG
    }

    pub open spec fn spec_is_hashmap(self) -> bool {
        self.0 & NAN == NAN && self.0 & TAG_MASK == HASHMAP_TAG
    }

    pub open spec fn spec_is_bigint(self) -> bool {
        self.0 & NAN == NAN && self.0 & TAG_MASK == BIGINT_TAG
    }

    /// The kind of this value; `None` if its word is outside the encoding.
    pub open spec fn kind(self) -> Option<VType> {
        if self.spec_is_float() {
            Some(VType::Float)
        } else if self.spec_is_void() {
            Some(VType::Void)
        } else if self.spec_is_nil() {
            Some(VType::Nil)
        } else if self.spec_is_bool() {
            Some(VType::Bool)
        } else if self.spec_is_integer() {
            Some(VType::Integer)
        } else if self.spec_is_symbol() {
            Some(VType::Symbol)
        } else if self.spec_is_lambda() {
            Some(VType::Lambda)
        } else if self.spec_is_pair() {
            Some(VType::Pair)
        } else if self.spec_is_vec() {
            Some(VType::Vec)
        } else if self.spec_is_string() {
            Some(VType::String)
        } else if self.spec_is_hashmap() {
            Some(VType::HashMap)
        } else if self.spec_is_bigint() {
            Some(VType::BigInt)
        } else {
            None
        }
    }

    /// A value is legal when its word encodes one of the kinds.
    pub open spec fn legal(self) -> bool {
        self.kind() is Some
    }

    /// Whether the value refers to a heap object.
    pub open spec fn spec_is_heap(self) -> bool {
        self.kind() is Some && is_heap_kind(self.kind().unwrap())
    }

    /// The address that a heap value points to.
    pub open spec fn address(self) -> u64 {
        sign_extended(self.0, 47)
    }

    /// The integer that an Integer value holds.
    pub open spec fn spec_to_integer(self) -> i32 {
        (self.0 & 0xFFFF_FFFF) as u32 as i32
    }

    /// The symbol id that a Symbol value holds.
    pub open spec fn spec_to_symbol(self) -> u32 {
        (self.0 & 0xFFFF_FFFF) as u32
    }

    pub open spec fn spec_void() -> Value {
        Value(NAN | VOID_TAG)
    }

    pub open spec fn spec_nil() -> Value {
        Value(NAN | NIL_TAG)
    }

    pub open spec fn spec_bool(b: bool) -> Value {
        Value(NAN | BOOL_TAG | (if b { 1u64 } else { 0u64 }))
    }

    pub open spec fn spec_integer(i: i32) -> Value {
        Value(NAN | INT_TAG | (i as u32 as u64))
    }

    pub open spec fn spec_symbol(s: u32) -> Value {
        Value(NAN | SYMBOL_TAG | (s as u64))
    }

    pub open spec fn spec_pointer(t: VType, addr: u64) -> Value {
        Value(pointer_word(t, addr))
    }

    pub fn new(p: u64) -> (v: Value)
        ensures
            v.0 == p,
    {
        Value(p)
    }

    /// The value that stands for "no value".
    pub fn void() -> (v: Value)
        ensures
            v == Value::spec_void(),
            v.kind() == Some(VType::Void),
    {
        assert((NAN | VOID_TAG) & NAN == NAN && (NAN | VOID_TAG) & TAG_MASK == IMMEDIATE_TAG && (NAN
            | VOID_TAG) & IMMEDIATE_MASK == VOID_TAG) by (bit_vector);
        Value(NAN | VOID_TAG)
    }

    /// The empty list.
    pub fn nil() -> (v: Value)
        ensures
            v == Value::spec_nil(),
            v.kind() == Some(VType::Nil),
    {
        assert((NAN | NIL_TAG) & NAN == NAN && (NAN | NIL_TAG) & TAG_MASK == IMMEDIATE_TAG && (NAN
            | NIL_TAG) & IMMEDIATE_MASK == NIL_TAG) by (bit_vector);
        Value(NAN | NIL_TAG)
    }

    #[allow(non_snake_case)]
    pub fn Bool(b: bool) -> (v: Value)
        ensures
            v == Value::spec_bool(b),
            v.kind() == Some(VType::Bool),
            v.spec_is_true() == b,
            v.spec_is_false() == !b,
    {
        let low: u64 = if b { 1 } else { 0 };
        assert(low <= 1 ==> (NAN | BOOL_TAG | low) & NAN == NAN && (NAN | BOOL_TAG | low) & TAG_MASK
            == IMMEDIATE_TAG && (NAN | BOOL_TAG | low) & IMMEDIATE_MASK == BOOL_TAG && ((NAN
            | BOOL_TAG | low) == (NAN | BOOL_TAG | 1) <==> low == 1) && ((NAN | BOOL_TAG | low) == (
        NAN | BOOL_TAG | 0) <==> low == 0)) by (bit_vector);
        Value(NAN | BOOL_TAG | low)
    }

    pub open spec fn spec_is_true(self) -> bool {
        self == Value::spec_bool(true)
    }

    pub open spec fn spec_is_false(self) -> bool {
        self == Value::spec_bool(false)
    }

    #[verifier::when_used_as_spec(spec_is_true)]
    pub fn is_true(self) -> (r: bool)
        ensures
            r == self.spec_is_true(),
    {
        self.0 == NAN | BOOL_TAG | 1
    }

    #[verifier::when_used_as_spec(spec_is_false)]
    pub fn is_false(self) -> (r: bool)
        ensures
            r == self.spec_is_false(),
    {
        self.0 == NAN | BOOL_TAG | 0
    }

    #[allow(non_snake_case)]
    pub fn Integer(i: i32) -> (v: Value)
        ensures
            v == Value::spec_integer(i),
            v.kind() == Some(VType::Integer),
            v.spec_to_integer() == i,
    {
        let low: u64 = i as u32 as u64;
        assert(low <= 0xFFFF_FFFF ==> (NAN | INT_TAG | low) & NAN == NAN && (NAN | INT_TAG | low)
            & TAG_MASK == IMMEDIATE_TAG && (NAN | INT_TAG | low) & IMMEDIATE_MASK == INT_TAG && (NAN
            | INT_TAG | low) & 0xFFFF_FFFF == low) by (bit_vector);
        assert((i as u32 as u64) as u32 as i32 == i) by (bit_vector);
        Value(NAN | INT_TAG | low)
    }

    #[verifier::when_used_as_spec(spec_to_integer)]
    pub fn to_integer(self) -> (i: i32)
        ensures
            i == self.spec_to_integer(),
    {
        (self.0 & 0xFFFF_FFFF) as u32 as i32
    }

    #[allow(non_snake_case)]
    pub fn Symbol(s: u32) -> (v: Value)
        ensures
            v == Value::spec_symbol(s),
            v.kind() == Some(VType::Symbol),
            v.spec_to_symbol() == s,
    {
        let low: u64 = s as u64;
        assert(low <= 0xFFFF_FFFF ==> (NAN | SYMBOL_TAG | low) & NAN == NAN && (NAN | SYMBOL_TAG
            | low) & TAG_MASK == IMMEDIATE_TAG && (NAN | SYMBOL_TAG | low) & IMMEDIATE_MASK
            == SYMBOL_TAG && (NAN | SYMBOL_TAG | low) & 0xFFFF_FFFF == low) by (bit_vector);
        Value(NAN | SYMBOL_TAG | low)
    }

    #[verifier::when_used_as_spec(spec_to_symbol)]
    pub fn to_symbol(self) -> (s: u32)
        ensures
            s == self.spec_to_symbol(),
    {
        (self.0 & 0xFFFF_FFFF) as u32
    }

    #[verifier::when_used_as_spec(spec_is_void)]
    pub fn is_void(self) -> (r: bool)
        ensures
            r == self.spec_is_void(),
    {
        (self.0 & NAN) == NAN && (self.0 & TAG_MASK) == IMMEDIATE_TAG && (self.0 & IMMEDIATE_MASK)
            == VOID_TAG
    }

    #[verifier::when_used_as_spec(spec_is_nil)]
    pub fn is_nil(self) -> (r: bool)
        ensures
            r == self.spec_is_nil(),
    {
        (self.0 & NAN) == NAN && (self.0 & TAG_MASK) == IMMEDIATE_TAG && (self.0 & IMMEDIATE_MASK)
            == NIL_TAG
    }

    #[verifier::when_used_as_spec(spec_is_bool)]
    pub fn is_bool(self) -> (r: bool)
        ensures
            r == self.spec_is_bool(),
    {
        (self.0 & NAN) == NAN && (self.0 & TAG_MASK) == IMMEDIATE_TAG && (self.0 & IMMEDIATE_MASK)
            == BOOL_TAG
    }

    #[verifier::when_used_as_spec(spec_is_integer)]
    pub fn is_integer(self) -> (r: bool)
        ensures
            r == self.spec_is_integer(),
    {
        (self.0 & NAN) == NAN && (self.0 & TAG_MASK) == IMMEDIATE_TAG && (self.0 & IMMEDIATE_MASK)
            == INT_TAG
    }

    #[verifier::when_used_as_spec(spec_is_symbol)]
    pub fn is_symbol(self) -> (r: bool)
        ensures
            r == self.spec_is_symbol(),
    {
        (self.0 & NAN) == NAN && (self.0 & TAG_MASK) == IMMEDIATE_TAG && (self.0 & IMMEDIATE_MASK)
            == SYMBOL_TAG
    }

    #[verifier::when_used_as_spec(spec_is_float)]
    pub fn is_float(self) -> (r: bool)
        ensures
            r == self.spec_is_float(),
    {
        (self.0 & NAN) != NAN
    }

    #[verifier::when_used_as_spec(spec_is_lambda)]
    pub fn is_lambda(self) -> (r: bool)
        ensures
            r == self.spec_is_lambda(),
    {
        (self.0 & NAN) == NAN && (self.0 & TAG_MASK) == LAMBDA_TAG
    }

    #[verifier::when_used_as_spec(spec_is_pair)]
    pub fn is_pair(self) -> (r: bool)
        ensures
            r == self.spec_is_pair(),
    {
        (self.0 & NAN) == NAN && (self.0 & TAG_MASK) == PAIR_TAG
    }

    #[verifier::when_used_as_spec(spec_is_vec)]
    pub fn is_vec(self) -> (r: bool)
        ensures
            r == self.spec_is_vec(),
    {
        (self.0 & NAN) == NAN && (self.0 & TAG_MASK) == VEC_TAG
    }

    #[verifier::when_used_as_spec(spec_is_string)]
    pub fn is_string(self) -> (r: bool)
        ensures
            r == self.spec_is_string(),
    {
        (self.0 & NAN) == NAN && (self.0 & TAG_MASK) == STRING_TAG
    }

    #[verifier::when_used_as_spec(spec_is_hashmap)]
    pub fn is_hashmap(self) -> (r: bool)
        ensures
            r == self.spec_is_hashmap(),
    {
        (self.0 & NAN) == NAN && (self.0 & TAG_MASK) == HASHMAP_TAG
    }

    #[verifier::when_used_as_spec(spec_is_bigint)]
    pub fn is_bigint(self) -> (r: bool)
        ensures
            r == self.spec_is_bigint(),
    {
        (self.0 & NAN) == NAN && (self.0 & TAG_MASK) == BIGINT_TAG
    }

    /// Whether the value refers to a heap object.
    #[verifier::when_used_as_spec(spec_is_heap)]
    pub fn is_heap(self) -> (r: bool)
        ensures
            r == self.spec_is_heap(),
    {
        self.is_lambda() || self.is_pair() || self.is_vec() || self.is_string()
            || self.is_hashmap() || self.is_bigint()
    }

    /// The kind of a legal value.
    pub fn to_type(self) -> (t: VType)
        requires
            self.legal(),
        ensures
            self.kind() == Some(t),
    {
        if self.is_float() {
            VType::Float
        } else if self.is_void() {
            VType::Void
        } else if self.is_nil() {
            VType::Nil
        } else if self.is_bool() {
            VType::Bool
        } else if self.is_integer() {
            VType::Integer
        } else if self.is_symbol() {
            VType::Symbol
        } else if self.is_lambda() {
            VType::Lambda
        } else if self.is_pair() {
            VType::Pair
        } else if self.is_vec() {
            VType::Vec
        } else if self.is_string() {
            VType::String
        } else if self.is_hashmap() {
            VType::HashMap
        } else {
            VType::BigInt
        }
    }

    /// The kind of any word: `None` where the word encodes no value.
    pub fn try_type(self) -> (t: Option<VType>)
        ensures
            t == self.kind(),
    {
        if self.is_float() || self.is_void() || self.is_nil() || self.is_bool()
            || self.is_integer() || self.is_symbol() || self.is_heap() {
            Some(self.to_type())
        } else {
            None
        }
    }

    /// The address in the low 48 bits, with bit 47 copied into the 16 bits above.
    pub fn to_pointer(self) -> (p: u64)
        ensures
            p == self.address(),
    {
        Self::sign_extend(self.0, 47)
    }

    pub fn sign_extend(n: u64, at: u32) -> (r: u64)
        requires
            at < 63,
        ensures
            r == sign_extended(n, at),
    {
        let width: u64 = (at + 1) as u64;
        assert(width < 64 ==> (1u64 << width) >= 1) by (bit_vector);
        let keep: u64 = (1u64 << width) - 1;
        if (n >> (at as u64)) & 1 == 1 {
            (n & keep) | !keep
        } else {
            n & keep
        }
    }

    /// The heap value of kind `t` that points to `addr`.
    pub fn pointer(t: VType, addr: u64) -> (v: Value)
        requires
            is_heap_kind(t),
            addr < 0x8000_0000_0000,
        ensures
            v == Value::spec_pointer(t, addr),
            v.kind() == Some(t),
            v.address() == addr,
    {
        let tag: u64 = match t {
            VType::Lambda => LAMBDA_TAG,
            VType::Pair => PAIR_TAG,
            VType::Vec => VEC_TAG,
            VType::String => STRING_TAG,
            VType::HashMap => HASHMAP_TAG,
            _ => BIGINT_TAG,
        };
        proof {
            lemma_pointer_word(t, addr);
        }
        Value(NAN | tag | (addr & POINTER_MASK))
    }
}

/// A pointer word keeps its kind and, below 2^47, its address.
pub proof fn lemma_pointer_word(t: VType, addr: u64)
    requires
        is_heap_kind(t),
        addr < 0x8000_0000_0000,
    ensures
        Value::spec_pointer(t, addr).kind() == Some(t),
        Value::spec_pointer(t, addr).address() == addr,
{
    let tag = pointer_tag(t);
    let w = NAN | tag | (addr & POINTER_MASK);
    assert(addr < 0x8000_0000_0000 && (tag == LAMBDA_TAG || tag == PAIR_TAG || tag == VEC_TAG || tag
        == STRING_TAG || tag == HASHMAP_TAG || tag == BIGINT_TAG) ==> w & NAN == NAN && w & TAG_MASK
        == tag && (w >> 47) & 1 == 0 && w & (((1u64 << 48) - 1) as u64) == addr) by (bit_vector)
        requires
            w == NAN | tag | (addr & POINTER_MASK),
    ;
}

/// What goes into an immediate comes out of it again: an integer, a symbol
/// id and a truth value.
pub proof fn lemma_round_trip(i: i32, s: u32, b: bool)
    ensures
        Value::spec_integer(i).spec_is_integer(),
        Value::spec_integer(i).spec_to_integer() == i,
        Value::spec_symbol(s).spec_is_symbol(),
        Value::spec_symbol(s).spec_to_symbol() == s,
        Value::spec_bool(b).spec_is_bool(),
        Value::spec_bool(b).spec_is_true() == b,
        Value::spec_bool(b).spec_is_false() == !b,
{
    let low: u64 = i as u32 as u64;
    assert(low <= 0xFFFF_FFFF ==> (NAN | INT_TAG | low) & NAN == NAN && (NAN | INT_TAG | low)
        & TAG_MASK == IMMEDIATE_TAG && (NAN | INT_TAG | low) & IMMEDIATE_MASK == INT_TAG && (NAN
        | INT_TAG | low) & 0xFFFF_FFFF == low) by (bit_vector);
    assert((i as u32 as u64) as u32 as i32 == i) by (bit_vector);
    let sym: u64 = s as u64;
    assert(sym <= 0xFFFF_FFFF ==> (NAN | SYMBOL_TAG | sym) & NAN == NAN && (NAN | SYMBOL_TAG | sym)
        & TAG_MASK == IMMEDIATE_TAG && (NAN | SYMBOL_TAG | sym) & IMMEDIATE_MASK == SYMBOL_TAG && (
    NAN | SYMBOL_TAG | sym) & 0xFFFF_FFFF == sym) by (bit_vector);
    let bit: u64 = if b { 1 } else { 0 };
    assert(bit <= 1 ==> (NAN | BOOL_TAG | bit) & NAN == NAN && (NAN | BOOL_TAG | bit) & TAG_MASK
        == IMMEDIATE_TAG && (NAN | BOOL_TAG | bit) & IMMEDIATE_MASK == BOOL_TAG && ((NAN | BOOL_TAG
        | bit) == (NAN | BOOL_TAG | 1) <==> bit == 1) && ((NAN | BOOL_TAG | bit) == (NAN | BOOL_TAG
        | 0) <==> bit == 0)) by (bit_vector);
}

/// Exactly one of the kind predicates holds of a legal value, and none of an
/// illegal one.
pub proof fn lemma_tag_exclusive(v: Value)
    ensures
        v.legal() ==> kinds_held(v) == 1,
        !v.legal() ==> kinds_held(v) == 0,
{
    let w = v.0;
    assert(w & TAG_MASK == IMMEDIATE_TAG || w & TAG_MASK == LAMBDA_TAG || w & TAG_MASK == PAIR_TAG
        || w & TAG_MASK == VEC_TAG || w & TAG_MASK == STRING_TAG || w & TAG_MASK == HASHMAP_TAG || w
        & TAG_MASK == BIGINT_TAG || w & TAG_MASK == 0x0007_0000_0000_0000) by (bit_vector);
}

} // verus!
