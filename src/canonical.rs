//! The canonical key of an expression, and the equality and hash it induces.
//!
//! Two expressions are equal exactly when their canonical keys are equal. The
//! key is a prefix encoding of the tree in which the operands of `+` and `*`
//! stand in a fixed order, so swapping them changes nothing, and in which a
//! zero part of a number is suppressed.
use vstd::prelude::*;
use std::collections::hash_map::DefaultHasher;
use std::hash::Hasher;
use vstd::std_specs::hash::DefaultHasherAdditionalSpecFns;
use crate::complex::{suppressed, suppress_zero};
use crate::expression::{Expression, ExpressionFunction, InfixOperator, PrefixOperator};

verus! {

pub const TAG_ADDRESS: u64 = 0;
pub const TAG_FUNCTION_CALL: u64 = 1;
pub const TAG_INFIX: u64 = 2;
pub const TAG_NUMBER: u64 = 3;
pub const TAG_PI: u64 = 4;
pub const TAG_PREFIX: u64 = 5;
pub const TAG_VARIABLE: u64 = 6;

pub open spec fn function_code(f: ExpressionFunction) -> u64 {
    match f {
        ExpressionFunction::Cis => 0,
        ExpressionFunction::Cosine => 1,
        ExpressionFunction::Exponent => 2,
        ExpressionFunction::Sine => 3,
        ExpressionFunction::SquareRoot => 4,
    }
}

pub open spec fn prefix_code(op: PrefixOperator) -> u64 {
    match op {
        PrefixOperator::Plus => 0,
        PrefixOperator::Minus => 1,
    }
}

pub open spec fn infix_code(op: InfixOperator) -> u64 {
    match op {
        InfixOperator::Caret => 0,
        InfixOperator::Plus => 1,
        InfixOperator::Minus => 2,
        InfixOperator::Slash => 3,
        InfixOperator::Star => 4,
    }
}

/// A text as its characters' code points, each plus one, closed by a zero.
pub open spec fn text_key(s: Seq<char>) -> Seq<u64> {
    Seq::new(s.len(), |i: int| (s[i] as u32 as u64 + 1) as u64) + seq![0u64]
}

/// Lexicographic order on keys, from position `i` on.
pub open spec fn key_le_from(a: Seq<u64>, b: Seq<u64>, i: nat) -> bool
    decreases a.len() - i,
{
    if i >= a.len() {
        true
    } else if i >= b.len() {
        false
    } else if a[i as int] != b[i as int] {
        a[i as int] < b[i as int]
    } else {
        key_le_from(a, b, i + 1)
    }
}

/// Lexicographic order on keys.
pub open spec fn key_le(a: Seq<u64>, b: Seq<u64>) -> bool {
    key_le_from(a, b, 0)
}

/// The two operand keys of a binary node; those of a commutative operator
/// stand smaller first.
pub open spec fn operand_pair(l: Seq<u64>, r: Seq<u64>, commutative: bool) -> Seq<u64> {
    if commutative && !key_le(l, r) {
        r + l
    } else {
        l + r
    }
}

/// The canonical key of an expression.
pub open spec fn key_of(e: Expression) -> Seq<u64>
    decreases e,
{
    match e {
        Expression::Address(m) => seq![TAG_ADDRESS] + text_key(m.name@) + seq![m.index],
        Expression::FunctionCall { function, expression } => seq![
            TAG_FUNCTION_CALL,
            function_code(function),
        ] + key_of(*expression),
        Expression::Infix { left, operator, right } => seq![TAG_INFIX, infix_code(operator)]
            + operand_pair(key_of(*left), key_of(*right), operator.is_commutative()),
        Expression::Number(c) => seq![TAG_NUMBER, suppressed(c.re), suppressed(c.im)],
        Expression::PiConstant => seq![TAG_PI],
        Expression::Prefix { operator, expression } => seq![TAG_PREFIX, prefix_code(operator)]
            + key_of(*expression),
        Expression::Variable(v) => seq![TAG_VARIABLE] + text_key(v@),
    }
}

/// The bytes of a key word, least significant first.
pub open spec fn word_bytes(w: u64) -> Seq<u8> {
    seq![
        w as u8,
        (w >> 8u64) as u8,
        (w >> 16u64) as u8,
        (w >> 24u64) as u8,
        (w >> 32u64) as u8,
        (w >> 40u64) as u8,
        (w >> 48u64) as u8,
        (w >> 56u64) as u8,
    ]
}

/// The writes that hashing a key makes: one per word.
pub open spec fn hash_writes(key: Seq<u64>) -> Seq<Seq<u8>> {
    Seq::new(key.len(), |i: int| word_bytes(key[i]))
}

/// The hash of an expression: that of its canonical key.
pub open spec fn expression_hash(e: Expression) -> u64 {
    DefaultHasher::spec_finish(hash_writes(key_of(e)))
}

/// Equality of expressions: equality of their canonical keys.
pub open spec fn equivalent(a: Expression, b: Expression) -> bool {
    key_of(a) == key_of(b)
}

fn function_code_of(f: ExpressionFunction) -> (r: u64)
    ensures
        r == function_code(f),
{
    match f {
        ExpressionFunction::Cis => 0,
        ExpressionFunction::Cosine => 1,
        ExpressionFunction::Exponent => 2,
        ExpressionFunction::Sine => 3,
        ExpressionFunction::SquareRoot => 4,
    }
}

fn prefix_code_of(op: PrefixOperator) -> (r: u64)
    ensures
        r == prefix_code(op),
{
    match op {
        PrefixOperator::Plus => 0,
        PrefixOperator::Minus => 1,
    }
}

fn infix_code_of(op: InfixOperator) -> (r: u64)
    ensures
        r == infix_code(op),
{
    match op {
        InfixOperator::Caret => 0,
        InfixOperator::Plus => 1,
        InfixOperator::Minus => 2,
        InfixOperator::Slash => 3,
        InfixOperator::Star => 4,
    }
}

/// Whether `a` comes before or equals `b` in lexicographic order.
pub fn keys_in_order(a: &Vec<u64>, b: &Vec<u64>) -> (r: bool)
    ensures
        r == key_le(a@, b@),
{
    let mut i: usize = 0;
    while i < a.len()
        invariant
            0 <= i <= a@.len(),
            key_le(a@, b@) == key_le_from(a@, b@, i as nat),
        decreases a.len() - i,
    {
        if i >= b.len() {
            return false;
        }
        if a[i] != b[i] {
            return a[i] < b[i];
        }
        i = i + 1;
    }
    true
}

/// Appends the key of a text to `out`.
fn write_text_key(s: &String, out: &mut Vec<u64>)
    ensures
        final(out)@ == old(out)@ + text_key(s@),
{
    let t = s.as_str();
    let n = t.unicode_len();
    let ghost start = out@;
    let mut i: usize = 0;
    while i < n
        invariant
            n == s@.len(),
            t@ == s@,
            0 <= i <= n,
            out@ == start + Seq::new(i as nat, |j: int| (s@[j] as u32 as u64 + 1) as u64),
        decreases n - i,
    {
        let c = t.get_char(i);
        out.push(c as u32 as u64 + 1);
        i = i + 1;
        assert(Seq::new(i as nat, |j: int| (s@[j] as u32 as u64 + 1) as u64) =~= Seq::new(
            (i - 1) as nat,
            |j: int| (s@[j] as u32 as u64 + 1) as u64,
        ).push((c as u32 as u64 + 1) as u64));
    }
    out.push(0);
    assert(out@ =~= start + text_key(s@));
}

/// Moves every word of `src` to the end of `out`.
fn append_words(out: &mut Vec<u64>, src: &mut Vec<u64>)
    ensures
        final(out)@ == old(out)@ + old(src)@,
{
    out.append(src);
}

/// Appends the canonical key of `e` to `out`.
fn write_key(e: &Expression, out: &mut Vec<u64>)
    ensures
        final(out)@ == old(out)@ + key_of(*e),
    decreases e,
{
    let ghost start = out@;
    match e {
        Expression::Address(m) => {
            out.push(TAG_ADDRESS);
            write_text_key(&m.name, out);
            out.push(m.index);
            assert(out@ =~= start + key_of(*e));
        },
        Expression::FunctionCall { function, expression } => {
            out.push(TAG_FUNCTION_CALL);
            out.push(function_code_of(*function));
            write_key(expression, out);
            assert(out@ =~= start + key_of(*e));
        },
        Expression::Infix { left, operator, right } => {
            out.push(TAG_INFIX);
            out.push(infix_code_of(*operator));
            let mut l: Vec<u64> = Vec::new();
            write_key(left, &mut l);
            let mut r: Vec<u64> = Vec::new();
            write_key(right, &mut r);
            assert(l@ =~= key_of(**left));
            assert(r@ =~= key_of(**right));
            let commutative = match operator {
                InfixOperator::Plus | InfixOperator::Star => true,
                _ => false,
            };
            if commutative && !keys_in_order(&l, &r) {
                append_words(out, &mut r);
                append_words(out, &mut l);
            } else {
                append_words(out, &mut l);
                append_words(out, &mut r);
            }
            assert(out@ =~= start + key_of(*e));
        },
        Expression::Number(c) => {
            out.push(TAG_NUMBER);
            out.push(suppress_zero(c.re));
            out.push(suppress_zero(c.im));
            assert(out@ =~= start + key_of(*e));
        },
        Expression::PiConstant => {
            out.push(TAG_PI);
            assert(out@ =~= start + key_of(*e));
        },
        Expression::Prefix { operator, expression } => {
            out.push(TAG_PREFIX);
            out.push(prefix_code_of(*operator));
            write_key(expression, out);
            assert(out@ =~= start + key_of(*e));
        },
        Expression::Variable(v) => {
            out.push(TAG_VARIABLE);
            write_text_key(v, out);
            assert(out@ =~= start + key_of(*e));
        },
    }
}

impl Expression {
    /// The canonical key of this expression.
    pub fn canonical_key(&self) -> (r: Vec<u64>)
        ensures
            r@ == key_of(*self),
    {
        let mut out: Vec<u64> = Vec::new();
        write_key(self, &mut out);
        assert(out@ =~= key_of(*self));
        out
    }
}

/// Whether two keys hold the same words.
fn keys_equal(a: &Vec<u64>, b: &Vec<u64>) -> (r: bool)
    ensures
        r == (a@ == b@),
{
    if a.len() != b.len() {
        return false;
    }
    let mut i: usize = 0;
    while i < a.len()
        invariant
            a@.len() == b@.len(),
            0 <= i <= a@.len(),
            forall|j: int| 0 <= j < i ==> a@[j] == b@[j],
        decreases a.len() - i,
    {
        if a[i] != b[i] {
            return false;
        }
        i = i + 1;
    }
    assert(a@ =~= b@);
    true
}

impl PartialEq for Expression {
    fn eq(&self, other: &Expression) -> (r: bool) {
        let a = self.canonical_key();
        let b = other.canonical_key();
        keys_equal(&a, &b)
    }
}

impl vstd::std_specs::cmp::PartialEqSpecImpl for Expression {
    open spec fn obeys_eq_spec() -> bool {
        true
    }

    open spec fn eq_spec(&self, other: &Expression) -> bool {
        equivalent(*self, *other)
    }
}

impl Eq for Expression {}

/// The eight bytes of a key word, least significant first.
fn word_byte_vec(w: u64) -> (r: Vec<u8>)
    ensures
        r@ == word_bytes(w),
{
    let bytes: Vec<u8> = vec![
        w as u8,
        (w >> 8u64) as u8,
        (w >> 16u64) as u8,
        (w >> 24u64) as u8,
        (w >> 32u64) as u8,
        (w >> 40u64) as u8,
        (w >> 48u64) as u8,
        (w >> 56u64) as u8,
    ];
    assert(bytes@ =~= word_bytes(w));
    bytes
}

/// Relies on std's `Hasher::write`: hands `bytes` to the hasher.
#[verifier::external_body]
fn write_bytes<H: std::hash::Hasher>(state: &mut H, bytes: &[u8]) {
    state.write(bytes)
}

impl std::hash::Hash for Expression {
    /// Writes the canonical key to `state`, one word of eight bytes per write:
    /// the writes that `_hash_to_u64` makes, so equal expressions hash alike.
    fn hash<H: std::hash::Hasher>(&self, state: &mut H) {
        let key = self.canonical_key();
        let mut i: usize = 0;
        while i < key.len()
            decreases key.len() - i,
        {
            let bytes = word_byte_vec(key[i]);
            write_bytes(state, bytes.as_slice());
            i = i + 1;
        }
    }
}

/// The hash of an expression: a fresh `DefaultHasher` given, one write per
/// word, the eight bytes of each word of the canonical key. These are the
/// writes that the `Hash` impl of `Expression` makes.
pub fn _hash_to_u64(e: &Expression) -> (r: u64)
    ensures
        r == expression_hash(*e),
{
    let key = e.canonical_key();
    let mut hasher = DefaultHasher::new();
    let mut i: usize = 0;
    while i < key.len()
        invariant
            key@ == key_of(*e),
            0 <= i <= key@.len(),
            hasher@ == hash_writes(key@.take(i as int)),
        decreases key.len() - i,
    {
        let w = key[i];
        let bytes = word_byte_vec(w);
        hasher.write(bytes.as_slice());
        assert(hash_writes(key@.take(i + 1)) =~= hash_writes(key@.take(i as int)).push(
            word_bytes(w),
        ));
        i = i + 1;
    }
    assert(key@.take(key@.len() as int) =~= key@);
    hasher.finish()
}

/// Lexicographic order is total: of two keys, one comes first.
pub proof fn lemma_key_le_total(a: Seq<u64>, b: Seq<u64>, i: nat)
    ensures
        key_le_from(a, b, i) || key_le_from(b, a, i),
    decreases a.len() - i,
{
    if i < a.len() && i < b.len() && a[i as int] == b[i as int] {
        lemma_key_le_total(a, b, i + 1);
    }
}

/// Lexicographic order is antisymmetric: keys that each come first are equal.
pub proof fn lemma_key_le_antisymmetric(a: Seq<u64>, b: Seq<u64>, i: nat)
    requires
        key_le_from(a, b, i),
        key_le_from(b, a, i),
        i <= a.len(),
        i <= b.len(),
        forall|j: int| 0 <= j < i ==> a[j] == b[j],
    ensures
        a == b,
    decreases a.len() - i,
{
    if i < a.len() {
        lemma_key_le_antisymmetric(a, b, i + 1);
    } else {
        assert(a.len() == b.len());
        assert(a =~= b);
    }
}

/// The pair of operand keys of a commutative operator does not depend on
/// which operand stands left.
pub proof fn lemma_operand_pair_symmetric(l: Seq<u64>, r: Seq<u64>)
    ensures
        operand_pair(l, r, true) == operand_pair(r, l, true),
{
    lemma_key_le_total(l, r, 0);
    if key_le(l, r) && key_le(r, l) {
        lemma_key_le_antisymmetric(l, r, 0);
    }
}

/// `a + b` equals `b + a`, and so does its hash.
pub proof fn lemma_plus_commutes(a: Expression, b: Expression)
    ensures
        equivalent(
            Expression::Infix { left: Box::new(a), operator: InfixOperator::Plus, right: Box::new(b) },
            Expression::Infix { left: Box::new(b), operator: InfixOperator::Plus, right: Box::new(a) },
        ),
        expression_hash(
            Expression::Infix { left: Box::new(a), operator: InfixOperator::Plus, right: Box::new(b) },
        ) == expression_hash(
            Expression::Infix { left: Box::new(b), operator: InfixOperator::Plus, right: Box::new(a) },
        ),
{
    lemma_operand_pair_symmetric(key_of(a), key_of(b));
}

/// `a * b` equals `b * a`, and so does its hash.
pub proof fn lemma_star_commutes(a: Expression, b: Expression)
    ensures
        equivalent(
            Expression::Infix { left: Box::new(a), operator: InfixOperator::Star, right: Box::new(b) },
            Expression::Infix { left: Box::new(b), operator: InfixOperator::Star, right: Box::new(a) },
        ),
        expression_hash(
            Expression::Infix { left: Box::new(a), operator: InfixOperator::Star, right: Box::new(b) },
        ) == expression_hash(
            Expression::Infix { left: Box::new(b), operator: InfixOperator::Star, right: Box::new(a) },
        ),
{
    lemma_operand_pair_symmetric(key_of(a), key_of(b));
}

/// Two keys agree where both have a word.
pub open spec fn agree(a: Seq<u64>, b: Seq<u64>) -> bool {
    forall|i: int| 0 <= i < a.len() && i < b.len() ==> a[i] == b[i]
}

/// The tag that a key starts with.
pub open spec fn tag_of(e: Expression) -> u64 {
    match e {
        Expression::Address(_) => TAG_ADDRESS,
        Expression::FunctionCall { .. } => TAG_FUNCTION_CALL,
        Expression::Infix { .. } => TAG_INFIX,
        Expression::Number(_) => TAG_NUMBER,
        Expression::PiConstant => TAG_PI,
        Expression::Prefix { .. } => TAG_PREFIX,
        Expression::Variable(_) => TAG_VARIABLE,
    }
}

proof fn lemma_agree_split(x: Seq<u64>, y: Seq<u64>, u: Seq<u64>, v: Seq<u64>)
    requires
        agree(x + y, u + v),
    ensures
        agree(x, u),
        x == u ==> agree(y, v),
{
    assert forall|i: int| 0 <= i < x.len() && i < u.len() implies x[i] == u[i] by {
        assert((x + y)[i] == x[i]);
        assert((u + v)[i] == u[i]);
    }
    if x == u {
        assert forall|i: int| 0 <= i < y.len() && i < v.len() implies y[i] == v[i] by {
            assert((x + y)[x.len() + i] == y[i]);
            assert((u + v)[u.len() + i] == v[i]);
        }
    }
}

proof fn lemma_text_key_prefix_free(s: Seq<char>, r: Seq<char>)
    requires
        agree(text_key(s), text_key(r)),
    ensures
        text_key(s) == text_key(r),
{
    if s.len() < r.len() {
        assert(text_key(s)[s.len() as int] == 0);
        assert(text_key(r)[s.len() as int] != 0);
    } else if r.len() < s.len() {
        assert(text_key(r)[r.len() as int] == 0);
        assert(text_key(s)[r.len() as int] != 0);
    } else {
        assert(text_key(s) =~= text_key(r));
    }
}

proof fn lemma_key_starts_with_tag(e: Expression)
    ensures
        key_of(e).len() >= 1,
        key_of(e)[0] == tag_of(e),
{
}

/// No canonical key is a proper beginning of another: keys that agree
/// where both have a word are equal.
pub proof fn lemma_key_prefix_free(a: Expression, b: Expression)
    requires
        agree(key_of(a), key_of(b)),
    ensures
        key_of(a) == key_of(b),
    decreases a,
{
    lemma_key_starts_with_tag(a);
    lemma_key_starts_with_tag(b);
    assert(tag_of(a) == tag_of(b));
    match a {
        Expression::Address(m) => {
            let n = b->Address_0;
            let ta = seq![TAG_ADDRESS] + text_key(m.name@);
            let tb = seq![TAG_ADDRESS] + text_key(n.name@);
            lemma_agree_split(ta, seq![m.index], tb, seq![n.index]);
            lemma_agree_split(seq![TAG_ADDRESS], text_key(m.name@), seq![TAG_ADDRESS], text_key(n.name@));
            assert(seq![TAG_ADDRESS] =~= seq![TAG_ADDRESS]);
            lemma_text_key_prefix_free(m.name@, n.name@);
            assert(ta == tb);
            assert(seq![m.index][0] == seq![n.index][0]);
            assert(key_of(a) =~= key_of(b));
        },
        Expression::FunctionCall { function, expression } => {
            let x = *expression;
            let y = *b->FunctionCall_expression;
            let ha = seq![TAG_FUNCTION_CALL, function_code(function)];
            let hb = seq![TAG_FUNCTION_CALL, function_code(b->function)];
            lemma_agree_split(ha, key_of(x), hb, key_of(y));
            assert(ha[1] == hb[1]);
            assert(ha =~= hb);
            lemma_key_prefix_free(x, y);
        },
        Expression::Infix { left, operator, right } => {
            let (bl, bop, br) = (*b->left, b->Infix_operator, *b->right);
            let ha = seq![TAG_INFIX, infix_code(operator)];
            let hb = seq![TAG_INFIX, infix_code(bop)];
            let pa = operand_pair(key_of(*left), key_of(*right), operator.is_commutative());
            let pb = operand_pair(key_of(bl), key_of(br), bop.is_commutative());
            lemma_agree_split(ha, pa, hb, pb);
            assert(ha[1] == hb[1]);
            assert(operator == bop);
            assert(ha =~= hb);
            let (fa, sa) = if operator.is_commutative() && !key_le(key_of(*left), key_of(*right)) {
                (*right, *left)
            } else {
                (*left, *right)
            };
            let (fb, sb) = if bop.is_commutative() && !key_le(key_of(bl), key_of(br)) {
                (br, bl)
            } else {
                (bl, br)
            };
            assert(pa == key_of(fa) + key_of(sa));
            assert(pb == key_of(fb) + key_of(sb));
            lemma_agree_split(key_of(fa), key_of(sa), key_of(fb), key_of(sb));
            lemma_key_prefix_free(fa, fb);
            lemma_key_prefix_free(sa, sb);
        },
        Expression::Number(c) => {
            let d = b->Number_0;
            assert(key_of(a)[1] == key_of(b)[1]);
            assert(key_of(a)[2] == key_of(b)[2]);
            assert(key_of(a) =~= key_of(b));
        },
        Expression::PiConstant => {
            assert(key_of(a) =~= key_of(b));
        },
        Expression::Prefix { operator, expression } => {
            let x = *expression;
            let y = *b->Prefix_expression;
            let ha = seq![TAG_PREFIX, prefix_code(operator)];
            let hb = seq![TAG_PREFIX, prefix_code(b->Prefix_operator)];
            lemma_agree_split(ha, key_of(x), hb, key_of(y));
            assert(ha[1] == hb[1]);
            assert(ha =~= hb);
            lemma_key_prefix_free(x, y);
        },
        Expression::Variable(v) => {
            let w = b->Variable_0;
            lemma_agree_split(seq![TAG_VARIABLE], text_key(v@), seq![TAG_VARIABLE], text_key(w@));
            assert(seq![TAG_VARIABLE] =~= seq![TAG_VARIABLE]);
            lemma_text_key_prefix_free(v@, w@);
        },
    }
}

/// For `-`, `/` and `^` the order of the operands matters: where `a` and
/// `b` differ, `a op b` differs from `b op a`.
pub proof fn lemma_noncommutative_keeps_order(a: Expression, b: Expression, op: InfixOperator)
    requires
        !op.is_commutative(),
        !equivalent(a, b),
    ensures
        !equivalent(
            Expression::Infix { left: Box::new(a), operator: op, right: Box::new(b) },
            Expression::Infix { left: Box::new(b), operator: op, right: Box::new(a) },
        ),
{
    let ab = Expression::Infix { left: Box::new(a), operator: op, right: Box::new(b) };
    let ba = Expression::Infix { left: Box::new(b), operator: op, right: Box::new(a) };
    let h = seq![TAG_INFIX, infix_code(op)];
    if key_of(ab) == key_of(ba) {
        assert(key_of(ab) == h + (key_of(a) + key_of(b)));
        assert(key_of(ba) == h + (key_of(b) + key_of(a)));
        lemma_agree_split(h, key_of(a) + key_of(b), h, key_of(b) + key_of(a));
        lemma_agree_split(key_of(a), key_of(b), key_of(b), key_of(a));
        lemma_key_prefix_free(a, b);
    }
}

/// Equal expressions have equal hashes.
pub proof fn lemma_eq_implies_hash_eq(a: Expression, b: Expression)
    requires
        a == b || equivalent(a, b),
    ensures
        expression_hash(a) == expression_hash(b),
{
}

} // verus!
