//! Writing expressions out, and the proof that the grammar reads them back.

use crate::grammar::additive;
use crate::grammar::left_over;
use crate::grammar::literal;
use crate::grammar::longer;
use crate::grammar::multiplicative;
use crate::grammar::parsed;
use crate::grammar::primary;
use crate::grammar::product;
use crate::grammar::product_rest;
use crate::grammar::sum;
use crate::grammar::sum_rest;
use crate::grammar::Expr;
use crate::grammar::Failure;
use crate::grammar::Operator;
use crate::grammar::Phrase;
use crate::grammar::Tier;
use crate::lexer::as_bytes;
use crate::lexer::as_chars;
use crate::lexer::in_class;
use crate::lexer::is_char;
use crate::lexer::run_end;
use crate::lexer::run_end_is_maximal;
use crate::lexer::scan;
use crate::lexer::scan_advances;
use crate::lexer::sign;
use crate::lexer::Class;
use crate::lexer::Lexeme;
use crate::lexer::Scan;
use crate::lexer::Symbol;
use crate::number::Term;
use crate::value::Quantity;
use vstd::prelude::*;

verus! {

/// The tier at which an operator binds.
pub open spec fn tier_of(operator: Operator) -> Tier {
    match operator {
        Operator::Add | Operator::Sub => Tier::Sum,
        _ => Tier::Product,
    }
}

/// The tier of the right operand of an operator that binds at `tier`.
pub open spec fn operand_tier(tier: Tier) -> Tier {
    match tier {
        Tier::Sum => Tier::Product,
        _ => Tier::Primary,
    }
}

/// Whether an operation that binds at `own` can stand at `tier` without
/// parentheses.
pub open spec fn admits(tier: Tier, own: Tier) -> bool {
    tier is Sum || (tier is Product && own is Product)
}

/// The character that spells an operator.
pub open spec fn operator_sign(operator: Operator) -> char {
    match operator {
        Operator::Add => '+',
        Operator::Sub => '-',
        Operator::Mul => '*',
        Operator::Div => '/',
        Operator::Rem => '%',
    }
}

/// An operator as it is written: a space, then its sign.
pub open spec fn operator_text(operator: Operator) -> Seq<u8> {
    seq![' ' as u8, operator_sign(operator) as u8]
}

/// Whether `digits` is a number as the grammar has it: digits, then
/// optionally a point and more digits.
pub open spec fn is_number_text(digits: Seq<u8>) -> bool {
    let whole = run_end(digits, 0, Class::Digit);
    &&& whole > 0
    &&& (whole == digits.len() || {
        &&& is_char(digits[whole as int], '.')
        &&& whole + 1 < digits.len()
        &&& run_end(digits, whole + 1, Class::Digit) == digits.len()
    })
}

/// Whether `name` is a unit as the grammar has it: a percent sign, or
/// letters.
pub open spec fn is_unit_text(name: Seq<u8>) -> bool {
    ||| name.len() == 1 && is_char(name[0], '%')
    ||| name.len() > 0 && run_end(name, 0, Class::Letter) == name.len()
}

/// The bytes that spell the unit of a literal: none where it has no unit.
pub open spec fn unit_text(unit: Option<Seq<char>>) -> Seq<u8> {
    match unit {
        Some(name) => as_bytes(name),
        None => Seq::<u8>::empty(),
    }
}

/// Whether `quantity` can be written as a number literal.
pub open spec fn is_literal(quantity: Quantity) -> bool {
    &&& quantity.number matches Term::Decimal(digits) && is_number_text(digits)
    &&& quantity.unit matches Some(name) ==> is_unit_text(as_bytes(name)) && as_chars(as_bytes(name))
        == name
}

/// The bytes that spell a literal: the number, then the unit.
pub open spec fn literal_text(quantity: Quantity) -> Seq<u8> {
    quantity.number->Decimal_0 + unit_text(quantity.unit)
}

/// Whether every literal of `expr` can be written.
pub open spec fn well_formed(expr: Expr) -> bool
    decreases expr,
{
    match expr {
        Expr::Literal(quantity) => is_literal(quantity),
        Expr::Negate(inner) => well_formed(*inner),
        Expr::Binary(_, left, right) => well_formed(*left) && well_formed(*right),
    }
}

/// `expr` written out for a place of the grammar that takes a phrase of
/// `tier`: operators with a space before them, and parentheses only where
/// the tier asks for them.
pub open spec fn written(expr: Expr, tier: Tier) -> Seq<u8>
    decreases expr,
{
    match expr {
        Expr::Literal(quantity) => literal_text(quantity),
        Expr::Negate(inner) => seq!['-' as u8] + written(*inner, Tier::Primary),
        Expr::Binary(operator, left, right) => {
            let own = tier_of(operator);
            let body = written(*left, own) + operator_text(operator) + written(
                *right,
                operand_tier(own),
            );
            if admits(tier, own) {
                body
            } else {
                seq!['(' as u8] + body + seq![')' as u8]
            }
        },
    }
}

/// Whether a token that ends at `at` ends there whatever follows: the text
/// ends, or a space or a closing parenthesis follows.
pub open spec fn closes(text: Seq<u8>, at: nat) -> bool {
    at >= text.len() || is_char(byte(text, at), ' ') || is_char(byte(text, at), ')')
}

/// Whether an operator of the higher tier stands next at `at`.
pub open spec fn continues_product(text: Seq<u8>, at: nat) -> bool {
    scan(text, at) matches Scan::Found(token) && multiplicative(token.kind) is Some
}

/// Whether the grammar, reading a phrase of `tier` at `from`, reads `expr`
/// from the next `length` bytes and goes on from there.
pub open spec fn reads(text: Seq<u8>, from: nat, expr: Expr, tier: Tier, length: nat) -> bool {
    match tier {
        Tier::Primary => primary(text, from) == Ok::<_, Failure>((expr, length)),
        Tier::Product => product(text, from) == longer(
            product_rest(text, from + length, expr),
            length,
        ),
        Tier::Sum => sum(text, from) == longer(sum_rest(text, from + length, expr), length),
    }
}

/// A run goes exactly as far as the bytes of its class go.
pub proof fn run_reaches(text: Seq<u8>, from: nat, to: nat, class: Class)
    requires
        from <= to <= text.len(),
        forall|i: int| from <= i < to ==> in_class(class, #[trigger] text[i]),
        to == text.len() || !in_class(class, text[to as int]),
    ensures
        run_end(text, from, class) == to,
    decreases to - from,
{
    if from < to {
        run_reaches(text, from + 1, to, class);
    }
}

/// The byte of `text` at `index`.
pub open spec fn byte(text: Seq<u8>, index: nat) -> u8 {
    text[index as int]
}

/// The `length` bytes of `text` from `from` on.
pub open spec fn slice(text: Seq<u8>, from: nat, length: nat) -> Seq<u8> {
    text.subrange(from as int, (from + length) as int)
}

/// A piece of a part of the text is a piece of the text.
pub proof fn piece_of_part(text: Seq<u8>, from: nat, part: Seq<u8>, skip: nat, piece: Seq<u8>)
    requires
        from + part.len() <= text.len(),
        slice(text, from, part.len()) == part,
        skip + piece.len() <= part.len(),
        slice(part, skip, piece.len()) == piece,
    ensures
        slice(text, from + skip, piece.len()) == piece,
{
    assert forall|i: int| 0 <= i < piece.len() implies slice(text, from + skip, piece.len())[i]
        == piece[i] by {
        assert(part[skip + i] == slice(text, from, part.len())[skip + i]);
        assert(piece[i] == slice(part, skip, piece.len())[i]);
    }
    assert(slice(text, from + skip, piece.len()) =~= piece);
}

/// A byte of a part of the text is a byte of the text.
pub proof fn byte_of_part(text: Seq<u8>, from: nat, part: Seq<u8>, index: nat)
    requires
        from + part.len() <= text.len(),
        slice(text, from, part.len()) == part,
        index < part.len(),
    ensures
        byte(text, from + index) == part[index as int],
{
    assert(slice(text, from, part.len())[index as int] == byte(text, from + index));
}

/// A sign right at `at` is the next token.
pub proof fn scan_finds_sign(text: Seq<u8>, at: nat)
    requires
        at < text.len(),
        sign(byte(text, at)) is Some,
    ensures
        scan(text, at) == Scan::Found(
            Lexeme { kind: sign(byte(text, at))->0, start: at, split: at + 1, end: at + 1 },
        ),
{
    assert(run_end(text, at, Class::Space) == at);
}

/// A sign behind one space is the next token.
pub proof fn scan_finds_spaced_sign(text: Seq<u8>, at: nat)
    requires
        at + 1 < text.len(),
        is_char(byte(text, at), ' '),
        sign(byte(text, at + 1)) is Some,
    ensures
        scan(text, at) == Scan::Found(
            Lexeme { kind: sign(byte(text, at + 1))->0, start: at + 1, split: at + 2, end: at + 2 },
        ),
{
    run_reaches(text, at, at + 1, Class::Space);
}

/// A literal that ends where a token must end is the next token, and stands
/// for the quantity it was written for.
pub proof fn scan_finds_literal(text: Seq<u8>, at: nat, quantity: Quantity)
    requires
        is_literal(quantity),
        at + literal_text(quantity).len() <= text.len(),
        slice(text, at, literal_text(quantity).len()) == literal_text(quantity),
        closes(text, at + literal_text(quantity).len()),
    ensures
        scan(text, at) == Scan::Found(
            Lexeme {
                kind: Symbol::Number,
                start: at,
                split: at + quantity.number->Decimal_0.len(),
                end: at + literal_text(quantity).len(),
            },
        ),
        literal(
            text,
            Lexeme {
                kind: Symbol::Number,
                start: at,
                split: at + quantity.number->Decimal_0.len(),
                end: at + literal_text(quantity).len(),
            },
        ) == quantity,
{
    let digits = quantity.number->Decimal_0;
    let unit = unit_text(quantity.unit);
    let whole_text = literal_text(quantity);
    let whole = run_end(digits, 0, Class::Digit);
    let split = at + digits.len();
    let end = at + whole_text.len();
    assert forall|i: nat| i < whole_text.len() implies byte(text, at + i) == whole_text[i as int] by {
        byte_of_part(text, at, whole_text, i);
    }
    assert forall|i: nat| i < digits.len() implies byte(text, at + i) == digits[i as int] by {
        assert(whole_text[i as int] == digits[i as int]);
    }
    assert forall|i: nat| i < unit.len() implies byte(text, split + i) == unit[i as int] by {
        assert(byte(whole_text, digits.len() + i) == unit[i as int]);
        assert(byte(text, at + (digits.len() + i)) == whole_text[(digits.len() + i) as int]);
    }
    run_end_is_maximal(digits, 0, Class::Digit);
    run_end_is_maximal(unit, 0, Class::Letter);
    // What follows the number is no digit and no point.
    assert(split < text.len() ==> !in_class(Class::Digit, byte(text, split)) && !is_char(
        byte(text, split),
        '.',
    )) by {
        if split < text.len() {
            if unit.len() > 0 {
                assert(byte(text, split + 0) == unit[0]);
            }
        }
    }
    // What follows the unit is no letter.
    assert(end < text.len() ==> !in_class(Class::Letter, byte(text, end)));
    assert(byte(text, at + 0) == digits[0]);
    assert(run_end(text, at, Class::Space) == at);
    assert forall|i: int| at <= i < at + whole implies in_class(Class::Digit, #[trigger] text[i]) by {
        assert(byte(text, at + ((i - at) as nat)) == digits[i - at]);
    }
    if whole == digits.len() {
        run_reaches(text, at, split, Class::Digit);
    } else {
        assert(byte(text, at + whole) == digits[whole as int]);
        run_reaches(text, at, at + whole, Class::Digit);
        run_end_is_maximal(digits, whole + 1, Class::Digit);
        assert(byte(text, at + (whole + 1)) == byte(digits, whole + 1));
        assert forall|i: int| at + whole + 1 <= i < split implies in_class(
            Class::Digit,
            #[trigger] text[i],
        ) by {
            assert(byte(text, at + ((i - at) as nat)) == digits[i - at]);
        }
        run_reaches(text, at + whole + 1, split, Class::Digit);
    }
    assert(crate::lexer::number_end(text, at) == split);
    if unit.len() == 0 {
        assert(run_end(text, split, Class::Letter) == split);
    } else if unit.len() == 1 && is_char(unit[0], '%') {
        assert(byte(text, split + 0) == unit[0]);
    } else {
        assert(byte(text, split + 0) == unit[0]);
        assert forall|i: int| split <= i < end implies in_class(Class::Letter, #[trigger] text[i]) by {
            assert(byte(text, split + ((i - split) as nat)) == unit[i - split]);
        }
        run_reaches(text, split, end, Class::Letter);
    }
    assert(crate::lexer::unit_end(text, split) == end);
    assert(text.subrange(at as int, split as int) =~= digits);
    assert(text.subrange(split as int, end as int) =~= unit);
}

/// A sign of an operator is read as the token of that operator, at the
/// tier at which the operator binds.
pub proof fn operator_sign_is_read(operator: Operator)
    ensures
        sign(operator_sign(operator) as u8) is Some,
        tier_of(operator) is Sum ==> additive(sign(operator_sign(operator) as u8)->0) == Some(
            operator,
        ) && multiplicative(sign(operator_sign(operator) as u8)->0) is None,
        tier_of(operator) is Product ==> multiplicative(sign(operator_sign(operator) as u8)->0)
            == Some(operator),
{
}

/// What is read as a primary term is read as a product and as a sum, as far
/// as nothing of a product follows.
pub proof fn primary_is_read_at_every_tier(text: Seq<u8>, from: nat, expr: Expr, tier: Tier, length: nat)
    requires
        reads(text, from, expr, Tier::Primary, length),
        tier is Sum ==> !continues_product(text, from + length),
    ensures
        reads(text, from, expr, tier, length),
{
    assert(reads(text, from, expr, Tier::Product, length));
    if tier is Sum {
        product_is_read_as_sum(text, from, expr, length);
    }
}

/// What is read as a product is read as a sum, as far as nothing of a
/// product follows.
pub proof fn product_is_read_as_sum(text: Seq<u8>, from: nat, expr: Expr, length: nat)
    requires
        reads(text, from, expr, Tier::Product, length),
        !continues_product(text, from + length),
    ensures
        reads(text, from, expr, Tier::Sum, length),
{
    product_is_read_whole(text, from, expr, length);
}

/// Three pieces written one after the other stand in the text one after the
/// other.
pub proof fn three_parts(text: Seq<u8>, from: nat, first: Seq<u8>, middle: Seq<u8>, last: Seq<u8>)
    requires
        from + (first + middle + last).len() <= text.len(),
        slice(text, from, (first + middle + last).len()) == first + middle + last,
    ensures
        slice(text, from, first.len()) == first,
        slice(text, from + first.len(), middle.len()) == middle,
        slice(text, from + first.len() + middle.len(), last.len()) == last,
{
    let whole = first + middle + last;
    assert(slice(whole, 0, first.len()) =~= first);
    assert(slice(whole, first.len(), middle.len()) =~= middle);
    assert(slice(whole, first.len() + middle.len(), last.len()) =~= last);
    piece_of_part(text, from, whole, 0, first);
    piece_of_part(text, from, whole, first.len(), middle);
    piece_of_part(text, from, whole, first.len() + middle.len(), last);
}

/// A minus sign before a primary term negates it.
pub proof fn negation_is_read(text: Seq<u8>, from: nat, inner: Expr, length: nat)
    requires
        from < text.len(),
        is_char(byte(text, from), '-'),
        reads(text, from + 1, inner, Tier::Primary, length),
    ensures
        reads(text, from, Expr::Negate(Box::new(inner)), Tier::Primary, 1 + length),
{
    scan_finds_sign(text, from);
}

/// A sum in parentheses is a primary term.
pub proof fn parentheses_are_read(text: Seq<u8>, from: nat, inner: Expr, length: nat)
    requires
        from + 1 + length < text.len(),
        is_char(byte(text, from), '('),
        is_char(byte(text, from + 1 + length), ')'),
        reads(text, from + 1, inner, Tier::Sum, length),
    ensures
        reads(text, from, inner, Tier::Primary, length + 2),
{
    scan_finds_sign(text, from);
    scan_finds_sign(text, from + 1 + length);
    assert(sum_rest(text, from + 1 + length, inner) == Ok::<_, Failure>((inner, 0nat)));
    assert(sum(text, from + 1) == Ok::<_, Failure>((inner, length)));
}

/// An operator that is written at `at` is the next token there.
pub proof fn operator_is_next(text: Seq<u8>, at: nat, operator: Operator)
    requires
        at + 1 < text.len(),
        slice(text, at, 2) == operator_text(operator),
    ensures
        scan(text, at) == Scan::Found(
            Lexeme {
                kind: sign(operator_sign(operator) as u8)->0,
                start: at + 1,
                split: at + 2,
                end: at + 2,
            },
        ),
{
    operator_sign_is_read(operator);
    byte_of_part(text, at, operator_text(operator), 0);
    byte_of_part(text, at, operator_text(operator), 1);
    scan_finds_spaced_sign(text, at);
}

/// A product behind which nothing of a product follows is read whole.
pub proof fn product_is_read_whole(text: Seq<u8>, from: nat, expr: Expr, length: nat)
    requires
        reads(text, from, expr, Tier::Product, length),
        !continues_product(text, from + length),
    ensures
        product(text, from) == Ok::<_, Failure>((expr, length)),
{
    assert(product_rest(text, from + length, expr) == Ok::<_, Failure>((expr, 0nat)));
}

/// Behind a sum, an operator of the lower tier takes the product that
/// follows it as its right operand.
pub proof fn sum_rest_takes_product(
    text: Seq<u8>,
    at: nat,
    left: Expr,
    operator: Operator,
    right: Expr,
    length: nat,
)
    requires
        scan(text, at) == Scan::Found(
            Lexeme {
                kind: sign(operator_sign(operator) as u8)->0,
                start: at + 1,
                split: at + 2,
                end: at + 2,
            },
        ),
        tier_of(operator) is Sum,
        product(text, at + 2) == Ok::<_, Failure>((right, length)),
    ensures
        sum_rest(text, at, left) == longer(
            sum_rest(
                text,
                at + 2 + length,
                Expr::Binary(operator, Box::new(left), Box::new(right)),
            ),
            2 + length,
        ),
{
    operator_sign_is_read(operator);
}

/// An operator of the lower tier and the product behind it extend a sum on
/// its right.
#[verifier::rlimit(40)]
pub proof fn sum_goes_on(
    text: Seq<u8>,
    from: nat,
    left: Expr,
    gap: nat,
    operator: Operator,
    right: Expr,
    length: nat,
)
    requires
        from + gap + 1 < text.len(),
        tier_of(operator) is Sum,
        reads(text, from, left, Tier::Sum, gap),
        slice(text, from + gap, 2) == operator_text(operator),
        reads(text, from + gap + 2, right, Tier::Product, length),
        !continues_product(text, from + gap + 2 + length),
    ensures
        reads(
            text,
            from,
            Expr::Binary(operator, Box::new(left), Box::new(right)),
            Tier::Sum,
            gap + 2 + length,
        ),
{
    let mid = from + gap;
    operator_is_next(text, mid, operator);
    product_is_read_whole(text, mid + 2, right, length);
    sum_rest_takes_product(text, mid, left, operator, right, length);
}

/// An operator of the higher tier and the primary term behind it extend a
/// product on its right.
pub proof fn product_goes_on(
    text: Seq<u8>,
    from: nat,
    left: Expr,
    gap: nat,
    operator: Operator,
    right: Expr,
    length: nat,
)
    requires
        from + gap + 1 < text.len(),
        tier_of(operator) is Product,
        reads(text, from, left, Tier::Product, gap),
        slice(text, from + gap, 2) == operator_text(operator),
        reads(text, from + gap + 2, right, Tier::Primary, length),
    ensures
        reads(
            text,
            from,
            Expr::Binary(operator, Box::new(left), Box::new(right)),
            Tier::Product,
            gap + 2 + length,
        ),
{
    let mid = from + gap;
    let whole = Expr::Binary(operator, Box::new(left), Box::new(right));
    operator_is_next(text, mid, operator);
    operator_sign_is_read(operator);
    assert(product_rest(text, mid, left) == longer(
        product_rest(text, mid + 2 + length, whole),
        2 + length,
    ));
}

/// Where an operator is written, the text goes on with a space, and with
/// nothing of a product if the operator is of the lower tier.
pub proof fn operator_closes(text: Seq<u8>, at: nat, operator: Operator)
    requires
        at + 1 < text.len(),
        slice(text, at, 2) == operator_text(operator),
    ensures
        closes(text, at),
        tier_of(operator) is Sum ==> !continues_product(text, at),
{
    operator_sign_is_read(operator);
    operator_is_next(text, at, operator);
    byte_of_part(text, at, operator_text(operator), 0);
}

/// Whether `text` holds at `from` what is written for `expr` at `tier`, and
/// goes on behind it in a way that ends the phrase.
pub open spec fn holds_written(text: Seq<u8>, from: nat, expr: Expr, tier: Tier) -> bool {
    &&& well_formed(expr)
    &&& from + written(expr, tier).len() <= text.len()
    &&& slice(text, from, written(expr, tier).len()) == written(expr, tier)
    &&& closes(text, from + written(expr, tier).len())
    &&& tier is Sum ==> !continues_product(text, from + written(expr, tier).len())
}

/// Whether `expr` is written in parentheses at `tier`.
pub open spec fn in_parentheses(expr: Expr, tier: Tier) -> bool {
    expr matches Expr::Binary(operator, _, _) && !admits(tier, tier_of(operator))
}

/// The grammar reads an expression from what was written for it, wherever
/// in a text that stands, as long as the text ends there or goes on with a
/// space or a closing parenthesis.
pub proof fn written_is_read(text: Seq<u8>, from: nat, expr: Expr, tier: Tier)
    requires
        holds_written(text, from, expr, tier),
    ensures
        reads(text, from, expr, tier, written(expr, tier).len()),
    decreases expr,
        (if in_parentheses(expr, tier) {
            3nat
        } else {
            1nat
        }),
{
    match expr {
        Expr::Literal(quantity) => {
            scan_finds_literal(text, from, quantity);
            assert(reads(text, from, expr, Tier::Primary, written(expr, tier).len()));
            primary_is_read_at_every_tier(text, from, expr, tier, written(expr, tier).len());
        },
        Expr::Negate(inner) => {
            written_negation_is_read(text, from, *inner, tier);
        },
        Expr::Binary(operator, left, right) => {
            if admits(tier, tier_of(operator)) {
                written_operation_is_read(text, from, operator, *left, *right, tier);
            } else {
                written_parentheses_are_read(text, from, operator, *left, *right, tier);
            }
        },
    }
}

/// The case of a negation.
pub proof fn written_negation_is_read(text: Seq<u8>, from: nat, inner: Expr, tier: Tier)
    requires
        holds_written(text, from, Expr::Negate(Box::new(inner)), tier),
    ensures
        reads(
            text,
            from,
            Expr::Negate(Box::new(inner)),
            tier,
            written(Expr::Negate(Box::new(inner)), tier).len(),
        ),
    decreases Expr::Negate(Box::new(inner)), 0nat,
{
    let expr = Expr::Negate(Box::new(inner));
    let rest = written(inner, Tier::Primary);
    let minus = seq!['-' as u8];
    assert(written(expr, tier) =~= minus + rest + Seq::<u8>::empty());
    three_parts(text, from, minus, rest, Seq::<u8>::empty());
    byte_of_part(text, from, minus, 0);
    written_is_read(text, from + 1, inner, Tier::Primary);
    negation_is_read(text, from, inner, rest.len());
    primary_is_read_at_every_tier(text, from, expr, tier, written(expr, tier).len());
}

/// The case of an operation that stands without parentheses.
pub proof fn written_operation_is_read(
    text: Seq<u8>,
    from: nat,
    operator: Operator,
    left: Expr,
    right: Expr,
    tier: Tier,
)
    requires
        holds_written(text, from, Expr::Binary(operator, Box::new(left), Box::new(right)), tier),
        admits(tier, tier_of(operator)),
    ensures
        reads(
            text,
            from,
            Expr::Binary(operator, Box::new(left), Box::new(right)),
            tier,
            written(Expr::Binary(operator, Box::new(left), Box::new(right)), tier).len(),
        ),
    decreases Expr::Binary(operator, Box::new(left), Box::new(right)), 0nat,
{
    let expr = Expr::Binary(operator, Box::new(left), Box::new(right));
    let own = tier_of(operator);
    let first = written(left, own);
    let second = written(right, operand_tier(own));
    assert(written(expr, tier) == first + operator_text(operator) + second);
    three_parts(text, from, first, operator_text(operator), second);
    operator_closes(text, from + first.len(), operator);
    written_is_read(text, from, left, own);
    written_is_read(text, from + first.len() + 2, right, operand_tier(own));
    if own is Sum {
        sum_goes_on(text, from, left, first.len(), operator, right, second.len());
    } else {
        product_goes_on(text, from, left, first.len(), operator, right, second.len());
        if tier is Sum {
            product_is_read_as_sum(text, from, expr, written(expr, tier).len());
        }
    }
}

/// The case of an operation that stands in parentheses.
pub proof fn written_parentheses_are_read(
    text: Seq<u8>,
    from: nat,
    operator: Operator,
    left: Expr,
    right: Expr,
    tier: Tier,
)
    requires
        holds_written(text, from, Expr::Binary(operator, Box::new(left), Box::new(right)), tier),
        !admits(tier, tier_of(operator)),
    ensures
        reads(
            text,
            from,
            Expr::Binary(operator, Box::new(left), Box::new(right)),
            tier,
            written(Expr::Binary(operator, Box::new(left), Box::new(right)), tier).len(),
        ),
    decreases Expr::Binary(operator, Box::new(left), Box::new(right)), 2nat,
{
    let expr = Expr::Binary(operator, Box::new(left), Box::new(right));
    let body = written(expr, Tier::Sum);
    let open = seq!['(' as u8];
    let shut = seq![')' as u8];
    assert(written(expr, tier) == open + body + shut);
    three_parts(text, from, open, body, shut);
    byte_of_part(text, from, open, 0);
    byte_of_part(text, from + 1 + body.len(), shut, 0);
    scan_finds_sign(text, from + 1 + body.len());
    written_is_read(text, from + 1, expr, Tier::Sum);
    parentheses_are_read(text, from, expr, body.len());
    primary_is_read_at_every_tier(text, from, expr, tier, written(expr, tier).len());
}

/// The grammar reads every expression back from what is written for it:
/// operators group from the left, products bind tighter than sums, and
/// parentheses override both.
pub proof fn written_expression_is_parsed_back(expr: Expr)
    requires
        well_formed(expr),
    ensures
        parsed(written(expr, Tier::Sum)) == Ok::<_, Failure>(expr),
{
    let text = written(expr, Tier::Sum);
    assert(slice(text, 0, text.len()) =~= text);
    assert(scan(text, text.len()) == Scan::End);
    written_is_read(text, 0, expr, Tier::Sum);
    assert(sum_rest(text, text.len(), expr) == Ok::<_, Failure>((expr, 0nat)));
}

/// A run within a slice of the text goes as far as the run in the text, or
/// to the end of the slice.
pub proof fn run_within_slice(text: Seq<u8>, base: nat, limit: nat, from: nat, class: Class)
    requires
        base <= from <= limit <= text.len(),
    ensures
        run_end(text.subrange(base as int, limit as int), (from - base) as nat, class) + base == if run_end(
            text,
            from,
            class,
        ) <= limit {
            run_end(text, from, class)
        } else {
            limit
        },
    decreases limit - from,
{
    let part = text.subrange(base as int, limit as int);
    run_end_is_maximal(text, from, class);
    if from < limit && in_class(class, text[from as int]) {
        assert(part[from - base] == text[from as int]);
        run_within_slice(text, base, limit, from + 1, class);
    } else if from < limit {
        assert(part[from - base] == text[from as int]);
    }
}

/// A number token stands for a quantity that can be written as a literal.
pub proof fn number_token_is_literal(text: Seq<u8>, from: nat)
    requires
        from <= text.len(),
        scan(text, from) matches Scan::Found(token) && token.kind == Symbol::Number,
    ensures
        is_literal(literal(text, scan(text, from)->Found_0)),
{
    let token = scan(text, from)->Found_0;
    let start = token.start;
    let split = token.split;
    let end = token.end;
    scan_advances(text, from);
    run_end_is_maximal(text, from, Class::Space);
    run_end_is_maximal(text, start, Class::Digit);
    run_end_is_maximal(text, start, Class::Letter);
    let whole = run_end(text, start, Class::Digit);
    let digits = text.subrange(start as int, split as int);
    let name = text.subrange(split as int, end as int);
    run_within_slice(text, start, split, start, Class::Digit);
    if whole != split {
        run_end_is_maximal(text, whole + 1, Class::Digit);
        run_within_slice(text, start, split, whole + 1, Class::Digit);
        assert(digits[whole - start] == text[whole as int]);
    }
    assert(is_number_text(digits));
    if split != end {
        if is_char(text[split as int], '%') {
            assert(name[0] == text[split as int]);
        } else {
            run_end_is_maximal(text, split, Class::Letter);
            run_within_slice(text, split, end, split, Class::Letter);
        }
        assert(is_unit_text(name));
        assert(as_bytes(as_chars(name)) =~= name) by {
            assert forall|i: int| 0 <= i < name.len() implies as_bytes(as_chars(name))[i]
                == name[i] by {
                let b = name[i];
                assert((b as char) as u8 == b);
            }
        }
    }
}

/// Whether the expression of a phrase, if it has one, can be written.
pub open spec fn can_be_written(phrase: Phrase) -> bool {
    phrase matches Ok((expr, _)) ==> well_formed(expr)
}

/// Every primary term that the grammar reads can be written.
pub proof fn primary_can_be_written(text: Seq<u8>, from: nat)
    ensures
        can_be_written(primary(text, from)),
    decreases left_over(text, from), 0nat,
{
    if let Scan::Found(token) = scan(text, from) {
        if from <= text.len() {
            scan_advances(text, from);
            match token.kind {
                Symbol::Number => {
                    number_token_is_literal(text, from);
                },
                Symbol::Minus => {
                    primary_can_be_written(text, token.end);
                },
                Symbol::Plus => {
                    primary_can_be_written(text, token.end);
                },
                Symbol::Open => {
                    sum_can_be_written(text, token.end);
                },
                _ => {},
            }
        } else {
            assert(run_end(text, from, Class::Space) == from);
        }
    }
}

/// Every product that the grammar continues to the right can be written, if
/// what it has read so far can.
pub proof fn product_rest_can_be_written(text: Seq<u8>, from: nat, left: Expr)
    requires
        well_formed(left),
    ensures
        can_be_written(product_rest(text, from, left)),
    decreases left_over(text, from), 0nat,
{
    if let Scan::Found(token) = scan(text, from) {
        if from <= text.len() {
            scan_advances(text, from);
            if multiplicative(token.kind) is Some {
                primary_can_be_written(text, token.end);
                if let Ok((right, length)) = primary(text, token.end) {
                    product_rest_can_be_written(
                        text,
                        token.end + length,
                        Expr::Binary(multiplicative(token.kind)->0, Box::new(left), Box::new(right)),
                    );
                }
            }
        } else {
            assert(run_end(text, from, Class::Space) == from);
        }
    }
}

/// Every product that the grammar reads can be written.
pub proof fn product_can_be_written(text: Seq<u8>, from: nat)
    ensures
        can_be_written(product(text, from)),
    decreases left_over(text, from), 1nat,
{
    primary_can_be_written(text, from);
    if let Ok((left, length)) = primary(text, from) {
        product_rest_can_be_written(text, from + length, left);
    }
}

/// Every sum that the grammar continues to the right can be written, if
/// what it has read so far can.
pub proof fn sum_rest_can_be_written(text: Seq<u8>, from: nat, left: Expr)
    requires
        well_formed(left),
    ensures
        can_be_written(sum_rest(text, from, left)),
    decreases left_over(text, from), 0nat,
{
    if let Scan::Found(token) = scan(text, from) {
        if from <= text.len() {
            scan_advances(text, from);
            if additive(token.kind) is Some {
                product_can_be_written(text, token.end);
                if let Ok((right, length)) = product(text, token.end) {
                    sum_rest_can_be_written(
                        text,
                        token.end + length,
                        Expr::Binary(additive(token.kind)->0, Box::new(left), Box::new(right)),
                    );
                }
            }
        } else {
            assert(run_end(text, from, Class::Space) == from);
        }
    }
}

/// Every sum that the grammar reads can be written.
pub proof fn sum_can_be_written(text: Seq<u8>, from: nat)
    ensures
        can_be_written(sum(text, from)),
    decreases left_over(text, from), 2nat,
{
    product_can_be_written(text, from);
    if let Ok((left, length)) = product(text, from) {
        sum_rest_can_be_written(text, from + length, left);
    }
}

/// Every expression that the grammar reads from a text is read again from
/// what is written for it: each of its literals is a number with at most one
/// unit, and its shape is the one that the text spelled.
pub proof fn parsed_expression_is_parsed_again(text: Seq<u8>)
    ensures
        parsed(text) matches Ok(expr) ==> well_formed(expr) && parsed(written(expr, Tier::Sum))
            == Ok::<_, Failure>(expr),
{
    sum_can_be_written(text, 0);
    if let Ok(expr) = parsed(text) {
        written_expression_is_parsed_back(expr);
    }
}

} // verus!
