//! The tokens of the expression language.

use vstd::prelude::*;

verus! {

/// The classes of bytes that make up runs in the input.
#[derive(Clone, Copy, Debug, PartialEq, Eq, Structural)]
pub enum Class {
    Space,
    Digit,
    Letter,
}

/// The kinds of token.
#[derive(Clone, Copy, Debug, PartialEq, Eq, Structural)]
pub enum Symbol {
    /// A number literal, with the unit attached to it if there is one.
    Number,
    Plus,
    Minus,
    Times,
    Divide,
    Modulo,
    Open,
    Close,
}

/// A token of the input `text[start..end]`. For a number, `text[start..split]`
/// is the number and `text[split..end]` the unit; for every other kind
/// `split == end`.
pub struct Lexeme {
    pub kind: Symbol,
    pub start: nat,
    pub split: nat,
    pub end: nat,
}

/// What stands next in the input.
pub enum Scan {
    /// A token.
    Found(Lexeme),
    /// Nothing but white space is left.
    End,
    /// The byte at this offset starts no token.
    Invalid(nat),
}

/// A token as the scanner hands it out; see [`Lexeme`].
#[derive(Clone, Copy, Debug, PartialEq, Eq, Structural)]
pub struct Token {
    pub kind: Symbol,
    pub start: usize,
    pub split: usize,
    pub end: usize,
}

impl View for Token {
    type V = Lexeme;

    open spec fn view(&self) -> Lexeme {
        Lexeme {
            kind: self.kind,
            start: self.start as nat,
            split: self.split as nat,
            end: self.end as nat,
        }
    }
}

/// What stands next in the input, as the scanner hands it out; see
/// [`Scan`].
#[derive(Clone, Copy, Debug, PartialEq, Eq, Structural)]
pub enum Scanned {
    Found(Token),
    End,
    Invalid(usize),
}

impl View for Scanned {
    type V = Scan;

    open spec fn view(&self) -> Scan {
        match self {
            Scanned::Found(token) => Scan::Found(token@),
            Scanned::End => Scan::End,
            Scanned::Invalid(at) => Scan::Invalid(*at as nat),
        }
    }
}

/// Whether `byte` is the character `sign`.
pub open spec fn is_char(byte: u8, sign: char) -> bool {
    byte == sign as u8
}

/// Whether `byte` is one of the characters from `first` to `last`.
pub open spec fn within(byte: u8, first: char, last: char) -> bool {
    (first as u8) <= byte <= (last as u8)
}

/// The bytes of a word of ASCII characters.
pub open spec fn as_bytes(word: Seq<char>) -> Seq<u8> {
    word.map_values(|letter: char| letter as u8)
}

/// The characters that bytes of ASCII stand for.
pub open spec fn as_chars(bytes: Seq<u8>) -> Seq<char> {
    bytes.map_values(|byte: u8| byte as char)
}

/// The class that a byte belongs to.
pub open spec fn in_class(class: Class, byte: u8) -> bool {
    match class {
        Class::Space => {
            ||| is_char(byte, ' ')
            ||| is_char(byte, '\t')
            ||| is_char(byte, '\n')
            ||| is_char(byte, '\x0b')
            ||| is_char(byte, '\x0c')
            ||| is_char(byte, '\r')
        },
        Class::Digit => within(byte, '0', '9'),
        Class::Letter => within(byte, 'a', 'z') || within(byte, 'A', 'Z'),
    }
}

/// End of the longest run of bytes of `class` that starts at `from`.
pub open spec fn run_end(text: Seq<u8>, from: nat, class: Class) -> nat
    decreases text.len() - from,
{
    if from < text.len() && in_class(class, text[from as int]) {
        run_end(text, from + 1, class)
    } else {
        from
    }
}

/// The operator that a word stands for.
pub open spec fn word(letters: Seq<u8>) -> Option<Symbol> {
    if letters == as_bytes("plus"@) {
        Some(Symbol::Plus)
    } else if letters == as_bytes("minus"@) {
        Some(Symbol::Minus)
    } else if letters == as_bytes("times"@) {
        Some(Symbol::Times)
    } else if letters == as_bytes("mod"@) {
        Some(Symbol::Modulo)
    } else {
        None
    }
}

/// The token that a single byte stands for.
pub open spec fn sign(byte: u8) -> Option<Symbol> {
    if is_char(byte, '+') {
        Some(Symbol::Plus)
    } else if is_char(byte, '-') {
        Some(Symbol::Minus)
    } else if is_char(byte, '*') {
        Some(Symbol::Times)
    } else if is_char(byte, '/') {
        Some(Symbol::Divide)
    } else if is_char(byte, '%') {
        Some(Symbol::Modulo)
    } else if is_char(byte, '(') {
        Some(Symbol::Open)
    } else if is_char(byte, ')') {
        Some(Symbol::Close)
    } else {
        None
    }
}

/// End of the number that starts with the digit at `start`: digits, then
/// optionally a point followed by at least one digit.
pub open spec fn number_end(text: Seq<u8>, start: nat) -> nat {
    let whole = run_end(text, start, Class::Digit);
    if whole + 1 < text.len() && is_char(text[whole as int], '.') && in_class(
        Class::Digit,
        text[(whole + 1) as int],
    ) {
        run_end(text, whole + 1, Class::Digit)
    } else {
        whole
    }
}

/// End of the unit attached to a number that ends at `split`: a percent
/// sign, or letters, or nothing.
pub open spec fn unit_end(text: Seq<u8>, split: nat) -> nat {
    if split < text.len() && is_char(text[split as int], '%') {
        split + 1
    } else {
        run_end(text, split, Class::Letter)
    }
}

/// What stands next in `text` at or after `from`, white space skipped.
pub open spec fn scan(text: Seq<u8>, from: nat) -> Scan {
    let start = run_end(text, from, Class::Space);
    if start >= text.len() {
        Scan::End
    } else if in_class(Class::Digit, text[start as int]) {
        let split = number_end(text, start);
        Scan::Found(Lexeme { kind: Symbol::Number, start, split, end: unit_end(text, split) })
    } else if in_class(Class::Letter, text[start as int]) {
        let end = run_end(text, start, Class::Letter);
        match word(text.subrange(start as int, end as int)) {
            Some(kind) => Scan::Found(Lexeme { kind, start, split: end, end }),
            None => Scan::Invalid(start),
        }
    } else {
        match sign(text[start as int]) {
            Some(kind) => Scan::Found(Lexeme { kind, start, split: start + 1, end: start + 1 }),
            None => Scan::Invalid(start),
        }
    }
}

/// A run ends within the text, at a byte outside the class, and holds bytes
/// of the class only.
pub proof fn run_end_is_maximal(text: Seq<u8>, from: nat, class: Class)
    requires
        from <= text.len(),
    ensures
        from <= run_end(text, from, class) <= text.len(),
        forall|i: int| from <= i < run_end(text, from, class) ==> in_class(class, #[trigger] text[i]),
        run_end(text, from, class) < text.len() ==> !in_class(
            class,
            text[run_end(text, from, class) as int],
        ),
    decreases text.len() - from,
{
    if from < text.len() && in_class(class, text[from as int]) {
        run_end_is_maximal(text, from + 1, class);
    }
}

/// A token lies within the text, at or after the place the scan began, and
/// is not empty.
pub proof fn scan_advances(text: Seq<u8>, from: nat)
    requires
        from <= text.len(),
    ensures
        match scan(text, from) {
            Scan::Found(token) => from <= token.start < token.split <= token.end <= text.len(),
            Scan::End => true,
            Scan::Invalid(at) => from <= at < text.len(),
        },
{
    run_end_is_maximal(text, from, Class::Space);
    let start = run_end(text, from, Class::Space);
    if start < text.len() {
        run_end_is_maximal(text, start, Class::Digit);
        run_end_is_maximal(text, start, Class::Letter);
        let whole = run_end(text, start, Class::Digit);
        if whole + 1 < text.len() {
            run_end_is_maximal(text, whole + 1, Class::Digit);
        }
        let split = number_end(text, start);
        if split <= text.len() {
            run_end_is_maximal(text, split, Class::Letter);
        }
    }
}

fn belongs(class: Class, byte: u8) -> (yes: bool)
    ensures
        yes == in_class(class, byte),
{
    match class {
        Class::Space => byte == ' ' as u8 || byte == '\t' as u8 || byte == '\n' as u8 || byte
            == '\x0b' as u8 || byte == '\x0c' as u8 || byte == '\r' as u8,
        Class::Digit => '0' as u8 <= byte && byte <= '9' as u8,
        Class::Letter => ('a' as u8 <= byte && byte <= 'z' as u8) || ('A' as u8 <= byte && byte
            <= 'Z' as u8),
    }
}

/// Finds the end of the run of `class` that starts at `from`.
fn run(bytes: &[u8], from: usize, class: Class) -> (end: usize)
    requires
        from <= bytes@.len(),
    ensures
        end == run_end(bytes@, from as nat, class),
        from <= end <= bytes@.len(),
{
    let mut end = from;
    while end < bytes.len() && belongs(class, bytes[end])
        invariant
            from <= end <= bytes@.len(),
            run_end(bytes@, from as nat, class) == run_end(bytes@, end as nat, class),
        decreases bytes@.len() - end,
    {
        end += 1;
    }
    end
}

/// Tells whether `bytes[start..end]` spells `word`.
fn spells(bytes: &[u8], start: usize, end: usize, word: &str) -> (yes: bool)
    requires
        start <= end <= bytes@.len(),
        word.is_ascii(),
    ensures
        yes == (bytes@.subrange(start as int, end as int) == as_bytes(word@)),
{
    let letters = word.as_bytes();
    proof {
        vstd::string::is_ascii_spec_bytes(word);
        assert(letters@ =~= as_bytes(word@));
    }
    if end - start != letters.len() {
        return false;
    }
    let mut index: usize = 0;
    while index < letters.len()
        invariant
            start <= end <= bytes@.len(),
            end - start == letters@.len(),
            letters@ == as_bytes(word@),
            index <= letters@.len(),
            forall|i: int| 0 <= i < index ==> bytes@[start + i] == letters@[i],
        decreases letters@.len() - index,
    {
        if bytes[start + index] != letters[index] {
            assert(bytes@.subrange(start as int, end as int)[index as int] != letters@[index as int]);
            return false;
        }
        index += 1;
    }
    assert(bytes@.subrange(start as int, end as int) =~= letters@);
    true
}

/// Reads the word `bytes[start..end]` as an operator.
fn keyword(bytes: &[u8], start: usize, end: usize) -> (kind: Option<Symbol>)
    requires
        start <= end <= bytes@.len(),
    ensures
        kind == word(bytes@.subrange(start as int, end as int)),
{
    proof {
        reveal_strlit("plus");
        reveal_strlit("minus");
        reveal_strlit("times");
        reveal_strlit("mod");
    }
    if spells(bytes, start, end, "plus") {
        Some(Symbol::Plus)
    } else if spells(bytes, start, end, "minus") {
        Some(Symbol::Minus)
    } else if spells(bytes, start, end, "times") {
        Some(Symbol::Times)
    } else if spells(bytes, start, end, "mod") {
        Some(Symbol::Modulo)
    } else {
        None
    }
}

/// Reads a single byte as a token.
fn symbol(byte: u8) -> (kind: Option<Symbol>)
    ensures
        kind == sign(byte),
{
    if byte == '+' as u8 {
        Some(Symbol::Plus)
    } else if byte == '-' as u8 {
        Some(Symbol::Minus)
    } else if byte == '*' as u8 {
        Some(Symbol::Times)
    } else if byte == '/' as u8 {
        Some(Symbol::Divide)
    } else if byte == '%' as u8 {
        Some(Symbol::Modulo)
    } else if byte == '(' as u8 {
        Some(Symbol::Open)
    } else if byte == ')' as u8 {
        Some(Symbol::Close)
    } else {
        None
    }
}

/// Says what stands next in `bytes` at or after `from`.
pub fn next_token(bytes: &[u8], from: usize) -> (next: Scanned)
    ensures
        next@ == scan(bytes@, from as nat),
{
    if from > bytes.len() {
        return Scanned::End;
    }
    proof {
        scan_advances(bytes@, from as nat);
    }
    let start = run(bytes, from, Class::Space);
    if start >= bytes.len() {
        return Scanned::End;
    }
    let first = bytes[start];
    if belongs(Class::Digit, first) {
        let whole = run(bytes, start, Class::Digit);
        let split = if bytes.len() - whole > 1 && bytes[whole] == '.' as u8 && belongs(
            Class::Digit,
            bytes[whole + 1],
        ) {
            run(bytes, whole + 1, Class::Digit)
        } else {
            whole
        };
        let end = if split < bytes.len() && bytes[split] == '%' as u8 {
            split + 1
        } else {
            run(bytes, split, Class::Letter)
        };
        Scanned::Found(Token { kind: Symbol::Number, start, split, end })
    } else if belongs(Class::Letter, first) {
        let end = run(bytes, start, Class::Letter);
        match keyword(bytes, start, end) {
            Some(kind) => Scanned::Found(Token { kind, start, split: end, end }),
            None => Scanned::Invalid(start),
        }
    } else {
        match symbol(first) {
            Some(kind) => Scanned::Found(Token { kind, start, split: start + 1, end: start + 1 }),
            None => Scanned::Invalid(start),
        }
    }
}

} // verus!
