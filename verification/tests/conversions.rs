use parser_util::lexer::next_token;
use parser_util::lexer::Scanned;
use parser_util::lexer::Symbol;
use parser_util::lexer::Token;
use parser_util::number::HUNDRED;
use parser_util::number::ONE;
use parser_util::Conversions;
use parser_util::Converter;
use parser_util::Number;
use parser_util::Unit;
use parser_util::Value;
use std::collections::hash_map::DefaultHasher;
use std::collections::HashMap;
use std::hash::Hash;
use std::hash::Hasher;
use std::sync::Arc;

fn num(number: f64) -> Number {
    Number::Bits(number.to_bits())
}

fn approx(number: &Number) -> f64 {
    match number {
        Number::Bits(bits) => f64::from_bits(*bits),
        Number::Decimal(text) => std::str::from_utf8(text).unwrap().parse().unwrap(),
        Number::Neg(x) => -approx(x),
        Number::Add(x, y) => approx(x) + approx(y),
        Number::Sub(x, y) => approx(x) - approx(y),
        Number::Mul(x, y) => approx(x) * approx(y),
        Number::Div(x, y) => approx(x) / approx(y),
        Number::Rem(x, y) => approx(x) % approx(y),
        Number::Pow(x, y) => approx(x).powf(approx(y)),
    }
}

fn name(value: &Value) -> Option<&str> {
    value.unit.as_ref().map(|unit| unit.0.as_str())
}

fn declared() -> Conversions {
    let mut conversions = Conversions::new();
    conversions.insert(Unit::new("day"), Unit::new("hour"), num(24.));
    conversions.insert(Unit::new("hour"), Unit::new("minute"), num(60.));
    conversions.insert(Unit::new("minute"), Unit::new("second"), num(60.));
    conversions.insert(Unit::new("second"), Unit::new("millisecond"), num(60.));
    conversions.insert(Unit::new("km"), Unit::new("m"), num(1000.));
    conversions.insert(Unit::new("m"), Unit::new("cm"), num(100.));
    conversions.insert(Unit::new("cm"), Unit::new("mm"), num(10.));
    conversions
}

fn table() -> Converter {
    Converter::new(declared())
}

fn digest(unit: &Unit) -> u64 {
    let mut hasher = DefaultHasher::new();
    unit.hash(&mut hasher);
    hasher.finish()
}

fn ratio(converter: &Converter, from: &'static str, to: &'static str) -> Option<f64> {
    converter.conversions().get(&Unit::new(from), &Unit::new(to)).map(approx)
}

#[test]
fn units_are_equal_without_regard_to_case() {
    assert!(Unit::new("KM") == Unit::new("km"));
    assert!(Unit::new("Km") == Unit::new("kM"));
    assert!(Unit::new("km") != Unit::new("m"));
    assert!(Unit::new("km") != Unit::new(""));
    assert!(Unit::new("\u{c9}T\u{c9}") == Unit::new("\u{e9}t\u{e9}"));
}

#[test]
fn equal_units_hash_alike() {
    assert_eq!(digest(&Unit::new("KM")), digest(&Unit::new("km")));
    let mut counts: HashMap<Unit, u32> = HashMap::new();
    counts.insert(Unit::new("Hour"), 1);
    assert_eq!(counts.get(&Unit::new("hour")), Some(&1));
    assert_eq!(counts.get(&Unit::new("minute")), None);
}

#[test]
fn a_unit_keeps_its_name_as_written() {
    let unit = Unit::new("KiloMetre");
    assert_eq!(unit.0, "KiloMetre");
    assert_eq!(unit.key(), "kilometre");
    assert_eq!(unit.clone().0, "KiloMetre");
    assert_eq!(Unit::default().0, "");
}

#[test]
fn only_the_percent_sign_names_a_percentage() {
    assert!(Unit::new("%").is_percent());
    assert!(!Unit::new("%%").is_percent());
    assert!(!Unit::new("percent").is_percent());
    assert!(!Unit::new("").is_percent());
}

#[test]
fn the_constants_are_one_and_a_hundred() {
    assert_eq!(f64::from_bits(ONE), 1.0);
    assert_eq!(f64::from_bits(HUNDRED), 100.0);
    assert_eq!(approx(&num(4.).reciprocal()), 0.25);
    assert_eq!(approx(&num(250.).hundredth()), 2.5);
    assert_eq!(approx(&num(2.5).times(num(4.))), 10.0);
}

#[test]
fn a_number_is_cloned_whole() {
    let number = Number::Add(Arc::new(Number::Decimal(b"1.5".to_vec())), Arc::new(num(2.)));
    let copy = number.clone();
    assert_eq!(format!("{:?}", copy), format!("{:?}", number));
    assert_eq!(approx(&copy), 3.5);
}

#[test]
fn values_are_made_with_and_without_unit() {
    let with = Value::new(num(3.), Unit::new("km"));
    assert_eq!(approx(&with.number), 3.0);
    assert_eq!(name(&with), Some("km"));
    let simple = Value::simple(num(4.), String::from("cm"));
    assert_eq!(approx(&simple.number), 4.0);
    assert_eq!(name(&simple), Some("cm"));
    let without = Value::unitless(num(5.));
    assert_eq!(approx(&without.number), 5.0);
    assert_eq!(name(&without), None);
}

#[test]
fn power_raises_the_number_and_keeps_the_unit() {
    let value = Value::new(num(2.), Unit::new("m")).power(num(4.));
    assert_eq!(approx(&value.number), 16.0);
    assert_eq!(name(&value), Some("m"));
    let root = Value::unitless(num(9.)).power(num(0.5));
    assert_eq!(approx(&root.number), 3.0);
    assert_eq!(name(&root), None);
}

#[test]
fn operators_on_values_keep_the_left_unit() {
    let left = || Value::new(num(7.), Unit::new("km"));
    let right = || Value::new(num(2.), Unit::new("s"));
    let sum = left() + right();
    assert_eq!((approx(&sum.number), name(&sum)), (9.0, Some("km")));
    let difference = left() - right();
    assert_eq!((approx(&difference.number), name(&difference)), (5.0, Some("km")));
    let product = left() * right();
    assert_eq!((approx(&product.number), name(&product)), (14.0, Some("km")));
    let quotient = left() / right();
    assert_eq!((approx(&quotient.number), name(&quotient)), (3.5, Some("km")));
    let remainder = left() % right();
    assert_eq!((approx(&remainder.number), name(&remainder)), (1.0, Some("km")));
    let negated = -left();
    assert_eq!((approx(&negated.number), name(&negated)), (-7.0, Some("km")));
    let bare = Value::unitless(num(1.)) + right();
    assert_eq!((approx(&bare.number), name(&bare)), (3.0, None));
}

#[test]
fn the_suffix_is_the_unit_or_nothing() {
    assert_eq!(Value::new(num(1.), Unit::new("Km")).suffix(), "Km");
    assert_eq!(Value::unitless(num(1.)).suffix(), "");
    assert_eq!(Value::new(num(1.), Unit::new("km")).clone().suffix(), "km");
}

#[test]
fn a_table_holds_each_pair_once() {
    let mut conversions = Conversions::new();
    assert_eq!(conversions.len(), 0);
    assert!(conversions.insert(Unit::new("km"), Unit::new("m"), num(1000.)).is_none());
    assert!(conversions.insert(Unit::new("m"), Unit::new("cm"), num(100.)).is_none());
    assert_eq!(conversions.len(), 2);
    let previous = conversions.insert(Unit::new("KM"), Unit::new("M"), num(999.));
    assert_eq!(previous.as_ref().map(approx), Some(1000.0));
    assert_eq!(conversions.len(), 2);
    assert_eq!(conversions.entry(0).from.0, "km");
    assert_eq!(conversions.entry(0).to.0, "m");
    assert_eq!(approx(&conversions.entry(0).ratio), 999.0);
    assert_eq!(conversions.entry(1).from.0, "m");
}

#[test]
fn a_table_is_searched_by_ordered_pair() {
    let conversions = declared();
    assert_eq!(conversions.find(&Unit::new("day"), &Unit::new("hour")), Some(0));
    assert_eq!(conversions.find(&Unit::new("CM"), &Unit::new("MM")), Some(6));
    assert_eq!(conversions.find(&Unit::new("hour"), &Unit::new("day")), None);
    assert!(conversions.contains_key(&Unit::new("km"), &Unit::new("m")));
    assert!(!conversions.contains_key(&Unit::new("m"), &Unit::new("km")));
    assert_eq!(conversions.get(&Unit::new("Km"), &Unit::new("m")).map(approx), Some(1000.0));
    assert!(conversions.get(&Unit::new("km"), &Unit::new("mm")).is_none());
}

#[test]
fn the_converter_adds_inverses_and_two_step_ratios() {
    let mut conversions = Conversions::new();
    conversions.insert(Unit::new("a"), Unit::new("b"), num(2.));
    conversions.insert(Unit::new("b"), Unit::new("c"), num(8.));
    let converter = Converter::new(conversions);
    let table = converter.conversions();
    let pairs: Vec<(String, String, f64)> = (0..table.len())
        .map(|index| {
            let entry = table.entry(index);
            (entry.from.0.clone(), entry.to.0.clone(), approx(&entry.ratio))
        })
        .collect();
    let expected = vec![
        ("a".to_string(), "b".to_string(), 2.0),
        ("b".to_string(), "c".to_string(), 8.0),
        ("b".to_string(), "a".to_string(), 0.5),
        ("c".to_string(), "b".to_string(), 0.125),
        ("a".to_string(), "c".to_string(), 16.0),
        ("c".to_string(), "a".to_string(), 0.0625),
    ];
    assert_eq!(pairs, expected);
}

#[test]
fn a_declared_inverse_is_not_replaced() {
    let mut conversions = Conversions::new();
    conversions.insert(Unit::new("a"), Unit::new("b"), num(2.));
    conversions.insert(Unit::new("b"), Unit::new("a"), num(3.));
    let converter = Converter::new(conversions);
    assert_eq!(converter.conversions().len(), 2);
    assert_eq!(ratio(&converter, "a", "b"), Some(2.0));
    assert_eq!(ratio(&converter, "b", "a"), Some(3.0));
}

#[test]
fn a_pair_of_one_unit_gets_no_inverse_and_no_product() {
    let mut conversions = Conversions::new();
    conversions.insert(Unit::new("a"), Unit::new("A"), num(2.));
    let converter = Converter::new(conversions);
    assert_eq!(converter.conversions().len(), 1);
    assert_eq!(ratio(&converter, "a", "a"), Some(2.0));
}

#[test]
fn the_first_two_step_path_gives_the_ratio() {
    let mut conversions = Conversions::new();
    conversions.insert(Unit::new("a"), Unit::new("b"), num(2.));
    conversions.insert(Unit::new("b"), Unit::new("d"), num(3.));
    conversions.insert(Unit::new("a"), Unit::new("c"), num(5.));
    conversions.insert(Unit::new("c"), Unit::new("d"), num(7.));
    let converter = Converter::new(conversions);
    assert_eq!(ratio(&converter, "a", "d"), Some(6.0));
    assert_eq!(ratio(&converter, "b", "c"), Some(3.0 * (1.0 / 7.0)));
    assert_eq!(ratio(&converter, "d", "a"), Some((1.0 / 3.0) * (1.0 / 2.0)));
}

#[test]
fn the_expansion_stops_after_two_steps() {
    let converter = table();
    assert_eq!(converter.conversions().len(), 24);
    assert_eq!(ratio(&converter, "day", "hour"), Some(24.0));
    assert_eq!(ratio(&converter, "hour", "day"), Some(1.0 / 24.0));
    assert_eq!(ratio(&converter, "day", "minute"), Some(1440.0));
    assert_eq!(ratio(&converter, "km", "cm"), Some(100000.0));
    assert_eq!(ratio(&converter, "mm", "m"), Some((1.0 / 10.0) * (1.0 / 100.0)));
    assert_eq!(ratio(&converter, "day", "second"), None);
    assert_eq!(ratio(&converter, "km", "mm"), None);
    assert_eq!(ratio(&converter, "day", "mm"), None);
    assert_eq!(ratio(&converter, "second", "millisecond"), Some(60.0));
}

#[test]
fn every_pair_of_the_table_has_its_swapped_pair() {
    let converter = table();
    let conversions = converter.conversions();
    for index in 0..conversions.len() {
        let entry = conversions.entry(index);
        assert!(conversions.contains_key(&entry.to, &entry.from));
    }
}

#[test]
fn converting_there_and_back_returns_the_number() {
    let converter = table();
    let conversions = converter.conversions();
    for index in 0..conversions.len() {
        let entry = conversions.entry(index);
        let start = Value::new(num(12.5), entry.from.clone());
        let there = converter.convert(start, &entry.to);
        assert_eq!(name(&there), Some(entry.to.0.as_str()));
        assert_eq!(approx(&there.number), 12.5 * approx(&entry.ratio));
        let back = converter.convert(there, &entry.from);
        assert_eq!(name(&back), Some(entry.from.0.as_str()));
        assert!((approx(&back.number) - 12.5).abs() < 1e-9);
    }
}

#[test]
fn a_unitless_value_is_converted_to_itself() {
    let converter = table();
    let value = converter.convert(Value::unitless(num(3.5)), &Unit::new("km"));
    assert_eq!(approx(&value.number), 3.5);
    assert_eq!(name(&value), None);
    assert_eq!(format!("{:?}", value.number), format!("{:?}", num(3.5)));
}

#[test]
fn units_without_an_entry_are_left_alone() {
    let converter = table();
    let value = converter.convert(Value::new(num(2.), Unit::new("day")), &Unit::new("mm"));
    assert_eq!(approx(&value.number), 2.0);
    assert_eq!(name(&value), Some("day"));
    let value = converter.convert(Value::new(num(2.), Unit::new("parsec")), &Unit::new("km"));
    assert_eq!(approx(&value.number), 2.0);
    assert_eq!(name(&value), Some("parsec"));
}

#[test]
fn a_percentage_becomes_a_fraction_whatever_the_target() {
    let converter = table();
    let value = converter.convert(Value::new(num(20.), Unit::new("%")), &Unit::new("km"));
    assert_eq!(approx(&value.number), 0.2);
    assert_eq!(name(&value), Some("%"));
    let value = converter.convert(Value::new(num(20.), Unit::new("%")), &Unit::new("%"));
    assert_eq!(approx(&value.number), 0.2);
    assert_eq!(name(&value), Some("%"));
}

#[test]
fn the_target_unit_is_taken_as_written() {
    let converter = table();
    let value = converter.convert(Value::new(num(2.), Unit::new("KM")), &Unit::new("M"));
    assert_eq!(approx(&value.number), 2000.0);
    assert_eq!(name(&value), Some("M"));
    let value = converter.convert(Value::new(num(2.), Unit::new("KM")), &Unit::new("km"));
    assert_eq!(approx(&value.number), 2.0);
    assert_eq!(name(&value), Some("KM"));
}

#[test]
fn arithmetic_converts_the_right_operand() {
    let converter = table();
    let km = || Value::new(num(2.), Unit::new("km"));
    let m = || Value::new(num(500.), Unit::new("m"));
    let sum = converter.add(km(), m());
    assert_eq!((approx(&sum.number), name(&sum)), (2.5, Some("km")));
    let difference = converter.sub(km(), m());
    assert_eq!((approx(&difference.number), name(&difference)), (1.5, Some("km")));
    let product = converter.mul(km(), m());
    assert_eq!((approx(&product.number), name(&product)), (1.0, Some("km")));
    let quotient = converter.div(km(), m());
    assert_eq!((approx(&quotient.number), name(&quotient)), (4.0, Some("km")));
    let remainder = converter.rem(km(), m());
    assert_eq!((approx(&remainder.number), name(&remainder)), (0.0, Some("km")));
}

#[test]
fn arithmetic_takes_a_percentage_of_the_left_operand() {
    let converter = table();
    let left = || Value::new(num(50.), Unit::new("km"));
    let percent = || Value::new(num(10.), Unit::new("%"));
    let sum = converter.add(left(), percent());
    assert_eq!((approx(&sum.number), name(&sum)), (55.0, Some("km")));
    let difference = converter.sub(left(), percent());
    assert_eq!((approx(&difference.number), name(&difference)), (45.0, Some("km")));
    let product = converter.mul(left(), percent());
    assert_eq!((approx(&product.number), name(&product)), (250.0, Some("km")));
    let quotient = converter.div(left(), percent());
    assert_eq!((approx(&quotient.number), name(&quotient)), (10.0, Some("km")));
    let remainder = converter.rem(left(), percent());
    assert_eq!((approx(&remainder.number), name(&remainder)), (0.0, Some("km")));
}

#[test]
fn a_unitless_left_operand_converts_nothing() {
    let converter = table();
    let sum = converter.add(Value::unitless(num(1.)), Value::new(num(6000.), Unit::new("m")));
    assert_eq!((approx(&sum.number), name(&sum)), (6001.0, None));
    let sum = converter.add(Value::new(num(1.), Unit::new("km")), Value::unitless(num(3.)));
    assert_eq!((approx(&sum.number), name(&sum)), (4.0, Some("km")));
}

#[test]
fn tokens_carry_their_place() {
    let bytes = b"  12.5km plus(3%)";
    assert_eq!(
        next_token(bytes, 0),
        Scanned::Found(Token { kind: Symbol::Number, start: 2, split: 6, end: 8 })
    );
    assert_eq!(
        next_token(bytes, 8),
        Scanned::Found(Token { kind: Symbol::Plus, start: 9, split: 13, end: 13 })
    );
    assert_eq!(
        next_token(bytes, 13),
        Scanned::Found(Token { kind: Symbol::Open, start: 13, split: 14, end: 14 })
    );
    assert_eq!(
        next_token(bytes, 14),
        Scanned::Found(Token { kind: Symbol::Number, start: 14, split: 15, end: 16 })
    );
    assert_eq!(
        next_token(bytes, 16),
        Scanned::Found(Token { kind: Symbol::Close, start: 16, split: 17, end: 17 })
    );
    assert_eq!(next_token(bytes, 17), Scanned::End);
    assert_eq!(next_token(bytes, 18), Scanned::End);
}

#[test]
fn every_symbol_is_a_token() {
    let kinds: Vec<Scanned> = (0..7).map(|at| next_token(b"+-*/%()", at)).collect();
    let expected: Vec<Scanned> = [
        Symbol::Plus,
        Symbol::Minus,
        Symbol::Times,
        Symbol::Divide,
        Symbol::Modulo,
        Symbol::Open,
        Symbol::Close,
    ]
    .iter()
    .enumerate()
    .map(|(at, kind)| Scanned::Found(Token { kind: *kind, start: at, split: at + 1, end: at + 1 }))
    .collect();
    assert_eq!(kinds, expected);
}

#[test]
fn what_starts_no_token_is_invalid() {
    assert_eq!(next_token(b"1 $", 1), Scanned::Invalid(2));
    assert_eq!(next_token(b"plusx", 0), Scanned::Invalid(0));
    assert_eq!(next_token(b"Plus", 0), Scanned::Invalid(0));
    assert_eq!(next_token(b"\x001", 0), Scanned::Invalid(0));
    assert_eq!(next_token(b"\xc2\xa01", 0), Scanned::Invalid(0));
    assert_eq!(
        next_token(b"\x0b\x0c\t\r\n 1", 0),
        Scanned::Found(Token { kind: Symbol::Number, start: 6, split: 7, end: 7 })
    );
}
