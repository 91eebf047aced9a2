use parser_util::evaluate;
use parser_util::lexer::Symbol;
use parser_util::lexer::Token;
use parser_util::Conversions;
use parser_util::Converter;
use parser_util::ExpressionParser;
use parser_util::Number;
use parser_util::ParseError;
use parser_util::Unit;
use parser_util::Value;
use std::collections::HashMap;
use std::sync::Arc;

fn bits(number: f64) -> Number {
    Number::Bits(number.to_bits())
}

fn float(number: &Number) -> f64 {
    match number {
        Number::Bits(bits) => f64::from_bits(*bits),
        Number::Decimal(text) => std::str::from_utf8(text).unwrap().parse().unwrap(),
        Number::Neg(x) => -float(x),
        Number::Add(x, y) => float(x) + float(y),
        Number::Sub(x, y) => float(x) - float(y),
        Number::Mul(x, y) => float(x) * float(y),
        Number::Div(x, y) => float(x) / float(y),
        Number::Rem(x, y) => float(x) % float(y),
        Number::Pow(x, y) => float(x).powf(float(y)),
    }
}

fn show(value: &Value) -> String {
    format!("{}{}", float(&value.number), value.suffix())
}

fn setup() -> Converter {
    let mut conversions = Conversions::new();
    conversions.insert(Unit::new("day"), Unit::new("hour"), bits(24.));
    conversions.insert(Unit::new("hour"), Unit::new("minute"), bits(60.));
    conversions.insert(Unit::new("minute"), Unit::new("second"), bits(60.));
    conversions.insert(Unit::new("second"), Unit::new("millisecond"), bits(60.));
    conversions.insert(Unit::new("km"), Unit::new("m"), bits(1000.));
    conversions.insert(Unit::new("m"), Unit::new("cm"), bits(100.));
    conversions.insert(Unit::new("cm"), Unit::new("mm"), bits(10.));

    Converter::new(conversions)
}

fn run(input: &str) -> Value {
    evaluate(&setup(), input).unwrap()
}

fn unit_name(value: &Value) -> Option<String> {
    value.unit.as_ref().map(|unit| unit.0.clone())
}

#[test]
fn it_works() {
    let converter = setup();
    let parser = ExpressionParser::new();
    let result: Result<Value, ParseError> = parser.parse(&converter, "45 - 20%");

    match result {
        Ok(value) => {
            println!("45 - 20% is {}", show(&value));
            assert_eq!(36., float(&value.number));
        }
        Err(error) => {
            println!("Error: {:?}", error);
        }
    }
}

#[test]
fn power_works() {}

#[test]
fn units_work() {
    let converter = setup();
    let parser = ExpressionParser::new();
    let value: Result<Value, _> = parser.parse(&converter, "1m + 1000mm");

    let total = value.unwrap();
    println!("1m + 1000mm = {}", show(&total));
    assert_eq!(2., float(&total.number));
}

#[test]
fn conversion_works() {
    let converter = setup();
    let two_hours = Value::new(bits(1200.), Unit::new("second"));
    let minutes = converter.convert(two_hours.clone(), &Unit::new("minute"));
    println!("{} to minutes: {}", show(&two_hours), show(&minutes));
    assert_eq!(float(&minutes.number), 20.);
    assert_eq!(unit_name(&minutes), Some("minute".to_string()));

    let cents = Value::new(bits(200.), Unit::new("cm"));
    let meters = converter.convert(cents.clone(), &Unit::new("m"));
    println!("{} = {}", show(&cents), show(&meters));
    assert_eq!(float(&meters.number), 2.);
    assert_eq!(unit_name(&meters), Some("m".to_string()));

    let mm = converter.convert(meters.clone(), &Unit::new("mm"));
    println!("{} = {}", show(&meters), show(&mm));
    assert_eq!(float(&mm.number), 2000.);
    assert_eq!(unit_name(&mm), Some("mm".to_string()));
}

#[test]
fn percent_of_the_left_operand_is_subtracted() {
    let value = run("45 - 20%");
    assert_eq!(float(&value.number), 36.0);
    assert_eq!(unit_name(&value), None);
}

#[test]
fn millimetres_are_added_to_metres() {
    let value = run("1m + 1000mm");
    assert_eq!(float(&value.number), 2.0);
    assert_eq!(unit_name(&value), Some("m".to_string()));
}

#[test]
fn minutes_are_added_to_hours() {
    let value = run("1hour + 60minute");
    assert_eq!(float(&value.number), 2.0);
    assert_eq!(unit_name(&value), Some("hour".to_string()));
}

#[test]
fn metres_are_added_to_kilometres() {
    let value = run("1km + 6000m");
    assert_eq!(float(&value.number), 7.0);
    assert_eq!(unit_name(&value), Some("km".to_string()));
}

#[test]
fn units_in_the_input_ignore_case() {
    let value = run("1KM + 1000m");
    assert_eq!(float(&value.number), 2.0);
    assert_eq!(unit_name(&value), Some("KM".to_string()));
}

#[test]
fn the_result_is_the_arithmetic_that_was_read() {
    let value = run("45 - 20%");
    let expected = Number::Sub(
        Arc::new(Number::Decimal(b"45".to_vec())),
        Arc::new(Number::Mul(
            Arc::new(Number::Decimal(b"45".to_vec())),
            Arc::new(Number::Div(
                Arc::new(Number::Decimal(b"20".to_vec())),
                Arc::new(bits(100.)),
            )),
        )),
    );
    assert_eq!(format!("{:?}", value.number), format!("{:?}", expected));
}

#[test]
fn words_stand_for_operators() {
    assert_eq!(float(&run("10 plus 40").number), 50.0);
    assert_eq!(float(&run("10 minus 4").number), 6.0);
    assert_eq!(float(&run("10 times 4").number), 40.0);
    assert_eq!(float(&run("10 mod 4").number), 2.0);
    assert_eq!(float(&run("10 % 4").number), 2.0);
    assert_eq!(float(&run("10 * 4").number), 40.0);
    assert_eq!(float(&run("10 / 4").number), 2.5);
}

#[test]
fn products_bind_tighter_than_sums() {
    assert_eq!(float(&run("2 + 3 * 4").number), 14.0);
    assert_eq!(float(&run("2 * 3 + 4").number), 10.0);
    assert_eq!(float(&run("20 - 12 / 4").number), 17.0);
    assert_eq!(float(&run("(2 + 3) * 4").number), 20.0);
}

#[test]
fn operators_group_from_the_left() {
    assert_eq!(float(&run("10 - 4 - 3").number), 3.0);
    assert_eq!(float(&run("100 / 10 / 5").number), 2.0);
    assert_eq!(float(&run("10 - (4 - 3)").number), 9.0);
}

#[test]
fn a_minus_sign_negates_and_keeps_the_unit() {
    let value = run("-5km");
    assert_eq!(float(&value.number), -5.0);
    assert_eq!(unit_name(&value), Some("km".to_string()));
    assert_eq!(float(&run("3 - -2").number), 5.0);
    assert_eq!(float(&run("-(2 + 3)").number), -5.0);
    assert_eq!(float(&run("+7").number), 7.0);
}

#[test]
fn literals_may_have_a_fraction() {
    assert_eq!(float(&run("1.5 + 2.25").number), 3.75);
    assert_eq!(float(&run("0.5km + 500m").number), 1.0);
}

#[test]
fn white_space_is_insignificant() {
    assert_eq!(float(&run("  1km+6000m\t").number), 7.0);
    assert_eq!(float(&run("1km\n+\r\n6000m").number), 7.0);
}

#[test]
fn a_percentage_is_a_fraction_of_the_left_for_every_operator() {
    assert_eq!(float(&run("10 * 20%").number), 20.0);
    assert_eq!(float(&run("10 + 20%").number), 12.0);
    assert_eq!(float(&run("10 / 20%").number), 5.0);
    assert_eq!(float(&run("10 mod 30%").number), 1.0);
}

#[test]
fn two_percentages_are_not_normalized() {
    let value = run("10% + 20%");
    assert_eq!(float(&value.number), 210.0);
    assert_eq!(unit_name(&value), Some("%".to_string()));
}

#[test]
fn units_without_a_path_are_added_as_they_are() {
    let value = run("1day + 5mm");
    assert_eq!(float(&value.number), 6.0);
    assert_eq!(unit_name(&value), Some("day".to_string()));
}

#[test]
fn the_left_unit_is_kept() {
    let value = run("2 * 3km");
    assert_eq!(float(&value.number), 6.0);
    assert_eq!(unit_name(&value), None);
    let value = run("3km * 2");
    assert_eq!(unit_name(&value), Some("km".to_string()));
}

#[test]
fn an_operator_without_a_right_operand_is_an_error() {
    let outcome = evaluate(&setup(), "10 +");
    assert_eq!(outcome.err(), Some(ParseError::UnrecognizedEof { location: 4 }));
}

#[test]
fn an_unknown_character_is_an_error() {
    let outcome = evaluate(&setup(), "$$");
    assert_eq!(outcome.err(), Some(ParseError::InvalidToken { location: 0 }));
    let outcome = evaluate(&setup(), "10 + $");
    assert_eq!(outcome.err(), Some(ParseError::InvalidToken { location: 5 }));
}

#[test]
fn an_unexpected_token_is_an_error() {
    let outcome = evaluate(&setup(), "1 2");
    assert_eq!(
        outcome.err(),
        Some(ParseError::UnrecognizedToken {
            token: Token { kind: Symbol::Number, start: 2, split: 3, end: 3 }
        })
    );
    let outcome = evaluate(&setup(), "(1 + 2");
    assert_eq!(outcome.err(), Some(ParseError::UnrecognizedEof { location: 6 }));
    let outcome = evaluate(&setup(), "1 + 2)");
    assert_eq!(
        outcome.err(),
        Some(ParseError::UnrecognizedToken {
            token: Token { kind: Symbol::Close, start: 5, split: 6, end: 6 }
        })
    );
    let outcome = evaluate(&setup(), "* 2");
    assert_eq!(
        outcome.err(),
        Some(ParseError::UnrecognizedToken {
            token: Token { kind: Symbol::Times, start: 0, split: 1, end: 1 }
        })
    );
}

#[test]
fn an_empty_input_is_an_error() {
    assert_eq!(evaluate(&setup(), "").err(), Some(ParseError::UnrecognizedEof { location: 0 }));
    assert_eq!(evaluate(&setup(), "   ").err(), Some(ParseError::UnrecognizedEof { location: 0 }));
}

#[test]
fn the_first_fault_in_the_input_is_reported() {
    let outcome = evaluate(&setup(), "1 2 $");
    assert_eq!(
        outcome.err(),
        Some(ParseError::UnrecognizedToken {
            token: Token { kind: Symbol::Number, start: 2, split: 3, end: 3 }
        })
    );
}

#[test]
fn an_unknown_word_is_an_error() {
    assert_eq!(evaluate(&setup(), "1 foo 2").err(), Some(ParseError::InvalidToken { location: 2 }));
    assert_eq!(evaluate(&setup(), "caf\u{e9}").err(), Some(ParseError::InvalidToken { location: 0 }));
    assert_eq!(evaluate(&setup(), "1 + \u{e9}").err(), Some(ParseError::InvalidToken { location: 4 }));
}

#[test]
fn a_point_needs_digits_on_both_sides() {
    assert_eq!(evaluate(&setup(), "1.").err(), Some(ParseError::InvalidToken { location: 1 }));
    assert_eq!(evaluate(&setup(), ".5").err(), Some(ParseError::InvalidToken { location: 0 }));
}

#[test]
fn a_percent_sign_apart_from_the_number_is_the_remainder() {
    assert_eq!(float(&run("10 %4").number), 2.0);
    assert!(evaluate(&setup(), "10%4").is_err());
}

fn decimal(text: &str) -> Arc<Number> {
    Arc::new(Number::Decimal(text.as_bytes().to_vec()))
}

fn read(input: &str) -> String {
    format!("{:?}", run(input).number)
}

#[test]
fn what_is_written_is_read_back() {
    let one_two = Number::Sub(decimal("1"), decimal("2"));
    let expected = Number::Sub(Arc::new(one_two), decimal("3"));
    assert_eq!(read("1 -2 -3"), format!("{:?}", expected));

    let two_three = Number::Sub(decimal("2"), decimal("3"));
    let expected = Number::Sub(decimal("1"), Arc::new(two_three));
    assert_eq!(read("1 -(2 -3)"), format!("{:?}", expected));

    let sum = Number::Add(decimal("1"), decimal("2"));
    let expected = Number::Mul(Arc::new(sum), decimal("3"));
    assert_eq!(read("(1 +2) *3"), format!("{:?}", expected));

    let product = Number::Mul(decimal("2"), decimal("3"));
    let expected = Number::Add(decimal("1"), Arc::new(product));
    assert_eq!(read("1 +2 *3"), format!("{:?}", expected));

    let sum = Number::Add(decimal("1.5"), decimal("2"));
    let negated = Number::Neg(Arc::new(sum));
    let expected = Number::Rem(Arc::new(negated), decimal("4"));
    assert_eq!(read("-(1.5 +2) %4"), format!("{:?}", expected));

    let expected = Number::Neg(Arc::new(Number::Neg(decimal("1"))));
    assert_eq!(read("--1"), format!("{:?}", expected));

    let quotient = Number::Div(decimal("8"), decimal("4"));
    let expected = Number::Div(Arc::new(quotient), decimal("2"));
    assert_eq!(read("8 /4 /2"), format!("{:?}", expected));
}

#[test]
fn a_literal_keeps_its_text_and_its_unit() {
    let value = run("007.50Km");
    assert_eq!(format!("{:?}", value.number), format!("{:?}", decimal("007.50")));
    assert_eq!(unit_name(&value), Some("Km".to_string()));
    assert_eq!(float(&value.number), 7.5);
    let value = run("12%");
    assert_eq!(format!("{:?}", value.number), format!("{:?}", decimal("12")));
    assert_eq!(unit_name(&value), Some("%".to_string()));
    let value = run("3");
    assert_eq!(unit_name(&value), None);
}

fn shared(number: &Arc<Number>, seen: &mut HashMap<usize, f64>) -> f64 {
    let place = Arc::as_ptr(number) as usize;
    if let Some(known) = seen.get(&place) {
        return *known;
    }
    let result = match &**number {
        Number::Neg(x) => -shared(x, seen),
        Number::Add(x, y) => shared(x, seen) + shared(y, seen),
        Number::Sub(x, y) => shared(x, seen) - shared(y, seen),
        Number::Mul(x, y) => shared(x, seen) * shared(y, seen),
        Number::Div(x, y) => shared(x, seen) / shared(y, seen),
        Number::Rem(x, y) => shared(x, seen) % shared(y, seen),
        Number::Pow(x, y) => shared(x, seen).powf(shared(y, seen)),
        leaf => float(leaf),
    };
    seen.insert(place, result);
    result
}

#[test]
fn a_long_row_of_percentages_stays_small() {
    let mut input = String::from("100");
    let mut expected = 100.0;
    for _ in 0..200 {
        input.push_str(" + 1%");
        expected = expected + expected * (1.0 / 100.0);
    }
    let value = evaluate(&setup(), &input).unwrap();
    let mut seen = HashMap::new();
    assert_eq!(shared(&Arc::new(value.number), &mut seen), expected);
    assert!(seen.len() < 2000);
}

#[test]
fn parentheses_may_nest_deeply() {
    let depth = 100_000;
    let mut input = "(".repeat(depth);
    input.push_str("2 + 3");
    input.push_str(&")".repeat(depth));
    input.push_str(" * 4");
    let value = run(&input);
    assert_eq!(float(&value.number), 20.0);
    let mut open = "(".repeat(depth);
    open.push('1');
    assert_eq!(
        evaluate(&setup(), &open).err(),
        Some(ParseError::UnrecognizedEof { location: depth + 1 })
    );
}

#[test]
fn signs_may_pile_up() {
    let mut input = "-".repeat(1001);
    input.push_str("+-+2km");
    let value = run(&input);
    assert_eq!(float(&value.number), 2.0);
    assert_eq!(unit_name(&value), Some("km".to_string()));
}

#[test]
fn a_sum_may_be_long() {
    let mut input = String::from("1");
    for _ in 0..5000 {
        input.push_str(" + 1 * 2");
    }
    assert_eq!(float(&run(&input).number), 10001.0);
}
