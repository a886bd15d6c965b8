use exprcalc::calculator::Calculator;
use exprcalc::eval::Progress;
use exprcalc::render::render_integer;
use exprcalc::token::{NumberBaseType, Token};
use exprcalc::value::Value;

fn integers() -> Vec<i64> {
    let mut out = vec![0, 1, -1, 7, 8, 9, 10, 15, 16, 26, 255, -256, i64::MAX, i64::MIN, i64::MIN + 1];
    let mut x: i64 = 0x1234_5678_9abc_def1;
    for _ in 0..500 {
        x ^= x << 13;
        x ^= ((x as u64) >> 7) as i64;
        x ^= x << 17;
        out.push(x);
        out.push(x >> 33);
    }
    out
}

#[test]
fn hex_rendering_is_read_back() {
    let text = render_integer(26, NumberBaseType::Hex);
    assert_eq!(text, "0x1A");
    let tokens = Token::tokenize(text).unwrap();
    assert_eq!(tokens.len(), 1);
    assert!(matches!(tokens[0], Token::Integer(26)));
}

#[test]
fn integers_are_written_as_the_formatter_writes_them() {
    for i in integers() {
        assert_eq!(render_integer(i, NumberBaseType::Decimal), format!("{}", i));
        assert_eq!(render_integer(i, NumberBaseType::Binary), format!("{:#b}", i));
        assert_eq!(render_integer(i, NumberBaseType::Octal), format!("{:#o}", i));
        assert_eq!(render_integer(i, NumberBaseType::Hex), format!("{:#X}", i));
    }
}

#[test]
fn rendered_integers_are_read_back() {
    for i in integers() {
        for base in [NumberBaseType::Binary, NumberBaseType::Octal, NumberBaseType::Hex] {
            let tokens = Token::tokenize(render_integer(i, base)).unwrap();
            assert_eq!(tokens.len(), 1);
            assert!(matches!(tokens[0], Token::Integer(v) if v == i));
        }
        if i > i64::MIN {
            let mut calculator = Calculator::new();
            let text = render_integer(i, NumberBaseType::Decimal);
            assert!(matches!(
                calculator.calculate(text),
                Ok(Progress::Finished(Ok(Value::Integer(v)))) if v == i
            ));
        }
    }
}

#[test]
fn negative_integers_show_all_their_bits() {
    assert_eq!(render_integer(-1, NumberBaseType::Hex), "0xFFFFFFFFFFFFFFFF");
    assert_eq!(render_integer(-1, NumberBaseType::Octal), "0o1777777777777777777777");
    assert_eq!(
        render_integer(i64::MIN, NumberBaseType::Binary),
        format!("0b1{}", "0".repeat(63))
    );
    assert_eq!(render_integer(-26, NumberBaseType::Decimal), "-26");
    assert_eq!(render_integer(0, NumberBaseType::Hex), "0x0");
    assert_eq!(render_integer(0, NumberBaseType::Decimal), "0");
}

#[test]
fn values_as_text() {
    assert_eq!(Value::Undefined.render(NumberBaseType::Hex), Some("undefined".to_string()));
    assert_eq!(Value::Undefined.render(NumberBaseType::Decimal), Some("undefined".to_string()));
    assert_eq!(Value::Integer(26).render(NumberBaseType::Decimal), Some("26".to_string()));
    assert_eq!(Value::Integer(26).render(NumberBaseType::Binary), Some("0b11010".to_string()));
    assert_eq!(Value::Integer(15).render(NumberBaseType::Octal), Some("0o17".to_string()));
    assert_eq!(Value::Float(1.5f64.to_bits()).render(NumberBaseType::Decimal), None);
}
