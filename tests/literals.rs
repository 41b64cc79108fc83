use mvp_parser::ast::{BinaryOperator, Expression, Label, Number, NumberWidth, VariableName};
use mvp_parser::parser::{self, IResult};

fn lit(value: u32, width: NumberWidth) -> Expression {
    Expression::Number(Number { value, width })
}

#[test]
fn largest_decimal() {
    assert_eq!(
        parser::expression("4294967295"),
        IResult::Done("", lit(u32::MAX, NumberWidth::Unspecified))
    );
    assert!(parser::expression("4294967296").is_err());
    assert_eq!(
        parser::expression("007"),
        IResult::Done("", lit(7, NumberWidth::Unspecified))
    );
}

#[test]
fn largest_hexadecimal() {
    assert_eq!(
        parser::expression("$FFFFFFFF"),
        IResult::Done("", lit(u32::MAX, NumberWidth::Unspecified))
    );
    assert!(parser::expression("$100000000").is_err());
    assert!(parser::expression("$").is_err());
    assert_eq!(
        parser::expression("$0a"),
        IResult::Done("", lit(10, NumberWidth::OneByte))
    );
}

#[test]
fn remainder_is_left() {
    assert_eq!(
        parser::expression("1 + 2 )"),
        IResult::Done(
            ")",
            Expression::Binary(
                BinaryOperator::Add,
                Box::new(lit(1, NumberWidth::Unspecified)),
                Box::new(lit(2, NumberWidth::Unspecified))
            )
        )
    );
    assert_eq!(
        parser::expression("3 +"),
        IResult::Done("+", lit(3, NumberWidth::Unspecified))
    );
}

#[test]
fn reparsing_the_remainder() {
    let first = parser::expression(" $ FE DC ");
    match first {
        IResult::Done(rest, _) => {
            assert_eq!(parser::expression(rest), parser::expression("DC "));
        }
        IResult::Error => panic!("the first parse should succeed"),
    }
}

#[test]
fn variables_and_empty_calls() {
    assert_eq!(
        parser::expression("foo"),
        IResult::Done(
            "",
            Expression::Variable(Label::Named(VariableName(String::from("foo"))))
        )
    );
    assert_eq!(
        parser::expression("f ( )"),
        IResult::Done("", Expression::Call(VariableName(String::from("f")), vec![]))
    );
    assert!(parser::expression("").is_err());
    assert!(parser::expression("(1").is_err());
}

#[test]
fn clone_is_deep() {
    let e = Expression::Call(
        VariableName(String::from("f")),
        vec![Expression::Binary(
            BinaryOperator::Sub,
            Box::new(lit(1, NumberWidth::OneByte)),
            Box::new(Expression::Variable(Label::Relative(-2))),
        )],
    );
    assert_eq!(e.clone(), e);
}
