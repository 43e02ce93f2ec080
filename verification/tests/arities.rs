use serverkit::arities::{expand, expand_routes, handler_invocation, parse_maximum, MacroToken};

fn literal(text: &str) -> MacroToken {
    MacroToken::Literal(text.to_owned())
}

#[test]
fn reads_one_positive_decimal_maximum() {
    assert_eq!(parse_maximum(&vec![literal("16")]), Ok(16));
    assert_eq!(parse_maximum(&vec![literal("+3")]), Ok(3));

    let expected = Err("expected one positive decimal integer".to_owned());
    assert_eq!(parse_maximum(&Vec::new()), expected);
    assert_eq!(parse_maximum(&vec![MacroToken::Other]), expected);
    assert_eq!(parse_maximum(&vec![literal("3"), MacroToken::Other]), expected);
    assert_eq!(parse_maximum(&vec![literal("3usize")]), expected);
    assert_eq!(parse_maximum(&vec![literal("1_0")]), expected);
    assert_eq!(parse_maximum(&vec![literal("999999999999999999999999")]), expected);
    assert_eq!(
        parse_maximum(&vec![literal("0")]),
        Err("handler arity must be greater than zero".to_owned())
    );
}

#[test]
fn writes_one_handler_invocation_per_arity() {
    let mut out = Vec::new();
    handler_invocation(&mut out, 3);
    assert_eq!(out.iter().collect::<String>(), "impl_handler!([(A0,a0),(A1,a1)];(A2,a2));");

    assert_eq!(
        expand(&vec![literal("2")]),
        Ok("impl_handler!([];(A0,a0));impl_handler!([(A0,a0)];(A1,a1));".to_owned())
    );
    let sixteen = expand(&vec![literal("16")]).unwrap();
    assert_eq!(sixteen.matches("impl_handler!").count(), 16);
    assert!(sixteen.ends_with(";(A15,a15));"));
}

#[test]
fn writes_one_route_tuple_invocation_per_arity() {
    assert_eq!(
        expand_routes(&vec![literal("3")]),
        Ok("impl_route_tuple!(R1);impl_route_tuple!(R1,R2);impl_route_tuple!(R1,R2,R3);".to_owned())
    );
    assert_eq!(expand_routes(&vec![literal("0")]), Err("handler arity must be greater than zero".to_owned()));
}
