use partial_bind::{
    bind, bind_call, bind_parsed, bind_placeholders, parameter_name, parse_call, Argument,
    CallExpression,
};

fn fixed(text: &str) -> Argument {
    Argument::Fixed(text.to_string())
}

fn strings(values: &[&str]) -> Vec<String> {
    values.iter().map(|v| v.to_string()).collect()
}

#[test]
fn bind_fixed_first_and_third() {
    let text = bind("foo(1, _, 3, _)").unwrap();
    assert_eq!(text, "|__0, __1| { foo(1, __0, 3, __1) }");
    let bound = bind_call("foo(1, _, 3, _)").unwrap();
    assert_eq!(bound.parameters.len(), 2);
    let called = bound.apply(&strings(&["2", "4"]));
    assert_eq!(called, parse_call("foo(1, 2, 3, 4)").unwrap());
}

#[test]
fn bind_fixed_second_and_fourth() {
    let text = bind("foo(_, 2, _, 4)").unwrap();
    assert_eq!(text, "|__0, __1| { foo(__0, 2, __1, 4) }");
    let bound = bind_call("foo(_, 2, _, 4)").unwrap();
    let called = bound.apply(&strings(&["1", "3"]));
    assert_eq!(called, parse_call("foo(1, 2, 3, 4)").unwrap());
}

#[test]
fn bind_without_placeholders() {
    let text = bind("foo(1, 2, 3, 4)").unwrap();
    assert_eq!(text, "|| { foo(1, 2, 3, 4) }");
    let bound = bind_call("foo(1, 2, 3, 4)").unwrap();
    assert!(bound.parameters.is_empty());
    assert_eq!(bound.body, parse_call("foo(1, 2, 3, 4)").unwrap());
    assert_eq!(bound.apply(&Vec::new()), bound.body);
}

#[test]
fn bind_all_placeholders() {
    let text = bind("foo(_, _, _, _)").unwrap();
    assert_eq!(text, "|__0, __1, __2, __3| { foo(__0, __1, __2, __3) }");
    let bound = bind_call("foo(_, _, _, _)").unwrap();
    let called = bound.apply(&strings(&["1", "2", "3", "4"]));
    assert_eq!(called, parse_call("foo(1, 2, 3, 4)").unwrap());
}

#[test]
fn bind_unbalanced_is_malformed() {
    let err = bind("foo(1, 2").unwrap_err();
    assert!(!err.message.is_empty());
    assert!(bind_call("foo(1, 2").is_err());
    assert!(parse_call("foo(1, 2").is_err());
}

#[test]
fn other_malformed_inputs() {
    assert!(bind("").is_err());
    assert!(bind("foo").is_err());
    assert!(bind("1 + 2").is_err());
    assert!(bind("x.foo(_)").is_err());
    assert!(bind("foo(_); bar()").is_err());
    assert!(bind("foo(_,, 2)").is_err());
}

#[test]
fn parse_reads_callee_and_arguments() {
    let call = parse_call("foo(1, _, x)").unwrap();
    assert_eq!(call.callee, "foo");
    assert_eq!(call.arguments, vec![fixed("1"), Argument::Placeholder, fixed("x")]);
    let empty = parse_call("foo()").unwrap();
    assert!(empty.arguments.is_empty());
    assert_eq!(bind("foo()").unwrap(), "|| { foo() }");
}

#[test]
fn binder_names_placeholders_in_order() {
    let call = CallExpression {
        attributes: Vec::new(),
        callee: "f".to_string(),
        arguments: vec![Argument::Placeholder, fixed("a"), Argument::Placeholder],
    };
    let bound = bind_placeholders(call);
    assert_eq!(bound.parameters.len(), 2);
    assert_eq!(bound.parameters[0].index, 0);
    assert_eq!(bound.parameters[0].name, "__0");
    assert_eq!(bound.parameters[1].index, 1);
    assert_eq!(bound.parameters[1].name, "__1");
    assert_eq!(bound.body.callee, "f");
    assert_eq!(bound.body.arguments, vec![fixed("__0"), fixed("a"), fixed("__1")]);
    assert_eq!(bound.to_source(), "|__0, __1| { f(__0, a, __1) }");
}

#[test]
fn parameter_names_are_decimal() {
    assert_eq!(parameter_name(0), "__0");
    assert_eq!(parameter_name(7), "__7");
    assert_eq!(parameter_name(10), "__10");
    assert_eq!(parameter_name(305), "__305");
    assert_eq!(parameter_name(usize::MAX), format!("__{}", usize::MAX));
}

#[test]
fn many_placeholders_get_distinct_names() {
    let text = bind("g(_, _, _, _, _, _, _, _, _, _, _, _)").unwrap();
    assert_eq!(
        text,
        "|__0, __1, __2, __3, __4, __5, __6, __7, __8, __9, __10, __11| \
         { g(__0, __1, __2, __3, __4, __5, __6, __7, __8, __9, __10, __11) }"
    );
    let bound = bind_call("g(_, _, _, _, _, _, _, _, _, _, _, _)").unwrap();
    for (i, p) in bound.parameters.iter().enumerate() {
        for q in bound.parameters.iter().skip(i + 1) {
            assert_ne!(p.name, q.name);
        }
    }
}

#[test]
fn round_trip_with_compound_arguments() {
    let bound = bind_call("std::cmp::max(a + b, _, vec![1, 2], _)").unwrap();
    assert_eq!(bound.parameters.len(), 2);
    let called = bound.apply(&strings(&["x * 2", "y"]));
    let direct = parse_call("std::cmp::max(a + b, x * 2, vec![1, 2], y)").unwrap();
    assert_eq!(called.callee, direct.callee);
    assert_eq!(called.arguments[0], direct.arguments[0]);
    assert_eq!(called.arguments[2], direct.arguments[2]);
    assert_eq!(called.arguments[3], direct.arguments[3]);
    assert_eq!(called.arguments[1], fixed("x * 2"));
}

#[test]
fn nested_placeholders_are_not_bound() {
    let bound = bind_call("f(g(_), _)").unwrap();
    assert_eq!(bound.parameters.len(), 1);
    assert_eq!(bound.body.arguments[1], fixed("__0"));
    assert_ne!(bound.body.arguments[0], fixed("__0"));
}

#[test]
fn same_input_gives_same_output() {
    let first = bind("foo(_, 2, _, 4)").unwrap();
    let second = bind("foo(_, 2, _, 4)").unwrap();
    assert_eq!(first, second);
    assert_eq!(bind_call("h(_, 1)").unwrap(), bind_call("h(_, 1)").unwrap());
}

#[test]
fn fixed_argument_spelled_like_a_parameter_is_kept() {
    let bound = bind_call("foo(__0, _)").unwrap();
    assert_eq!(bound.body.arguments, vec![fixed("__0"), fixed("__0")]);
    assert_eq!(bound.apply(&strings(&["7"])).arguments, vec![fixed("7"), fixed("7")]);
}

#[test]
fn call_source_text() {
    let call = CallExpression {
        attributes: Vec::new(),
        callee: "foo".to_string(),
        arguments: vec![fixed("1"), Argument::Placeholder],
    };
    assert_eq!(call.to_source(), "foo(1, _)");
}

#[test]
fn attributes_of_the_call_are_kept() {
    let call = parse_call("#[allow(unused)] foo(_, 1)").unwrap();
    assert_eq!(call.attributes.len(), 1);
    assert!(call.attributes[0].contains("allow"));
    let text = bind("#[allow(unused)] foo(_, 1)").unwrap();
    assert!(text.starts_with("|__0| { #"));
    assert!(text.ends_with("foo(__0, 1) }"));
    assert!(text.contains("allow"));
}

#[test]
fn bind_parsed_emits_attributes_and_call() {
    let call = CallExpression {
        attributes: vec!["#[a]".to_string(), "#[b]".to_string()],
        callee: "m::f".to_string(),
        arguments: vec![Argument::Placeholder, fixed("x + 1"), Argument::Placeholder],
    };
    assert_eq!(bind_parsed(call), "|__0, __1| { #[a] #[b] m::f(__0, x + 1, __1) }");
}

#[test]
fn bind_parsed_without_arguments() {
    let call = CallExpression {
        attributes: Vec::new(),
        callee: "now".to_string(),
        arguments: Vec::new(),
    };
    assert_eq!(bind_parsed(call), "|| { now() }");
}

#[test]
fn malformed_input_has_a_reason() {
    for input in ["", "foo", "foo(1, 2", "x.foo(_)", "foo(_) bar"] {
        let err = bind(input).unwrap_err();
        assert!(!err.message.is_empty());
        assert!(!bind_call(input).unwrap_err().message.is_empty());
        assert!(!parse_call(input).unwrap_err().message.is_empty());
    }
}
