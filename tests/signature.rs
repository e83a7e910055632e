use windmill_parser_graphql::signature::{coerce_default, parse_graphql_file, parse_graphql_sig, parse_graphql_typ};
use windmill_parser_graphql::types::{Arg, DefaultValue, MainArgSignature, Typ};

fn arg(name: &str, otyp: &str, typ: Typ, default: Option<DefaultValue>, has_default: bool) -> Arg {
    Arg { otyp: Some(otyp.to_string()), name: name.to_string(), typ, default, has_default }
}

fn only_arg(code: &str) -> Arg {
    let mut args = parse_graphql_file(code);
    assert_eq!(args.len(), 1, "expected one argument in {:?}", code);
    args.remove(0)
}

#[test]
fn test_parse_graphql_sig() {
    let code = r#"
query($s: String, $arr: [String]) {
    books {
        title
    }
}        
"#;
    assert_eq!(
        parse_graphql_sig(code).unwrap(),
        MainArgSignature {
            star_args: false,
            star_kwargs: false,
            args: vec![
                Arg {
                    otyp: Some("String".to_string()),
                    name: "s".to_string(),
                    typ: Typ::Str,
                    default: None,
                    has_default: false
                },
                Arg {
                    otyp: Some("[String]".to_string()),
                    name: "arr".to_string(),
                    typ: Typ::List(Box::new(Typ::Str)),
                    default: None,
                    has_default: false
                },
            ],
            no_main_func: None
        }
    );
}

#[test]
fn two_arguments_on_one_line() {
    let sig = parse_graphql_sig("query($s: String, $arr: [String]) { books { title } }").unwrap();
    assert_eq!(
        sig.args,
        vec![
            arg("s", "String", Typ::Str, None, false),
            arg("arr", "[String]", Typ::List(Box::new(Typ::Str)), None, false),
        ]
    );
}

#[test]
fn integer_default_is_read() {
    assert_eq!(
        only_arg("query($n: Int = 5)"),
        arg("n", "Int", Typ::Int, Some(DefaultValue::Int(5)), true)
    );
}

#[test]
fn unknown_scalar_is_object() {
    assert_eq!(only_arg("query($x: Weird)"), arg("x", "Weird", Typ::Object, None, false));
}

#[test]
fn no_declaration_gives_empty_signature() {
    for code in ["", "query { books { title } }", "$", "$: Int", "$a Int", "$a: ", "$a: [Int", "$a: []", "$ a: Int"] {
        let sig = parse_graphql_sig(code).unwrap();
        assert!(sig.args.is_empty(), "{:?}", code);
        assert!(!sig.star_args && !sig.star_kwargs && sig.no_main_func.is_none());
    }
}

#[test]
fn scalar_without_default() {
    assert_eq!(only_arg("$flag: Boolean"), arg("flag", "Boolean", Typ::Bool, None, false));
    assert_eq!(only_arg("$id: ID"), arg("id", "ID", Typ::Str, None, false));
    assert_eq!(only_arg("$r: Float"), arg("r", "Float", Typ::Float, None, false));
    assert_eq!(only_arg("$c: string"), arg("c", "string", Typ::Object, None, false));
}

#[test]
fn list_declaration_keeps_brackets() {
    assert_eq!(only_arg("$xs: [Int]"), arg("xs", "[Int]", Typ::List(Box::new(Typ::Int)), None, false));
    assert_eq!(only_arg("$xs: [Int!]!"), arg("xs", "[Int]", Typ::List(Box::new(Typ::Int)), None, false));
    assert_eq!(
        only_arg("$p: [Point]"),
        arg("p", "[Point]", Typ::List(Box::new(Typ::Object)), None, false)
    );
}

#[test]
fn integer_default_42_and_fallback() {
    assert_eq!(only_arg("$n: Int = 42"), arg("n", "Int", Typ::Int, Some(DefaultValue::Int(42)), true));
    assert_eq!(
        only_arg("$n: Int = abc"),
        arg("n", "Int", Typ::Int, Some(DefaultValue::Str("abc".to_string())), true)
    );
}

#[test]
fn integer_default_range() {
    assert_eq!(
        only_arg("$n: Int = 9223372036854775807").default,
        Some(DefaultValue::Int(i64::MAX))
    );
    assert_eq!(
        only_arg("$n: Int = 9223372036854775808").default,
        Some(DefaultValue::Str("9223372036854775808".to_string()))
    );
    assert_eq!(only_arg("$n: Int! = 007").default, Some(DefaultValue::Int(7)));
}

#[test]
fn float_defaults() {
    assert_eq!(
        only_arg("$r: Float = 5"),
        arg("r", "Float", Typ::Float, Some(DefaultValue::Float("5".to_string())), true)
    );
    assert_eq!(only_arg("$r: Float = 1e3").default, Some(DefaultValue::Float("1e3".to_string())));
    assert_eq!(only_arg("$r: Float = inf").default, Some(DefaultValue::Float("inf".to_string())));
    assert_eq!(only_arg("$r: Float = NaN").default, Some(DefaultValue::Float("NaN".to_string())));
    assert_eq!(only_arg("$r: Float = abc").default, Some(DefaultValue::Str("abc".to_string())));
    assert_eq!(only_arg("$r: Float = 1_0").default, Some(DefaultValue::Str("1_0".to_string())));
}

#[test]
fn other_defaults_keep_text() {
    assert_eq!(
        only_arg("$b: Boolean = true"),
        arg("b", "Boolean", Typ::Bool, Some(DefaultValue::Str("true".to_string())), true)
    );
    assert_eq!(
        only_arg("$xs: [Int] = 5"),
        arg("xs", "[Int]", Typ::List(Box::new(Typ::Int)), Some(DefaultValue::Str("5".to_string())), true)
    );
    assert_eq!(only_arg("$s: String = hello").default, Some(DefaultValue::Str("hello".to_string())));
}

#[test]
fn equals_without_token_is_no_default() {
    let args = parse_graphql_file("query($n: Int = , $m: Int)");
    assert_eq!(args, vec![arg("n", "Int", Typ::Int, None, false), arg("m", "Int", Typ::Int, None, false)]);
}

#[test]
fn order_follows_source_with_text_between() {
    let args = parse_graphql_file("a $z: Int b c $a: String { $m: [ID] } $b: Float = 2 tail");
    let names: Vec<&str> = args.iter().map(|a| a.name.as_str()).collect();
    assert_eq!(names, vec!["z", "a", "m", "b"]);
    assert_eq!(args[2].typ, Typ::List(Box::new(Typ::Str)));
    assert_eq!(args[3].default, Some(DefaultValue::Float("2".to_string())));
}

#[test]
fn duplicates_pass_through() {
    let args = parse_graphql_file("($a: Int, $a: String)");
    assert_eq!(args, vec![arg("a", "Int", Typ::Int, None, false), arg("a", "String", Typ::Str, None, false)]);
}

#[test]
fn white_space_around_parts() {
    assert_eq!(
        only_arg("$a\t :\n Int\u{a0}=\u{2003}12 "),
        arg("a", "Int", Typ::Int, Some(DefaultValue::Int(12)), true)
    );
    assert_eq!(only_arg("$a:Int!!=3"), arg("a", "Int", Typ::Int, Some(DefaultValue::Int(3)), true));
}

#[test]
fn declaration_after_failed_default() {
    let args = parse_graphql_file("$a: Int = $b: Int = 4");
    assert_eq!(args, vec![arg("a", "Int", Typ::Int, None, false), arg("b", "Int", Typ::Int, Some(DefaultValue::Int(4)), true)]);
}

#[test]
fn scalar_table() {
    assert_eq!(parse_graphql_typ("String"), Typ::Str);
    assert_eq!(parse_graphql_typ("ID"), Typ::Str);
    assert_eq!(parse_graphql_typ("Int"), Typ::Int);
    assert_eq!(parse_graphql_typ("Boolean"), Typ::Bool);
    assert_eq!(parse_graphql_typ("Float"), Typ::Float);
    assert_eq!(parse_graphql_typ("Date"), Typ::Object);
    assert_eq!(parse_graphql_typ("int"), Typ::Object);
    assert_eq!(parse_graphql_typ(""), Typ::Object);
}

#[test]
fn coercion_of_signed_and_decimal_text() {
    assert_eq!(coerce_default(&Typ::Int, "-12"), DefaultValue::Int(-12));
    assert_eq!(coerce_default(&Typ::Int, "+7"), DefaultValue::Int(7));
    assert_eq!(coerce_default(&Typ::Int, "-9223372036854775808"), DefaultValue::Int(i64::MIN));
    assert_eq!(coerce_default(&Typ::Int, "-"), DefaultValue::Str("-".to_string()));
    assert_eq!(coerce_default(&Typ::Int, "1.0"), DefaultValue::Str("1.0".to_string()));
    for ok in ["1.5", ".5", "5.", "1e-3", "-2.5E+10", "-inf", "Infinity", "+nan"] {
        assert_eq!(coerce_default(&Typ::Float, ok), DefaultValue::Float(ok.to_string()), "{:?}", ok);
        assert!(ok.parse::<f64>().is_ok());
    }
    for bad in ["e5", ".", "1e", "1e+", "infin", "", " 1", "1..2"] {
        assert_eq!(coerce_default(&Typ::Float, bad), DefaultValue::Str(bad.to_string()), "{:?}", bad);
        assert!(bad.parse::<f64>().is_err());
    }
    assert_eq!(coerce_default(&Typ::Object, "7"), DefaultValue::Str("7".to_string()));
}
