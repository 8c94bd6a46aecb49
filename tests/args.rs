use grammersthon::{
    bind_fields, choose_name, parse_char, parse_flag, parse_integer, trim, ArgShape, Args,
    FieldKind, FromArgs, RawArgs, ScalarKind,
};

fn strings(v: &[&str]) -> Vec<String> {
    v.iter().map(|s| s.to_string()).collect()
}

#[test]
fn test_parse_n() {
    let input = "aaa  bbb c d e  f  g";
    assert_eq!(RawArgs::parse_n(input, 0), (RawArgs::default(), input.to_string()));
    assert_eq!(RawArgs::parse_n(input, 1), (RawArgs(vec!["aaa".to_string()]), " bbb c d e  f  g".to_string()));
    assert_eq!(RawArgs::parse_n(input, 2), (RawArgs(vec!["aaa".to_string(), "bbb".to_string()]), "c d e  f  g".to_string()));
    assert_eq!(RawArgs::parse_n(input, 99), (RawArgs::parse_arg(input).unwrap(), String::new()));
}

#[test]
fn split_none_keeps_text() {
    for s in ["", "   ", " a b ", "x"] {
        assert_eq!(RawArgs::parse_n(s, 0), (RawArgs(vec![]), s.to_string()));
    }
}

#[test]
fn split_more_than_tokens_gives_all() {
    let s = "  one\ttwo \n three  ";
    let all = RawArgs::parse_arg(s).unwrap();
    assert_eq!(all, RawArgs(strings(&["one", "two", "three"])));
    assert_eq!(RawArgs::parse_n(s, 4), (all.clone(), String::new()));
    assert_eq!(RawArgs::parse_n(s, 1000), (all, String::new()));
}

#[test]
fn split_keeps_spacing_of_rest() {
    assert_eq!(
        RawArgs::parse_n("  cmd   a  b ", 1),
        (RawArgs(strings(&["cmd"])), "  a  b ".to_string())
    );
    assert_eq!(RawArgs::parse_n("a", 1), (RawArgs(strings(&["a"])), String::new()));
    assert_eq!(RawArgs::parse_n("a ", 1), (RawArgs(strings(&["a"])), String::new()));
}

#[test]
fn struct_with_rest_field() {
    let (toks, rest) = bind_fields("5 hello world", 2, true).unwrap();
    assert_eq!(toks, RawArgs(strings(&["5"])));
    assert_eq!(u32::parse_arg(&toks.0[0]).unwrap(), 5);
    assert_eq!(String::parse_arg(&rest).unwrap(), "hello world");
    let shape = ArgShape {
        fields: vec![
            FieldKind::One(ScalarKind::Integer { min: 0, max: u32::MAX as i128 }),
            FieldKind::One(ScalarKind::Text),
        ],
        rest: true,
    };
    assert!(shape.check("5 hello world"));
    assert!(!shape.check("five hello world"));
    assert!(!shape.check(""));
}

#[test]
fn struct_without_rest_drops_leftover() {
    let (toks, _rest) = bind_fields("7 true ignored text", 2, false).unwrap();
    assert_eq!(toks, RawArgs(strings(&["7", "true"])));
    assert!(bind_fields("7", 2, false).is_err());
    assert!(matches!(
        bind_fields("7", 2, false),
        Err(grammersthon::GrammersthonError::Parse(s, None)) if s == "7"
    ));
}

#[test]
fn list_field_from_rest() {
    let (toks, rest) = bind_fields("1 2 3.5", 1, true).unwrap();
    assert_eq!(toks, RawArgs(vec![]));
    let parts = RawArgs::parse_arg(&rest).unwrap().0;
    let values: Vec<f32> = parts.iter().map(|p| p.parse::<f32>().unwrap()).collect();
    assert_eq!(values, vec![1.0, 2.0, 3.5]);
    let ints = Vec::<u8>::parse_arg("1 2  3").unwrap();
    assert_eq!(ints, vec![1, 2, 3]);
    assert!(Vec::<u8>::parse_arg("1 300").is_err());
}

#[test]
fn enum_choice_ignoring_case() {
    let names = strings(&["Play", "Pause", "Skip"]);
    for s in ["play", "PLAY", "Play"] {
        assert_eq!(choose_name(s, &names, true), Some(0));
    }
    assert_eq!(choose_name("skip", &names, true), Some(2));
    assert_eq!(choose_name("Play", &names, false), Some(0));
    assert_eq!(choose_name("play", &names, false), None);
    assert_eq!(choose_name("PLAY", &names, false), None);
    assert_eq!(choose_name("stop", &names, true), None);
}

#[test]
fn flags() {
    for s in ["true", "Yes", " y ", "TRUE"] {
        assert_eq!(parse_flag(s), Some(true));
        assert_eq!(bool::parse_arg(s).unwrap(), true);
    }
    for s in ["false", "NO", "n"] {
        assert_eq!(parse_flag(s), Some(false));
    }
    assert_eq!(parse_flag("maybe"), None);
    assert!(matches!(bool::parse_arg("maybe"), Err(grammersthon::GrammersthonError::Parse(_, None))));
}

#[test]
fn integers() {
    assert_eq!(parse_integer("+42", 0, 255), Some(42));
    assert_eq!(parse_integer("-42", -128, 127), Some(-42));
    assert_eq!(parse_integer("-42", 0, 255), None);
    assert_eq!(parse_integer("256", 0, 255), None);
    assert_eq!(parse_integer("", 0, 255), None);
    assert_eq!(parse_integer("+", 0, 255), None);
    assert_eq!(parse_integer("1x", 0, 255), None);
    assert_eq!(i64::parse_arg("-9223372036854775808").unwrap(), i64::MIN);
    assert_eq!(u64::parse_arg("18446744073709551615").unwrap(), u64::MAX);
    assert!(u64::parse_arg("18446744073709551616").is_err());
    assert_eq!(u16::parse_arg("007").unwrap(), 7);
}

#[test]
fn chars_and_text() {
    assert_eq!(parse_char("é"), Some('é'));
    assert_eq!(parse_char("ab"), None);
    assert_eq!(parse_char(""), None);
    assert_eq!(trim("  a b \t"), "a b");
    assert_eq!(trim("   "), "");
    assert_eq!(String::parse_arg(" as is ").unwrap(), " as is ");
}

#[test]
fn arguments_of_a_command() {
    let a: Args<RawArgs> = Args::from_text("/args one  two").unwrap();
    assert_eq!(a.0, RawArgs(strings(&["one", "two"])));
    assert_eq!(RawArgs::from_text("/args"), RawArgs(vec![]));
    assert_eq!(grammersthon::args_of("/repeat 3  hi"), "3  hi");
    assert_eq!(grammersthon::args_of("/repeat"), "");
    let n: Option<Args<u32>> = Args::from_text("/count 12");
    assert_eq!(n.map(|a| a.0), Some(12));
    let bad: Option<Args<u32>> = Args::from_text("/count twelve");
    assert!(bad.is_none());
}

#[test]
fn split_exactly_as_many_tokens() {
    assert_eq!(RawArgs::parse_n("a b", 2), (RawArgs(strings(&["a", "b"])), String::new()));
    assert_eq!(RawArgs::parse_n("a b ", 2), (RawArgs(strings(&["a", "b"])), String::new()));
    assert_eq!(RawArgs::parse_n("a b   ", 2), (RawArgs(strings(&["a", "b"])), "  ".to_string()));
    assert_eq!(RawArgs::parse_n("  ", 0), (RawArgs(vec![]), "  ".to_string()));
}

#[test]
fn argument_layout_bounds() {
    let good = ArgShape {
        fields: vec![FieldKind::Many(ScalarKind::Integer { min: i64::MIN as i128, max: i64::MAX as i128 })],
        rest: true,
    };
    assert!(good.is_wf());
    let bad = ArgShape {
        fields: vec![FieldKind::One(ScalarKind::Integer { min: 1, max: 5 })],
        rest: false,
    };
    assert!(!bad.is_wf());
    assert!(good.check("1 -2 3"));
    assert!(!good.check("1 x"));
}

#[test]
fn choice_field_in_a_structure() {
    let shape = ArgShape {
        fields: vec![FieldKind::One(ScalarKind::Choice {
            names: strings(&["Play", "Pause", "Skip"]),
            ignore_case: true,
        })],
        rest: false,
    };
    assert!(shape.check("pause"));
    assert!(shape.check(" SKIP now"));
    assert!(!shape.check("stop"));
    let chars = ArgShape { fields: vec![FieldKind::One(ScalarKind::Character)], rest: true };
    assert!(chars.check("x"));
    assert!(!chars.check("xy"));
}

struct RepeatArgs {
    amount: u32,
    text: String,
}

impl FromArgs for RepeatArgs {
    fn parse_arg(input: &str) -> Result<Self, grammersthon::GrammersthonError> {
        let (toks, rest) = bind_fields(input, 2, true)?;
        Ok(RepeatArgs { amount: u32::parse_arg(&toks.0[0])?, text: String::parse_arg(&rest)? })
    }
}

#[test]
fn application_argument_type() {
    let a: Args<RepeatArgs> = Args::from_text("/repeat 5 hello world").unwrap();
    assert_eq!((a.0.amount, a.0.text.as_str()), (5, "hello world"));
    let none: Option<Args<RepeatArgs>> = Args::from_text("/repeat many times");
    assert!(none.is_none());
}

#[test]
fn list_error_is_that_of_first_bad_piece() {
    let r = Vec::<u8>::parse_arg("1 x 300");
    assert!(matches!(r, Err(grammersthon::GrammersthonError::Parse(ref s, None)) if s == "x"));
    let r = Vec::<bool>::parse_arg("yes maybe no nope");
    assert!(matches!(r, Err(grammersthon::GrammersthonError::Parse(ref s, None)) if s == "maybe"));
}

#[test]
fn flag_errors_carry_the_input() {
    assert!(matches!(bool::parse_arg("maybe"), Err(grammersthon::GrammersthonError::Parse(ref s, None)) if s == "maybe"));
    assert_eq!(bool::parse_arg("YES").unwrap(), true);
    assert_eq!(bool::parse_arg("True").unwrap(), true);
    assert_eq!(bool::parse_arg("N").unwrap(), false);
    assert_eq!(grammersthon::flag_of_lower("yes"), Some(true));
    assert_eq!(grammersthon::flag_of_lower("YES"), None);
    assert_eq!(grammersthon::flag_of_lower("n"), Some(false));
}

#[test]
fn wide_integers() {
    assert_eq!(u128::parse_arg("340282366920938463463374607431768211455").unwrap(), u128::MAX);
    assert!(u128::parse_arg("340282366920938463463374607431768211456").is_err());
    assert_eq!(i128::parse_arg("-170141183460469231731687303715884105728").unwrap(), i128::MIN);
    assert_eq!(i128::parse_arg("+170141183460469231731687303715884105727").unwrap(), i128::MAX);
    assert!(i128::parse_arg("170141183460469231731687303715884105728").is_err());
    assert_eq!(grammersthon::parse_unsigned("+12", 12), Some(12));
    assert_eq!(grammersthon::parse_unsigned("13", 12), None);
    assert_eq!(grammersthon::parse_unsigned("-1", 12), None);
    let shape = ArgShape { fields: vec![FieldKind::One(ScalarKind::Natural { max: u128::MAX })], rest: false };
    assert!(shape.check("99999999999999999999999"));
    assert!(!shape.check("-1"));
}

#[test]
fn exact_matching_of_names() {
    let names = strings(&["play", "Pause", "play"]);
    assert_eq!(grammersthon::first_equal("play", &names), Some(0));
    assert_eq!(grammersthon::first_equal("pause", &names), None);
    assert_eq!(grammersthon::first_equal("Pause", &names), Some(1));
}

#[test]
fn count_mismatch_error_has_no_cause() {
    assert!(matches!(
        bind_fields("only", 3, true),
        Err(grammersthon::GrammersthonError::Parse(ref s, None)) if s == "only"
    ));
}

#[test]
fn paths_take_any_text() {
    let p = std::path::PathBuf::parse_arg("dir/file.txt").unwrap();
    assert_eq!(p, std::path::PathBuf::from("dir/file.txt"));
}
