use oni_comb_rs::hocon::error::ConfigError;
use oni_comb_rs::hocon::factory::{
    expand, load_text, Config, ConfigFactory, FileReader, MemoryFileReader, MAX_INCLUDE_DEPTH,
};
use oni_comb_rs::hocon::grammar::{parse_document, read_value};
use oni_comb_rs::hocon::merge::{declare, redeclare};
use oni_comb_rs::hocon::number::ConfigNumberValue;
use oni_comb_rs::hocon::resolve::Environment;
use oni_comb_rs::hocon::value::{ConfigValue, TimeUnit};
use oni_comb_rs::parse_error::ParseError;

fn chars(s: &str) -> Vec<char> {
    s.chars().collect()
}

fn text(s: &str) -> ConfigValue {
    ConfigValue::String(s.to_string())
}

fn number(s: &str) -> ConfigValue {
    ConfigValue::Number(ConfigNumberValue::new(s))
}

fn object(members: Vec<(&str, ConfigValue)>) -> ConfigValue {
    ConfigValue::Object(members.into_iter().map(|(k, v)| (k.to_string(), v)).collect())
}

fn env_with(name: &str, value: &str) -> Environment {
    let mut env = Environment::new();
    env.set(name.to_string(), value.to_string());
    env
}

fn load(input: &str, env: &Environment) -> Result<Config, ConfigError> {
    let mut reader = MemoryFileReader::new();
    ConfigFactory::parse_from_string(input, env, &mut reader)
}

fn one(input: &str) -> ConfigValue {
    let mut values = parse_document(&chars(input)).unwrap();
    assert_eq!(values.len(), 1);
    values.remove(0)
}

#[test]
fn test_eval_reference() {
    let input = r#"
    foo {
      bar = "baz"
      bar = "biz"
      test {
        a = "aaaa"
        a = ${foo.bar} 
      }
    }
    foo {
      test {
        b = "bbbb"
      }
    }
    "#;
    let env = Environment::new();
    let config = load(input, &env).unwrap();
    let a_value = config.get_value("foo.test.a", &env).unwrap();
    assert_eq!(a_value, Some(ConfigValue::String("biz".to_string())));
    let b_value = config.get_value("foo.test.b", &env).unwrap();
    assert_eq!(b_value, Some(ConfigValue::String("bbbb".to_string())));
}

#[test]
fn test_environment_value_exists() {
    let input = r#"
    foo {
      bar = "baz",
      bar = "biz",
      test {
        a = "aaaa",
        a = ${TEST_VAR} 
      }
    }
    "#;
    let s = "12345";
    let env = env_with("TEST_VAR", s);
    let config = load(input, &env).unwrap();
    let a_value = config.get_value("foo.test.a", &env).unwrap();
    assert_eq!(a_value, Some(ConfigValue::String(s.to_string())));
}

#[test]
#[should_panic]
fn test_environment_value_not_exists() {
    let input = r#"
    foo {
      bar = "baz",
      bar = "biz",
      test {
        a = "aaaa",
        a = ${TEST_VAR} 
      }
    }
    "#;
    let env = Environment::new();
    let config = load(input, &env).unwrap();
    let _ = config.get_value("foo.test.a", &env);
}

#[test]
fn test_environment_value_exists_fallback() {
    let input = r#"
    foo {
      bar = "baz"
      bar = "biz"
      test {
        a = "aaaa"
        a = ${?TEST_VAR} 
      }
    }
    "#;
    let s = "12345";
    let env = env_with("TEST_VAR", s);
    let config = load(input, &env).unwrap();
    let a_value = config.get_value("foo.test.a", &env).unwrap();
    assert_eq!(a_value, Some(ConfigValue::String(s.to_string())));
}

#[test]
fn test_environment_value_not_exists_fallback() {
    let input = r#"
    foo {
      bar = "baz"
      bar = "biz"
      test {
        a = "aaaa"
        a = ${?TEST_VAR} 
      }
    }
    "#;
    let env = Environment::new();
    let config = load(input, &env).unwrap();
    let a_value = config.get_value("foo.test.a", &env).unwrap();
    assert_eq!(a_value, Some(ConfigValue::String("aaaa".to_string())));
}

#[test]
fn test_push() {
    let mut config_value = ConfigValue::Bool(true);
    config_value.push(ConfigValue::String("ABC".to_string()));
    config_value.push(ConfigValue::Null);

    println!("{:?}", config_value);
    println!("{:?}", config_value.to_vec());

    assert_eq!(config_value.latest().clone(), ConfigValue::Null);
    assert_eq!(
        config_value.prev_latest().clone(),
        ConfigValue::String("ABC".to_string())
    );
}

#[test]
fn test_combine() {
    let mut first = ConfigValue::Bool(true);
    first.push(ConfigValue::String("ABC".to_string()));
    first.push(ConfigValue::Null);
    let mut second = ConfigValue::Bool(false);
    second.push(ConfigValue::String("XYZ".to_string()));
    second.push(ConfigValue::Reference {
        prev: None,
        path: "ABC".to_string(),
        missing: false,
    });

    let mut t = first.clone();

    t.combine(&second);

    println!("{:?}", t);
    println!("{:?}", t.to_vec());
    assert_eq!(t.to_vec().len(), 6);
    assert_eq!(t.to_vec()[3], ConfigValue::Bool(false));
    let mut unchanged = first.clone();
    unchanged.combine(&ConfigValue::Null);
    assert_eq!(unchanged, first);
}

#[test]
fn basic_merge_latest_declaration_wins() {
    let input = "foo { bar = \"baz\" }\nfoo { bar = \"biz\" }\n";
    let env = Environment::new();
    let config = load(input, &env).unwrap();
    assert_eq!(config.get_value("foo.bar", &env).unwrap(), Some(text("biz")));
    assert_eq!(config.get_value("foo.nothing", &env).unwrap(), None);
    assert_eq!(config.get_value("nothing.bar", &env).unwrap(), None);
    assert_eq!(config.get_value("foo.bar.deeper", &env).unwrap(), None);
}

#[test]
fn reference_to_shadowed_value_with_semicolons() {
    let input = "foo { bar = \"baz\"\n bar = \"biz\"\n test { a = \"aaaa\"; a = ${foo.bar} } }\nfoo { test { b = \"bbbb\" } }";
    let env = Environment::new();
    let config = load(input, &env).unwrap();
    assert_eq!(config.get_value("foo.test.a", &env).unwrap(), Some(text("biz")));
    assert_eq!(config.get_value("foo.test.b", &env).unwrap(), Some(text("bbbb")));
}

#[test]
fn required_reference_that_names_nothing_is_an_error() {
    let env = Environment::new();
    match load("a = ${TEST_VAR}", &env) {
        Err(ConfigError::ResolveError(message)) => {
            assert_eq!(message, "Cannot resolve the reference: TEST_VAR")
        }
        other => panic!("unexpected outcome {:?}", other),
    }
}

#[test]
fn optional_reference_without_shadow_is_null() {
    let env = Environment::new();
    let config = load("a = ${?TEST_VAR}", &env).unwrap();
    assert_eq!(config.get_value("a", &env).unwrap(), Some(ConfigValue::Null));
}

#[test]
fn references_to_references_are_resolved_in_later_passes() {
    let env = Environment::new();
    let config = load("a = ${b}\nb = ${c}\nc = ${d}\nd = 4", &env).unwrap();
    assert_eq!(config.get_value("a", &env).unwrap(), Some(number("4")));
    assert_eq!(config.to_config_value().count_references(), 0);
}

#[test]
fn reference_cycle_is_an_error() {
    let env = Environment::new();
    match load("a = ${b}\nb = ${a}", &env) {
        Err(ConfigError::ResolveError(message)) => {
            assert_eq!(message, "Cannot resolve the references: they form a cycle")
        }
        other => panic!("unexpected outcome {:?}", other),
    }
}

#[test]
fn lookup_resolves_a_surviving_reference_on_the_spot() {
    let root = one("a = 1\nb = ${a}\nc = ${X}\nd = ${?X}");
    let config = Config::new(root);
    let env = env_with("X", "from env");
    assert_eq!(config.get_value("b", &env).unwrap(), Some(number("1")));
    assert_eq!(config.get_value("c", &env).unwrap(), Some(text("from env")));
    let empty = Environment::new();
    assert!(matches!(config.get_value("c", &empty), Err(ConfigError::ResolveError(_))));
    assert_eq!(config.get_value("d", &empty).unwrap(), Some(ConfigValue::Null));
}

#[test]
fn single_pass_resolve() {
    let root = one("a = 1\nb = ${a}");
    let env = Environment::new();
    let mut doc = root.clone();
    doc.resolve(None, &env).unwrap();
    assert_eq!(doc, root);
    doc.resolve(Some(&root), &env).unwrap();
    assert_eq!(doc.get_value("b"), Some(&number("1")));
    let mut broken = one("b = ${zz}");
    let before = broken.clone();
    match broken.resolve(Some(&before), &env) {
        Err(e) => assert!(e.same(&ConfigError::ResolveError(
            "Cannot resolve the reference: zz".to_string()
        ))),
        Ok(()) => panic!("must fail"),
    }
    assert_eq!(broken, before);
}

#[test]
fn values_of_every_kind() {
    let root = one(
        "t = true, y = yes, o = on, f = false, n = no, x = off, z = null\nnum = -12.50, d = 42ms, s = \"q\", u = plain-text, arr = [1, \"two\", [3]], obj { k : v }",
    );
    assert_eq!(root.get_value("t"), Some(&ConfigValue::Bool(true)));
    assert_eq!(root.get_value("y"), Some(&ConfigValue::Bool(true)));
    assert_eq!(root.get_value("o"), Some(&ConfigValue::Bool(true)));
    assert_eq!(root.get_value("f"), Some(&ConfigValue::Bool(false)));
    assert_eq!(root.get_value("n"), Some(&ConfigValue::Bool(false)));
    assert_eq!(root.get_value("x"), Some(&ConfigValue::Bool(false)));
    assert_eq!(root.get_value("z"), Some(&ConfigValue::Null));
    assert_eq!(root.get_value("num"), Some(&number("-12.50")));
    assert_eq!(
        root.get_value("d"),
        Some(&ConfigValue::Duration { magnitude: 42, unit: TimeUnit::Millisecond })
    );
    assert_eq!(root.get_value("s"), Some(&text("q")));
    assert_eq!(root.get_value("u"), Some(&text("plain-text")));
    assert_eq!(
        root.get_value("arr"),
        Some(&ConfigValue::Array(vec![
            number("1"),
            text("two"),
            ConfigValue::Array(vec![number("3")])
        ]))
    );
    assert_eq!(root.get_value("obj.k"), Some(&text("v")));
    assert!(root.contains("obj"));
    assert!(!root.contains("k"));
    assert!(!text("x").contains("x"));
}

#[test]
fn duration_units() {
    let units = [
        ("1ns", TimeUnit::Nanosecond),
        ("2us", TimeUnit::Microsecond),
        ("3\u{b5}s", TimeUnit::Microsecond),
        ("4ms", TimeUnit::Millisecond),
        ("5s", TimeUnit::Second),
        ("6m", TimeUnit::Minute),
        ("7h", TimeUnit::Hour),
        ("8d", TimeUnit::Day),
    ];
    for (i, (source, unit)) in units.iter().enumerate() {
        let (value, next) = read_value(&chars(source), 0).unwrap();
        assert_eq!(value, ConfigValue::Duration { magnitude: i as u64 + 1, unit: *unit });
        assert_eq!(next, source.chars().count());
    }
    let (value, _) = read_value(&chars("18446744073709551615ms"), 0).unwrap();
    assert_eq!(
        value,
        ConfigValue::Duration { magnitude: u64::MAX, unit: TimeUnit::Millisecond }
    );
    assert_eq!(
        read_value(&chars("18446744073709551616ms"), 0),
        Err(ParseError::of_conversion(0, 22, "number out of range".to_string()))
    );
    assert_eq!(read_value(&chars("5x"), 0).unwrap().0, text("5x"));
    assert_eq!(read_value(&chars("ms"), 0).unwrap().0, text("ms"));
}

#[test]
fn numbers_that_cannot_be_held_are_errors() {
    let huge = "1".repeat(40);
    assert_eq!(
        read_value(&chars(&huge), 0),
        Err(ParseError::of_conversion(0, 40, "number out of range".to_string()))
    );
}

#[test]
fn quoted_strings_and_escapes() {
    let source = r#""a\"b\\c\/d\ne\rf\tg\bh\fiAé""#;
    let (value, next) = read_value(&chars(source), 0).unwrap();
    assert_eq!(value, text("a\"b\\c/d\ne\rf\tg\u{8}h\u{c}iA\u{e9}"));
    assert_eq!(next, source.chars().count());
    assert_eq!(
        read_value(&chars("\"open"), 0),
        Err(ParseError::of_mismatch(5, 0, "expected more input".to_string()))
    );
    assert_eq!(
        read_value(&chars(r#""a\x""#), 0),
        Err(ParseError::of_mismatch(2, 0, "expected an escape sequence".to_string()))
    );
    assert_eq!(
        read_value(&chars(r#""\ud800""#), 0),
        Err(ParseError::of_mismatch(1, 0, "expected an escape sequence".to_string()))
    );
    assert_eq!(
        read_value(&chars(r#""\u12""#), 0),
        Err(ParseError::of_mismatch(1, 0, "expected an escape sequence".to_string()))
    );
}

#[test]
fn comments_and_separators() {
    let root = one("# first\na = 1 // trailing\n// whole line\nb : 2,\n\n,c = 3 # end");
    assert_eq!(root, object(vec![("a", number("1")), ("b", number("2")), ("c", number("3"))]));
}

#[test]
fn path_keys_and_quoted_keys() {
    let root = one("a.b.c = 1\na.b.d = 2\n\"x.y\" = 3");
    assert_eq!(
        root,
        object(vec![
            (
                "a",
                object(vec![("b", object(vec![("c", number("1")), ("d", number("2"))]))])
            ),
            ("x.y", number("3")),
        ])
    );
    assert_eq!(root.get_value("a.b.d"), Some(&number("2")));
    assert_eq!(root.get_value("x.y"), None);
}

#[test]
fn substitutions_are_read_as_references() {
    let root = one("a = ${x.y}\nb = ${?z}");
    assert_eq!(
        root,
        object(vec![
            ("a", ConfigValue::of_reference(None, "x.y".to_string(), false)),
            ("b", ConfigValue::of_reference(None, "z".to_string(), true)),
        ])
    );
    assert_eq!(root.count_references(), 2);
    assert_eq!(
        read_value(&chars("${open"), 0),
        Err(ParseError::of_mismatch(6, 0, "expected more input".to_string()))
    );
    assert_eq!(
        read_value(&chars("$x"), 0),
        Err(ParseError::of_mismatch(0, 0, "expected a substitution".to_string()))
    );
}

#[test]
fn documents_in_braces_are_folded_as_fallbacks() {
    let values = parse_document(&chars("{ a = 1, b { c = 2 } } { a = 9, b { d = 3 }, e = 4 }")).unwrap();
    assert_eq!(values.len(), 2);
    let env = Environment::new();
    let config = load("{ a = 1, b { c = 2 } } { a = 9, b { d = 3 }, e = 4 }", &env).unwrap();
    assert_eq!(
        config.to_config_value().clone(),
        object(vec![
            ("a", number("1")),
            ("b", object(vec![("c", number("2")), ("d", number("3"))])),
            ("e", number("4")),
        ])
    );
}

#[test]
fn grammar_errors_carry_offset_and_reason() {
    assert_eq!(
        parse_document(&chars("a 1")),
        Err(ParseError::of_mismatch(2, 0, "expected '=', ':' or '{'".to_string()))
    );
    assert_eq!(
        parse_document(&chars("a = ]")),
        Err(ParseError::of_mismatch(4, 0, "expected a value".to_string()))
    );
    assert_eq!(
        parse_document(&chars("a = 1 }")),
        Err(ParseError::of_mismatch(6, 0, "expected a key".to_string()))
    );
    assert_eq!(
        parse_document(&chars("{ a = 1 } x")),
        Err(ParseError::of_mismatch(10, 0, "expected the end of the input".to_string()))
    );
    assert_eq!(
        parse_document(&chars("a = [1, 2")),
        Err(ParseError::of_mismatch(9, 0, "expected more input".to_string()))
    );
    assert_eq!(
        parse_document(&chars("a {")),
        Err(ParseError::of_mismatch(3, 0, "expected more input".to_string()))
    );
    assert_eq!(
        parse_document(&chars("a =")),
        Err(ParseError::of_mismatch(3, 0, "expected more input".to_string()))
    );
    assert_eq!(
        parse_document(&chars("= 1")),
        Err(ParseError::of_mismatch(0, 0, "expected a key".to_string()))
    );
    let env = Environment::new();
    match load("a 1", &env) {
        Err(e) => assert!(e.same(&ConfigError::ParseError(
            "Mismatch at 2: expected '=', ':' or '{'".to_string()
        ))),
        Ok(_) => panic!("must fail"),
    }
    assert_eq!(parse_document(&chars("")), Ok(vec![object(vec![])]));
}

#[test]
fn fallback_merge_by_the_table() {
    let mut left = object(vec![("a", number("1")), ("o", object(vec![("x", number("2"))]))]);
    let right = object(vec![
        ("o", object(vec![("x", number("7")), ("y", number("3"))])),
        ("b", number("4")),
        ("a", text("no")),
    ]);
    left.merge_with(right);
    assert_eq!(
        left,
        object(vec![
            ("a", number("1")),
            ("o", object(vec![("x", number("2")), ("y", number("3"))])),
            ("b", number("4")),
        ])
    );
    let mut arrays = ConfigValue::Array(vec![number("1")]);
    arrays.merge_with(ConfigValue::Array(vec![number("2"), number("3")]));
    assert_eq!(arrays, ConfigValue::Array(vec![number("1")]));
    let mut scalar = text("left");
    scalar.with_fallback(object(vec![]));
    assert_eq!(scalar, text("left"));
    let mut reference = ConfigValue::of_reference(None, "p".to_string(), true);
    reference.merge_with(number("5"));
    assert_eq!(
        reference,
        ConfigValue::of_reference(Some(Box::new(number("5"))), "p".to_string(), true)
    );
    let mut chain = text("old");
    chain.push(object(vec![("k", number("1"))]));
    let expected_head = object(vec![("k", number("1")), ("l", number("2"))]);
    chain.merge_with(object(vec![("l", number("2"))]));
    assert_eq!(chain.latest(), &expected_head);
    assert_eq!(chain.to_vec().len(), 3);
}

#[test]
fn merge_of_disjoint_objects_is_their_union() {
    let a = object(vec![("a", number("1")), ("b", text("x"))]);
    let b = object(vec![("c", ConfigValue::Null), ("d", ConfigValue::Bool(true))]);
    assert_eq!(
        a.merged(&b),
        object(vec![
            ("a", number("1")),
            ("b", text("x")),
            ("c", ConfigValue::Null),
            ("d", ConfigValue::Bool(true)),
        ])
    );
}

#[test]
fn redeclaration_keeps_the_history() {
    let mut members = Vec::new();
    declare(&mut members, "k".to_string(), number("1"));
    declare(&mut members, "j".to_string(), number("2"));
    declare(&mut members, "k".to_string(), ConfigValue::of_reference(None, "j".to_string(), true));
    assert_eq!(members.len(), 2);
    assert_eq!(members[0].0, "k");
    assert_eq!(
        members[0].1.to_vec(),
        vec![
            number("1"),
            ConfigValue::of_reference(Some(Box::new(number("1"))), "j".to_string(), true)
        ]
    );
    assert_eq!(members[0].1.prev_latest(), &number("1"));
    assert_eq!(number("1").prev_latest(), &number("1"));
    let folded = redeclare(
        object(vec![("a", number("1"))]),
        object(vec![("a", number("2")), ("b", number("3"))]),
    );
    assert_eq!(folded.get_value("a"), Some(&number("2")));
    assert_eq!(folded.get_value("b"), Some(&number("3")));
}

#[test]
fn numbers_narrow_to_integers() {
    assert_eq!(ConfigNumberValue::new("123.99").to_i64(), Some(123));
    assert_eq!(ConfigNumberValue::new("-123.99").to_i64(), Some(-123));
    assert_eq!(ConfigNumberValue::new("-0.5").to_i64(), Some(0));
    assert_eq!(ConfigNumberValue::new("9223372036854775807").to_i64(), Some(i64::MAX));
    assert_eq!(ConfigNumberValue::new("-9223372036854775808").to_i64(), Some(i64::MIN));
    assert_eq!(ConfigNumberValue::new("9223372036854775808").to_i64(), None);
    assert_eq!(ConfigNumberValue::new("-9223372036854775809").to_i64(), None);
    assert_eq!(ConfigNumberValue::new("18446744073709551615.9").to_u64(), Some(u64::MAX));
    assert_eq!(ConfigNumberValue::new("18446744073709551616").to_u64(), None);
    assert_eq!(ConfigNumberValue::new("-1").to_u64(), None);
    assert_eq!(ConfigNumberValue::new("-0.5").to_u64(), None);
    assert_eq!(ConfigNumberValue::new("0.5").to_u64(), Some(0));
    assert_eq!(ConfigNumberValue::new("1.50").parts(), (150, 2));
    assert!(ConfigNumberValue::try_new("abc").is_none());
    assert!(ConfigNumberValue::try_new("").is_none());
    assert_eq!(ConfigNumberValue::try_new("7"), Some(ConfigNumberValue::new("7")));
    assert!(ConfigNumberValue::new("1.0") != ConfigNumberValue::new("1.00"));
}

#[test]
fn included_files_are_spliced_in() {
    let mut reader = MemoryFileReader::new();
    reader.add("base.conf".to_string(), "x = 1\ny = ${x}\ninclude \"deeper.conf\"".to_string());
    reader.add("deeper.conf".to_string(), "z = 3".to_string());
    let env = Environment::new();
    let config =
        ConfigFactory::parse_from_string("include \"base.conf\"\nown = 2", &env, &mut reader)
            .unwrap();
    assert_eq!(config.get_value("x", &env).unwrap(), Some(number("1")));
    assert_eq!(config.get_value("y", &env).unwrap(), Some(number("1")));
    assert_eq!(config.get_value("z", &env).unwrap(), Some(number("3")));
    assert_eq!(config.get_value("own", &env).unwrap(), Some(number("2")));
    assert_eq!(
        config.to_config_value(),
        &object(vec![
            ("x", number("1")),
            ("y", number("1")),
            ("z", number("3")),
            ("own", number("2")),
        ])
    );
    let mut factory = ConfigFactory::new(reader);
    let loaded = factory.load_from_file("deeper.conf", &env).unwrap();
    assert_eq!(loaded.to_config_value(), &object(vec![("z", number("3"))]));
    assert!(matches!(
        factory.load_from_file("nowhere.conf", &env),
        Err(ConfigError::FileNotFoundError)
    ));
    assert!(matches!(
        ConfigFactory::parse_from_string(
            "include \"nowhere.conf\"",
            &env,
            &mut factory.file_reader
        ),
        Err(ConfigError::FileNotFoundError)
    ));
}

struct Unreadable;

impl FileReader for Unreadable {
    fn read_to_string(&mut self, _filename: &str, _text: &mut String) -> Result<(), ConfigError> {
        Err(ConfigError::FileReadError)
    }
}

#[test]
fn errors_of_the_reader_come_through() {
    let env = Environment::new();
    let mut reader = Unreadable;
    assert!(matches!(
        ConfigFactory::parse_from_string("include \"any\"", &env, &mut reader),
        Err(ConfigError::FileReadError)
    ));
    let plain = object(vec![("a", number("1"))]);
    assert_eq!(expand(&plain, &mut reader, &env, 0).unwrap(), plain);
    assert!(matches!(
        load_text("a = 1", &mut reader, &env, 0),
        Ok(v) if v == plain
    ));
}

#[test]
fn a_load_gives_what_the_reader_handed_over() {
    let env = Environment::new();
    let mut reader = MemoryFileReader::new();
    let failed = ConfigFactory::loaded_from(
        Err(ConfigError::FileReadError),
        "a = 1",
        &env,
        &mut reader,
    );
    assert!(matches!(failed, Err(ConfigError::FileReadError)));
    let missing = ConfigFactory::loaded_from(
        Err(ConfigError::FileNotFoundError),
        "a = 1",
        &env,
        &mut reader,
    );
    assert!(matches!(missing, Err(ConfigError::FileNotFoundError)));
    let read = ConfigFactory::loaded_from(Ok(()), "a = 1\nb = ${a}", &env, &mut reader).unwrap();
    assert_eq!(
        read.to_config_value(),
        &object(vec![("a", number("1")), ("b", number("1"))])
    );
    assert!(matches!(
        ConfigFactory::loaded_from(Ok(()), "a 1", &env, &mut reader),
        Err(ConfigError::ParseError(_))
    ));
}

#[test]
fn with_no_depth_left_no_file_is_read() {
    let mut reader = MemoryFileReader::new();
    reader.add("f.conf".to_string(), "a = 1".to_string());
    let env = Environment::new();
    let refused = ConfigError::ParseError("files are included too deeply".to_string());
    let directive = ConfigValue::Include("f.conf".to_string());
    assert!(expand(&directive, &mut reader, &env, 0).unwrap_err().same(&refused));
    assert_eq!(
        expand(&directive, &mut reader, &env, 1).unwrap(),
        object(vec![("a", number("1"))])
    );
    let member = one("x = 1\ninclude \"f.conf\"");
    assert!(expand(&member, &mut reader, &env, 0).unwrap_err().same(&refused));
    let nested = ConfigValue::Array(vec![number("1"), object(vec![("k", directive.clone())])]);
    assert!(expand(&nested, &mut reader, &env, 0).unwrap_err().same(&refused));
    let mut chain = number("1");
    chain.push(directive.clone());
    assert!(expand(&chain, &mut reader, &env, 0).unwrap_err().same(&refused));
    let displaced = ConfigValue::of_reference(Some(Box::new(directive)), "p".to_string(), true);
    assert!(expand(&displaced, &mut reader, &env, 0).unwrap_err().same(&refused));
    assert!(load_text("include \"f.conf\"", &mut reader, &env, 0).unwrap_err().same(&refused));
    assert_eq!(
        load_text("include \"f.conf\"", &mut reader, &env, 1).unwrap(),
        object(vec![("a", number("1"))])
    );
    assert_eq!(
        load_text("b = 2", &mut reader, &env, 0).unwrap(),
        object(vec![("b", number("2"))])
    );
}

#[test]
fn files_may_nest_as_deep_as_the_bound() {
    let mut reader = MemoryFileReader::new();
    for i in 0..MAX_INCLUDE_DEPTH {
        reader.add(format!("f{}.conf", i), format!("include \"f{}.conf\"\nk{} = {}", i + 1, i, i));
    }
    reader.add(format!("f{}.conf", MAX_INCLUDE_DEPTH), "bottom = 0".to_string());
    let env = Environment::new();
    let refused = ConfigError::ParseError("files are included too deeply".to_string());
    match ConfigFactory::parse_from_string("include \"f0.conf\"", &env, &mut reader) {
        Err(e) => assert!(e.same(&refused)),
        Ok(_) => panic!("must fail"),
    }
    let within = ConfigFactory::parse_from_string("include \"f1.conf\"", &env, &mut reader).unwrap();
    assert_eq!(within.get_value("bottom", &env).unwrap(), Some(number("0")));
    assert_eq!(within.get_value("k1", &env).unwrap(), Some(number("1")));
}

#[test]
fn files_that_include_themselves_are_refused() {
    let mut reader = MemoryFileReader::new();
    reader.add("loop.conf".to_string(), "include \"loop.conf\"".to_string());
    let env = Environment::new();
    match ConfigFactory::parse_from_string("include \"loop.conf\"", &env, &mut reader) {
        Err(e) => assert!(e.same(&ConfigError::ParseError(
            "files are included too deeply".to_string()
        ))),
        Ok(_) => panic!("must fail"),
    }
}

#[test]
fn declarations_around_a_directive_keep_their_order() {
    let mut reader = MemoryFileReader::new();
    reader.add("base.conf".to_string(), "a = 1\nb = 1\no { p = 1 }".to_string());
    reader.add("more.conf".to_string(), "b = 3".to_string());
    let env = Environment::new();
    let source = "a = 0\ninclude \"base.conf\"\nb = 2\no { q = 2 }\ninclude \"more.conf\"";
    let config = ConfigFactory::parse_from_string(source, &env, &mut reader).unwrap();
    assert_eq!(config.get_value("a", &env).unwrap(), Some(number("1")));
    assert_eq!(config.get_value("b", &env).unwrap(), Some(number("3")));
    assert_eq!(config.get_value("o.p", &env).unwrap(), Some(number("1")));
    assert_eq!(config.get_value("o.q", &env).unwrap(), Some(number("2")));
    let b = config.to_config_value().get_object_value().unwrap()[1].1.to_vec();
    assert_eq!(b, vec![number("1"), number("2"), number("3")]);
    let directive = one("include \"base.conf\"");
    assert_eq!(
        directive,
        object(vec![("include base.conf", ConfigValue::Include("base.conf".to_string()))])
    );
    let nested = ConfigFactory::parse_from_string(
        "outer { include \"more.conf\" }\nlist = [1]",
        &env,
        &mut reader,
    )
    .unwrap();
    assert_eq!(nested.get_value("outer.b", &env).unwrap(), Some(number("3")));
    let in_place = expand(&ConfigValue::Include("more.conf".to_string()), &mut reader, &env, 1);
    assert_eq!(in_place.unwrap(), object(vec![("b", number("3"))]));
}

#[test]
fn a_key_called_like_the_directive_is_a_key() {
    let root = one("include = 5");
    assert_eq!(root, object(vec![("include", number("5"))]));
}

#[test]
fn accessors_tell_the_variants_apart() {
    let reference =
        ConfigValue::of_reference(Some(Box::new(number("1"))), "a.b".to_string(), true);
    assert_eq!(reference.ref_prev(), Some(&number("1")));
    assert_eq!(reference.ref_name(), Some(&"a.b".to_string()));
    assert_eq!(reference.ref_missing(), Some(true));
    assert_eq!(number("1").ref_prev(), None);
    assert_eq!(number("1").ref_name(), None);
    assert_eq!(number("1").ref_missing(), None);
    let directive = ConfigValue::Include("f.conf".to_string());
    assert_eq!(directive.get_include_value(), Some(&"f.conf".to_string()));
    assert_eq!(reference.get_include_value(), None);
    let members = vec![("k".to_string(), number("1"))];
    assert_eq!(ConfigValue::Object(members.clone()).get_object_value(), Some(&members));
    assert_eq!(directive.get_object_value(), None);
    let items = vec![number("1"), text("x")];
    assert_eq!(ConfigValue::Array(items.clone()).get_array_value(), Some(&items));
    assert_eq!(directive.get_array_value(), None);
    let mut chain = text("old");
    chain.push(text("new"));
    assert_eq!(chain.get_value_link(), Some((&text("old"), &text("new"))));
    assert_eq!(directive.get_value_link(), None);
}

#[test]
fn environment_lookup_takes_the_first_match() {
    let mut env = env_with("A", "1");
    env.set("A".to_string(), "2".to_string());
    env.set("B".to_string(), "3".to_string());
    assert_eq!(env.get(&"A".to_string()), Some(&"1".to_string()));
    assert_eq!(env.get(&"B".to_string()), Some(&"3".to_string()));
    assert_eq!(env.get(&"C".to_string()), None);
}
