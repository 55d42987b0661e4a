use panda_api::dates;
use panda_api::equal::is_value_equal;
use panda_api::json::json_equal;
use panda_api::numparse::parse_dec;
use panda_api::numparse::parse_i64;
use panda_api::schema::get_field_type;
use panda_api::strutil;
use panda_api::text;
use panda_api::Dec;
use panda_api::Json;

fn obj(fields: Vec<(&str, Json)>) -> Json {
    Json::Obj(fields.into_iter().map(|(k, v)| (k.to_string(), v)).collect())
}

fn s(v: &str) -> Json {
    Json::Str(v.to_string())
}

#[test]
fn deep_equal_null_and_empty_object() {
    assert!(is_value_equal(&obj(vec![]), &Json::Null));
    assert!(is_value_equal(&Json::Null, &obj(vec![])));
    assert!(is_value_equal(&Json::Null, &Json::Null));
}

#[test]
fn deep_equal_same_object() {
    let a = obj(vec![("a", Json::Int(1))]);
    let b = obj(vec![("a", Json::Int(1))]);
    assert!(is_value_equal(&a, &b));
}

#[test]
fn deep_equal_exact_key_count() {
    let a = obj(vec![("a", Json::Int(1)), ("b", Json::Int(2))]);
    let b = obj(vec![("a", Json::Int(1))]);
    assert!(!is_value_equal(&a, &b));
    assert!(!is_value_equal(&b, &a));
}

#[test]
fn deep_equal_arrays() {
    let a = Json::Arr(vec![Json::Int(1), Json::Int(2)]);
    let b = Json::Arr(vec![Json::Int(1), Json::Int(2)]);
    let c = Json::Arr(vec![Json::Int(2), Json::Int(1)]);
    assert!(is_value_equal(&a, &b));
    assert!(!is_value_equal(&a, &c));
}

#[test]
fn deep_equal_scalars_never_match() {
    assert!(!is_value_equal(&Json::Int(1), &Json::Int(1)));
    assert!(!is_value_equal(&s("x"), &s("x")));
}

#[test]
fn structural_equality() {
    let a = obj(vec![("a", Json::Arr(vec![Json::Int(1), s("x")]))]);
    let b = obj(vec![("a", Json::Arr(vec![Json::Int(1), s("x")]))]);
    let c = obj(vec![("a", Json::Arr(vec![Json::Int(1), s("y")]))]);
    assert!(json_equal(&a, &b));
    assert!(!json_equal(&a, &c));
    assert!(!json_equal(&Json::Int(1), &Json::Dec(Dec { units: 1, places: 0 })));
}

#[test]
fn parse_i64_basics() {
    assert_eq!(parse_i64("42"), Some(42));
    assert_eq!(parse_i64("+42"), Some(42));
    assert_eq!(parse_i64("-42"), Some(-42));
    assert_eq!(parse_i64("0"), Some(0));
    assert_eq!(parse_i64(""), None);
    assert_eq!(parse_i64("+"), None);
    assert_eq!(parse_i64("12x"), None);
    assert_eq!(parse_i64("1.5"), None);
}

#[test]
fn parse_i64_limits() {
    assert_eq!(parse_i64("9223372036854775807"), Some(i64::MAX));
    assert_eq!(parse_i64("9223372036854775808"), None);
    assert_eq!(parse_i64("-9223372036854775808"), Some(i64::MIN));
    assert_eq!(parse_i64("-9223372036854775809"), None);
}

#[test]
fn parse_dec_basics() {
    assert_eq!(parse_dec("12"), Some(Dec { units: 12, places: 0 }));
    assert_eq!(parse_dec("-12.345"), Some(Dec { units: -12345, places: 3 }));
    assert_eq!(parse_dec("0.50"), Some(Dec { units: 50, places: 2 }));
    assert_eq!(parse_dec("1."), Some(Dec { units: 1, places: 0 }));
    assert_eq!(parse_dec(".5"), Some(Dec { units: 5, places: 1 }));
    assert_eq!(parse_dec("-.25"), Some(Dec { units: -25, places: 2 }));
    assert_eq!(parse_dec("."), None);
    assert_eq!(parse_dec("1e5"), None);
    assert_eq!(parse_dec("1.2.3"), None);
    assert_eq!(parse_dec(""), None);
}

#[test]
fn field_type_explicit_lowercased() {
    let n = obj(vec![("type", s("INT"))]);
    assert_eq!(get_field_type(&n), "int");
}

#[test]
fn field_type_inference() {
    assert_eq!(get_field_type(&Json::Arr(vec![])), "array");
    assert_eq!(get_field_type(&obj(vec![("a", obj(vec![]))])), "object");
    assert_eq!(get_field_type(&obj(vec![("a", s("x"))])), "string");
    assert_eq!(get_field_type(&s("x")), "string");
}

#[test]
fn lowercase_and_trim() {
    assert_eq!(strutil::ascii_lowercase("AbC-12"), "abc-12");
    assert_eq!(strutil::trim("  x\t"), "x");
    assert_eq!(strutil::trim(""), "");
    assert_eq!(strutil::trim("   "), "");
}

#[test]
fn format_numbers() {
    assert_eq!(strutil::fmt_u64(0), "0");
    assert_eq!(strutil::fmt_u64(1234), "1234");
    assert_eq!(strutil::fmt_u64_pad(7, 4), "0007");
    assert_eq!(strutil::fmt_u64_pad(12345, 4), "12345");
}

#[test]
fn uuid_shape() {
    let u = text::uuid();
    assert_eq!(u.chars().count(), 36);
    let cs: Vec<char> = u.chars().collect();
    assert_eq!(cs[8], '-');
    assert_eq!(cs[13], '-');
    assert_eq!(cs[18], '-');
    assert_eq!(cs[23], '-');
}

#[test]
fn ip_shape() {
    let ip = text::ip();
    let parts: Vec<&str> = ip.split('.').collect();
    assert_eq!(parts.len(), 4);
    for p in parts {
        let v: u32 = p.parse().unwrap();
        assert!(v <= 255);
    }
}

#[test]
fn email_and_url_shape() {
    let e = text::email();
    assert!(e.contains('@'));
    assert!(e.ends_with(".com"));
    let u = text::url();
    assert!(u.starts_with("https://"));
}

#[test]
fn regex_subset() {
    assert_eq!(text::regex_string(""), "");
    assert_eq!(text::regex_string("abc"), "abc");
    let d = text::regex_string(r"\d{3}");
    assert_eq!(d.chars().count(), 3);
    assert!(d.chars().all(|c| c.is_ascii_digit()));
}

#[test]
fn regex_classes_and_quantifiers() {
    for _ in 0..20 {
        let s = text::regex_string("[ab]");
        assert!(s == "a" || s == "b");
        let r = text::regex_string(r"x\d?");
        assert!(r == "x" || (r.len() == 2 && r.starts_with('x')
            && r.chars().nth(1).unwrap().is_ascii_digit()));
        let w = text::regex_string(r"\w+");
        assert!((1..=3).contains(&w.chars().count()));
        assert!(w.chars().all(|c| c.is_ascii_lowercase()));
        let g = text::regex_string("[0-9]{2,4}");
        assert!((2..=4).contains(&g.chars().count()));
        assert!(g.chars().all(|c| c.is_ascii_digit()));
    }
}

#[test]
fn date_generation_in_bounds() {
    for _ in 0..20 {
        let d = dates::datetime("2020-01-01", "2020-12-31", true);
        assert_eq!(d.chars().count(), 10);
        assert!(d.as_str() >= "2020-01-01" && d.as_str() <= "2020-12-31");
    }
    let dt = dates::datetime("", "", false);
    assert_eq!(dt.chars().count(), 19);
}

#[test]
fn date_parse() {
    let t = dates::parse_dt("2021-02-28").unwrap();
    assert_eq!((t.year, t.month, t.day), (2021, 2, 28));
    assert!(dates::parse_dt("2021-02-30").is_none());
    let t2 = dates::parse_dt("2020-02-29 23:59:59").unwrap();
    assert_eq!((t2.hour, t2.minute, t2.second), (23, 59, 59));
    assert!(dates::parse_dt("not-a-date").is_none());
}
