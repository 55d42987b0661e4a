use panda_api::equal::is_value_equal;
use panda_api::fixture::find_fixture;
use panda_api::fixture::Fixture;
use panda_api::fixture::MethodMatcher;
use panda_api::gen::create_mock_response;
use panda_api::json::json_equal;
use panda_api::perm::auth_validator;
use panda_api::perm::get_token_from_request;
use panda_api::perm::is_has_perm;
use panda_api::perm::AuthDoc;
use panda_api::perm::Group;
use panda_api::query::parse_request_query_to_api_query_format;
use panda_api::resolver::find_response_data;
use panda_api::resolver::get_request_body_mode;
use panda_api::resolver::RouteDefinition;
use panda_api::resolver::RouteEntry;
use panda_api::route::route_matches;
use panda_api::Dec;
use panda_api::Json;

fn obj(fields: Vec<(&str, Json)>) -> Json {
    Json::Obj(fields.into_iter().map(|(k, v)| (k.to_string(), v)).collect())
}

fn s(v: &str) -> Json {
    Json::Str(v.to_string())
}

fn int_schema(lo: i64, hi: i64) -> Json {
    obj(vec![("type", s("int")), ("min_value", Json::Int(lo)), ("max_value", Json::Int(hi))])
}

fn lookup<'a>(out: &'a [(String, Json)], key: &str) -> Option<&'a Json> {
    out.iter().find(|(k, _)| k == key).map(|(_, v)| v)
}

#[test]
fn required_fields_always_present() {
    let model = obj(vec![("id", int_schema(1, 9)), ("name", obj(vec![("type", s("string"))]))]);
    for _ in 0..50 {
        let out = create_mock_response(&model);
        assert!(lookup(&out, "id").is_some());
        assert!(lookup(&out, "name").is_some());
    }
}

#[test]
fn int_values_stay_in_bounds() {
    let model = obj(vec![("n", int_schema(10, 20))]);
    for _ in 0..50 {
        let out = create_mock_response(&model);
        match lookup(&out, "n").unwrap() {
            Json::Int(v) => assert!((10..=20).contains(v)),
            other => panic!("expected an integer, got {:?}", other),
        }
    }
}

#[test]
fn timestamp_values_stay_in_bounds() {
    let model = obj(vec![(
        "ts",
        obj(vec![("type", s("timestamp")), ("min_value", Json::Int(1000)), (
            "max_value",
            Json::Int(2000),
        )]),
    )]);
    for _ in 0..30 {
        let out = create_mock_response(&model);
        match lookup(&out, "ts").unwrap() {
            Json::Int(v) => assert!((1000..=2000).contains(v)),
            other => panic!("expected an integer, got {:?}", other),
        }
    }
}

#[test]
fn float_default_precision_is_two() {
    let model = obj(vec![("x", obj(vec![("type", s("float"))]))]);
    for _ in 0..20 {
        let out = create_mock_response(&model);
        match lookup(&out, "x").unwrap() {
            Json::Dec(d) => assert_eq!(d.places, 2),
            other => panic!("expected a decimal, got {:?}", other),
        }
    }
}

#[test]
fn float_configured_precision() {
    let model = obj(vec![("x", obj(vec![("type", s("float")), ("decimal_places", Json::Int(4))]))]);
    let out = create_mock_response(&model);
    match lookup(&out, "x").unwrap() {
        Json::Dec(d) => assert_eq!(d.places, 4),
        other => panic!("expected a decimal, got {:?}", other),
    }
}

#[test]
fn float_values_stay_in_bounds() {
    let model = obj(vec![(
        "x",
        obj(vec![("type", s("float")), ("min_value", Json::Int(0)), ("max_value", Json::Int(10))]),
    )]);
    for _ in 0..30 {
        let out = create_mock_response(&model);
        match lookup(&out, "x").unwrap() {
            Json::Dec(d) => {
                assert_eq!(d.places, 2);
                assert!(d.units >= 0 && d.units <= 1000);
            },
            other => panic!("expected a decimal, got {:?}", other),
        }
    }
}

#[test]
fn value_shortcut_is_verbatim() {
    let model = obj(vec![("k", obj(vec![("type", s("int")), ("value", Json::Int(77))]))]);
    let out = create_mock_response(&model);
    assert!(json_equal(lookup(&out, "k").unwrap(), &Json::Int(77)));
}

#[test]
fn enum_picks_an_element() {
    let model = obj(vec![(
        "k",
        obj(vec![("enum", Json::Arr(vec![Json::Int(1), Json::Int(2), Json::Int(3)]))]),
    )]);
    for _ in 0..20 {
        let out = create_mock_response(&model);
        match lookup(&out, "k").unwrap() {
            Json::Int(v) => assert!((1..=3).contains(v)),
            other => panic!("expected an integer, got {:?}", other),
        }
    }
}

#[test]
fn enum_object_value_override() {
    let elem = obj(vec![("-value", Json::Int(9)), ("label", s("nine"))]);
    let model = obj(vec![("k", obj(vec![("enum", Json::Arr(vec![elem]))]))]);
    let out = create_mock_response(&model);
    assert!(json_equal(lookup(&out, "k").unwrap(), &Json::Int(9)));
}

#[test]
fn reserved_keys_are_skipped() {
    let model = obj(vec![("-desc", s("meta")), ("id", int_schema(1, 1))]);
    let out = create_mock_response(&model);
    assert!(lookup(&out, "-desc").is_none());
    assert!(json_equal(lookup(&out, "id").unwrap(), &Json::Int(1)));
}

#[test]
fn array_generation_fixed_count() {
    let elem = obj(vec![("-length", Json::Int(3)), ("field", int_schema(1, 1))]);
    let model = obj(vec![("arr", Json::Arr(vec![elem]))]);
    let out = create_mock_response(&model);
    match lookup(&out, "arr").unwrap() {
        Json::Arr(items) => {
            assert_eq!(items.len(), 3);
            let expected = obj(vec![("field", Json::Int(1))]);
            for item in items {
                assert!(json_equal(item, &expected));
            }
        },
        other => panic!("expected an array, got {:?}", other),
    }
}

#[test]
fn array_generation_default_count_range() {
    let elem = obj(vec![("type", s("int")), ("min_value", Json::Int(0)), (
        "max_value",
        Json::Int(5),
    )]);
    let model = obj(vec![("arr", Json::Arr(vec![elem]))]);
    for _ in 0..10 {
        let out = create_mock_response(&model);
        match lookup(&out, "arr").unwrap() {
            Json::Arr(items) => assert!(items.len() >= 3 && items.len() <= 10),
            other => panic!("expected an array, got {:?}", other),
        }
    }
}

#[test]
fn bool_and_uuid_types() {
    let model = obj(vec![("b", obj(vec![("type", s("bool"))])), (
        "u",
        obj(vec![("type", s("uuid"))]),
    )]);
    let out = create_mock_response(&model);
    assert!(matches!(lookup(&out, "b").unwrap(), Json::Bool(_)));
    match lookup(&out, "u").unwrap() {
        Json::Str(u) => assert_eq!(u.chars().count(), 36),
        other => panic!("expected a string, got {:?}", other),
    }
}

#[test]
fn string_exact_length() {
    let model = obj(vec![("t", obj(vec![("type", s("string")), ("length", Json::Int(12))]))]);
    let out = create_mock_response(&model);
    match lookup(&out, "t").unwrap() {
        Json::Str(t) => assert_eq!(t.chars().count(), 12),
        other => panic!("expected a string, got {:?}", other),
    }
}

#[test]
fn regex_fields_follow_the_pattern() {
    let model = obj(vec![(
        "code",
        obj(vec![("type", s("regex")), ("regex", s(r"ab\d{2}"))]),
    )]);
    for _ in 0..20 {
        let out = create_mock_response(&model);
        match lookup(&out, "code").unwrap() {
            Json::Str(v) => {
                assert_eq!(v.chars().count(), 4);
                assert!(v.starts_with("ab"));
                assert!(v.chars().skip(2).all(|c| c.is_ascii_digit()));
            },
            other => panic!("expected a string, got {:?}", other),
        }
    }
}

#[test]
fn fixture_form_data_matcher() {
    let f = Fixture {
        url: None,
        method: None,
        body: None,
        form_data: Some(obj(vec![("user", s("alice"))])),
        query: None,
        response: s("form-hit"),
    };
    let fixtures = vec![f];
    let form = obj(vec![("user", s("alice"))]);
    let r = find_fixture(&fixtures, "/up", "POST", &Json::Null, &Json::Null, &form);
    assert!(json_equal(r.unwrap(), &s("form-hit")));
    let wrong = obj(vec![("user", s("bob"))]);
    assert!(find_fixture(&fixtures, "/up", "POST", &Json::Null, &Json::Null, &wrong).is_none());
}

#[test]
fn permission_scenario() {
    let doc = AuthDoc {
        no_perm_response: s("document-denied"),
        groups: vec![Group {
            users: vec!["T1".to_string()],
            no_perm_response: Json::Null,
            has_perms: vec![("/items".to_string(), vec!["GET".to_string()])],
            no_perms: vec![],
        }],
    };
    let doc = Some(doc);
    assert!(auth_validator("T1", "/items", "GET", &doc).is_none());
    match auth_validator("T1", "/items", "POST", &doc) {
        Some(payload) => assert!(json_equal(payload, &s("document-denied"))),
        None => panic!("POST should be denied"),
    }
    match auth_validator("", "/items", "GET", &doc) {
        Some(payload) => assert!(json_equal(payload, &s("document-denied"))),
        None => panic!("an empty token should be denied"),
    }
    match auth_validator("T2", "/items", "GET", &doc) {
        Some(payload) => assert!(json_equal(payload, &s("document-denied"))),
        None => panic!("an unknown token should be denied"),
    }
}

#[test]
fn deny_rules_win_over_allow_rules() {
    let doc = Some(AuthDoc {
        no_perm_response: s("no"),
        groups: vec![Group {
            users: vec!["T1".to_string()],
            no_perm_response: s("group-no"),
            has_perms: vec![("*".to_string(), vec![])],
            no_perms: vec![("/secret".to_string(), vec![])],
        }],
    });
    assert!(auth_validator("T1", "/items", "GET", &doc).is_none());
    match auth_validator("T1", "/secret", "GET", &doc) {
        Some(payload) => assert!(json_equal(payload, &s("group-no"))),
        None => panic!("the deny rule should win"),
    }
}

#[test]
fn perm_table_lookup() {
    let perms = vec![("/a".to_string(), vec!["GET".to_string()])];
    assert!(is_has_perm("/a", "GET", &perms));
    assert!(!is_has_perm("/a", "POST", &perms));
    assert!(!is_has_perm("/b", "GET", &perms));
    let all = vec![("*".to_string(), vec![])];
    assert!(is_has_perm("/anything", "DELETE", &all));
    let star_methods = vec![("/a".to_string(), vec!["*".to_string()])];
    assert!(is_has_perm("/a", "PATCH", &star_methods));
}

#[test]
fn body_mode_classification() {
    assert_eq!(get_request_body_mode("GET", Some("application/json")), "");
    assert_eq!(get_request_body_mode("POST", Some("application/json")), "json");
    assert_eq!(
        get_request_body_mode("POST", Some("multipart/form-data; boundary=x")),
        "form-data"
    );
    assert_eq!(get_request_body_mode("POST", Some("text/plain")), "text");
    assert_eq!(get_request_body_mode("POST", Some("application/javascript")), "javascript");
    assert_eq!(get_request_body_mode("POST", Some("text/html")), "html");
    assert_eq!(get_request_body_mode("POST", Some("application/xml")), "xml");
    assert_eq!(get_request_body_mode("POST", Some("application/octet-stream")), "");
    assert_eq!(get_request_body_mode("POST", None), "");
}

#[test]
fn token_extraction() {
    assert_eq!(get_token_from_request(Some("Bearer abc")), "abc");
    assert_eq!(get_token_from_request(Some("Bearer  abc ")), "abc");
    assert_eq!(get_token_from_request(Some("Bearer Bearer x")), "x");
    assert_eq!(get_token_from_request(Some("plain")), "plain");
    assert_eq!(get_token_from_request(None), "");
}

#[test]
fn fixture_first_match_wins() {
    let first = Fixture {
        url: None,
        method: Some(MethodMatcher::One("GET".to_string())),
        body: None,
        form_data: None,
        query: None,
        response: s("first"),
    };
    let second = Fixture {
        url: None,
        method: Some(MethodMatcher::One("GET".to_string())),
        body: Some(obj(vec![("id", Json::Int(1))])),
        form_data: None,
        query: None,
        response: s("second"),
    };
    let fixtures = vec![first, second];
    let body = obj(vec![("id", Json::Int(1))]);
    let r = find_fixture(&fixtures, "/orders", "GET", &body, &Json::Null, &Json::Null);
    assert!(json_equal(r.unwrap(), &s("first")));
}

#[test]
fn fixture_method_list_and_body() {
    let f = Fixture {
        url: Some("/orders".to_string()),
        method: Some(MethodMatcher::Many(vec!["PUT".to_string(), "POST".to_string()])),
        body: Some(obj(vec![("id", Json::Int(1))])),
        form_data: None,
        query: None,
        response: s("hit"),
    };
    let fixtures = vec![f];
    let body = obj(vec![("id", Json::Int(1))]);
    let r = find_fixture(&fixtures, "/orders", "POST", &body, &Json::Null, &Json::Null);
    assert!(json_equal(r.unwrap(), &s("hit")));
    let wrong_body = obj(vec![("id", Json::Int(2))]);
    assert!(find_fixture(&fixtures, "/orders", "POST", &wrong_body, &Json::Null, &Json::Null)
        .is_none());
    assert!(find_fixture(&fixtures, "/orders", "GET", &body, &Json::Null, &Json::Null).is_none());
}

#[test]
fn route_pattern_segments() {
    assert!(route_matches("/users/{id}", "/users/7"));
    assert!(route_matches("/users", "/users"));
    assert!(!route_matches("/users/{id}", "/users/7/posts"));
    assert!(!route_matches("/users/{id}", "/items/7"));
}

#[test]
fn query_coercion() {
    let api_query = obj(vec![
        ("page", obj(vec![("type", s("int"))])),
        ("ratio", obj(vec![("type", s("float"))])),
        ("name", obj(vec![])),
    ]);
    let request = obj(vec![
        ("page", s("42")),
        ("ratio", s("1.50")),
        ("name", s("bob")),
        ("extra", s("x")),
    ]);
    let coerced = parse_request_query_to_api_query_format(&request, &api_query);
    let expected = obj(vec![
        ("page", Json::Int(42)),
        ("ratio", Json::Dec(Dec { units: 150, places: 2 })),
        ("name", s("bob")),
    ]);
    assert!(json_equal(&coerced, &expected));
}

#[test]
fn query_coercion_drops_unparsable() {
    let api_query = obj(vec![("page", obj(vec![("type", s("int"))]))]);
    let request = obj(vec![("page", s("not-a-number"))]);
    let coerced = parse_request_query_to_api_query_format(&request, &api_query);
    assert!(json_equal(&coerced, &obj(vec![])));
}

#[test]
fn query_passthrough_without_schema() {
    let request = obj(vec![("a", s("1"))]);
    let coerced = parse_request_query_to_api_query_format(&request, &Json::Null);
    assert!(json_equal(&coerced, &request));
}

fn orders_route(auth: bool, fixtures: Vec<Fixture>) -> RouteEntry {
    RouteEntry {
        pattern: "/orders".to_string(),
        methods: vec![("GET".to_string(), RouteDefinition {
            auth,
            query: Json::Null,
            response: obj(vec![("id", int_schema(1, 1))]),
            test_data: fixtures,
        })],
    }
}

#[test]
fn resolver_no_route_error() {
    let routes = vec![orders_route(false, vec![])];
    let r = find_response_data(&routes, &None, "/nope", "GET", "", &Json::Null, &Json::Null,
        &Json::Null);
    match r.get("msg") {
        Some(Json::Str(m)) => assert_eq!(m, "no api url match"),
        other => panic!("expected an error body, got {:?}", other),
    }
    assert!(json_equal(r.get("code").unwrap(), &Json::Int(-1)));
}

#[test]
fn resolver_method_not_defined() {
    let routes = vec![orders_route(false, vec![])];
    let r = find_response_data(&routes, &None, "/orders", "POST", "", &Json::Null, &Json::Null,
        &Json::Null);
    match r.get("msg") {
        Some(Json::Str(m)) => assert_eq!(m, "method not defined"),
        other => panic!("expected an error body, got {:?}", other),
    }
}

#[test]
fn resolver_wildcard_method() {
    let routes = vec![RouteEntry {
        pattern: "/any".to_string(),
        methods: vec![("*".to_string(), RouteDefinition {
            auth: false,
            query: Json::Null,
            response: obj(vec![("id", int_schema(5, 5))]),
            test_data: vec![],
        })],
    }];
    let r = find_response_data(&routes, &None, "/any", "DELETE", "", &Json::Null, &Json::Null,
        &Json::Null);
    assert!(json_equal(r.get("id").unwrap(), &Json::Int(5)));
}

#[test]
fn resolver_fixture_precedence() {
    let first = Fixture {
        url: None,
        method: Some(MethodMatcher::One("GET".to_string())),
        body: None,
        form_data: None,
        query: None,
        response: s("first"),
    };
    let second = Fixture {
        url: None,
        method: Some(MethodMatcher::One("GET".to_string())),
        body: Some(obj(vec![("id", Json::Int(1))])),
        form_data: None,
        query: None,
        response: s("second"),
    };
    let routes = vec![orders_route(false, vec![first, second])];
    let body = obj(vec![("id", Json::Int(1))]);
    let r = find_response_data(&routes, &None, "/orders", "GET", "", &body, &Json::Null,
        &Json::Null);
    assert!(json_equal(&r, &s("first")));
}

#[test]
fn resolver_generates_when_no_fixture_matches() {
    let routes = vec![orders_route(false, vec![])];
    let r = find_response_data(&routes, &None, "/orders", "GET", "", &Json::Null, &Json::Null,
        &Json::Null);
    assert!(json_equal(r.get("id").unwrap(), &Json::Int(1)));
}

#[test]
fn resolver_coerces_query_before_fixture_matching() {
    let fixture = Fixture {
        url: None,
        method: None,
        body: None,
        form_data: None,
        query: Some(obj(vec![("page", Json::Int(7))])),
        response: s("page-seven"),
    };
    let routes = vec![RouteEntry {
        pattern: "/list".to_string(),
        methods: vec![("GET".to_string(), RouteDefinition {
            auth: false,
            query: obj(vec![("page", obj(vec![("type", s("int"))]))]),
            response: obj(vec![("id", int_schema(1, 1))]),
            test_data: vec![fixture],
        })],
    }];
    // the raw query arrives as strings; coercion turns "7" into 7
    let raw = obj(vec![("page", s("7"))]);
    let r = find_response_data(&routes, &None, "/list", "GET", "", &Json::Null, &raw, &Json::Null);
    assert!(json_equal(&r, &s("page-seven")));
    // an unmatched page falls through to generation
    let other = obj(vec![("page", s("8"))]);
    let r2 = find_response_data(&routes, &None, "/list", "GET", "", &Json::Null, &other,
        &Json::Null);
    assert!(json_equal(r2.get("id").unwrap(), &Json::Int(1)));
}

#[test]
fn date_fields_are_formatted() {
    let model = obj(vec![
        ("d", obj(vec![("type", s("date"))])),
        ("dt", obj(vec![("type", s("datetime"))])),
    ]);
    let out = create_mock_response(&model);
    match lookup(&out, "d").unwrap() {
        Json::Str(d) => {
            assert_eq!(d.chars().count(), 10);
            let cs: Vec<char> = d.chars().collect();
            assert_eq!(cs[4], '-');
            assert_eq!(cs[7], '-');
        },
        other => panic!("expected a string, got {:?}", other),
    }
    match lookup(&out, "dt").unwrap() {
        Json::Str(dt) => assert_eq!(dt.chars().count(), 19),
        other => panic!("expected a string, got {:?}", other),
    }
}

#[test]
fn resolver_denies_without_token() {
    let doc = Some(AuthDoc { no_perm_response: s("denied"), groups: vec![] });
    let routes = vec![orders_route(true, vec![])];
    let r = find_response_data(&routes, &doc, "/orders", "GET", "", &Json::Null, &Json::Null,
        &Json::Null);
    assert!(json_equal(&r, &s("denied")));
}

#[test]
fn resolver_replay_is_deterministic() {
    let f = Fixture {
        url: None,
        method: Some(MethodMatcher::One("GET".to_string())),
        body: None,
        form_data: None,
        query: None,
        response: s("stable"),
    };
    let routes = vec![orders_route(false, vec![f])];
    let first = find_response_data(&routes, &None, "/orders", "GET", "", &Json::Null, &Json::Null,
        &Json::Null);
    for _ in 0..10 {
        let again = find_response_data(&routes, &None, "/orders", "GET", "", &Json::Null,
            &Json::Null, &Json::Null);
        assert!(json_equal(&first, &again));
    }
}

#[test]
fn deep_equality_through_fixture_matching() {
    let empty_obj_matcher = Fixture {
        url: None,
        method: None,
        body: Some(obj(vec![])),
        form_data: None,
        query: None,
        response: s("empty-body"),
    };
    let fixtures = vec![empty_obj_matcher];
    // a null body counts as an empty object under the deep-equality rule
    let r = find_fixture(&fixtures, "/x", "GET", &Json::Null, &Json::Null, &Json::Null);
    assert!(json_equal(r.unwrap(), &s("empty-body")));
    let nonempty = obj(vec![("a", Json::Int(1))]);
    assert!(find_fixture(&fixtures, "/x", "GET", &nonempty, &Json::Null, &Json::Null).is_none());
    assert!(is_value_equal(&Json::Null, &obj(vec![])));
}
