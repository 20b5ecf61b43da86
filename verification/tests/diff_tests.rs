use release_sanity_checker::diff::{compute_differences, Difference};
use release_sanity_checker::json::JsonValue;
use release_sanity_checker::response::{HttpResponseData, ParsedBody};

fn obj(pairs: Vec<(&str, JsonValue)>) -> JsonValue {
    let mut value = JsonValue::empty_object();
    for (k, v) in pairs {
        value = value.insert(k.to_string(), v);
    }
    value
}

fn arr(items: Vec<JsonValue>) -> JsonValue {
    JsonValue::Array(items)
}

fn num(n: i64) -> JsonValue {
    JsonValue::Number(n.to_string())
}

fn txt(s: &str) -> JsonValue {
    JsonValue::Text(s.to_string())
}

fn flag(b: bool) -> JsonValue {
    JsonValue::Bool(b)
}

fn make_json_response(status_code: u16, json: JsonValue) -> HttpResponseData {
    HttpResponseData {
        status_code,
        headers: vec![("Content-Type".to_string(), "application/json".to_string())],
        body: ParsedBody {
            raw: String::new(),
            json: Some(json),
        },
    }
}

fn plain_response(status_code: u16, raw: &str) -> HttpResponseData {
    HttpResponseData {
        status_code,
        headers: Vec::new(),
        body: ParsedBody {
            raw: raw.to_string(),
            json: None,
        },
    }
}

#[test]
fn test_status_code_difference() {
    let response1 = plain_response(200, "");
    let response2 = plain_response(404, "");

    let differences = compute_differences(&response1, &response2, false, None);

    assert_eq!(differences.len(), 1);
    assert!(matches!(
        differences[0],
        Difference::StatusCodeChanged {
            old_val: 200,
            new_val: 404,
        }
    ));
}

#[test]
fn test_header_differences() {
    let headers1 = vec![
        ("Content-Type".to_string(), "application/json".to_string()),
        ("X-Test-Header".to_string(), "value1".to_string()),
    ];
    let headers2 = vec![
        ("Content-Type".to_string(), "application/xml".to_string()),
        ("Authorization".to_string(), "Bearer token".to_string()),
    ];

    let response1 = HttpResponseData {
        status_code: 200,
        headers: headers1,
        body: ParsedBody {
            raw: "".to_string(),
            json: None,
        },
    };

    let response2 = HttpResponseData {
        status_code: 200,
        headers: headers2,
        body: ParsedBody {
            raw: "".to_string(),
            json: None,
        },
    };

    let differences = compute_differences(&response1, &response2, false, None);

    assert_eq!(differences.len(), 3);

    let mut found_changed = false;
    let mut found_removed = false;
    let mut found_added = false;

    for diff in differences {
        match diff {
            Difference::HeaderValueChanged {
                header_name,
                old_val,
                new_val,
            } => {
                assert_eq!(header_name, "Content-Type");
                // Reported values are cut to the shorter value's length
                // (here fifteen characters); equality is on full values.
                assert_eq!(old_val, "application/jso");
                assert_eq!(new_val, "application/xml");
                found_changed = true;
            }
            Difference::HeaderValueRemoved { header_name } => {
                assert_eq!(header_name, "X-Test-Header");
                found_removed = true;
            }
            Difference::HeaderValueAdded { header_name } => {
                assert_eq!(header_name, "Authorization");
                found_added = true;
            }
            _ => panic!("Unexpected difference type"),
        }
    }

    assert!(found_changed, "Missing header value changed difference");
    assert!(found_removed, "Missing header value removed difference");
    assert!(found_added, "Missing header value added difference");
}

#[test]
fn test_headers_ignored() {
    let headers1 = vec![("Content-Type".to_string(), "application/json".to_string())];
    let headers2 = vec![("Content-Type".to_string(), "application/xml".to_string())];

    let response1 = HttpResponseData {
        status_code: 200,
        headers: headers1,
        body: ParsedBody {
            raw: "".to_string(),
            json: None,
        },
    };

    let response2 = HttpResponseData {
        status_code: 200,
        headers: headers2,
        body: ParsedBody {
            raw: "".to_string(),
            json: None,
        },
    };

    let differences = compute_differences(&response1, &response2, true, None);

    assert_eq!(
        differences.len(),
        0,
        "Differences found when headers should be ignored"
    );
}

#[test]
fn test_json_body_value_changed() {
    let response1 = make_json_response(200, obj(vec![("name", txt("John")), ("age", num(30))]));
    let response2 = make_json_response(200, obj(vec![("name", txt("John")), ("age", num(31))]));

    let differences = compute_differences(&response1, &response2, false, None);

    assert_eq!(differences.len(), 1);
    assert!(matches!(
        differences[0],
        Difference::BodyValueChanged {
            path: _,
            old_val: _,
            new_val: _,
        }
    ));

    if let Difference::BodyValueChanged {
        path,
        old_val,
        new_val,
    } = &differences[0]
    {
        assert_eq!(path, "age");
        assert_eq!(old_val, "30");
        assert_eq!(new_val, "31");
    }
}

#[test]
fn test_json_body_value_added_removed() {
    let response1 = make_json_response(
        200,
        obj(vec![("name", txt("John")), ("email", txt("john@example.com"))]),
    );
    let response2 = make_json_response(
        200,
        obj(vec![("name", txt("John")), ("phone", txt("555-1234"))]),
    );

    let differences = compute_differences(&response1, &response2, false, None);

    assert_eq!(differences.len(), 2);

    let mut found_removed = false;
    let mut found_added = false;

    for diff in differences {
        match diff {
            Difference::BodyValueRemoved { path, value } => {
                assert_eq!(path, "email");
                assert_eq!(value, "\"john@example.com\"");
                found_removed = true;
            }
            Difference::BodyValueAdded { path, value } => {
                assert_eq!(path, "phone");
                assert_eq!(value, "\"555-1234\"");
                found_added = true;
            }
            _ => panic!("Unexpected difference type"),
        }
    }

    assert!(found_removed, "Missing body value removed difference");
    assert!(found_added, "Missing body value added difference");
}

#[test]
fn test_nested_json_differences() {
    let response1 = make_json_response(
        200,
        obj(vec![(
            "user",
            obj(vec![("name", txt("John")), ("details", obj(vec![("age", num(30))]))]),
        )]),
    );
    let response2 = make_json_response(
        200,
        obj(vec![(
            "user",
            obj(vec![("name", txt("John")), ("details", obj(vec![("age", num(31))]))]),
        )]),
    );

    let differences = compute_differences(&response1, &response2, false, None);

    assert_eq!(differences.len(), 1);

    if let Difference::BodyValueChanged {
        path,
        old_val,
        new_val,
    } = &differences[0]
    {
        assert_eq!(path, "user/details/age");
        assert_eq!(old_val, "30");
        assert_eq!(new_val, "31");
    } else {
        panic!("Expected BodyValueChanged difference");
    }
}

#[test]
fn test_array_length_changed() {
    let response1 = make_json_response(200, obj(vec![("items", arr(vec![num(1), num(2), num(3)]))]));
    let response2 = make_json_response(
        200,
        obj(vec![("items", arr(vec![num(1), num(2), num(3), num(4), num(5)]))]),
    );

    let differences = compute_differences(&response1, &response2, false, None);

    // There should be 3 differences:
    // 1. Array length changed
    // 2. Element 4 added
    // 3. Element 5 added
    assert_eq!(differences.len(), 3);

    let mut found_length_change = false;
    let mut found_element_added = 0;

    for diff in &differences {
        match diff {
            Difference::ArrayLengthChanged {
                path,
                old_len,
                new_len,
            } => {
                assert_eq!(path, "items");
                assert_eq!(*old_len, 3);
                assert_eq!(*new_len, 5);
                found_length_change = true;
            }
            Difference::ArrayElementAdded { path, value } => {
                assert_eq!(path, "items[*]");
                assert!(value == "4" || value == "5");
                found_element_added += 1;
            }
            _ => panic!("Unexpected difference type: {:?}", diff),
        }
    }

    assert!(
        found_length_change,
        "Missing array length changed difference"
    );
    assert_eq!(found_element_added, 2, "Should have found 2 added elements");
}

#[test]
fn test_array_element_changed() {
    let response1 = make_json_response(
        200,
        obj(vec![(
            "users",
            arr(vec![
                obj(vec![("id", num(1)), ("name", txt("Alice"))]),
                obj(vec![("id", num(2)), ("name", txt("Bob"))]),
            ]),
        )]),
    );
    let response2 = make_json_response(
        200,
        obj(vec![(
            "users",
            arr(vec![
                obj(vec![("id", num(1)), ("name", txt("Alice"))]),
                obj(vec![("id", num(2)), ("name", txt("Bobby"))]),
            ]),
        )]),
    );

    let differences = compute_differences(&response1, &response2, false, None);

    // Order-independent array comparison should show:
    // 1. Element with "Bob" removed
    // 2. Element with "Bobby" added
    assert_eq!(differences.len(), 2);

    let mut found_removed = false;
    let mut found_added = false;

    for diff in &differences {
        match diff {
            Difference::ArrayElementRemoved { path, value } => {
                assert_eq!(path, "users[*]");
                assert!(value.contains("Bob"));
                assert!(!value.contains("Bobby"));
                found_removed = true;
            }
            Difference::ArrayElementAdded { path, value } => {
                assert_eq!(path, "users[*]");
                assert!(value.contains("Bobby"));
                found_added = true;
            }
            _ => panic!("Unexpected difference type: {:?}", diff),
        }
    }

    assert!(found_removed);
    assert!(found_added);
}

#[test]
fn test_array_order_changed() {
    let response1 = make_json_response(
        200,
        obj(vec![
            ("myKey1", txt("FooBar")),
            (
                "myKey2",
                arr(vec![
                    obj(vec![
                        ("nestedKey31", txt("nestedVal31")),
                        ("nestedKey32", flag(false)),
                        ("nestedKey33", num(6)),
                    ]),
                    obj(vec![
                        ("nestedKey11", txt("nestedVal11")),
                        ("nestedKey12", flag(false)),
                        ("nestedKey13", num(4)),
                    ]),
                    obj(vec![
                        ("nestedKey21", txt("nestedVal21")),
                        ("nestedKey22", flag(false)),
                        ("nestedKey23", num(5)),
                    ]),
                ]),
            ),
        ]),
    );

    let response2 = make_json_response(
        200,
        obj(vec![
            (
                "myKey2",
                arr(vec![
                    obj(vec![
                        ("nestedKey11", txt("nestedVal11")),
                        ("nestedKey12", flag(false)),
                        ("nestedKey13", num(4)),
                    ]),
                    obj(vec![
                        ("nestedKey21", txt("nestedVal21")),
                        ("nestedKey22", flag(false)),
                        ("nestedKey23", num(5)),
                    ]),
                    obj(vec![
                        ("nestedKey31", txt("nestedVal31")),
                        ("nestedKey32", flag(false)),
                        ("nestedKey33", num(6)),
                    ]),
                ]),
            ),
            ("myKey1", txt("FooBar")),
        ]),
    );

    let differences = compute_differences(&response1, &response2, false, None);
    assert_eq!(differences.len(), 0, "All differences should be ignored");

    // Now, let's change the value of two keys, the differences should be spotted...
    let response2 = make_json_response(
        200,
        obj(vec![
            (
                "myKey2",
                arr(vec![
                    obj(vec![
                        ("nestedKey11", txt("nestedVal11")),
                        ("nestedKey12", flag(true)),
                        ("nestedKey13", num(4)),
                    ]),
                    obj(vec![
                        ("nestedKey21", txt("nestedVal21")),
                        ("nestedKey22", flag(false)),
                        ("nestedKey23", num(5)),
                    ]),
                    obj(vec![
                        ("nestedKey31", txt("nestedVal31")),
                        ("nestedKey32", flag(false)),
                        ("nestedKey33", num(7)),
                    ]),
                ]),
            ),
            ("myKey1", txt("FooBar")),
        ]),
    );

    let differences = compute_differences(&response1, &response2, false, None);
    // Two element values left the multiset and two entered it: two removed
    // facts and two added facts.
    assert_eq!(differences.len(), 4, "The differences should be spotted");
}

#[test]
fn test_non_json_body_difference() {
    let response1 = plain_response(200, "Hello World");
    let response2 = plain_response(200, "Hello Universe");

    let differences = compute_differences(&response1, &response2, false, None);

    assert_eq!(differences.len(), 1);

    if let Difference::DifferentBodyString { before, after } = &differences[0] {
        assert_eq!(before, "Hello World");
        assert_eq!(after, "Hello Universe");
    } else {
        panic!("Expected DifferentBodyString difference");
    }
}

#[test]
fn test_ignored_paths() {
    let response1 = make_json_response(
        200,
        obj(vec![
            ("id", txt("123")),
            ("timestamp", txt("2023-01-01T12:00:00Z")),
            ("data", obj(vec![("name", txt("Test")), ("value", num(42))])),
        ]),
    );

    let response2 = make_json_response(
        200,
        obj(vec![
            ("id", txt("456")),
            ("timestamp", txt("2023-01-02T12:00:00Z")),
            ("data", obj(vec![("name", txt("Test")), ("value", num(42))])),
        ]),
    );

    // Create a set of paths to ignore
    let ignored_paths = vec!["/id".to_string(), "/timestamp".to_string()];

    let differences = compute_differences(&response1, &response2, false, Some(&ignored_paths));

    // Should find no differences since the only changes are in ignored paths
    assert_eq!(differences.len(), 0);

    // Now ignore only id, should still find timestamp difference
    let only_id_ignored = vec!["/id".to_string()];

    let differences = compute_differences(&response1, &response2, false, Some(&only_id_ignored));

    assert_eq!(differences.len(), 1);

    if let Difference::BodyValueChanged {
        path,
        old_val,
        new_val,
    } = &differences[0]
    {
        assert_eq!(path, "timestamp");
        assert_eq!(old_val, "\"2023-01-01T12:00:00Z\"");
        assert_eq!(new_val, "\"2023-01-02T12:00:00Z\"");
    } else {
        panic!("Expected BodyValueChanged difference");
    }
}

#[test]
fn test_empty_responses() {
    let empty_response1 = plain_response(200, "");
    let empty_response2 = plain_response(200, "");

    let differences = compute_differences(&empty_response1, &empty_response2, false, None);
    assert_eq!(
        differences.len(),
        0,
        "Empty responses should have no differences"
    );
}

#[test]
fn test_subpath_ignore() {
    let response1 = make_json_response(
        200,
        obj(vec![(
            "data",
            obj(vec![(
                "user",
                obj(vec![
                    ("id", txt("123")),
                    ("name", txt("Alice")),
                    (
                        "details",
                        obj(vec![("age", num(30)), ("email", txt("alice@example.com"))]),
                    ),
                ]),
            )]),
        )]),
    );

    let response2 = make_json_response(
        200,
        obj(vec![(
            "data",
            obj(vec![(
                "user",
                obj(vec![
                    ("id", txt("456")),
                    ("name", txt("Alice")),
                    (
                        "details",
                        obj(vec![("age", num(31)), ("email", txt("alice@example.com"))]),
                    ),
                ]),
            )]),
        )]),
    );

    // Ignore the entire user path
    let ignored_paths = vec!["/data/user".to_string()];

    let differences = compute_differences(&response1, &response2, false, Some(&ignored_paths));
    assert_eq!(differences.len(), 0, "All differences should be ignored");

    // Ignore just the user ID
    let only_id_ignored = vec!["/data/user/id".to_string()];

    let differences = compute_differences(&response1, &response2, false, Some(&only_id_ignored));
    assert_eq!(differences.len(), 1, "Should only find the age difference");

    if let Difference::BodyValueChanged {
        path,
        old_val,
        new_val,
    } = &differences[0]
    {
        assert_eq!(path, "data/user/details/age");
        assert_eq!(old_val, "30");
        assert_eq!(new_val, "31");
    } else {
        panic!("Expected BodyValueChanged difference");
    }
}
