use release_sanity_checker::diff::{compute_differences, find_json_differences, Difference};
use release_sanity_checker::json::{json_eq, JsonValue};
use release_sanity_checker::render::{format_value, render_json};
use release_sanity_checker::response::{HttpResponseData, ParsedBody};

fn object_of(pairs: Vec<(&str, JsonValue)>) -> JsonValue {
    let mut value = JsonValue::empty_object();
    for (k, v) in pairs {
        value = value.insert(k.to_string(), v);
    }
    value
}

fn number_of(n: i64) -> JsonValue {
    JsonValue::Number(n.to_string())
}

fn text_of(s: &str) -> JsonValue {
    JsonValue::Text(s.to_string())
}

fn json_response(status_code: u16, json: JsonValue) -> HttpResponseData {
    HttpResponseData {
        status_code,
        headers: vec![("Content-Type".to_string(), "application/json".to_string())],
        body: ParsedBody {
            raw: String::new(),
            json: Some(json),
        },
    }
}

fn nest(levels: usize, inner: JsonValue) -> JsonValue {
    let mut v = inner;
    for _ in 0..levels {
        v = object_of(vec![("k", v)]);
    }
    v
}

#[test]
fn test_object_builder_is_order_insensitive() {
    let a = JsonValue::empty_object()
        .insert("b".to_string(), number_of(2))
        .insert("a".to_string(), number_of(1));
    let b = JsonValue::empty_object()
        .insert("a".to_string(), number_of(1))
        .insert("b".to_string(), number_of(2));
    assert!(json_eq(&a, &b));
    assert_eq!(render_json(&a), "{\"a\":1,\"b\":2}");

    // Inserting an existing key replaces its value.
    let c = a.insert("a".to_string(), number_of(9));
    assert_eq!(render_json(&c), "{\"a\":9,\"b\":2}");
}

#[test]
fn test_self_diff_is_empty() {
    let doc = object_of(vec![
        ("name", text_of("x")),
        (
            "items",
            JsonValue::Array(vec![number_of(1), object_of(vec![("a", text_of("b"))])]),
        ),
        ("nested", nest(4, number_of(7))),
    ]);
    let r = HttpResponseData {
        status_code: 201,
        headers: vec![
            ("Content-Type".to_string(), "application/json".to_string()),
            ("X-Extra".to_string(), "yes".to_string()),
        ],
        body: ParsedBody {
            raw: "irrelevant".to_string(),
            json: Some(doc),
        },
    };
    let differences = compute_differences(&r, &r, false, None);
    assert_eq!(differences.len(), 0);
}

#[test]
fn test_scalar_array_permutation_is_empty() {
    let r1 = json_response(
        200,
        object_of(vec![(
            "xs",
            JsonValue::Array(vec![number_of(1), number_of(2), number_of(2), number_of(3)]),
        )]),
    );
    let r2 = json_response(
        200,
        object_of(vec![(
            "xs",
            JsonValue::Array(vec![number_of(3), number_of(2), number_of(1), number_of(2)]),
        )]),
    );
    let differences = compute_differences(&r1, &r2, false, None);
    assert_eq!(differences.len(), 0);
}

#[test]
fn test_array_multiset_counts() {
    // [1, 1, 2] vs [2, 2]: the value 1 loses two occurrences, the value 2
    // gains one; one fact per excess occurrence.
    let r1 = json_response(
        200,
        object_of(vec![(
            "xs",
            JsonValue::Array(vec![number_of(1), number_of(1), number_of(2)]),
        )]),
    );
    let r2 = json_response(
        200,
        object_of(vec![("xs", JsonValue::Array(vec![number_of(2), number_of(2)]))]),
    );
    let differences = compute_differences(&r1, &r2, false, None);
    assert_eq!(differences.len(), 4);
    assert!(differences.iter().any(|d| matches!(
        d,
        Difference::ArrayLengthChanged { old_len: 3, new_len: 2, .. }
    )));
    let removed = differences
        .iter()
        .filter(|d| matches!(d, Difference::ArrayElementRemoved { value, .. } if value == "1"))
        .count();
    assert_eq!(removed, 2, "one removed fact per excess occurrence of 1");
    let added = differences
        .iter()
        .filter(|d| matches!(d, Difference::ArrayElementAdded { value, .. } if value == "2"))
        .count();
    assert_eq!(added, 1, "one added fact for the extra 2");
}

#[test]
fn test_type_mismatch_is_changed_fact() {
    let r1 = json_response(200, object_of(vec![("v", number_of(1))]));
    let r2 = json_response(
        200,
        object_of(vec![("v", JsonValue::Array(vec![number_of(1)]))]),
    );
    let differences = compute_differences(&r1, &r2, false, None);
    assert_eq!(differences.len(), 1);
    if let Difference::BodyValueChanged { path, old_val, new_val } = &differences[0] {
        assert_eq!(path, "v");
        assert_eq!(old_val, "1");
        assert_eq!(new_val, "[1]");
    } else {
        panic!("Expected BodyValueChanged difference");
    }
}

#[test]
fn test_depth_bound_cuts_deep_divergence() {
    // The divergence sits under eleven object levels: one past the bound.
    let r1 = json_response(200, nest(11, number_of(1)));
    let r2 = json_response(200, nest(11, number_of(2)));
    let differences = compute_differences(&r1, &r2, false, None);
    assert_eq!(differences.len(), 0);

    // At exactly ten levels the divergence is still reported.
    let r1 = json_response(200, nest(10, number_of(1)));
    let r2 = json_response(200, nest(10, number_of(2)));
    let differences = compute_differences(&r1, &r2, false, None);
    assert_eq!(differences.len(), 1);
    if let Difference::BodyValueChanged { path, .. } = &differences[0] {
        assert_eq!(path, "k/k/k/k/k/k/k/k/k/k");
    } else {
        panic!("Expected BodyValueChanged difference");
    }
}

#[test]
fn test_ignore_path_segment_boundaries() {
    // Ignoring /a/b suppresses /a/b and /a/b/c, but neither /a/bc nor the
    // rest of /a.
    let r1 = json_response(
        200,
        object_of(vec![(
            "a",
            object_of(vec![
                ("b", object_of(vec![("c", number_of(1))])),
                ("bc", number_of(3)),
            ]),
        )]),
    );
    let r2 = json_response(
        200,
        object_of(vec![(
            "a",
            object_of(vec![
                ("b", object_of(vec![("c", number_of(2))])),
                ("bc", number_of(4)),
            ]),
        )]),
    );
    let ignored = vec!["/a/b".to_string()];
    let differences = compute_differences(&r1, &r2, false, Some(&ignored));
    assert_eq!(differences.len(), 1);
    if let Difference::BodyValueChanged { path, old_val, new_val } = &differences[0] {
        assert_eq!(path, "a/bc");
        assert_eq!(old_val, "3");
        assert_eq!(new_val, "4");
    } else {
        panic!("Expected BodyValueChanged difference");
    }
}

#[test]
fn test_ignore_path_trailing_slash_normalized() {
    let r1 = json_response(200, object_of(vec![("id", number_of(1)), ("v", number_of(5))]));
    let r2 = json_response(200, object_of(vec![("id", number_of(2)), ("v", number_of(6))]));
    let ignored = vec!["/id/".to_string()];
    let differences = compute_differences(&r1, &r2, false, Some(&ignored));
    assert_eq!(differences.len(), 1);
    assert!(matches!(&differences[0], Difference::BodyValueChanged { path, .. } if path == "v"));
}

#[test]
fn test_ignored_added_and_removed_keys() {
    // An ignored path suppresses added and removed keys under it as well.
    let r1 = json_response(
        200,
        object_of(vec![("meta", object_of(vec![("gone", number_of(1))])), ("v", number_of(1))]),
    );
    let r2 = json_response(
        200,
        object_of(vec![("meta", object_of(vec![("new", number_of(2))])), ("v", number_of(1))]),
    );
    let ignored = vec!["/meta".to_string()];
    let differences = compute_differences(&r1, &r2, false, Some(&ignored));
    assert_eq!(differences.len(), 0);
}

#[test]
fn test_string_preview_truncated_at_fifty_chars() {
    let long = "x".repeat(60);
    let v = text_of(&long);
    let preview = format_value(&v, 50);
    assert_eq!(preview, format!("\"{}...\"", "x".repeat(50)));

    let short = text_of("short");
    assert_eq!(format_value(&short, 50), "\"short\"");
}

#[test]
fn test_collection_previews_collapse() {
    let big_array = JsonValue::Array(vec![
        number_of(1),
        number_of(2),
        number_of(3),
        number_of(4),
    ]);
    assert_eq!(format_value(&big_array, 50), "Array[4]");

    let small_array = JsonValue::Array(vec![number_of(1), number_of(2)]);
    assert_eq!(format_value(&small_array, 50), "[1,2]");

    let big_object = object_of(vec![
        ("a", number_of(1)),
        ("b", number_of(2)),
        ("c", number_of(3)),
    ]);
    assert_eq!(format_value(&big_object, 50), "Object{3keys}");

    let small_object = object_of(vec![("a", number_of(1)), ("b", number_of(2))]);
    assert_eq!(format_value(&small_object, 50), "{\"a\":1,\"b\":2}");
}

#[test]
fn test_render_json_escapes_strings() {
    let v = object_of(vec![("s", text_of("a\"b\\c\nd"))]);
    assert_eq!(render_json(&v), "{\"s\":\"a\\\"b\\\\c\\nd\"}");

    let control = text_of("\u{1}");
    assert_eq!(render_json(&control), "\"\\u0001\"");

    assert_eq!(render_json(&JsonValue::Null), "null");
    assert_eq!(render_json(&JsonValue::Bool(true)), "true");
    assert_eq!(render_json(&JsonValue::Bool(false)), "false");
    assert_eq!(render_json(&JsonValue::Array(vec![])), "[]");
    assert_eq!(render_json(&object_of(vec![])), "{}");
}

#[test]
fn test_header_values_truncated_at_three_hundred() {
    let long1 = "a".repeat(400);
    let long2 = "b".repeat(350);
    let r1 = HttpResponseData {
        status_code: 200,
        headers: vec![("X-Big".to_string(), long1)],
        body: ParsedBody {
            raw: String::new(),
            json: None,
        },
    };
    let r2 = HttpResponseData {
        status_code: 200,
        headers: vec![("X-Big".to_string(), long2)],
        body: ParsedBody {
            raw: String::new(),
            json: None,
        },
    };
    let differences = compute_differences(&r1, &r2, false, None);
    assert_eq!(differences.len(), 1);
    if let Difference::HeaderValueChanged { old_val, new_val, .. } = &differences[0] {
        assert_eq!(old_val, &"a".repeat(300));
        assert_eq!(new_val, &"b".repeat(300));
    } else {
        panic!("Expected HeaderValueChanged difference");
    }

    // Below the cap, both previews are cut to the shorter value's length.
    let r1 = HttpResponseData {
        status_code: 200,
        headers: vec![("X-Short".to_string(), "abcdef".to_string())],
        body: ParsedBody {
            raw: String::new(),
            json: None,
        },
    };
    let r2 = HttpResponseData {
        status_code: 200,
        headers: vec![("X-Short".to_string(), "xyz".to_string())],
        body: ParsedBody {
            raw: String::new(),
            json: None,
        },
    };
    let differences = compute_differences(&r1, &r2, false, None);
    assert_eq!(differences.len(), 1);
    if let Difference::HeaderValueChanged { old_val, new_val, .. } = &differences[0] {
        assert_eq!(old_val, "abc");
        assert_eq!(new_val, "xyz");
    } else {
        panic!("Expected HeaderValueChanged difference");
    }
}

#[test]
fn test_find_json_differences_accumulates() {
    let a = object_of(vec![("x", number_of(1))]);
    let b = object_of(vec![("x", number_of(2))]);
    let mut differences: Vec<Difference> = Vec::new();
    find_json_differences("root", &a, &b, &mut differences, 10, 0, None);
    assert_eq!(differences.len(), 1);
    assert!(matches!(&differences[0], Difference::BodyValueChanged { path, .. } if path == "root/x"));

    // A second call appends after what is already there.
    find_json_differences("other", &a, &b, &mut differences, 10, 0, None);
    assert_eq!(differences.len(), 2);
    assert!(matches!(&differences[1], Difference::BodyValueChanged { path, .. } if path == "other/x"));
}

#[test]
fn test_json_eq_object_order_insensitive_after_sorting() {
    let a = object_of(vec![("x", number_of(1)), ("y", number_of(2))]);
    let b = object_of(vec![("y", number_of(2)), ("x", number_of(1))]);
    assert!(json_eq(&a, &b));
    let c = object_of(vec![("x", number_of(1)), ("y", number_of(3))]);
    assert!(!json_eq(&a, &c));
}

#[test]
fn test_equal_raw_bodies_never_differ() {
    // The fallback compares the raw strings alone: equal raw bodies yield
    // no fact even when only one side parsed as JSON.
    let raw = "{\"a\":1}";
    let r1 = HttpResponseData {
        status_code: 200,
        headers: Vec::new(),
        body: ParsedBody {
            raw: raw.to_string(),
            json: Some(object_of(vec![("a", number_of(1))])),
        },
    };
    let r2 = HttpResponseData {
        status_code: 200,
        headers: Vec::new(),
        body: ParsedBody {
            raw: raw.to_string(),
            json: None,
        },
    };
    let differences = compute_differences(&r1, &r2, false, None);
    assert_eq!(differences.len(), 0);
}

#[test]
fn test_body_string_fact_carries_bounded_previews() {
    // The whole-string fact holds at most a hundred characters per side.
    let long1 = "x".repeat(150);
    let long2 = "y".repeat(150);
    let r1 = HttpResponseData {
        status_code: 200,
        headers: Vec::new(),
        body: ParsedBody {
            raw: long1,
            json: None,
        },
    };
    let r2 = HttpResponseData {
        status_code: 200,
        headers: Vec::new(),
        body: ParsedBody {
            raw: long2,
            json: None,
        },
    };
    let differences = compute_differences(&r1, &r2, false, None);
    assert_eq!(differences.len(), 1);
    if let Difference::DifferentBodyString { before, after } = &differences[0] {
        assert_eq!(before, &"x".repeat(100));
        assert_eq!(after, &"y".repeat(100));
    } else {
        panic!("Expected DifferentBodyString difference");
    }
}

#[test]
fn test_mixed_body_presence_reports_string_difference() {
    // One side parsed as JSON, the other did not: the raw bodies decide.
    let r1 = HttpResponseData {
        status_code: 200,
        headers: Vec::new(),
        body: ParsedBody {
            raw: "{\"a\":1}".to_string(),
            json: Some(object_of(vec![("a", number_of(1))])),
        },
    };
    let r2 = HttpResponseData {
        status_code: 200,
        headers: Vec::new(),
        body: ParsedBody {
            raw: "plain".to_string(),
            json: None,
        },
    };
    let differences = compute_differences(&r1, &r2, false, None);
    assert_eq!(differences.len(), 1);
    if let Difference::DifferentBodyString { before, after } = &differences[0] {
        assert_eq!(before, "{\"a\":1}");
        assert_eq!(after, "plain");
    } else {
        panic!("Expected DifferentBodyString difference");
    }
}
