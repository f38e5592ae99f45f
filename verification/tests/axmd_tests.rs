use axmd::decode::{decode_property_value, parse_axtree, DecodeError};
use axmd::encode::encode_property_value;
use axmd::json::Json;
use axmd::render::axtree_to_markdown;
use axmd::text::clean_whitespace;
use axmd::tree::{PropertyValueContent, RoleValueContent};

#[test]
fn test_parse_axtree() {
    let json = r#"{
        "nodes": [
            {
                "nodeId": "1",
                "role": {"type": "role", "value": "RootWebArea"},
                "childIds": ["2"],
                "ignored": false
            },
            {
                "nodeId": "2",
                "parentId": "1",
                "role": {"type": "role", "value": "heading"},
                "name": {"type": "computedString", "value": "Test Heading"},
                "childIds": ["-1"],
                "properties": [{"name": "level", "value": {"type": "integer", "value": 2}}]
            },
            {
                "nodeId": "-1",
                "parentId": "2",
                "role": {"type": "internalRole", "value": 158},
                "name": {"type": "computedString", "value": "Test Heading"}
            }
        ]
    }"#;

    let tree = parse_axtree(json).unwrap();
    assert_eq!(tree.nodes.len(), 3);
    assert!(tree.find_root().is_some());
}

#[test]
fn test_simple_heading() {
    let json = r#"{
        "nodes": [
            {
                "nodeId": "1",
                "role": {"type": "role", "value": "RootWebArea"},
                "childIds": ["2"],
                "ignored": false
            },
            {
                "nodeId": "2",
                "parentId": "1",
                "role": {"type": "role", "value": "heading"},
                "name": {"type": "computedString", "value": "Hello World"},
                "childIds": ["-1"],
                "properties": [{"name": "level", "value": {"type": "integer", "value": 1}}]
            },
            {
                "nodeId": "-1",
                "parentId": "2",
                "role": {"type": "internalRole", "value": 158},
                "name": {"type": "computedString", "value": "Hello World"}
            }
        ]
    }"#;

    let tree = parse_axtree(json).unwrap();
    let md = axtree_to_markdown(&tree);
    assert!(md.contains("# Hello World"));
}

#[test]
fn test_link_conversion() {
    let json = r#"{
        "nodes": [
            {
                "nodeId": "1",
                "role": {"type": "role", "value": "RootWebArea"},
                "childIds": ["2"],
                "ignored": false
            },
            {
                "nodeId": "2",
                "parentId": "1",
                "role": {"type": "role", "value": "link"},
                "name": {"type": "computedString", "value": "Click me"},
                "childIds": ["-1"],
                "properties": [{"name": "url", "value": {"type": "string", "value": "https://example.com"}}]
            },
            {
                "nodeId": "-1",
                "parentId": "2",
                "role": {"type": "internalRole", "value": 158},
                "name": {"type": "computedString", "value": "Click me"}
            }
        ]
    }"#;

    let tree = parse_axtree(json).unwrap();
    let md = axtree_to_markdown(&tree);
    assert!(md.contains("[Click me](https://example.com)"));
}

#[test]
fn test_paragraph_conversion() {
    let json = r#"{
        "nodes": [
            {
                "nodeId": "1",
                "role": {"type": "role", "value": "RootWebArea"},
                "childIds": ["2"],
                "ignored": false
            },
            {
                "nodeId": "2",
                "parentId": "1",
                "role": {"type": "role", "value": "paragraph"},
                "name": {"type": "computedString", "value": ""},
                "childIds": ["-1"]
            },
            {
                "nodeId": "-1",
                "parentId": "2",
                "role": {"type": "internalRole", "value": 158},
                "name": {"type": "computedString", "value": "This is a paragraph"}
            }
        ]
    }"#;

    let tree = parse_axtree(json).unwrap();
    let md = axtree_to_markdown(&tree);
    assert!(md.contains("This is a paragraph"));
}

#[test]
fn test_ignored_nodes() {
    let json = r#"{
        "nodes": [
            {
                "nodeId": "1",
                "role": {"type": "role", "value": "RootWebArea"},
                "childIds": ["2"],
                "ignored": false
            },
            {
                "nodeId": "2",
                "parentId": "1",
                "role": {"type": "role", "value": "none"},
                "childIds": ["3"],
                "ignored": true,
                "ignoredReasons": [{"name": "uninteresting", "value": {"type": "boolean", "value": true}}]
            },
            {
                "nodeId": "3",
                "parentId": "2",
                "role": {"type": "role", "value": "heading"},
                "name": {"type": "computedString", "value": "Visible Heading"},
                "childIds": ["-1"],
                "properties": [{"name": "level", "value": {"type": "integer", "value": 1}}]
            },
            {
                "nodeId": "-1",
                "parentId": "3",
                "role": {"type": "internalRole", "value": 158},
                "name": {"type": "computedString", "value": "Visible Heading"}
            }
        ]
    }"#;

    let tree = parse_axtree(json).unwrap();
    let md = axtree_to_markdown(&tree);
    assert!(md.contains("# Visible Heading"));
}

#[test]
fn test_heading_level_two() {
    let json = r#"{
        "nodes": [
            {"nodeId": "1", "role": {"type": "role", "value": "RootWebArea"}, "childIds": ["2"]},
            {
                "nodeId": "2",
                "parentId": "1",
                "role": {"type": "role", "value": "heading"},
                "name": {"type": "computedString", "value": "Test Heading"},
                "childIds": ["-1"],
                "properties": [{"name": "level", "value": {"type": "integer", "value": 2}}]
            },
            {
                "nodeId": "-1",
                "parentId": "2",
                "role": {"type": "internalRole", "value": 158},
                "name": {"type": "computedString", "value": "Test Heading"}
            }
        ]
    }"#;

    let tree = parse_axtree(json).unwrap();
    let md = axtree_to_markdown(&tree);
    assert!(md.contains("## Test Heading"));
}

#[test]
fn test_heading_level_clamped_to_six() {
    let json = r#"{
        "nodes": [
            {"nodeId": "1", "role": {"type": "role", "value": "RootWebArea"}, "childIds": ["2"]},
            {
                "nodeId": "2",
                "parentId": "1",
                "role": {"type": "role", "value": "heading"},
                "name": {"type": "computedString", "value": "Deep"},
                "properties": [{"name": "level", "value": {"type": "integer", "value": 9}}]
            }
        ]
    }"#;

    let tree = parse_axtree(json).unwrap();
    let md = axtree_to_markdown(&tree);
    assert!(md.contains("###### Deep"));
    assert!(!md.contains("####### Deep"));
}

#[test]
fn test_cycle_terminates() {
    let json = r#"{
        "nodes": [
            {"nodeId": "1", "role": {"type": "role", "value": "RootWebArea"}, "childIds": ["2"]},
            {
                "nodeId": "2",
                "parentId": "1",
                "role": {"type": "role", "value": "generic"},
                "childIds": ["3"]
            },
            {
                "nodeId": "3",
                "parentId": "2",
                "role": {"type": "role", "value": "generic"},
                "childIds": ["2"]
            }
        ]
    }"#;

    let tree = parse_axtree(json).unwrap();
    let md = axtree_to_markdown(&tree);
    assert_eq!(md, "");
}

#[test]
fn test_cycle_through_text_terminates() {
    let json = r#"{
        "nodes": [
            {"nodeId": "1", "role": {"type": "role", "value": "RootWebArea"}, "childIds": ["2"]},
            {
                "nodeId": "2",
                "parentId": "1",
                "role": {"type": "role", "value": "paragraph"},
                "name": {"type": "computedString", "value": "loop"},
                "childIds": ["3"]
            },
            {
                "nodeId": "3",
                "parentId": "2",
                "role": {"type": "role", "value": "generic"},
                "name": {"type": "computedString", "value": "inner"},
                "childIds": ["2"]
            }
        ]
    }"#;

    let tree = parse_axtree(json).unwrap();
    let md = axtree_to_markdown(&tree);
    assert!(md.contains("loop"));
}

#[test]
fn test_unknown_property_preserved() {
    let json = r#"{"type": "futurething", "value": 7, "extra": "kept"}"#;
    let parsed = axmd::jsontext::json_from_str(json).unwrap();
    let pv = decode_property_value(&parsed).unwrap();
    assert_eq!(pv.value_type, "futurething");
    match &pv.value {
        PropertyValueContent::Unknown(_) => {}
        other => panic!("expected a preserved unknown payload, got {:?}", other),
    }
    let encoded = encode_property_value(&pv);
    let pv2 = decode_property_value(&encoded).unwrap();
    assert_eq!(pv, pv2);
}

#[test]
fn test_recognized_round_trips() {
    let cases = [
        r#"{"type": "boolean", "value": true}"#,
        r#"{"type": "string", "value": "hi"}"#,
        r#"{"type": "integer", "value": -4}"#,
        r#"{"type": "token", "value": "main"}"#,
        r#"{"type": "nodeList", "value": ["1", "2"]}"#,
        r#"{"type": "tokenList", "value": ["a", "b"]}"#,
        r#"{"type": "booleanOrUndefined", "value": true}"#,
    ];
    for case in cases {
        let parsed = axmd::jsontext::json_from_str(case).unwrap();
        let pv = decode_property_value(&parsed).unwrap();
        let encoded = encode_property_value(&pv);
        let pv2 = decode_property_value(&encoded).unwrap();
        assert_eq!(pv, pv2, "round trip failed for {}", case);
    }
}

#[test]
fn test_property_defaults_on_missing_value() {
    let parsed = axmd::jsontext::json_from_str(r#"{"type": "integer"}"#).unwrap();
    let pv = decode_property_value(&parsed).unwrap();
    assert_eq!(pv.value, PropertyValueContent::Integer(0));

    let parsed = axmd::jsontext::json_from_str(r#"{"type": "string"}"#).unwrap();
    let pv = decode_property_value(&parsed).unwrap();
    assert_eq!(pv.value, PropertyValueContent::Str(String::new()));
}

#[test]
fn test_payload_shape_error() {
    let parsed = axmd::jsontext::json_from_str(r#"{"type": "integer", "value": "oops"}"#).unwrap();
    assert_eq!(decode_property_value(&parsed), Err(DecodeError::PayloadShape));
}

#[test]
fn test_structural_errors() {
    // Not JSON at all.
    assert_eq!(parse_axtree("not json"), Err(DecodeError::Structure));
    // Missing the nodes array.
    assert_eq!(parse_axtree(r#"{"other": 1}"#), Err(DecodeError::Structure));
    // A node without its required id.
    assert_eq!(
        parse_axtree(r#"{"nodes": [{"role": {"type": "role", "value": "generic"}}]}"#),
        Err(DecodeError::Structure)
    );
    // A node without its required role.
    assert_eq!(
        parse_axtree(r#"{"nodes": [{"nodeId": "1"}]}"#),
        Err(DecodeError::Structure)
    );
}

#[test]
fn test_token_list_liberal_decoding() {
    // An arbitrary array: strings stay, objects contribute their string
    // value field, and anything else is serialized.
    let parsed = axmd::jsontext::json_from_str(
        r#"{"type": "tokenList", "value": ["plain", {"value": "inner"}, 5]}"#,
    )
    .unwrap();
    let pv = decode_property_value(&parsed).unwrap();
    assert_eq!(
        pv.value,
        PropertyValueContent::TokenList(vec![
            "plain".to_string(),
            "inner".to_string(),
            "5".to_string()
        ])
    );

    // A non-array value is serialized into a one-element list.
    let parsed = axmd::jsontext::json_from_str(r#"{"type": "tokenList", "value": "x"}"#).unwrap();
    let pv = decode_property_value(&parsed).unwrap();
    assert_eq!(
        pv.value,
        PropertyValueContent::TokenList(vec!["\"x\"".to_string()])
    );
}

#[test]
fn test_clean_whitespace_idempotent() {
    let cases = [
        "a\n\n\nb",
        "\n\nlead",
        "text   \n\n\n\nmore\n\n",
        "",
        "   ",
        "one",
        "a\r\n\r\nb\r\n",
    ];
    for case in cases {
        let once = clean_whitespace(case);
        let twice = clean_whitespace(&once);
        assert_eq!(once, twice, "cleanup not idempotent on {:?}", case);
        assert!(!once.contains("\n\n\n"), "blank run left in {:?}", once);
        assert!(!once.ends_with(|c: char| c.is_whitespace()) || once.is_empty());
    }
    assert_eq!(clean_whitespace("a\n\n\nb"), "a\n\nb");
    assert_eq!(clean_whitespace("\n\nx\n"), "x");
}

#[test]
fn test_ignored_transparency() {
    // A tree with an ignored intermediate container...
    let with_container = r#"{
        "nodes": [
            {"nodeId": "1", "role": {"type": "role", "value": "RootWebArea"}, "childIds": ["2"]},
            {
                "nodeId": "2",
                "parentId": "1",
                "role": {"type": "role", "value": "none"},
                "childIds": ["3", "4"],
                "ignoredReasons": [{"name": "uninteresting", "value": {"type": "boolean", "value": true}}]
            },
            {
                "nodeId": "3",
                "parentId": "2",
                "role": {"type": "role", "value": "heading"},
                "name": {"type": "computedString", "value": "Title"},
                "properties": [{"name": "level", "value": {"type": "integer", "value": 1}}]
            },
            {
                "nodeId": "4",
                "parentId": "2",
                "role": {"type": "role", "value": "paragraph"},
                "name": {"type": "computedString", "value": "Body text"}
            }
        ]
    }"#;
    // ... and the same tree with the children reparented to the root.
    let without_container = r#"{
        "nodes": [
            {"nodeId": "1", "role": {"type": "role", "value": "RootWebArea"}, "childIds": ["3", "4"]},
            {
                "nodeId": "3",
                "parentId": "1",
                "role": {"type": "role", "value": "heading"},
                "name": {"type": "computedString", "value": "Title"},
                "properties": [{"name": "level", "value": {"type": "integer", "value": 1}}]
            },
            {
                "nodeId": "4",
                "parentId": "1",
                "role": {"type": "role", "value": "paragraph"},
                "name": {"type": "computedString", "value": "Body text"}
            }
        ]
    }"#;

    let a = axtree_to_markdown(&parse_axtree(with_container).unwrap());
    let b = axtree_to_markdown(&parse_axtree(without_container).unwrap());
    assert_eq!(a, b);
    assert!(a.contains("# Title"));
}

#[test]
fn test_footer_and_separator() {
    let json = r#"{
        "nodes": [
            {"nodeId": "1", "role": {"type": "role", "value": "RootWebArea"}, "childIds": ["2", "3"]},
            {
                "nodeId": "2",
                "parentId": "1",
                "role": {"type": "role", "value": "separator"},
                "properties": [{"name": "level", "value": {"type": "integer", "value": 1}}]
            },
            {
                "nodeId": "3",
                "parentId": "1",
                "role": {"type": "role", "value": "contentinfo"},
                "childIds": ["4"]
            },
            {
                "nodeId": "4",
                "parentId": "3",
                "role": {"type": "role", "value": "paragraph"},
                "name": {"type": "computedString", "value": "fine print"}
            }
        ]
    }"#;

    let tree = parse_axtree(json).unwrap();
    let md = axtree_to_markdown(&tree);
    assert!(md.contains("---"));
    assert!(md.contains("--- Footer ---"));
    assert!(md.contains("fine print"));
}

#[test]
fn test_image_and_button_and_list() {
    let json = r#"{
        "nodes": [
            {"nodeId": "1", "role": {"type": "role", "value": "RootWebArea"}, "childIds": ["2", "3", "4"]},
            {
                "nodeId": "2",
                "parentId": "1",
                "role": {"type": "role", "value": "image"},
                "properties": [
                    {"name": "alt", "value": {"type": "string", "value": "a cat"}},
                    {"name": "url", "value": {"type": "string", "value": "cat.png"}}
                ]
            },
            {
                "nodeId": "3",
                "parentId": "1",
                "role": {"type": "role", "value": "button"},
                "name": {"type": "computedString", "value": "Press"}
            },
            {
                "nodeId": "4",
                "parentId": "1",
                "role": {"type": "role", "value": "list"},
                "childIds": ["5"]
            },
            {
                "nodeId": "5",
                "parentId": "4",
                "role": {"type": "role", "value": "listItem"},
                "name": {"type": "computedString", "value": "first entry"}
            }
        ]
    }"#;

    let tree = parse_axtree(json).unwrap();
    let md = axtree_to_markdown(&tree);
    assert!(md.contains("![a cat](cat.png)"));
    assert!(md.contains("[Press](button)"));
    assert!(md.contains("- first entry"));
}

#[test]
fn test_index_operations() {
    let json = r#"{
        "nodes": [
            {"nodeId": "1", "role": {"type": "role", "value": "RootWebArea"}, "childIds": ["2"]},
            {"nodeId": "2", "parentId": "1", "role": {"type": "internalRole", "value": 158}}
        ]
    }"#;
    let tree = parse_axtree(json).unwrap();
    let root = tree.find_root().unwrap();
    assert_eq!(root.node_id, "1");
    let two = tree.find_node(&"2".to_string()).unwrap();
    assert_eq!(two.parent_id.as_deref(), Some("1"));
    assert!(tree.find_node(&"9".to_string()).is_none());
    let kids = tree.get_children(&"1".to_string());
    assert_eq!(kids.len(), 1);
    assert_eq!(kids[0].node_id, "2");
    assert!(!tree.is_ignored(root));
    assert!(tree.is_internal_role(&two.role));
    assert_eq!(tree.get_internal_role_value(&two.role), Some(158));
    assert_eq!(tree.get_named_role_value(&root.role), Some("RootWebArea".to_string()));
    match &two.role.value {
        RoleValueContent::Internal(v) => assert_eq!(*v, 158),
        RoleValueContent::Named(_) => panic!("expected an internal role"),
    }
}

#[test]
fn test_dangling_and_duplicate_children() {
    let json = r#"{
        "nodes": [
            {"nodeId": "1", "role": {"type": "role", "value": "RootWebArea"}, "childIds": ["2", "2", "missing"]},
            {
                "nodeId": "2",
                "parentId": "1",
                "role": {"type": "role", "value": "paragraph"},
                "name": {"type": "computedString", "value": "once"}
            }
        ]
    }"#;
    let tree = parse_axtree(json).unwrap();
    let md = axtree_to_markdown(&tree);
    assert_eq!(md, "once");
}

#[test]
fn test_json_model_round_trip() {
    let text = r#"{"a": [1, true, null, "s"], "b": {"c": 2.5}}"#;
    let parsed = axmd::jsontext::json_from_str(text).unwrap();
    let printed = axmd::jsontext::json_to_string(&parsed);
    let reparsed = axmd::jsontext::json_from_str(&printed).unwrap();
    assert_eq!(parsed, reparsed);
    assert_eq!(axmd::jsontext::json_from_str("not json"), None);
    match &parsed {
        Json::Obj(entries) => assert_eq!(entries.len(), 2),
        other => panic!("expected an object, got {:?}", other),
    }
}

#[test]
fn test_ignored_childless_emits_nothing() {
    let json = r#"{
        "nodes": [
            {"nodeId": "1", "role": {"type": "role", "value": "RootWebArea"}, "childIds": ["2", "3"]},
            {
                "nodeId": "2",
                "parentId": "1",
                "role": {"type": "role", "value": "contentinfo"},
                "ignoredReasons": [{"name": "uninteresting", "value": {"type": "boolean", "value": true}}]
            },
            {
                "nodeId": "3",
                "parentId": "1",
                "role": {"type": "role", "value": "paragraph"},
                "name": {"type": "computedString", "value": "kept"}
            }
        ]
    }"#;
    let tree = parse_axtree(json).unwrap();
    let md = axtree_to_markdown(&tree);
    assert!(!md.contains("Footer"));
    assert_eq!(md, "kept");
}

#[test]
fn test_clean_whitespace_keeps_line_content() {
    // Only the carriage return belonging to the terminator is dropped.
    assert_eq!(clean_whitespace("a\r\r\nb"), "a\r\nb");
    // Leading indentation of non-blank lines is kept.
    assert_eq!(clean_whitespace("  indented\nplain"), "  indented\nplain");
}

#[test]
fn test_exclusive_inline_children_by_chrome_role() {
    // The child is inline text only through its chromeRole, so the parent's
    // name must not be duplicated in front of the child text.
    let json = r#"{
        "nodes": [
            {"nodeId": "1", "role": {"type": "role", "value": "RootWebArea"}, "childIds": ["2"]},
            {
                "nodeId": "2",
                "parentId": "1",
                "role": {"type": "role", "value": "paragraph"},
                "name": {"type": "computedString", "value": "body"},
                "childIds": ["3"]
            },
            {
                "nodeId": "3",
                "parentId": "2",
                "role": {"type": "role", "value": "unknownRole"},
                "chromeRole": {"type": "internalRole", "value": 158},
                "name": {"type": "computedString", "value": "body"}
            }
        ]
    }"#;
    let tree = parse_axtree(json).unwrap();
    let md = axtree_to_markdown(&tree);
    assert_eq!(md, "body");
}

#[test]
fn test_build_parent_map() {
    let json = r#"{
        "nodes": [
            {"nodeId": "1", "role": {"type": "role", "value": "RootWebArea"}, "childIds": ["2", "3"]},
            {"nodeId": "2", "parentId": "1", "role": {"type": "role", "value": "generic"}, "childIds": ["4"]},
            {"nodeId": "3", "parentId": "1", "role": {"type": "role", "value": "generic"}},
            {"nodeId": "4", "parentId": "2", "role": {"type": "internalRole", "value": 158}}
        ]
    }"#;
    let tree = parse_axtree(json).unwrap();
    let map = tree.build_parent_map();
    assert_eq!(map.len(), 2);
    assert_eq!(map[0].0, "1");
    assert_eq!(map[0].1.len(), 2);
    assert_eq!(map[0].1[0].node_id, "2");
    assert_eq!(map[0].1[1].node_id, "3");
    assert_eq!(map[1].0, "2");
    assert_eq!(map[1].1.len(), 1);
    assert_eq!(map[1].1[0].node_id, "4");
}
