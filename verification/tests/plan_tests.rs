use mod_sync::plan::{plan_item, plan_request};

fn parse(text: &str) -> serde_json::Value {
    serde_json::from_str::<serde_json::Value>(text).unwrap()
}

#[test]
fn single_valid_item_is_planned() {
    let body = "[{\"type\":\"comment\",\"journal\":{\"id\":42},\"text\":\"hi\"}]";
    let plan = plan_request(body);
    assert!(plan.accepted);
    assert_eq!(plan.writes.len(), 1);
    let w = &plan.writes[0];
    assert_eq!(w.dir.as_str(), "./data/comment");
    assert_eq!(w.path.as_str(), "./data/comment/42.json");
    assert_eq!(w.id, 42);
    let original = parse("{\"type\":\"comment\",\"journal\":{\"id\":42},\"text\":\"hi\"}");
    assert_eq!(parse(&w.contents), original);
}

#[test]
fn body_that_is_not_json_yields_no_writes() {
    let plan = plan_request("not json");
    assert!(!plan.accepted);
    assert_eq!(plan.writes.len(), 0);
}

#[test]
fn body_that_is_not_an_array_yields_no_writes() {
    let plan = plan_request("{\"type\":\"comment\",\"journal\":{\"id\":42}}");
    assert!(!plan.accepted);
    assert_eq!(plan.writes.len(), 0);
}

#[test]
fn item_missing_journal_id_is_rejected() {
    let plan = plan_request("[{\"type\":\"comment\"}]");
    assert!(!plan.accepted);
    assert_eq!(plan.writes.len(), 0);
}

#[test]
fn malformed_item_stops_the_batch_but_keeps_earlier_writes() {
    let body = "[\
        {\"type\":\"comment\",\"journal\":{\"id\":1}},\
        {\"type\":\"comment\"},\
        {\"type\":\"comment\",\"journal\":{\"id\":3}}]";
    let plan = plan_request(body);
    assert!(!plan.accepted);
    assert_eq!(plan.writes.len(), 1);
    assert_eq!(plan.writes[0].path.as_str(), "./data/comment/1.json");
}

#[test]
fn full_valid_batch_is_planned_in_order() {
    let body = "[\
        {\"type\":\"comment\",\"journal\":{\"id\":1}},\
        {\"type\":\"post\",\"journal\":{\"id\":2}},\
        {\"type\":\"comment\",\"journal\":{\"id\":3}}]";
    let plan = plan_request(body);
    assert!(plan.accepted);
    assert_eq!(plan.writes.len(), 3);
    assert_eq!(plan.writes[0].path.as_str(), "./data/comment/1.json");
    assert_eq!(plan.writes[1].path.as_str(), "./data/post/2.json");
    assert_eq!(plan.writes[2].path.as_str(), "./data/comment/3.json");
    assert_ne!(plan.writes[0].path, plan.writes[2].path);
}

#[test]
fn planning_the_same_batch_twice_gives_the_same_plan() {
    let body = "[{\"type\":\"comment\",\"journal\":{\"id\":7},\"n\":1}]";
    let first = plan_request(body);
    let second = plan_request(body);
    assert_eq!(first.accepted, second.accepted);
    assert_eq!(first.writes.len(), second.writes.len());
    for (a, b) in first.writes.iter().zip(second.writes.iter()) {
        assert_eq!(a.dir, b.dir);
        assert_eq!(a.path, b.path);
        assert_eq!(a.contents, b.contents);
        assert_eq!(a.id, b.id);
    }
}

#[test]
fn planned_contents_parse_back_to_the_item() {
    let item_text = "{\"journal\":{\"id\":-5},\"nested\":[1,2,{\"k\":null}],\"type\":\"mod\"}";
    let body = format!("[{}]", item_text);
    let plan = plan_request(&body);
    assert!(plan.accepted);
    assert_eq!(plan.writes.len(), 1);
    let w = &plan.writes[0];
    assert_eq!(w.path.as_str(), "./data/mod/-5.json");
    assert_eq!(parse(&w.contents), parse(item_text));
}

#[test]
fn type_field_that_is_not_a_string_is_rejected() {
    let v = parse("{\"type\":7,\"journal\":{\"id\":1}}");
    assert!(plan_item(&v).is_none());
}

#[test]
fn missing_type_field_is_rejected() {
    let v = parse("{\"journal\":{\"id\":1}}");
    assert!(plan_item(&v).is_none());
}

#[test]
fn journal_id_that_is_not_an_integer_is_rejected() {
    let v = parse("{\"type\":\"comment\",\"journal\":{\"id\":\"x\"}}");
    assert!(plan_item(&v).is_none());
    let v = parse("{\"type\":\"comment\",\"journal\":{\"id\":1.5}}");
    assert!(plan_item(&v).is_none());
}

#[test]
fn journal_id_too_large_for_i64_is_rejected() {
    let v = parse("{\"type\":\"comment\",\"journal\":{\"id\":9223372036854775808}}");
    assert!(plan_item(&v).is_none());
}

#[test]
fn journal_id_nested_under_other_keys_is_found_by_pointer_path_only() {
    let v = parse("{\"type\":\"comment\",\"id\":3}");
    assert!(plan_item(&v).is_none());
}

#[test]
fn plan_item_fills_every_field_from_the_item() {
    let v = parse("{\"type\":\"entry\",\"journal\":{\"id\":900}}");
    let w = plan_item(&v).unwrap();
    assert_eq!(w.dir.as_str(), "./data/entry");
    assert_eq!(w.path.as_str(), "./data/entry/900.json");
    assert_eq!(w.id, 900);
    assert_eq!(parse(&w.contents), v);
}

#[test]
fn float_fields_survive_the_round_trip_exactly() {
    let item_text = "{\"type\":\"measure\",\"journal\":{\"id\":8},\
        \"values\":[0.1,2.2250738585072014e-308,-1.7976931348623157e308,3.141592653589793]}";
    let body = format!("[{}]", item_text);
    let plan = plan_request(&body);
    assert!(plan.accepted);
    let w = &plan.writes[0];
    assert_eq!(parse(&w.contents), parse(item_text));
    let reread = parse(&w.contents);
    let reserialized = plan_item(&reread).unwrap();
    assert_eq!(reserialized.contents, w.contents);
}

#[test]
fn empty_array_is_accepted_with_no_writes() {
    let plan = plan_request("[]");
    assert!(plan.accepted);
    assert_eq!(plan.writes.len(), 0);
}
