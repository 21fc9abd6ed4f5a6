use devstats::codec::{interpret_response, parse_request, serialize_request};
use devstats::types::{build_request, DevStatsError};

fn cv(s: &str) -> Vec<char> {
    s.chars().collect()
}

fn cs(v: &[char]) -> String {
    v.iter().collect()
}

#[test]
fn build_request_fixed_defaults() {
    let r = build_request(&cv("alice"), &cv("All CNCF"), &cv("Last quarter"), &cv("Contributions"));
    assert_eq!(r.api, cv("DevActCntComp"));
    assert_eq!(r.payload.project, cv("All CNCF"));
    assert_eq!(r.payload.range, cv("Last quarter"));
    assert_eq!(r.payload.metric, cv("Contributions"));
    assert_eq!(r.payload.repository_group, cv("All"));
    assert_eq!(r.payload.country, cv("All"));
    assert_eq!(r.payload.companies, vec![cv("All")]);
    assert_eq!(r.payload.github_id, cv("alice"));
}

#[test]
fn serialize_request_exact_body() {
    let r = build_request(&cv("alice"), &cv("All CNCF"), &cv("Last quarter"), &cv("Contributions"));
    let body = serialize_request(&r);
    let expected = "{\"api\":\"DevActCntComp\",\"payload\":{\"project\":\"All CNCF\",\"range\":\"Last quarter\",\"metric\":\"Contributions\",\"repository_group\":\"All\",\"country\":\"All\",\"companies\":[\"All\"],\"github_id\":\"alice\"}}";
    assert_eq!(cs(&body), expected);
}

#[test]
fn request_round_trip_field_for_field() {
    let r = build_request(&cv("bob"), &cv("Kubernetes"), &cv("Last year"), &cv("Commits"));
    let body = serialize_request(&r);
    let back = parse_request(&body).expect("canonical body must parse");
    assert_eq!(back, r);
}

#[test]
fn request_round_trip_with_escapes() {
    let r = build_request(&cv("a\"b\\c"), &cv("p\\q"), &cv("r\"s"), &cv("m"));
    let body = serialize_request(&r);
    let text = cs(&body);
    assert!(text.contains("\"github_id\":\"a\\\"b\\\\c\""));
    let back = parse_request(&body).expect("escaped body must parse");
    assert_eq!(back, r);
}

#[test]
fn parse_request_rejects_trailing_garbage() {
    let r = build_request(&cv("alice"), &cv("p"), &cv("r"), &cv("m"));
    let mut body = serialize_request(&r);
    body.push(' ');
    assert!(parse_request(&body).is_none());
}

#[test]
fn success_status_with_success_body() {
    let body = cv(
        "{\"project\":\"P\",\"range\":\"R\",\"metric\":\"M\",\"rank\":[1,2],\"login\":[\"alice\",\"bob\"],\"company\":[\"A\",\"B\"],\"number\":[5,3]}",
    );
    let resp = interpret_response(200, &body).expect("body must parse");
    assert_eq!(resp.project, cv("P"));
    assert_eq!(resp.range, cv("R"));
    assert_eq!(resp.metric, cv("M"));
    assert_eq!(resp.rank, vec![1, 2]);
    assert_eq!(resp.login, vec![cv("alice"), cv("bob")]);
    assert_eq!(resp.company, vec![cv("A"), cv("B")]);
    assert_eq!(resp.number, vec![5, 3]);
}

#[test]
fn error_status_with_error_body() {
    let body = cv("{\"error\":\"invalid project\"}");
    let r = interpret_response(400, &body);
    assert_eq!(r.unwrap_err(), DevStatsError::ApiError(cv("invalid project")));
}

#[test]
fn success_status_with_malformed_body() {
    let body = cv("not json at all");
    let r = interpret_response(200, &body);
    assert_eq!(r.unwrap_err(), DevStatsError::ParseFailed);
}

#[test]
fn error_status_with_malformed_body() {
    let body = cv("{\"project\":\"P\"}");
    let r = interpret_response(500, &body);
    assert_eq!(r.unwrap_err(), DevStatsError::ParseFailed);
}

#[test]
fn unequal_columns_are_a_parse_failure() {
    let body = cv(
        "{\"project\":\"P\",\"range\":\"R\",\"metric\":\"M\",\"rank\":[1,2],\"login\":[\"alice\"],\"company\":[\"A\"],\"number\":[5]}",
    );
    let r = interpret_response(200, &body);
    assert_eq!(r.unwrap_err(), DevStatsError::ParseFailed);
}

#[test]
fn empty_columns_parse() {
    let body = cv(
        "{\"project\":\"P\",\"range\":\"R\",\"metric\":\"M\",\"rank\":[],\"login\":[],\"company\":[],\"number\":[]}",
    );
    let resp = interpret_response(200, &body).expect("empty columns are well formed");
    assert!(resp.rank.is_empty());
    assert!(resp.login.is_empty());
}

#[test]
fn negative_and_extreme_numbers_parse() {
    let body = cv(
        "{\"project\":\"P\",\"range\":\"R\",\"metric\":\"M\",\"rank\":[1,2],\"login\":[\"a\",\"b\"],\"company\":[\"\",\"\"],\"number\":[-5,-2147483648]}",
    );
    let resp = interpret_response(200, &body).expect("negative numbers are in range");
    assert_eq!(resp.number, vec![-5, i32::MIN]);
}

#[test]
fn out_of_range_number_is_a_parse_failure() {
    let body = cv(
        "{\"project\":\"P\",\"range\":\"R\",\"metric\":\"M\",\"rank\":[1],\"login\":[\"a\"],\"company\":[\"A\"],\"number\":[2147483648]}",
    );
    assert_eq!(interpret_response(200, &body).unwrap_err(), DevStatsError::ParseFailed);
}

#[test]
fn leading_zero_is_a_parse_failure() {
    let body = cv(
        "{\"project\":\"P\",\"range\":\"R\",\"metric\":\"M\",\"rank\":[01],\"login\":[\"a\"],\"company\":[\"A\"],\"number\":[5]}",
    );
    assert_eq!(interpret_response(200, &body).unwrap_err(), DevStatsError::ParseFailed);
}

#[test]
fn escaped_characters_in_response_strings() {
    let body = cv(
        "{\"project\":\"a\\\"b\",\"range\":\"c\\\\d\",\"metric\":\"M\",\"rank\":[1],\"login\":[\"x\"],\"company\":[\"A\\\"Co\"],\"number\":[5]}",
    );
    let resp = interpret_response(200, &body).expect("escaped body must parse");
    assert_eq!(resp.project, cv("a\"b"));
    assert_eq!(resp.range, cv("c\\d"));
    assert_eq!(resp.company, vec![cv("A\"Co")]);
}

#[test]
fn whitespace_between_tokens_is_accepted() {
    let spaced = cv(
        "{ \"project\":\"P\",\"range\":\"R\",\"metric\":\"M\",\"rank\":[],\"login\":[],\"company\":[],\"number\":[]}",
    );
    assert!(interpret_response(200, &spaced).is_ok());
    let airy = cv(
        "{\n  \"project\" : \"P\",\n  \"range\" : \"R\",\n  \"metric\" : \"M\",\n  \"rank\" : [ 1 , 2 ],\n  \"login\" : [ \"alice\" , \"bob\" ],\n  \"company\" : [ \"A\", \"B\" ],\n  \"number\" : [ 5, 3 ]\n}\n",
    );
    let resp = interpret_response(200, &airy).expect("pretty-printed body must parse");
    assert_eq!(resp.rank, vec![1, 2]);
    assert_eq!(resp.login, vec![cv("alice"), cv("bob")]);
    let err = cv("{\"error\": \"x\"}");
    assert_eq!(interpret_response(404, &err).unwrap_err(), DevStatsError::ApiError(cv("x")));
}

#[test]
fn field_order_is_free_and_unknown_fields_are_skipped() {
    let body = cv(
        "{\"number\":[5],\"login\":[\"alice\"],\"rank\":[1],\"company\":[\"A\"],\"metric\":\"M\",\"extra\":{\"deep\":[1.5e3,true,null,\"s\"]},\"range\":\"R\",\"project\":\"P\"}",
    );
    let resp = interpret_response(200, &body).expect("reordered body must parse");
    assert_eq!(resp.project, cv("P"));
    assert_eq!(resp.number, vec![5]);
    let err = cv("{\"code\":400,\"error\":\"bad\",\"hint\":null}");
    assert_eq!(interpret_response(400, &err).unwrap_err(), DevStatsError::ApiError(cv("bad")));
}

#[test]
fn duplicate_or_missing_fields_are_a_parse_failure() {
    let dup = cv(
        "{\"project\":\"P\",\"project\":\"Q\",\"range\":\"R\",\"metric\":\"M\",\"rank\":[],\"login\":[],\"company\":[],\"number\":[]}",
    );
    assert_eq!(interpret_response(200, &dup).unwrap_err(), DevStatsError::ParseFailed);
    let missing = cv("{\"project\":\"P\",\"range\":\"R\",\"metric\":\"M\",\"rank\":[],\"login\":[],\"company\":[]}");
    assert_eq!(interpret_response(200, &missing).unwrap_err(), DevStatsError::ParseFailed);
}

#[test]
fn json_escapes_are_decoded() {
    let body = cv(
        "{\"project\":\"AT\\u0026T\",\"range\":\"a\\nb\",\"metric\":\"tab\\there\",\"rank\":[1],\"login\":[\"sl\\/ash\"],\"company\":[\"\\uD83D\\uDE00\"],\"number\":[0]}",
    );
    let resp = interpret_response(200, &body).expect("escaped body must parse");
    assert_eq!(resp.project, cv("AT&T"));
    assert_eq!(resp.range, cv("a\nb"));
    assert_eq!(resp.metric, cv("tab\there"));
    assert_eq!(resp.login, vec![cv("sl/ash")]);
    assert_eq!(resp.company, vec![cv("\u{1F600}")]);
}

#[test]
fn bad_escapes_and_raw_controls_are_a_parse_failure() {
    let lone = cv("{\"error\":\"\\uDE00\"}");
    assert_eq!(interpret_response(500, &lone).unwrap_err(), DevStatsError::ParseFailed);
    let raw_control = cv("{\"error\":\"a\nb\"}");
    assert_eq!(interpret_response(500, &raw_control).unwrap_err(), DevStatsError::ParseFailed);
    let unknown_escape = cv("{\"error\":\"a\\qb\"}");
    assert_eq!(interpret_response(500, &unknown_escape).unwrap_err(), DevStatsError::ParseFailed);
}

#[test]
fn control_characters_are_escaped_on_the_way_out() {
    let r = build_request(&cv("a\nb\u{1}"), &cv("p"), &cv("r"), &cv("m"));
    let body = serialize_request(&r);
    let text = cs(&body);
    assert!(text.contains("\"github_id\":\"a\\u000ab\\u0001\""));
    let back = parse_request(&body).expect("escaped body must parse");
    assert_eq!(back, r);
}

#[test]
fn negative_zero_parses_as_zero() {
    let body = cv(
        "{\"project\":\"P\",\"range\":\"R\",\"metric\":\"M\",\"rank\":[-0],\"login\":[\"a\"],\"company\":[\"A\"],\"number\":[0]}",
    );
    let resp = interpret_response(200, &body).expect("negative zero is valid JSON");
    assert_eq!(resp.rank, vec![0]);
}

#[test]
fn status_boundaries() {
    let ok_body = cv(
        "{\"project\":\"P\",\"range\":\"R\",\"metric\":\"M\",\"rank\":[],\"login\":[],\"company\":[],\"number\":[]}",
    );
    assert!(interpret_response(299, &ok_body).is_ok());
    let err_body = cv("{\"error\":\"gone\"}");
    assert_eq!(interpret_response(300, &err_body).unwrap_err(), DevStatsError::ApiError(cv("gone")));
    assert_eq!(interpret_response(199, &err_body).unwrap_err(), DevStatsError::ApiError(cv("gone")));
}
