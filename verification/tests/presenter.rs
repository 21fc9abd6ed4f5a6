use devstats::codec::interpret_response;
use devstats::present::{present, total_contributions, Row};
use devstats::types::QueryResponse;

fn cv(s: &str) -> Vec<char> {
    s.chars().collect()
}

fn sample() -> QueryResponse {
    let body = cv(
        "{\"project\":\"P\",\"range\":\"R\",\"metric\":\"M\",\"rank\":[1,2],\"login\":[\"alice\",\"bob\"],\"company\":[\"A\",\"B\"],\"number\":[5,3]}",
    );
    interpret_response(200, &body).expect("sample body must parse")
}

#[test]
fn one_matching_row_and_its_total() {
    let resp = sample();
    let p = present(&cv("alice"), &resp);
    assert_eq!(p.username, cv("alice"));
    assert_eq!(p.project, cv("P"));
    assert_eq!(p.range, cv("R"));
    assert_eq!(p.metric, cv("M"));
    assert_eq!(
        p.rows,
        vec![Row { rank: 1, login: cv("alice"), company: cv("A"), number: 5 }],
    );
    assert_eq!(p.total, 5);
    assert!(!p.no_contributions);
}

#[test]
fn no_match_means_zero_total_and_notice() {
    let resp = sample();
    let p = present(&cv("carol"), &resp);
    assert!(p.rows.is_empty());
    assert_eq!(p.total, 0);
    assert!(p.no_contributions);
}

#[test]
fn rows_keep_input_order() {
    let body = cv(
        "{\"project\":\"P\",\"range\":\"R\",\"metric\":\"M\",\"rank\":[3,2,1],\"login\":[\"dana\",\"erin\",\"dana\"],\"company\":[\"X\",\"Y\",\"Z\"],\"number\":[7,9,11]}",
    );
    let resp = interpret_response(200, &body).expect("body must parse");
    let p = present(&cv("dana"), &resp);
    assert_eq!(
        p.rows,
        vec![
            Row { rank: 3, login: cv("dana"), company: cv("X"), number: 7 },
            Row { rank: 1, login: cv("dana"), company: cv("Z"), number: 11 },
        ],
    );
    assert_eq!(p.total, 18);
}

#[test]
fn total_unchanged_when_non_matching_entries_move() {
    let body_a = cv(
        "{\"project\":\"P\",\"range\":\"R\",\"metric\":\"M\",\"rank\":[1,2,3],\"login\":[\"ann\",\"bo\",\"ann\"],\"company\":[\"X\",\"Y\",\"Z\"],\"number\":[4,100,6]}",
    );
    let body_b = cv(
        "{\"project\":\"P\",\"range\":\"R\",\"metric\":\"M\",\"rank\":[2,1,3],\"login\":[\"bo\",\"ann\",\"ann\"],\"company\":[\"Y\",\"X\",\"Z\"],\"number\":[100,4,6]}",
    );
    let resp_a = interpret_response(200, &body_a).expect("body must parse");
    let resp_b = interpret_response(200, &body_b).expect("body must parse");
    assert_eq!(total_contributions(&cv("ann"), &resp_a), 10);
    assert_eq!(total_contributions(&cv("ann"), &resp_b), 10);
    assert_eq!(present(&cv("ann"), &resp_a).rows, present(&cv("ann"), &resp_b).rows);
}

#[test]
fn matching_is_case_sensitive() {
    let resp = sample();
    let p = present(&cv("Alice"), &resp);
    assert!(p.rows.is_empty());
    assert_eq!(p.total, 0);
}

#[test]
fn zero_valued_match_still_sets_the_notice() {
    let body = cv(
        "{\"project\":\"P\",\"range\":\"R\",\"metric\":\"M\",\"rank\":[1],\"login\":[\"alice\"],\"company\":[\"A\"],\"number\":[0]}",
    );
    let resp = interpret_response(200, &body).expect("body must parse");
    let p = present(&cv("alice"), &resp);
    assert_eq!(p.rows.len(), 1);
    assert_eq!(p.total, 0);
    assert!(p.no_contributions);
}

#[test]
fn negative_numbers_sum_exactly() {
    let body = cv(
        "{\"project\":\"P\",\"range\":\"R\",\"metric\":\"M\",\"rank\":[1,2],\"login\":[\"a\",\"a\"],\"company\":[\"\",\"\"],\"number\":[-5,3]}",
    );
    let resp = interpret_response(200, &body).expect("body must parse");
    assert_eq!(total_contributions(&cv("a"), &resp), -2);
}

#[test]
fn empty_response_totals_zero() {
    let body = cv(
        "{\"project\":\"P\",\"range\":\"R\",\"metric\":\"M\",\"rank\":[],\"login\":[],\"company\":[],\"number\":[]}",
    );
    let resp = interpret_response(200, &body).expect("body must parse");
    let p = present(&cv("anyone"), &resp);
    assert!(p.rows.is_empty());
    assert_eq!(p.total, 0);
    assert!(p.no_contributions);
}
