//! The wire documents of one query: the request body that is sent, the
//! success body and the error body that come back, and the mapping from an
//! HTTP status and body to a parsed response or an error.
//!
//! `request_json` gives the exact body sent for a request, and `sp_request`
//! reads that layout back. The inbound parsers `sp_response` and
//! `sp_error_payload` accept the JSON object grammar: the fields in any
//! order, each at most once, unknown fields skipped, whitespace between
//! tokens, the full string escape set — and consume the whole input.

use vstd::prelude::*;
use crate::json::{
    esc, esc_char, esc_code, hex4_at, hex_digit, hex_val, quoted, sp_lit, sp_str_body,
    sp_string, sp_int_array, sp_str_array, sp_str_items, sp_skip_value, sp_ws, str_array_enc,
    str_items_enc, suffix_of, eq_lit, parse_lit, parse_string, parse_int_array,
    parse_str_array, skip_value, skip_ws, write_lit, write_quoted, write_str_array,
};
use vstd::utf8::char_u32_cast;
use crate::types::{
    DevStatsError, PayloadDetails, PayloadDetailsModel, QueryRequest, QueryRequestModel,
    QueryResponse, QueryResponseModel, response_wf,
};

verus! {

/// The request body as it stands on the wire.
pub open spec fn request_json(m: QueryRequestModel) -> Seq<char> {
    "{\"api\":"@ + (quoted(m.api) + (",\"payload\":{\"project\":"@ + (quoted(m.payload.project)
        + (",\"range\":"@ + (quoted(m.payload.range) + (",\"metric\":"@ + (quoted(
        m.payload.metric,
    ) + (",\"repository_group\":"@ + (quoted(m.payload.repository_group) + (",\"country\":"@
        + (quoted(m.payload.country) + (",\"companies\":"@ + (str_array_enc(m.payload.companies)
        + (",\"github_id\":"@ + (quoted(m.payload.github_id) + "}}"@)))))))))))))))
}

/// Parses a whole request body.
pub open spec fn sp_request(s: Seq<char>) -> Option<QueryRequestModel> {
    match sp_lit(s, "{\"api\":"@) {
        None => None,
        Some(s1) => match sp_string(s1) {
            None => None,
            Some((api, s2)) => match sp_lit(s2, ",\"payload\":{\"project\":"@) {
                None => None,
                Some(s3) => match sp_string(s3) {
                    None => None,
                    Some((project, s4)) => match sp_lit(s4, ",\"range\":"@) {
                        None => None,
                        Some(s5) => match sp_string(s5) {
                            None => None,
                            Some((range, s6)) => match sp_lit(s6, ",\"metric\":"@) {
                                None => None,
                                Some(s7) => match sp_string(s7) {
                                    None => None,
                                    Some((metric, s8)) => match sp_lit(
                                        s8,
                                        ",\"repository_group\":"@,
                                    ) {
                                        None => None,
                                        Some(s9) => match sp_string(s9) {
                                            None => None,
                                            Some((repository_group, s10)) => match sp_lit(
                                                s10,
                                                ",\"country\":"@,
                                            ) {
                                                None => None,
                                                Some(s11) => match sp_string(s11) {
                                                    None => None,
                                                    Some((country, s12)) => match sp_lit(
                                                        s12,
                                                        ",\"companies\":"@,
                                                    ) {
                                                        None => None,
                                                        Some(s13) => match sp_str_array(s13) {
                                                            None => None,
                                                            Some((companies, s14)) => match sp_lit(
                                                                s14,
                                                                ",\"github_id\":"@,
                                                            ) {
                                                                None => None,
                                                                Some(s15) => match sp_string(s15) {
                                                                    None => None,
                                                                    Some((github_id, s16)) => match sp_lit(
                                                                        s16,
                                                                        "}}"@,
                                                                    ) {
                                                                        None => None,
                                                                        Some(s17) => if s17.len()
                                                                            == 0 {
                                                                            Some(
                                                                                QueryRequestModel {
                                                                                    api: api,
                                                                                    payload: PayloadDetailsModel {
                                                                                        project: project,
                                                                                        range: range,
                                                                                        metric: metric,
                                                                                        repository_group: repository_group,
                                                                                        country: country,
                                                                                        companies: companies,
                                                                                        github_id: github_id,
                                                                                    },
                                                                                },
                                                                            )
                                                                        } else {
                                                                            None
                                                                        },
                                                                    },
                                                                },
                                                            },
                                                        },
                                                    },
                                                },
                                            },
                                        },
                                    },
                                },
                            },
                        },
                    },
                },
            },
        },
    }
}

/// The fields of a success object gathered so far, each at most once.
pub ghost struct RespFields {
    pub project: Option<Seq<char>>,
    pub range: Option<Seq<char>>,
    pub metric: Option<Seq<char>>,
    pub rank: Option<Seq<i32>>,
    pub login: Option<Seq<Seq<char>>>,
    pub company: Option<Seq<Seq<char>>>,
    pub number: Option<Seq<i32>>,
}

pub open spec fn no_resp_fields() -> RespFields {
    RespFields {
        project: None,
        range: None,
        metric: None,
        rank: None,
        login: None,
        company: None,
        number: None,
    }
}

/// One member of a success object: a known key takes its typed value and
/// may appear only once; an unknown key's value is skipped.
pub open spec fn sp_resp_field(key: Seq<char>, s: Seq<char>, acc: RespFields) -> Option<
    (RespFields, Seq<char>),
> {
    if key == "project"@ {
        if acc.project is Some {
            None
        } else {
            match sp_string(s) {
                Some(p) => Some((RespFields { project: Some(p.0), ..acc }, p.1)),
                None => None,
            }
        }
    } else if key == "range"@ {
        if acc.range is Some {
            None
        } else {
            match sp_string(s) {
                Some(p) => Some((RespFields { range: Some(p.0), ..acc }, p.1)),
                None => None,
            }
        }
    } else if key == "metric"@ {
        if acc.metric is Some {
            None
        } else {
            match sp_string(s) {
                Some(p) => Some((RespFields { metric: Some(p.0), ..acc }, p.1)),
                None => None,
            }
        }
    } else if key == "rank"@ {
        if acc.rank is Some {
            None
        } else {
            match sp_int_array(s) {
                Some(p) => Some((RespFields { rank: Some(p.0), ..acc }, p.1)),
                None => None,
            }
        }
    } else if key == "login"@ {
        if acc.login is Some {
            None
        } else {
            match sp_str_array(s) {
                Some(p) => Some((RespFields { login: Some(p.0), ..acc }, p.1)),
                None => None,
            }
        }
    } else if key == "company"@ {
        if acc.company is Some {
            None
        } else {
            match sp_str_array(s) {
                Some(p) => Some((RespFields { company: Some(p.0), ..acc }, p.1)),
                None => None,
            }
        }
    } else if key == "number"@ {
        if acc.number is Some {
            None
        } else {
            match sp_int_array(s) {
                Some(p) => Some((RespFields { number: Some(p.0), ..acc }, p.1)),
                None => None,
            }
        }
    } else {
        match sp_skip_value(s) {
            Some(r) => Some((acc, r)),
            None => None,
        }
    }
}

/// The members of a success object, from the first key up to and including
/// the closing brace.
pub open spec fn sp_resp_members(s: Seq<char>, acc: RespFields) -> Option<(RespFields, Seq<char>)>
    decreases s.len(),
{
    match sp_string(s) {
        None => None,
        Some(p) => {
            let r1 = sp_ws(p.1);
            if r1.len() == 0 || r1[0] != ':' {
                None
            } else {
                let r2 = sp_ws(r1.skip(1));
                if r2.len() >= s.len() {
                    None
                } else {
                    match sp_resp_field(p.0, r2, acc) {
                        None => None,
                        Some(q) => {
                            let r4 = sp_ws(q.1);
                            if r4.len() > 0 && r4[0] == ',' {
                                let r5 = sp_ws(r4.skip(1));
                                if r5.len() >= s.len() {
                                    None
                                } else {
                                    sp_resp_members(r5, q.0)
                                }
                            } else if r4.len() > 0 && r4[0] == '}' {
                                Some((q.0, r4.skip(1)))
                            } else {
                                None
                            }
                        },
                    }
                }
            }
        },
    }
}

/// The gathered fields as a response, if every one of the seven is there.
pub open spec fn resp_complete(a: RespFields) -> Option<QueryResponseModel> {
    if a.project is Some && a.range is Some && a.metric is Some && a.rank is Some && a.login
        is Some && a.company is Some && a.number is Some {
        Some(
            QueryResponseModel {
                project: a.project->Some_0,
                range: a.range->Some_0,
                metric: a.metric->Some_0,
                rank: a.rank->Some_0,
                login: a.login->Some_0,
                company: a.company->Some_0,
                number: a.number->Some_0,
            },
        )
    } else {
        None
    }
}

/// Parses a whole success body: a JSON object holding the seven fields in
/// any order, each exactly once, with unknown fields skipped and whitespace
/// free between tokens.
pub open spec fn sp_response(s: Seq<char>) -> Option<QueryResponseModel> {
    let r0 = sp_ws(s);
    if r0.len() > 0 && r0[0] == '{' {
        let r1 = sp_ws(r0.skip(1));
        match sp_resp_members(r1, no_resp_fields()) {
            None => None,
            Some(p) => if sp_ws(p.1).len() == 0 {
                resp_complete(p.0)
            } else {
                None
            },
        }
    } else {
        None
    }
}

/// The members of an error object, gathering the `error` string; unknown
/// fields are skipped.
pub open spec fn sp_err_members(s: Seq<char>, acc: Option<Seq<char>>) -> Option<
    (Option<Seq<char>>, Seq<char>),
>
    decreases s.len(),
{
    match sp_string(s) {
        None => None,
        Some(p) => {
            let r1 = sp_ws(p.1);
            if r1.len() == 0 || r1[0] != ':' {
                None
            } else {
                let r2 = sp_ws(r1.skip(1));
                if r2.len() >= s.len() {
                    None
                } else {
                    let fieldres = if p.0 == "error"@ {
                        if acc is Some {
                            None
                        } else {
                            match sp_string(r2) {
                                Some(q) => Some((Some(q.0), q.1)),
                                None => None,
                            }
                        }
                    } else {
                        match sp_skip_value(r2) {
                            Some(r3) => Some((acc, r3)),
                            None => None,
                        }
                    };
                    match fieldres {
                        None => None,
                        Some(q) => {
                            let r4 = sp_ws(q.1);
                            if r4.len() > 0 && r4[0] == ',' {
                                let r5 = sp_ws(r4.skip(1));
                                if r5.len() >= s.len() {
                                    None
                                } else {
                                    sp_err_members(r5, q.0)
                                }
                            } else if r4.len() > 0 && r4[0] == '}' {
                                Some((q.0, r4.skip(1)))
                            } else {
                                None
                            }
                        },
                    }
                }
            }
        },
    }
}

/// Parses a whole error body: a JSON object with the `error` string field,
/// in any position, unknown fields skipped.
pub open spec fn sp_error_payload(s: Seq<char>) -> Option<Seq<char>> {
    let r0 = sp_ws(s);
    if r0.len() > 0 && r0[0] == '{' {
        let r1 = sp_ws(r0.skip(1));
        match sp_err_members(r1, None) {
            None => None,
            Some(p) => if sp_ws(p.1).len() == 0 {
                p.0
            } else {
                None
            },
        }
    } else {
        None
    }
}
/// Encodes a request as its wire body.
#[verifier::rlimit(60)]
pub fn serialize_request(req: &QueryRequest) -> (out: Vec<char>)
    ensures
        out@ == request_json(req@),
{
    let mut out: Vec<char> = Vec::new();
    write_lit(&mut out, "{\"api\":");
    write_quoted(&mut out, &req.api);
    write_lit(&mut out, ",\"payload\":{\"project\":");
    write_quoted(&mut out, &req.payload.project);
    write_lit(&mut out, ",\"range\":");
    write_quoted(&mut out, &req.payload.range);
    write_lit(&mut out, ",\"metric\":");
    write_quoted(&mut out, &req.payload.metric);
    write_lit(&mut out, ",\"repository_group\":");
    write_quoted(&mut out, &req.payload.repository_group);
    write_lit(&mut out, ",\"country\":");
    write_quoted(&mut out, &req.payload.country);
    write_lit(&mut out, ",\"companies\":");
    write_str_array(&mut out, &req.payload.companies);
    write_lit(&mut out, ",\"github_id\":");
    write_quoted(&mut out, &req.payload.github_id);
    write_lit(&mut out, "}}");
    proof {
        assert(out@ =~= request_json(req@));
    }
    out
}

/// Decodes a request body laid out as `serialize_request` writes it.
pub fn parse_request(s: &Vec<char>) -> (r: Option<QueryRequest>)
    ensures
        match r {
            Some(q) => sp_request(s@) == Some(q@),
            None => sp_request(s@) is None,
        },
{
    proof {
        assert(suffix_of(s@, 0) =~= s@);
    }
    let i1 = match parse_lit(s, 0, "{\"api\":") {
        Some(j) => j,
        None => { return None; },
    };
    let (api, i2) = match parse_string(s, i1) {
        Some(p) => p,
        None => { return None; },
    };
    let i3 = match parse_lit(s, i2, ",\"payload\":{\"project\":") {
        Some(j) => j,
        None => { return None; },
    };
    let (project, i4) = match parse_string(s, i3) {
        Some(p) => p,
        None => { return None; },
    };
    let i5 = match parse_lit(s, i4, ",\"range\":") {
        Some(j) => j,
        None => { return None; },
    };
    let (range, i6) = match parse_string(s, i5) {
        Some(p) => p,
        None => { return None; },
    };
    let i7 = match parse_lit(s, i6, ",\"metric\":") {
        Some(j) => j,
        None => { return None; },
    };
    let (metric, i8) = match parse_string(s, i7) {
        Some(p) => p,
        None => { return None; },
    };
    let i9 = match parse_lit(s, i8, ",\"repository_group\":") {
        Some(j) => j,
        None => { return None; },
    };
    let (repository_group, i10) = match parse_string(s, i9) {
        Some(p) => p,
        None => { return None; },
    };
    let i11 = match parse_lit(s, i10, ",\"country\":") {
        Some(j) => j,
        None => { return None; },
    };
    let (country, i12) = match parse_string(s, i11) {
        Some(p) => p,
        None => { return None; },
    };
    let i13 = match parse_lit(s, i12, ",\"companies\":") {
        Some(j) => j,
        None => { return None; },
    };
    let (companies, i14) = match parse_str_array(s, i13) {
        Some(p) => p,
        None => { return None; },
    };
    let i15 = match parse_lit(s, i14, ",\"github_id\":") {
        Some(j) => j,
        None => { return None; },
    };
    let (github_id, i16) = match parse_string(s, i15) {
        Some(p) => p,
        None => { return None; },
    };
    let i17 = match parse_lit(s, i16, "}}") {
        Some(j) => j,
        None => { return None; },
    };
    if i17 != s.len() {
        return None;
    }
    Some(
        QueryRequest {
            api,
            payload: PayloadDetails {
                project,
                range,
                metric,
                repository_group,
                country,
                companies,
                github_id,
            },
        },
    )
}

/// The ghost view of an optional character vector.
pub open spec fn opt_chars_view(o: Option<Vec<char>>) -> Option<Seq<char>> {
    match o {
        Some(v) => Some(v@),
        None => None,
    }
}

/// The fields of a success object as they are collected.
pub struct RespPartial {
    pub project: Option<Vec<char>>,
    pub range: Option<Vec<char>>,
    pub metric: Option<Vec<char>>,
    pub rank: Option<Vec<i32>>,
    pub login: Option<Vec<Vec<char>>>,
    pub company: Option<Vec<Vec<char>>>,
    pub number: Option<Vec<i32>>,
}

impl View for RespPartial {
    type V = RespFields;

    open spec fn view(&self) -> RespFields {
        RespFields {
            project: match self.project {
                Some(v) => Some(v@),
                None => None,
            },
            range: match self.range {
                Some(v) => Some(v@),
                None => None,
            },
            metric: match self.metric {
                Some(v) => Some(v@),
                None => None,
            },
            rank: match self.rank {
                Some(v) => Some(v@),
                None => None,
            },
            login: match self.login {
                Some(v) => Some(v@.map_values(|x: Vec<char>| x@)),
                None => None,
            },
            company: match self.company {
                Some(v) => Some(v@.map_values(|x: Vec<char>| x@)),
                None => None,
            },
            number: match self.number {
                Some(v) => Some(v@),
                None => None,
            },
        }
    }
}

#[verifier::rlimit(80)]
fn parse_resp_members(s: &Vec<char>, i: usize, acc: RespPartial) -> (r: Option<
    (RespPartial, usize),
>)
    requires
        i <= s@.len(),
    ensures
        match r {
            Some(p) => i < p.1 <= s@.len() && sp_resp_members(suffix_of(s@, i as int), acc@)
                == Some((p.0@, suffix_of(s@, p.1 as int))),
            None => sp_resp_members(suffix_of(s@, i as int), acc@) is None,
        },
    decreases s@.len() - i,
{
    let (key, j) = match parse_string(s, i) {
        Some(p) => p,
        None => { return None; },
    };
    let k = skip_ws(s, j);
    if k == s.len() {
        return None;
    }
    proof {
        assert(suffix_of(s@, k as int)[0] == s@[k as int]);
    }
    if s[k] != ':' {
        return None;
    }
    proof {
        assert(suffix_of(s@, k as int).skip(1) =~= suffix_of(s@, k as int + 1));
    }
    let m = skip_ws(s, k + 1);
    let fieldres: Option<(RespPartial, usize)> = if eq_lit(&key, "project") {
        if acc.project.is_some() {
            None
        } else {
            match parse_string(s, m) {
                Some(p) => Some((RespPartial { project: Some(p.0), ..acc }, p.1)),
                None => None,
            }
        }
    } else if eq_lit(&key, "range") {
        if acc.range.is_some() {
            None
        } else {
            match parse_string(s, m) {
                Some(p) => Some((RespPartial { range: Some(p.0), ..acc }, p.1)),
                None => None,
            }
        }
    } else if eq_lit(&key, "metric") {
        if acc.metric.is_some() {
            None
        } else {
            match parse_string(s, m) {
                Some(p) => Some((RespPartial { metric: Some(p.0), ..acc }, p.1)),
                None => None,
            }
        }
    } else if eq_lit(&key, "rank") {
        if acc.rank.is_some() {
            None
        } else {
            match parse_int_array(s, m) {
                Some(p) => Some((RespPartial { rank: Some(p.0), ..acc }, p.1)),
                None => None,
            }
        }
    } else if eq_lit(&key, "login") {
        if acc.login.is_some() {
            None
        } else {
            match parse_str_array(s, m) {
                Some(p) => Some((RespPartial { login: Some(p.0), ..acc }, p.1)),
                None => None,
            }
        }
    } else if eq_lit(&key, "company") {
        if acc.company.is_some() {
            None
        } else {
            match parse_str_array(s, m) {
                Some(p) => Some((RespPartial { company: Some(p.0), ..acc }, p.1)),
                None => None,
            }
        }
    } else if eq_lit(&key, "number") {
        if acc.number.is_some() {
            None
        } else {
            match parse_int_array(s, m) {
                Some(p) => Some((RespPartial { number: Some(p.0), ..acc }, p.1)),
                None => None,
            }
        }
    } else {
        match skip_value(s, m) {
            Some(n) => Some((acc, n)),
            None => None,
        }
    };
    match fieldres {
        None => None,
        Some(fr) => {
            let (acc2, n) = fr;
            let q = skip_ws(s, n);
            if q < s.len() && s[q] == ',' {
                proof {
                    assert(suffix_of(s@, q as int)[0] == s@[q as int]);
                    assert(suffix_of(s@, q as int).skip(1) =~= suffix_of(s@, q as int + 1));
                }
                let t = skip_ws(s, q + 1);
                parse_resp_members(s, t, acc2)
            } else if q < s.len() && s[q] == '}' {
                proof {
                    assert(suffix_of(s@, q as int)[0] == s@[q as int]);
                    assert(suffix_of(s@, q as int).skip(1) =~= suffix_of(s@, q as int + 1));
                }
                Some((acc2, q + 1))
            } else {
                proof {
                    if q < s.len() {
                        assert(suffix_of(s@, q as int)[0] == s@[q as int]);
                    }
                }
                None
            }
        },
    }
}

/// Decodes a success body: the seven fields in any order, whitespace free,
/// unknown fields skipped.
pub fn parse_response(s: &Vec<char>) -> (r: Option<QueryResponse>)
    ensures
        match r {
            Some(q) => sp_response(s@) == Some(q@),
            None => sp_response(s@) is None,
        },
{
    proof {
        assert(suffix_of(s@, 0) =~= s@);
    }
    let i0 = skip_ws(s, 0);
    if i0 == s.len() {
        return None;
    }
    proof {
        assert(suffix_of(s@, i0 as int)[0] == s@[i0 as int]);
    }
    if s[i0] != '{' {
        return None;
    }
    proof {
        assert(suffix_of(s@, i0 as int).skip(1) =~= suffix_of(s@, i0 as int + 1));
    }
    let i1 = skip_ws(s, i0 + 1);
    let acc0 = RespPartial {
        project: None,
        range: None,
        metric: None,
        rank: None,
        login: None,
        company: None,
        number: None,
    };
    proof {
        assert(acc0@ == no_resp_fields());
    }
    match parse_resp_members(s, i1, acc0) {
        None => None,
        Some(p) => {
            let (acc, j) = p;
            let k = skip_ws(s, j);
            if k != s.len() {
                return None;
            }
            match (acc.project, acc.range, acc.metric, acc.rank, acc.login, acc.company,
                acc.number) {
                (
                    Some(project),
                    Some(range),
                    Some(metric),
                    Some(rank),
                    Some(login),
                    Some(company),
                    Some(number),
                ) => Some(QueryResponse { project, range, metric, rank, login, company, number }),
                _ => None,
            }
        },
    }
}

#[verifier::rlimit(80)]
fn parse_err_members(s: &Vec<char>, i: usize, acc: Option<Vec<char>>) -> (r: Option<
    (Option<Vec<char>>, usize),
>)
    requires
        i <= s@.len(),
    ensures
        match r {
            Some(p) => i < p.1 <= s@.len() && sp_err_members(
                suffix_of(s@, i as int),
                opt_chars_view(acc),
            ) == Some((opt_chars_view(p.0), suffix_of(s@, p.1 as int))),
            None => sp_err_members(suffix_of(s@, i as int), opt_chars_view(acc)) is None,
        },
    decreases s@.len() - i,
{
    let (key, j) = match parse_string(s, i) {
        Some(p) => p,
        None => { return None; },
    };
    let k = skip_ws(s, j);
    if k == s.len() {
        return None;
    }
    proof {
        assert(suffix_of(s@, k as int)[0] == s@[k as int]);
    }
    if s[k] != ':' {
        return None;
    }
    proof {
        assert(suffix_of(s@, k as int).skip(1) =~= suffix_of(s@, k as int + 1));
    }
    let m = skip_ws(s, k + 1);
    let fieldres: Option<(Option<Vec<char>>, usize)> = if eq_lit(&key, "error") {
        if acc.is_some() {
            None
        } else {
            match parse_string(s, m) {
                Some(p) => Some((Some(p.0), p.1)),
                None => None,
            }
        }
    } else {
        match skip_value(s, m) {
            Some(n) => Some((acc, n)),
            None => None,
        }
    };
    match fieldres {
        None => None,
        Some(fr) => {
            let (acc2, n) = fr;
            let q = skip_ws(s, n);
            if q < s.len() && s[q] == ',' {
                proof {
                    assert(suffix_of(s@, q as int)[0] == s@[q as int]);
                    assert(suffix_of(s@, q as int).skip(1) =~= suffix_of(s@, q as int + 1));
                }
                let t = skip_ws(s, q + 1);
                parse_err_members(s, t, acc2)
            } else if q < s.len() && s[q] == '}' {
                proof {
                    assert(suffix_of(s@, q as int)[0] == s@[q as int]);
                    assert(suffix_of(s@, q as int).skip(1) =~= suffix_of(s@, q as int + 1));
                }
                Some((acc2, q + 1))
            } else {
                proof {
                    if q < s.len() {
                        assert(suffix_of(s@, q as int)[0] == s@[q as int]);
                    }
                }
                None
            }
        },
    }
}

/// Decodes an error body: the `error` field in any position, whitespace
/// free, unknown fields skipped.
pub fn parse_error_payload(s: &Vec<char>) -> (r: Option<Vec<char>>)
    ensures
        match r {
            Some(msg) => sp_error_payload(s@) == Some(msg@),
            None => sp_error_payload(s@) is None,
        },
{
    proof {
        assert(suffix_of(s@, 0) =~= s@);
    }
    let i0 = skip_ws(s, 0);
    if i0 == s.len() {
        return None;
    }
    proof {
        assert(suffix_of(s@, i0 as int)[0] == s@[i0 as int]);
    }
    if s[i0] != '{' {
        return None;
    }
    proof {
        assert(suffix_of(s@, i0 as int).skip(1) =~= suffix_of(s@, i0 as int + 1));
    }
    let i1 = skip_ws(s, i0 + 1);
    match parse_err_members(s, i1, None) {
        None => None,
        Some(p) => {
            let (acc, j) = p;
            let k = skip_ws(s, j);
            if k != s.len() {
                return None;
            }
            acc
        },
    }
}
/// An HTTP status that counts as success.
pub open spec fn is_success(status: u16) -> bool {
    200 <= status < 300
}

/// Maps an HTTP status and body to the parsed response or the error, as one
/// query resolves: on a success status the body must be a success document
/// with its four columns of equal length; on any other status the body must
/// be an error document, whose message is surfaced verbatim; any body that
/// fails its expected shape is a parse failure.
pub fn interpret_response(status: u16, body: &Vec<char>) -> (r: Result<
    QueryResponse,
    DevStatsError,
>)
    ensures
        is_success(status) ==> (match sp_response(body@) {
            Some(m) => if response_wf(m) {
                r matches Ok(q) && q@ == m
            } else {
                r matches Err(DevStatsError::ParseFailed)
            },
            None => r matches Err(DevStatsError::ParseFailed),
        }),
        !is_success(status) ==> (match sp_error_payload(body@) {
            Some(msg) => r matches Err(DevStatsError::ApiError(t)) && t@ == msg,
            None => r matches Err(DevStatsError::ParseFailed),
        }),
{
    if 200 <= status && status < 300 {
        match parse_response(body) {
            Some(q) => {
                if q.is_well_formed() {
                    Ok(q)
                } else {
                    Err(DevStatsError::ParseFailed)
                }
            },
            None => Err(DevStatsError::ParseFailed),
        }
    } else {
        match parse_error_payload(body) {
            Some(msg) => Err(DevStatsError::ApiError(msg)),
            None => Err(DevStatsError::ParseFailed),
        }
    }
}

proof fn lemma_lit_rt(l: Seq<char>, rest: Seq<char>)
    ensures
        sp_lit(l + rest, l) == Some(rest),
{
    assert((l + rest).take(l.len() as int) =~= l);
    assert((l + rest).skip(l.len() as int) =~= rest);
}

#[verifier::rlimit(80)]
proof fn lemma_str_body_rt(v: Seq<char>, rest: Seq<char>)
    ensures
        sp_str_body(esc(v) + (seq!['"'] + rest)) == Some((v, rest)),
    decreases v.len(),
{
    let s = esc(v) + (seq!['"'] + rest);
    if v.len() == 0 {
        assert(s =~= seq!['"'] + rest);
        assert(s[0] == '"');
        assert(s.skip(1) =~= rest);
        assert(sp_str_body(s) == Some((Seq::<char>::empty(), rest)));
        assert(v =~= Seq::<char>::empty());
    } else {
        let c = v[0];
        let v1 = v.skip(1);
        assert(esc(v) == esc_char(c) + esc(v1));
        if c == '"' || c == '\\' {
            assert(esc_char(c) =~= seq!['\\', c]);
            assert(s[0] == '\\');
            assert(s[1] == c);
            assert(s.len() >= 2);
            assert(esc_code(s[1]) == Some(c));
            assert(s.skip(2) =~= esc(v1) + (seq!['"'] + rest));
            lemma_str_body_rt(v1, rest);
            assert(seq![esc_code(s[1])->Some_0] + v1 =~= v);
        } else if (c as u32) < 32 {
            let cv = c as u32 as int;
            let d1 = hex_digit(cv / 16);
            let d2 = hex_digit(cv % 16);
            assert(esc_char(c) =~= seq!['\\', 'u', '0', '0', d1, d2]);
            assert(s[0] == '\\');
            assert(s[1] == 'u');
            assert(s[2] == '0');
            assert(s[3] == '0');
            assert(s[4] == d1);
            assert(s[5] == d2);
            assert(s.len() >= 6);
            assert(esc_code('u') is None);
            assert(hex_val('0') == 0);
            assert(hex_val(d1) == cv / 16);
            assert(hex_val(d2) == cv % 16);
            assert(hex4_at(s, 2) == cv);
            assert(((hex4_at(s, 2) as u32) as char) == c) by {
                char_u32_cast(c, cv as u32);
            }
            assert(s.skip(6) =~= esc(v1) + (seq!['"'] + rest));
            lemma_str_body_rt(v1, rest);
            assert(seq![(hex4_at(s, 2) as u32) as char] + v1 =~= v);
        } else {
            assert(esc_char(c) =~= seq![c]);
            assert(s[0] == c);
            assert((s[0] as u32) >= 32);
            assert(s.skip(1) =~= esc(v1) + (seq!['"'] + rest));
            lemma_str_body_rt(v1, rest);
            assert(seq![s[0]] + v1 =~= v);
        }
    }
}

proof fn lemma_string_rt(v: Seq<char>, rest: Seq<char>)
    ensures
        sp_string(quoted(v) + rest) == Some((v, rest)),
{
    let s = quoted(v) + rest;
    assert(s[0] == '"');
    assert(s.skip(1) =~= esc(v) + (seq!['"'] + rest));
    lemma_str_body_rt(v, rest);
}

#[verifier::rlimit(80)]
proof fn lemma_str_items_rt(vs: Seq<Seq<char>>, rest: Seq<char>)
    requires
        vs.len() >= 1,
    ensures
        sp_str_items(str_items_enc(vs) + rest) == Some((vs, rest)),
    decreases vs.len(),
{
    let s = str_items_enc(vs) + rest;
    if vs.len() == 1 {
        let r = seq![']'] + rest;
        assert(s =~= quoted(vs[0]) + r);
        lemma_string_rt(vs[0], r);
        assert(r[0] == ']');
        assert(sp_ws(r) == r);
        assert(r.skip(1) =~= rest);
        assert(seq![vs[0]] =~= vs);
    } else {
        let tail = str_items_enc(vs.skip(1)) + rest;
        let r = seq![','] + tail;
        assert(s =~= quoted(vs[0]) + r);
        lemma_string_rt(vs[0], r);
        assert(r[0] == ',');
        assert(sp_ws(r) == r);
        assert(r.skip(1) =~= tail);
        assert(tail[0] == '"');
        assert(sp_ws(tail) == tail);
        assert(tail.len() < s.len());
        lemma_str_items_rt(vs.skip(1), rest);
        assert(seq![vs[0]] + vs.skip(1) =~= vs);
    }
}

#[verifier::rlimit(80)]
proof fn lemma_str_array_rt(vs: Seq<Seq<char>>, rest: Seq<char>)
    ensures
        sp_str_array(str_array_enc(vs) + rest) == Some((vs, rest)),
{
    let s = str_array_enc(vs) + rest;
    assert(s[0] == '[');
    assert(s.skip(1) =~= str_items_enc(vs) + rest);
    if vs.len() == 0 {
        assert(str_items_enc(vs) =~= seq![']']);
        assert(s.skip(1)[0] == ']');
        assert(sp_ws(s.skip(1)) == s.skip(1));
        assert(s.skip(1).skip(1) =~= rest);
        assert(vs =~= Seq::<Seq<char>>::empty());
    } else {
        assert(str_items_enc(vs)[0] == '"');
        assert(s.skip(1)[0] == '"');
        assert(sp_ws(s.skip(1)) == s.skip(1));
        lemma_str_items_rt(vs, rest);
    }
}

/// Decoding a request body yields exactly the request it was encoded from:
/// for every request, parsing `request_json` of it gives back a value equal
/// field for field.
pub proof fn lemma_request_round_trip(m: QueryRequestModel)
    ensures
        sp_request(request_json(m)) == Some(m),
{
    let r15 = "}}"@;
    let r14 = quoted(m.payload.github_id) + r15;
    let r13 = ",\"github_id\":"@ + r14;
    let r12 = str_array_enc(m.payload.companies) + r13;
    let r11 = ",\"companies\":"@ + r12;
    let r10 = quoted(m.payload.country) + r11;
    let r9 = ",\"country\":"@ + r10;
    let r8 = quoted(m.payload.repository_group) + r9;
    let r7 = ",\"repository_group\":"@ + r8;
    let r6 = quoted(m.payload.metric) + r7;
    let r5 = ",\"metric\":"@ + r6;
    let r4 = quoted(m.payload.range) + r5;
    let r3 = ",\"range\":"@ + r4;
    let r2 = quoted(m.payload.project) + r3;
    let r1 = ",\"payload\":{\"project\":"@ + r2;
    let r0 = quoted(m.api) + r1;
    let s = "{\"api\":"@ + r0;
    assert(s == request_json(m));
    lemma_lit_rt("{\"api\":"@, r0);
    lemma_string_rt(m.api, r1);
    lemma_lit_rt(",\"payload\":{\"project\":"@, r2);
    lemma_string_rt(m.payload.project, r3);
    lemma_lit_rt(",\"range\":"@, r4);
    lemma_string_rt(m.payload.range, r5);
    lemma_lit_rt(",\"metric\":"@, r6);
    lemma_string_rt(m.payload.metric, r7);
    lemma_lit_rt(",\"repository_group\":"@, r8);
    lemma_string_rt(m.payload.repository_group, r9);
    lemma_lit_rt(",\"country\":"@, r10);
    lemma_string_rt(m.payload.country, r11);
    lemma_lit_rt(",\"companies\":"@, r12);
    lemma_str_array_rt(m.payload.companies, r13);
    lemma_lit_rt(",\"github_id\":"@, r14);
    lemma_string_rt(m.payload.github_id, r15);
    assert(r15 =~= "}}"@ + Seq::<char>::empty());
    lemma_lit_rt("}}"@, Seq::<char>::empty());
    assert(sp_request(s) == Some(m));
}

} // verus!
