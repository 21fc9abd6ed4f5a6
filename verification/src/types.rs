//! The data carried between the client, the wire codec and the presenter:
//! the query payload sent to the API, the columnar response it returns, and
//! the error taxonomy of one query.

use vstd::prelude::*;
use crate::lit_chars;

verus! {

/// The inner payload of a query: scope strings passed verbatim to the API,
/// plus the fixed selectors that this client never varies.
#[derive(Debug, Clone, PartialEq, Eq)]
pub struct PayloadDetails {
    pub project: Vec<char>,
    pub range: Vec<char>,
    pub metric: Vec<char>,
    pub repository_group: Vec<char>,
    pub country: Vec<char>,
    pub companies: Vec<Vec<char>>,
    pub github_id: Vec<char>,
}

/// A full query: the fixed API name and the payload.
#[derive(Debug, Clone, PartialEq, Eq)]
pub struct QueryRequest {
    pub api: Vec<char>,
    pub payload: PayloadDetails,
}

/// The columnar response: four parallel sequences, where index `i` across
/// `rank`, `login`, `company` and `number` describes one ranked entry.
#[derive(Debug, Clone, PartialEq, Eq)]
pub struct QueryResponse {
    pub project: Vec<char>,
    pub range: Vec<char>,
    pub metric: Vec<char>,
    pub rank: Vec<i32>,
    pub login: Vec<Vec<char>>,
    pub company: Vec<Vec<char>>,
    pub number: Vec<i32>,
}

/// How a single query can fail: at the transport, in decoding the body, or
/// with an error the server itself reported.
#[derive(Debug, Clone, PartialEq, Eq)]
pub enum DevStatsError {
    /// The HTTP request itself failed; carries the transport error text.
    RequestFailed(Vec<char>),
    /// The body matched neither the success nor the error shape.
    ParseFailed,
    /// The server reported an application-level error; carries its message.
    ApiError(Vec<char>),
}

pub ghost struct PayloadDetailsModel {
    pub project: Seq<char>,
    pub range: Seq<char>,
    pub metric: Seq<char>,
    pub repository_group: Seq<char>,
    pub country: Seq<char>,
    pub companies: Seq<Seq<char>>,
    pub github_id: Seq<char>,
}

pub ghost struct QueryRequestModel {
    pub api: Seq<char>,
    pub payload: PayloadDetailsModel,
}

pub ghost struct QueryResponseModel {
    pub project: Seq<char>,
    pub range: Seq<char>,
    pub metric: Seq<char>,
    pub rank: Seq<i32>,
    pub login: Seq<Seq<char>>,
    pub company: Seq<Seq<char>>,
    pub number: Seq<i32>,
}

impl View for PayloadDetails {
    type V = PayloadDetailsModel;

    open spec fn view(&self) -> PayloadDetailsModel {
        PayloadDetailsModel {
            project: self.project@,
            range: self.range@,
            metric: self.metric@,
            repository_group: self.repository_group@,
            country: self.country@,
            companies: self.companies@.map_values(|v: Vec<char>| v@),
            github_id: self.github_id@,
        }
    }
}

impl View for QueryRequest {
    type V = QueryRequestModel;

    open spec fn view(&self) -> QueryRequestModel {
        QueryRequestModel { api: self.api@, payload: self.payload@ }
    }
}

impl View for QueryResponse {
    type V = QueryResponseModel;

    open spec fn view(&self) -> QueryResponseModel {
        QueryResponseModel {
            project: self.project@,
            range: self.range@,
            metric: self.metric@,
            rank: self.rank@,
            login: self.login@.map_values(|v: Vec<char>| v@),
            company: self.company@.map_values(|v: Vec<char>| v@),
            number: self.number@,
        }
    }
}

/// The response invariant: the four parallel sequences have equal length.
pub open spec fn response_wf(m: QueryResponseModel) -> bool {
    &&& m.rank.len() == m.login.len()
    &&& m.rank.len() == m.company.len()
    &&& m.rank.len() == m.number.len()
}

impl QueryResponse {
    pub open spec fn wf(&self) -> bool {
        response_wf(self@)
    }

    /// Checks the parallel-sequence invariant on a concrete response.
    pub fn is_well_formed(&self) -> (b: bool)
        ensures
            b == self.wf(),
    {
        self.rank.len() == self.login.len() && self.rank.len() == self.company.len()
            && self.rank.len() == self.number.len()
    }
}

/// The model of the request that `build_request` constructs: the caller's
/// scope strings verbatim, and the fixed API name and selectors.
pub open spec fn built_request(
    username: Seq<char>,
    project: Seq<char>,
    range: Seq<char>,
    metric: Seq<char>,
) -> QueryRequestModel {
    QueryRequestModel {
        api: "DevActCntComp"@,
        payload: PayloadDetailsModel {
            project: project,
            range: range,
            metric: metric,
            repository_group: "All"@,
            country: "All"@,
            companies: seq!["All"@],
            github_id: username,
        },
    }
}

/// Constructs the query for one user: project, range and metric are passed
/// through verbatim; repository group, country and companies are the fixed
/// "All" selectors; the username becomes the `github_id` field.
pub fn build_request(
    username: &Vec<char>,
    project: &Vec<char>,
    range: &Vec<char>,
    metric: &Vec<char>,
) -> (r: QueryRequest)
    ensures
        r@ == built_request(username@, project@, range@, metric@),
{
    let mut companies: Vec<Vec<char>> = Vec::new();
    companies.push(lit_chars("All"));
    let r = QueryRequest {
        api: lit_chars("DevActCntComp"),
        payload: PayloadDetails {
            project: project.clone(),
            range: range.clone(),
            metric: metric.clone(),
            repository_group: lit_chars("All"),
            country: lit_chars("All"),
            companies: companies,
            github_id: username.clone(),
        },
    };
    proof {
        assert(r@.payload.companies =~= seq!["All"@]);
    }
    r
}

} // verus!
