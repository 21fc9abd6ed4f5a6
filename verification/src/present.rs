//! The presenter: given a username and a response, pick out the rows whose
//! login equals the username, in the order the response lists them, and sum
//! their contribution counts.

use vstd::prelude::*;
use crate::types::{QueryResponse, QueryResponseModel, response_wf};

verus! {

/// One table row of the rendered output.
#[derive(Debug, Clone, PartialEq, Eq)]
pub struct Row {
    pub rank: i32,
    pub login: Vec<char>,
    pub company: Vec<char>,
    pub number: i32,
}

pub ghost struct RowModel {
    pub rank: i32,
    pub login: Seq<char>,
    pub company: Seq<char>,
    pub number: i32,
}

impl View for Row {
    type V = RowModel;

    open spec fn view(&self) -> RowModel {
        RowModel {
            rank: self.rank,
            login: self.login@,
            company: self.company@,
            number: self.number,
        }
    }
}

/// The entry at index `i` of the four parallel columns, as one row.
pub open spec fn row_at(m: QueryResponseModel, i: int) -> RowModel {
    RowModel { rank: m.rank[i], login: m.login[i], company: m.company[i], number: m.number[i] }
}

/// The sum of `number[i]` over the indices below `n` whose login matches.
pub open spec fn total_upto(username: Seq<char>, m: QueryResponseModel, n: int) -> int
    decreases n,
{
    if n <= 0 {
        0
    } else {
        total_upto(username, m, n - 1) + if m.login[n - 1] == username {
            m.number[n - 1] as int
        } else {
            0
        }
    }
}

/// The sum of `number[i]` over every index `i` with `login[i] == username`.
pub open spec fn spec_total(username: Seq<char>, m: QueryResponseModel) -> int {
    total_upto(username, m, m.login.len() as int)
}

/// The rows at indices below `n` whose login matches, in index order.
pub open spec fn rows_upto(username: Seq<char>, m: QueryResponseModel, n: int) -> Seq<RowModel>
    decreases n,
{
    if n <= 0 {
        Seq::empty()
    } else {
        rows_upto(username, m, n - 1) + if m.login[n - 1] == username {
            seq![row_at(m, n - 1)]
        } else {
            Seq::empty()
        }
    }
}

/// The rows whose login matches, in the order the response lists them.
pub open spec fn matching_rows(username: Seq<char>, m: QueryResponseModel) -> Seq<RowModel> {
    rows_upto(username, m, m.login.len() as int)
}

/// Everything the terminal output is built from: the echoed username, the
/// response's own scope strings, the matching rows in input order, the total,
/// and whether the "no contributions found" notice is due.
pub struct Presentation {
    pub username: Vec<char>,
    pub project: Vec<char>,
    pub range: Vec<char>,
    pub metric: Vec<char>,
    pub rows: Vec<Row>,
    pub total: i128,
    pub no_contributions: bool,
}

/// Compares two character vectors for equality of their contents.
pub fn chars_eq(a: &Vec<char>, b: &Vec<char>) -> (r: bool)
    ensures
        r == (a@ == b@),
{
    if a.len() != b.len() {
        return false;
    }
    let n = a.len();
    let mut k: usize = 0;
    while k < n
        invariant
            k <= n,
            n == a@.len(),
            n == b@.len(),
            forall|t: int| 0 <= t < k ==> a@[t] == b@[t],
        decreases n - k,
    {
        if a[k] != b[k] {
            return false;
        }
        k = k + 1;
    }
    proof {
        assert(a@ =~= b@);
    }
    true
}

/// Builds the presentation of one response for one username: the header
/// echoes the response's project, range and metric; the rows are exactly the
/// matching entries in input order; the total is the exact sum of their
/// contribution counts; the notice flag is set exactly when the total is
/// zero.
pub fn present(username: &Vec<char>, resp: &QueryResponse) -> (p: Presentation)
    requires
        resp.wf(),
    ensures
        p.username@ == username@,
        p.project@ == resp@.project,
        p.range@ == resp@.range,
        p.metric@ == resp@.metric,
        p.rows@.map_values(|r: Row| r@) == matching_rows(username@, resp@),
        p.total == spec_total(username@, resp@),
        p.no_contributions == (p.total == 0),
{
    let n = resp.login.len();
    let mut rows: Vec<Row> = Vec::new();
    let mut total: i128 = 0;
    let mut i: usize = 0;
    while i < n
        invariant
            i <= n,
            n == resp@.login.len(),
            resp.wf(),
            n <= usize::MAX,
            n == resp.login.len(),
            n == resp.rank.len(),
            n == resp.company.len(),
            n == resp.number.len(),
            rows@.map_values(|r: Row| r@) == rows_upto(username@, resp@, i as int),
            total == total_upto(username@, resp@, i as int),
            -(i as int) * 2147483648 <= total <= (i as int) * 2147483647,
        decreases n - i,
    {
        proof {
            assert(resp@.login[i as int] == resp.login@[i as int]@);
        }
        if chars_eq(&resp.login[i], username) {
            let row = Row {
                rank: resp.rank[i],
                login: resp.login[i].clone(),
                company: resp.company[i].clone(),
                number: resp.number[i],
            };
            proof {
                assert(row@.login =~= resp@.login[i as int]);
                assert(row@.company =~= resp@.company[i as int]);
            }
            let ghost rows0 = rows@.map_values(|r: Row| r@);
            rows.push(row);
            total = total + resp.number[i] as i128;
            proof {
                assert(rows@.map_values(|r: Row| r@) =~= rows0.push(row@));
                assert(row@ == row_at(resp@, i as int));
                assert(rows0.push(row@) =~= rows_upto(username@, resp@, i as int) + seq![
                    row_at(resp@, i as int),
                ]);
                assert(rows@.map_values(|r: Row| r@) == rows_upto(
                    username@,
                    resp@,
                    i as int + 1,
                ));
            }
        } else {
            proof {
                assert(rows_upto(username@, resp@, i as int + 1) =~= rows_upto(
                    username@,
                    resp@,
                    i as int,
                ) + Seq::<RowModel>::empty());
                assert(rows@.map_values(|r: Row| r@) =~= rows_upto(
                    username@,
                    resp@,
                    i as int + 1,
                ));
            }
        }
        i = i + 1;
    }
    proof {
        assert(total_upto(username@, resp@, n as int) == spec_total(username@, resp@));
    }
    Presentation {
        username: username.clone(),
        project: resp.project.clone(),
        range: resp.range.clone(),
        metric: resp.metric.clone(),
        rows: rows,
        total: total,
        no_contributions: total == 0,
    }
}

/// The total of one response for one username, on its own.
pub fn total_contributions(username: &Vec<char>, resp: &QueryResponse) -> (t: i128)
    requires
        resp.wf(),
    ensures
        t == spec_total(username@, resp@),
{
    let p = present(username, resp);
    p.total
}

/// The sum of the `number` fields of a row sequence.
pub open spec fn sum_rows(rs: Seq<RowModel>) -> int
    decreases rs.len(),
{
    if rs.len() == 0 {
        0
    } else {
        sum_rows(rs.drop_last()) + rs.last().number as int
    }
}

proof fn lemma_sum_rows_push(rs: Seq<RowModel>, r: RowModel)
    ensures
        sum_rows(rs.push(r)) == sum_rows(rs) + r.number as int,
{
    assert(rs.push(r).drop_last() =~= rs);
    assert(rs.push(r).last() == r);
}

proof fn lemma_total_upto_eq_sum(username: Seq<char>, m: QueryResponseModel, n: int)
    requires
        n <= m.login.len(),
    ensures
        total_upto(username, m, n) == sum_rows(rows_upto(username, m, n)),
    decreases n,
{
    if n <= 0 {
    } else {
        lemma_total_upto_eq_sum(username, m, n - 1);
        if m.login[n - 1] == username {
            assert(rows_upto(username, m, n) =~= rows_upto(username, m, n - 1).push(
                row_at(m, n - 1),
            ));
            lemma_sum_rows_push(rows_upto(username, m, n - 1), row_at(m, n - 1));
        } else {
            assert(rows_upto(username, m, n) =~= rows_upto(username, m, n - 1));
        }
    }
}

/// The index-wise total is the same as summing the `number` fields of the
/// matching rows: a single filter-and-fold over the row records.
pub proof fn lemma_total_is_sum_of_matching_rows(username: Seq<char>, m: QueryResponseModel)
    ensures
        spec_total(username, m) == sum_rows(matching_rows(username, m)),
{
    lemma_total_upto_eq_sum(username, m, m.login.len() as int);
}

/// The total is the sum of the matching rows alone, so it is unchanged by
/// any rearrangement of a response that leaves the matching rows — and in
/// particular by any reordering of the non-matching entries.
pub proof fn lemma_total_depends_only_on_matches(
    username: Seq<char>,
    m1: QueryResponseModel,
    m2: QueryResponseModel,
)
    requires
        matching_rows(username, m1) == matching_rows(username, m2),
    ensures
        spec_total(username, m1) == spec_total(username, m2),
{
    lemma_total_upto_eq_sum(username, m1, m1.login.len() as int);
    lemma_total_upto_eq_sum(username, m2, m2.login.len() as int);
}

/// If no index matches the username, the total is exactly zero.
pub proof fn lemma_no_match_total_zero(username: Seq<char>, m: QueryResponseModel)
    requires
        forall|i: int| 0 <= i < m.login.len() ==> m.login[i] != username,
    ensures
        spec_total(username, m) == 0,
{
    lemma_no_match_upto(username, m, m.login.len() as int);
}

proof fn lemma_no_match_upto(username: Seq<char>, m: QueryResponseModel, n: int)
    requires
        n <= m.login.len(),
        forall|i: int| 0 <= i < m.login.len() ==> m.login[i] != username,
    ensures
        total_upto(username, m, n) == 0,
    decreases n,
{
    if n <= 0 {
    } else {
        lemma_no_match_upto(username, m, n - 1);
    }
}

/// The full response as a row sequence, one row per index.
pub open spec fn all_rows(m: QueryResponseModel) -> Seq<RowModel> {
    Seq::new(m.login.len(), |i: int| row_at(m, i))
}

/// The matching rows are the order-preserving filter of the full row
/// sequence: no re-sorting by rank or number takes place.
pub proof fn lemma_rows_in_input_order(username: Seq<char>, m: QueryResponseModel)
    ensures
        matching_rows(username, m) == all_rows(m).filter(|r: RowModel| r.login == username),
{
    lemma_rows_upto_filter(username, m, m.login.len() as int);
    assert(all_rows(m).take(m.login.len() as int) =~= all_rows(m));
}

proof fn lemma_rows_upto_filter(username: Seq<char>, m: QueryResponseModel, n: int)
    requires
        0 <= n <= m.login.len(),
    ensures
        rows_upto(username, m, n) == all_rows(m).take(n).filter(
            |r: RowModel| r.login == username,
        ),
    decreases n,
{
    reveal(Seq::filter);
    let pred = |r: RowModel| r.login == username;
    if n == 0 {
        assert(all_rows(m).take(0) =~= Seq::<RowModel>::empty());
        assert(all_rows(m).take(0).filter(pred) =~= Seq::<RowModel>::empty());
    } else {
        lemma_rows_upto_filter(username, m, n - 1);
        let t = all_rows(m).take(n);
        assert(t.len() == n);
        assert(t.drop_last() =~= all_rows(m).take(n - 1));
        assert(t.last() == row_at(m, n - 1));
        if m.login[n - 1] == username {
            assert(pred(t.last()));
            assert(rows_upto(username, m, n) =~= rows_upto(username, m, n - 1).push(
                row_at(m, n - 1),
            ));
        } else {
            assert(!pred(t.last()));
            assert(rows_upto(username, m, n) =~= rows_upto(username, m, n - 1));
        }
    }
}

} // verus!
