//! Vector-store result handling: the raw matches that come back from a
//! similarity query, the identity and threshold filter applied to them,
//! and the two renderings of the filtered report.
//!
//! Similarity is carried as an integer count of hundredths of a percent
//! (the store's raw score scaled by ten thousand), so a score of 0.95
//! arrives as 9500 and a threshold of 80 percent is 8000.

use crate::identity::id_wellformed;
use crate::identity::pr_number_of_id;
use crate::identity::repo_name_of_id;
use crate::identity::uuid_to_pr_number;
use crate::identity::uuid_to_repo_name;
use crate::identity::id_has_colon;
use crate::scan::find_last;
use crate::scan::has_char;
use crate::scan::last_index_of;
use crate::scan::lemma_last_index_of;
use crate::scan::str_equal;
use vstd::prelude::*;
use vstd::string::StrSliceExecFns;
use vstd::string::StringExecFns;

verus! {

/// One raw entry of a query response: a stored id and its similarity, in
/// hundredths of a percent.
#[derive(Clone, Debug)]
pub struct RawMatch {
    pub id: String,
    pub score: i64,
}

/// One reported similar pull request: its page address and its similarity
/// percentage, in hundredths of a percent.
#[derive(Clone, Debug)]
pub struct SimilarPRsInner {
    pub pr_url: String,
    pub percentage: i64,
}

/// The filtered report of similar pull requests.
#[derive(Clone, Debug)]
pub struct SimilarPRs {
    pub data: Vec<SimilarPRsInner>,
}

/// A non-success answer of the remote store: the HTTP status and the body
/// it sent back.
#[derive(Clone, Debug)]
pub struct RemoteStoreError {
    pub status: u16,
    pub body: String,
}

/// An id in a store response that the codec cannot decode: an internal
/// invariant of the store's contents is broken.
#[derive(Clone, Debug)]
pub struct IdentityDecodeError {
    pub id: String,
}

/// The address of a pull request's page.
pub open spec fn pr_url_spec(repo: Seq<char>, pr: Seq<char>) -> Seq<char> {
    "https://github.com/"@ + repo + "/pull/"@ + pr
}

/// Builds the address of a pull request's page.
pub fn pr_url(repo_name: &str, pr_number: &str) -> (u: String)
    ensures
        u@ == pr_url_spec(repo_name@, pr_number@),
{
    let mut u = String::from_str("https://github.com/");
    u.append(repo_name);
    u.append("/pull/");
    u.append(pr_number);
    proof {
        assert(u@ =~= pr_url_spec(repo_name@, pr_number@));
    }
    u
}

/// Two pull-request pages of one repository differ whenever their numbers
/// do.
pub proof fn lemma_pr_url_injective(repo: Seq<char>, a: Seq<char>, b: Seq<char>)
    requires
        a != b,
    ensures
        pr_url_spec(repo, a) != pr_url_spec(repo, b),
{
    let p = "https://github.com/"@ + repo + "/pull/"@;
    assert(pr_url_spec(repo, a) =~= p + a);
    assert(pr_url_spec(repo, b) =~= p + b);
    if p + a == p + b {
        assert(a.len() == b.len());
        assert forall|i: int| 0 <= i < a.len() implies a[i] == b[i] by {
            assert((p + a)[p.len() + i] == a[i]);
            assert((p + b)[p.len() + i] == b[i]);
        }
        assert(a =~= b);
    }
}

/// Whether a raw match survives the filter: it belongs to the queried
/// repository, it is not the querying pull request itself, and it reaches
/// the similarity threshold (in hundredths of a percent).
pub open spec fn match_kept(m: RawMatch, repo: Seq<char>, pr: Seq<char>, min_cp: int) -> bool {
    &&& repo_name_of_id(m.id@) == repo
    &&& pr_number_of_id(m.id@) != pr
    &&& m.score >= min_cp
}

/// The raw matches that survive the filter, in response order.
pub open spec fn kept_matches(
    results: Seq<RawMatch>,
    repo: Seq<char>,
    pr: Seq<char>,
    min_cp: int,
) -> Seq<RawMatch> {
    results.filter(|m: RawMatch| match_kept(m, repo, pr, min_cp))
}

/// Every element of a filtered sequence is an element of the original.
proof fn lemma_filter_subset<A>(s: Seq<A>, pred: spec_fn(A) -> bool, j: int)
    requires
        0 <= j < s.filter(pred).len(),
    ensures
        exists|k: int| 0 <= k < s.len() && s[k] == s.filter(pred)[j],
    decreases s.len(),
{
    reveal(Seq::filter);
    if s.len() != 0 {
        if j < s.drop_last().filter(pred).len() {
            lemma_filter_subset(s.drop_last(), pred, j);
            let k = choose|k: int|
                0 <= k < s.drop_last().len() && s.drop_last()[k] == s.drop_last().filter(pred)[j];
            assert(s[k] == s.filter(pred)[j]);
        } else {
            assert(s[s.len() - 1] == s.filter(pred)[j]);
        }
    }
}

/// What the whole report satisfies after filtering: threshold reached,
/// own pull request excluded, other repositories excluded, and — as long
/// as every raw score was at most one hundred percent — percentages
/// within the hundred-percent bound.
pub proof fn lemma_kept_matches(results: Seq<RawMatch>, repo: Seq<char>, pr: Seq<char>, min_cp: int)
    ensures
        forall|j: int|
            0 <= j < kept_matches(results, repo, pr, min_cp).len() ==> match_kept(
                #[trigger] kept_matches(results, repo, pr, min_cp)[j],
                repo,
                pr,
                min_cp,
            ),
        (forall|k: int| 0 <= k < results.len() ==> (#[trigger] results[k]).score <= 10000)
            ==> forall|j: int|
            0 <= j < kept_matches(results, repo, pr, min_cp).len() ==> (#[trigger] kept_matches(
                results,
                repo,
                pr,
                min_cp,
            )[j]).score <= 10000,
{
    let pred = |m: RawMatch| match_kept(m, repo, pr, min_cp);
    let kept = results.filter(pred);
    assert forall|j: int| 0 <= j < kept.len() implies match_kept(
        #[trigger] kept[j],
        repo,
        pr,
        min_cp,
    ) by {
        results.lemma_filter_pred(pred, j);
    }
    if forall|k: int| 0 <= k < results.len() ==> (#[trigger] results[k]).score <= 10000 {
        assert forall|j: int| 0 <= j < kept.len() implies (#[trigger] kept[j]).score <= 10000 by {
            lemma_filter_subset(results, pred, j);
            let k = choose|k: int| 0 <= k < results.len() && results[k] == kept[j];
            assert(results[k].score <= 10000);
        }
    }
}

/// What the report of a query response holds when filtering succeeded:
/// in response order, one entry per surviving match, carrying the
/// address of its pull request and its similarity.
pub open spec fn report_of(
    sp: SimilarPRs,
    results: Seq<RawMatch>,
    repo: Seq<char>,
    pr: Seq<char>,
    min_cp: int,
) -> bool {
    let kept = kept_matches(results, repo, pr, min_cp);
    &&& sp.data@.len() == kept.len()
    &&& forall|j: int|
        0 <= j < kept.len() ==> (#[trigger] sp.data@[j]).pr_url@ == pr_url_spec(
            repo,
            pr_number_of_id(kept[j].id@),
        ) && sp.data@[j].percentage == kept[j].score
}

/// Filtering keeps relative order, so it keeps a descending order: when
/// the results are ranked by descending score — as the store hands its
/// nearest neighbours back — the survivors stay so ranked.
proof fn lemma_filter_keeps_descending(s: Seq<RawMatch>, pred: spec_fn(RawMatch) -> bool)
    requires
        forall|j: int, k: int|
            0 <= j <= k < s.len() ==> (#[trigger] s[j]).score >= (#[trigger] s[k]).score,
    ensures
        forall|j: int, k: int|
            0 <= j <= k < s.filter(pred).len() ==> (#[trigger] s.filter(pred)[j]).score >= (
            #[trigger] s.filter(pred)[k]).score,
    decreases s.len(),
{
    reveal(Seq::filter);
    if s.len() > 0 {
        let head = s.drop_last();
        assert forall|j: int, k: int|
            0 <= j <= k < head.len() implies (#[trigger] head[j]).score >= (
        #[trigger] head[k]).score by {
            assert(head[j] == s[j]);
            assert(head[k] == s[k]);
        }
        lemma_filter_keeps_descending(head, pred);
        let kept = s.filter(pred);
        assert forall|j: int, k: int|
            0 <= j <= k < kept.len() implies (#[trigger] kept[j]).score >= (
        #[trigger] kept[k]).score by {
            if k < head.filter(pred).len() {
                assert(kept[j] == head.filter(pred)[j]);
                assert(kept[k] == head.filter(pred)[k]);
            } else {
                assert(kept[k] == s.last());
                if j < head.filter(pred).len() {
                    assert(kept[j] == head.filter(pred)[j]);
                    lemma_filter_subset(head, pred, j);
                    let pos = choose|pos: int|
                        0 <= pos < head.len() && head[pos] == head.filter(pred)[j];
                    assert(s[pos] == head[pos]);
                    assert(s[pos].score >= s[s.len() - 1].score);
                } else {
                    assert(kept[j] == s.last());
                }
            }
        }
    }
}

/// A query response ranked by descending score filters to a report
/// ranked by descending percentage: the filter never reorders what the
/// store ranked.
pub proof fn lemma_report_descending(
    sp: SimilarPRs,
    results: Seq<RawMatch>,
    repo: Seq<char>,
    pr: Seq<char>,
    min_cp: int,
)
    requires
        report_of(sp, results, repo, pr, min_cp),
        forall|j: int, k: int|
            0 <= j <= k < results.len() ==> (#[trigger] results[j]).score >= (
            #[trigger] results[k]).score,
    ensures
        forall|j: int, k: int|
            0 <= j <= k < sp.data@.len() ==> (#[trigger] sp.data@[j]).percentage >= (
            #[trigger] sp.data@[k]).percentage,
{
    let pred = |m: RawMatch| match_kept(m, repo, pr, min_cp);
    lemma_filter_keeps_descending(results, pred);
    assert forall|j: int, k: int|
        0 <= j <= k < sp.data@.len() implies (#[trigger] sp.data@[j]).percentage >= (
    #[trigger] sp.data@[k]).percentage by {
        let kept = kept_matches(results, repo, pr, min_cp);
        assert(sp.data@[j].percentage == kept[j].score);
        assert(sp.data@[k].percentage == kept[k].score);
    }
}

/// Two filterings of one query response agree entry for entry: up to
/// the views of its strings, the filtered match set is a function of the
/// response and the query parameters alone, so one run repeated on the
/// same stored state reports the same similar pull requests.
pub proof fn lemma_filter_deterministic(
    sp1: SimilarPRs,
    sp2: SimilarPRs,
    results: Seq<RawMatch>,
    repo: Seq<char>,
    pr: Seq<char>,
    min_cp: int,
)
    requires
        report_of(sp1, results, repo, pr, min_cp),
        report_of(sp2, results, repo, pr, min_cp),
    ensures
        sp1.data@.len() == sp2.data@.len(),
        forall|j: int|
            0 <= j < sp1.data@.len() ==> (#[trigger] sp1.data@[j]).pr_url@ == sp2.data@[j].pr_url@
                && sp1.data@[j].percentage == sp2.data@[j].percentage,
{
}

/// Applies the identity and threshold filter to a query response.
///
/// Succeeds exactly when every returned id decodes; the report then holds,
/// in response order, one entry per surviving match: the address of its
/// pull request and its similarity. A match survives only if it is from
/// `repo_name`, is not PR `pr_number` itself, and reaches `min_similarity`
/// percent.
pub fn filter_query_results(
    results: &Vec<RawMatch>,
    repo_name: &str,
    pr_number: &str,
    min_similarity: u8,
) -> (r: Result<SimilarPRs, IdentityDecodeError>)
    ensures
        r is Ok <==> (forall|j: int|
            0 <= j < results@.len() ==> id_wellformed((#[trigger] results@[j]).id@)),
        (r matches Err(e) ==> exists|j: int|
            0 <= j < results@.len() && !id_wellformed((#[trigger] results@[j]).id@) && e.id@
                == results@[j].id@),
        (r matches Ok(sp) ==> report_of(
            sp,
            results@,
            repo_name@,
            pr_number@,
            min_similarity as int * 100,
        )),
        (r matches Ok(sp) ==> forall|j: int|
            0 <= j < sp.data@.len() ==> (#[trigger] sp.data@[j]).percentage >= min_similarity as int
                * 100 && sp.data@[j].pr_url@ != pr_url_spec(repo_name@, pr_number@)),
        (r matches Ok(sp) ==> ((forall|k: int|
            0 <= k < results@.len() ==> (#[trigger] results@[k]).score <= 10000) ==> forall|j: int|
            0 <= j < sp.data@.len() ==> (#[trigger] sp.data@[j]).percentage <= 10000)),
{
    let ghost min_cp_spec = min_similarity as int * 100;
    let ghost pred = |m: RawMatch| match_kept(m, repo_name@, pr_number@, min_cp_spec);
    let min_cp: i64 = (min_similarity as i64) * 100;
    let mut out: Vec<SimilarPRsInner> = Vec::new();
    let n = results.len();
    let mut i: usize = 0;
    while i < n
        invariant
            0 <= i <= n,
            n == results@.len(),
            min_cp == min_cp_spec,
            min_cp_spec == min_similarity as int * 100,
            pred == (|m: RawMatch| match_kept(m, repo_name@, pr_number@, min_cp_spec)),
            forall|j: int| 0 <= j < i ==> id_wellformed((#[trigger] results@[j]).id@),
            out@.len() == results@.take(i as int).filter(pred).len(),
            forall|j: int|
                0 <= j < out@.len() ==> (#[trigger] out@[j]).pr_url@ == pr_url_spec(
                    repo_name@,
                    pr_number_of_id(results@.take(i as int).filter(pred)[j].id@),
                ) && out@[j].percentage == results@.take(i as int).filter(pred)[j].score,
        decreases n - i,
    {
        let m = &results[i];
        if !id_has_colon(m.id.as_str()) {
            return Err(IdentityDecodeError { id: m.id.clone() });
        }
        let ghost out0 = out@;
        proof {
            reveal(Seq::filter);
            assert(results@.take(i as int + 1).drop_last() =~= results@.take(i as int));
            assert(results@.take(i as int + 1).last() == results@[i as int]);
        }
        let repo_m = uuid_to_repo_name(m.id.as_str());
        let pr_m = uuid_to_pr_number(m.id.as_str());
        if str_equal(repo_m, repo_name) && !str_equal(pr_m, pr_number) && m.score >= min_cp {
            let entry = SimilarPRsInner { pr_url: pr_url(repo_name, pr_m), percentage: m.score };
            out.push(entry);
            proof {
                reveal(Seq::filter);
                assert(pred(results@[i as int]));
                assert(results@.take(i as int + 1).filter(pred) =~= results@.take(
                    i as int,
                ).filter(pred).push(results@[i as int]));
            }
        } else {
            proof {
                reveal(Seq::filter);
                assert(!pred(results@[i as int]));
                assert(results@.take(i as int + 1).filter(pred) =~= results@.take(
                    i as int,
                ).filter(pred));
            }
        }
        i = i + 1;
    }
    proof {
        assert(results@.take(n as int) =~= results@);
        lemma_kept_matches(results@, repo_name@, pr_number@, min_cp_spec);
        assert forall|j: int| 0 <= j < out@.len() implies (#[trigger] out@[j]).percentage
            >= min_cp_spec && out@[j].pr_url@ != pr_url_spec(repo_name@, pr_number@) by {
            let kept = kept_matches(results@, repo_name@, pr_number@, min_cp_spec);
            assert(match_kept(kept[j], repo_name@, pr_number@, min_cp_spec));
            lemma_pr_url_injective(repo_name@, pr_number_of_id(kept[j].id@), pr_number@);
        }
    }
    Ok(SimilarPRs { data: out })
}

/// The decimal digit characters.
pub open spec fn digit_char(d: int) -> char {
    if d == 0 {
        '0'
    } else if d == 1 {
        '1'
    } else if d == 2 {
        '2'
    } else if d == 3 {
        '3'
    } else if d == 4 {
        '4'
    } else if d == 5 {
        '5'
    } else if d == 6 {
        '6'
    } else if d == 7 {
        '7'
    } else if d == 8 {
        '8'
    } else {
        '9'
    }
}

/// The decimal rendering of a nonnegative integer.
pub open spec fn dec_rep(n: int) -> Seq<char>
    recommends
        n >= 0,
    decreases n,
    when n >= 0
    via dec_rep_dec
{
    if n <= 9 {
        seq![digit_char(n)]
    } else {
        dec_rep(n / 10) + seq![digit_char(n % 10)]
    }
}

#[via_fn]
proof fn dec_rep_dec(n: int) {
    if n > 9 {
        vstd::arithmetic::div_mod::lemma_div_decreases(n, 10);
    }
}

/// One decimal digit, as a string slice.
fn digit_str(d: u64) -> (s: &'static str)
    requires
        d <= 9,
    ensures
        s@ == seq![digit_char(d as int)],
{
    if d == 0 {
        proof {
            reveal_strlit("0");
        }
        let s = "0";
        proof {
            assert(s@ =~= seq!['0']);
        }
        s
    } else if d == 1 {
        proof {
            reveal_strlit("1");
        }
        let s = "1";
        proof {
            assert(s@ =~= seq!['1']);
        }
        s
    } else if d == 2 {
        proof {
            reveal_strlit("2");
        }
        let s = "2";
        proof {
            assert(s@ =~= seq!['2']);
        }
        s
    } else if d == 3 {
        proof {
            reveal_strlit("3");
        }
        let s = "3";
        proof {
            assert(s@ =~= seq!['3']);
        }
        s
    } else if d == 4 {
        proof {
            reveal_strlit("4");
        }
        let s = "4";
        proof {
            assert(s@ =~= seq!['4']);
        }
        s
    } else if d == 5 {
        proof {
            reveal_strlit("5");
        }
        let s = "5";
        proof {
            assert(s@ =~= seq!['5']);
        }
        s
    } else if d == 6 {
        proof {
            reveal_strlit("6");
        }
        let s = "6";
        proof {
            assert(s@ =~= seq!['6']);
        }
        s
    } else if d == 7 {
        proof {
            reveal_strlit("7");
        }
        let s = "7";
        proof {
            assert(s@ =~= seq!['7']);
        }
        s
    } else if d == 8 {
        proof {
            reveal_strlit("8");
        }
        let s = "8";
        proof {
            assert(s@ =~= seq!['8']);
        }
        s
    } else {
        proof {
            reveal_strlit("9");
        }
        let s = "9";
        proof {
            assert(s@ =~= seq!['9']);
        }
        s
    }
}

/// Renders a number in decimal.
pub fn u64_to_dec(n: u64) -> (s: String)
    ensures
        s@ == dec_rep(n as int),
    decreases n,
{
    if n <= 9 {
        String::from_str(digit_str(n))
    } else {
        proof {
            vstd::arithmetic::div_mod::lemma_div_decreases(n as int, 10);
        }
        let mut s = u64_to_dec(n / 10);
        s.append(digit_str(n % 10));
        s
    }
}

/// The rendering of a similarity given in hundredths of a percent: the
/// whole percentage, then up to two fractional digits, trailing zeros
/// dropped.
pub open spec fn percent_rep(p: int) -> Seq<char>
    recommends
        p >= 0,
{
    let whole = p / 100;
    let frac = p % 100;
    if frac == 0 {
        dec_rep(whole)
    } else if frac % 10 == 0 {
        dec_rep(whole) + seq!['.', digit_char(frac / 10)]
    } else {
        dec_rep(whole) + seq!['.', digit_char(frac / 10), digit_char(frac % 10)]
    }
}

/// Renders a similarity given in hundredths of a percent.
pub fn percent_string(p: i64) -> (s: String)
    requires
        p >= 0,
    ensures
        s@ == percent_rep(p as int),
{
    let whole = (p / 100) as u64;
    let frac = (p % 100) as u64;
    let mut s = u64_to_dec(whole);
    if frac == 0 {
        return s;
    }
    proof {
        reveal_strlit(".");
    }
    s.append(".");
    s.append(digit_str(frac / 10));
    if frac % 10 == 0 {
        proof {
            assert(s@ =~= percent_rep(p as int));
        }
        return s;
    }
    s.append(digit_str(frac % 10));
    proof {
        assert(s@ =~= percent_rep(p as int));
    }
    s
}

/// The trailing path segment of a pull request's page address: its
/// number.
pub open spec fn url_tail(u: Seq<char>) -> Seq<char> {
    u.subrange(last_index_of(u, '/') + 1, u.len() as int)
}

/// Extracts the pull-request number out of a page address.
pub fn url_pr_number<'a>(u: &'a str) -> (t: &'a str)
    ensures
        t@ == url_tail(u@),
{
    let n = u.unicode_len();
    if has_char(u, '/') {
        let k = find_last(u, '/');
        proof {
            lemma_last_index_of(u@, '/');
        }
        u.substring_char(k + 1, n)
    } else {
        proof {
            lemma_last_index_of(u@, '/');
        }
        u.substring_char(0, n)
    }
}

/// The rendering of one report row.
pub open spec fn row_rep(m: SimilarPRsInner) -> Seq<char>
    recommends
        m.percentage >= 0,
{
    "<tr><td>#"@ + url_tail(m.pr_url@) + "</td><td>"@ + percent_rep(m.percentage as int)
        + "%</td></tr>"@
}

/// The renderings of all report rows, in order.
pub open spec fn rows_rep(data: Seq<SimilarPRsInner>) -> Seq<char>
    decreases data.len(),
{
    if data.len() == 0 {
        Seq::empty()
    } else {
        rows_rep(data.drop_last()) + row_rep(data.last())
    }
}

/// The rendering of the whole report: empty for an empty report, else a
/// table of one row per similar pull request.
pub open spec fn html_table_rep(data: Seq<SimilarPRsInner>) -> Seq<char> {
    if data.len() == 0 {
        Seq::empty()
    } else {
        "<table><tr><th>PR</th><th>Similarity</th></tr>"@ + rows_rep(data) + "</table>"@
    }
}

proof fn lemma_rows_rep_push(data: Seq<SimilarPRsInner>, m: SimilarPRsInner)
    ensures
        rows_rep(data.push(m)) == rows_rep(data) + row_rep(m),
{
    assert(data.push(m).drop_last() =~= data);
    assert(data.push(m).last() == m);
}

impl SimilarPRs {
    /// A report is well formed when no percentage is negative.
    pub open spec fn wf(&self) -> bool {
        forall|j: int| 0 <= j < self.data@.len() ==> (#[trigger] self.data@[j]).percentage >= 0
    }

    /// Renders the report as an HTML table, one row per similar pull
    /// request; an empty report renders as the empty string.
    pub fn to_html_table(&self) -> (h: String)
        requires
            self.wf(),
        ensures
            h@ == html_table_rep(self.data@),
    {
        if self.data.len() == 0 {
            let h = String::new();
            return h;
        }
        let mut h = String::from_str("<table><tr><th>PR</th><th>Similarity</th></tr>");
        let n = self.data.len();
        let mut i: usize = 0;
        while i < n
            invariant
                0 <= i <= n,
                n == self.data@.len(),
                self.wf(),
                h@ == "<table><tr><th>PR</th><th>Similarity</th></tr>"@ + rows_rep(
                    self.data@.take(i as int),
                ),
            decreases n - i,
        {
            let m = &self.data[i];
            proof {
                reveal_strlit("<tr><td>#");
                reveal_strlit("</td><td>");
                reveal_strlit("%</td></tr>");
            }
            h.append("<tr><td>#");
            h.append(url_pr_number(m.pr_url.as_str()));
            h.append("</td><td>");
            let pct = percent_string(m.percentage);
            h.append(pct.as_str());
            h.append("%</td></tr>");
            proof {
                lemma_rows_rep_push(self.data@.take(i as int), self.data@[i as int]);
                assert(self.data@.take(i as int + 1) =~= self.data@.take(i as int).push(
                    self.data@[i as int],
                ));
                assert(h@ =~= "<table><tr><th>PR</th><th>Similarity</th></tr>"@ + rows_rep(
                    self.data@.take(i as int + 1),
                ));
            }
            i = i + 1;
        }
        h.append("</table>");
        proof {
            assert(self.data@.take(n as int) =~= self.data@);
            assert(h@ =~= html_table_rep(self.data@));
        }
        h
    }
}

} // verus!
