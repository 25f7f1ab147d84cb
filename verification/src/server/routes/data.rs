//! `/api/*` data endpoints: query parameters with their defaults, and the
//! validation of the project list a client saves.
use vstd::prelude::*;
use crate::server::models::{CategoryRule, Goal, Project, ProjectRule};
use crate::text::{chars_eq, chars_of, string_of, trim, trim_chars};

verus! {

#[derive(Debug, Clone)]
pub struct SummaryQuery {
    pub date: Option<String>,
}

#[derive(Debug, Clone)]
pub struct AppRankingQuery {
    pub from: Option<String>,
    pub to: Option<String>,
    pub limit: usize,
}

/// Default number of rows of the ranking, resource and disruption lists.
pub fn default_limit() -> (n: usize)
    ensures
        n == 10,
{
    10
}

#[derive(Debug, Clone)]
pub struct DateQuery {
    pub date: Option<String>,
}

#[derive(Debug, Clone)]
pub struct SessionQuery {
    pub from: Option<String>,
    pub to: Option<String>,
    pub page: u32,
    pub per_page: u32,
    pub class: Option<String>,
}

pub fn default_page() -> (n: u32)
    ensures
        n == 1,
{
    1
}

pub fn default_per_page() -> (n: u32)
    ensures
        n == 50,
{
    50
}

#[derive(Debug, Clone)]
pub struct AppTrendQuery {
    pub from: Option<String>,
    pub to: Option<String>,
    pub granularity: Option<String>,
}

#[derive(Debug, Clone)]
pub struct ResourceQuery {
    pub from: Option<String>,
    pub to: Option<String>,
    pub limit: usize,
}

#[derive(Debug, Clone)]
pub struct CategoriesResponse {
    pub rules: Vec<CategoryRule>,
    pub categories: Vec<String>,
}

#[derive(Debug, Clone)]
pub struct CategoriesUpdate {
    pub rules: Vec<CategoryRule>,
}

#[derive(Debug, Clone)]
pub struct ProjectsResponse {
    pub projects: Vec<Project>,
    pub rules: Vec<ProjectRule>,
}

#[derive(Debug, Clone)]
pub struct ProjectsUpdate {
    pub projects: Vec<Project>,
    pub rules: Vec<ProjectRule>,
}

#[derive(Debug, Clone)]
pub struct ProjectStatsQuery {
    pub from: Option<String>,
    pub to: Option<String>,
}

#[derive(Debug, Clone)]
pub struct DateRangeQuery {
    pub from: Option<String>,
    pub to: Option<String>,
}

#[derive(Debug, Clone)]
pub struct ActivityEventsQuery {
    pub from: Option<String>,
    pub to: Option<String>,
    pub limit: usize,
}

pub fn default_events_limit() -> (n: usize)
    ensures
        n == 100,
{
    100
}

#[derive(Debug, Clone)]
pub struct DisruptionQuery {
    pub from: Option<String>,
    pub to: Option<String>,
    pub limit: usize,
}

/// The disruption list returns between 1 and 200 rows.
pub fn disruption_limit(requested: usize) -> (n: usize)
    ensures
        n == (if requested < 1 {
            1
        } else if requested > 200 {
            200
        } else {
            requested
        }),
{
    if requested < 1 {
        1
    } else if requested > 200 {
        200
    } else {
        requested
    }
}

#[derive(Debug, Clone)]
pub struct EfficiencyQuery {
    pub date: Option<String>,
}

#[derive(Debug, Clone)]
pub struct GoalsUpdate {
    pub goals: Vec<Goal>,
}

#[derive(Debug, Clone)]
pub struct ReportQuery {
    pub from: Option<String>,
    pub to: Option<String>,
}

#[derive(Debug, Clone)]
pub struct PredictQuery {
    pub window: i64,
}

pub fn default_predict_window() -> (n: i64)
    ensures
        n == 14,
{
    14
}

#[derive(Debug, Clone)]
pub struct WorkspaceQuery {
    pub days: i64,
}

pub fn default_ws_days() -> (n: i64)
    ensures
        n == 14,
{
    14
}

pub open spec fn project_names(ps: Seq<Project>) -> Seq<Seq<char>> {
    ps.map_values(|p: Project| trim(p.name@))
}

/// The first trimmed, non-empty name that an earlier project already used
/// (blank names are ignored), in list order.
pub open spec fn first_duplicate_name(names: Seq<Seq<char>>) -> Option<Seq<char>>
    decreases names.len(),
{
    if names.len() == 0 {
        None
    } else {
        match first_duplicate_name(names.drop_last()) {
            Some(d) => Some(d),
            None => {
                let t = names.last();
                if t.len() > 0 && names.drop_last().contains(t) {
                    Some(t)
                } else {
                    None
                }
            },
        }
    }
}

proof fn lemma_first_duplicate_prefix(s: Seq<Seq<char>>, k: int)
    requires
        0 <= k <= s.len(),
        first_duplicate_name(s.take(k)) is Some,
    ensures
        first_duplicate_name(s) == first_duplicate_name(s.take(k)),
    decreases s.len() - k,
{
    if k < s.len() {
        assert(s.take(k + 1).drop_last() =~= s.take(k));
        lemma_first_duplicate_prefix(s, k + 1);
    } else {
        assert(s.take(k) =~= s);
    }
}

fn position_of(seen: &Vec<Vec<char>>, t: &Vec<char>) -> (r: Option<usize>)
    ensures
        match r {
            Some(k) => k < seen@.len() && seen@[k as int]@ == t@,
            None => forall|m: int| 0 <= m < seen@.len() ==> seen@[m]@ != t@,
        },
{
    let mut k: usize = 0;
    while k < seen.len()
        invariant
            k <= seen@.len(),
            forall|m: int| 0 <= m < k ==> seen@[m]@ != t@,
        decreases seen@.len() - k,
    {
        if chars_eq(&seen[k], t) {
            return Some(k);
        }
        k = k + 1;
    }
    None
}

/// Rejects a project list that names two projects alike (after trimming):
/// returns the first repeated name, `None` when every name is unique.
pub fn duplicate_project_name(projects: &Vec<Project>) -> (r: Option<String>)
    ensures
        match r {
            Some(n) => first_duplicate_name(project_names(projects@)) == Some(n@),
            None => first_duplicate_name(project_names(projects@)) is None,
        },
{
    let ghost names = project_names(projects@);
    let mut seen: Vec<Vec<char>> = Vec::new();
    let mut i: usize = 0;
    while i < projects.len()
        invariant
            i <= projects@.len(),
            names == project_names(projects@),
            names.len() == projects@.len(),
            first_duplicate_name(names.take(i as int)) is None,
            forall|k: int| 0 <= k < seen@.len() ==> names.take(i as int).contains(#[trigger] seen@[k]@),
            forall|j: int|
                0 <= j < i && names[j].len() > 0 ==> exists|k: int|
                    0 <= k < seen@.len() && #[trigger] seen@[k]@ == names[j],
        decreases projects@.len() - i,
    {
        let t = trim_chars(&chars_of(projects[i].name.as_str()));
        let ghost pre = names.take(i as int);
        let ghost next = names.take(i + 1);
        proof {
            assert(next.drop_last() =~= pre);
            assert(t@ == names[i as int]);
            assert(next.last() == names[i as int]);
            assert forall|j: int| 0 <= j < pre.len() implies next[j] == #[trigger] pre[j] by {}
        }
        if t.len() > 0 {
            match position_of(&seen, &t) {
                Some(k) => {
                    proof {
                        assert(pre.contains(seen@[k as int]@));
                        assert(first_duplicate_name(next) == Some(t@));
                        lemma_first_duplicate_prefix(names, i + 1);
                    }
                    return Some(string_of(&t));
                },
                None => {},
            }
            proof {
                if pre.contains(t@) {
                    let j = choose|j: int| 0 <= j < pre.len() && pre[j] == t@;
                    assert(names[j] == pre[j]);
                    assert(names[j].len() > 0);
                    let kk = choose|kk: int| 0 <= kk < seen@.len() && seen@[kk]@ == names[j];
                    assert(seen@[kk]@ != t@);
                }
                assert(first_duplicate_name(next) is None);
            }
            let ghost old_seen = seen@;
            seen.push(t);
            proof {
                assert forall|m: int| 0 <= m < seen@.len() implies next.contains(#[trigger] seen@[m]@) by {
                    if m < old_seen.len() {
                        assert(seen@[m] == old_seen[m]);
                        assert(pre.contains(old_seen[m]@));
                        let j = choose|j: int| 0 <= j < pre.len() && pre[j] == old_seen[m]@;
                        assert(next[j] == old_seen[m]@);
                    } else {
                        assert(next[i as int] == seen@[m]@);
                    }
                }
                assert forall|j: int| 0 <= j < i + 1 && names[j].len() > 0 implies exists|k: int|
                    0 <= k < seen@.len() && #[trigger] seen@[k]@ == names[j] by {
                    if j == i {
                        assert(seen@[old_seen.len() as int]@ == names[j]);
                    } else {
                        let kk = choose|kk: int| 0 <= kk < old_seen.len() && old_seen[kk]@ == names[j];
                        assert(seen@[kk] == old_seen[kk]);
                        assert(seen@[kk]@ == names[j]);
                    }
                }
            }
        } else {
            proof {
                assert(first_duplicate_name(next) is None);
                assert forall|m: int| 0 <= m < seen@.len() implies next.contains(#[trigger] seen@[m]@) by {
                    let j = choose|j: int| 0 <= j < pre.len() && pre[j] == seen@[m]@;
                    assert(next[j] == seen@[m]@);
                }
            }
        }
        i = i + 1;
    }
    proof {
        assert(names.take(names.len() as int) =~= names);
    }
    None
}

/// Pages before `page` (pages count from 1; page 0 reads as page 1).
pub open spec fn pages_before(page: int) -> int {
    if page > 0 {
        page - 1
    } else {
        0
    }
}

/// Rows to skip for `page` of `per_page` rows.
pub fn page_offset(page: u32, per_page: u32) -> (o: u32)
    requires
        pages_before(page as int) * per_page <= u32::MAX,
    ensures
        o == pages_before(page as int) * per_page,
{
    let before: u32 = if page > 0 {
        page - 1
    } else {
        0
    };
    before * per_page
}

} // verus!
