//! Attributing app classes: to a category by the first matching category
//! rule, and to a project by the first matching project rule (rules come in
//! priority order, highest first). Also how saved rules and projects are
//! normalized.
use vstd::prelude::*;
use crate::server::like::{like_chars, like_match};
use crate::server::models::{CategoryRule, Project, ProjectRule};
use crate::text::{chars_of, lowercase, string_of, trim, trim_chars};

verus! {

/// The categories an app can be filed under.
pub open spec fn known_categories_spec() -> Seq<Seq<char>> {
    seq![
        "development"@,
        "browsing"@,
        "gaming"@,
        "social"@,
        "media"@,
        "productivity"@,
        "utility"@,
        "system"@,
        "other"@,
    ]
}

pub fn known_categories() -> (c: Vec<String>)
    ensures
        c@.map_values(|s: String| s@) == known_categories_spec(),
{
    let mut c: Vec<String> = Vec::new();
    c.push(String::from_str("development"));
    c.push(String::from_str("browsing"));
    c.push(String::from_str("gaming"));
    c.push(String::from_str("social"));
    c.push(String::from_str("media"));
    c.push(String::from_str("productivity"));
    c.push(String::from_str("utility"));
    c.push(String::from_str("system"));
    c.push(String::from_str("other"));
    assert(c@.map_values(|s: String| s@) =~= known_categories_spec());
    c
}

/// Whether a rule's pattern matches the class (both lowercased).
pub open spec fn rule_matches(pattern: Seq<char>, class: Seq<char>) -> bool {
    like_chars(lowercase(pattern), lowercase(class))
}

/// Index of the first rule matching the class.
pub open spec fn first_match(rules: Seq<CategoryRule>, class: Seq<char>, i: int) -> bool {
    0 <= i < rules.len() && rule_matches(rules[i].pattern@, class) && forall|k: int|
        0 <= k < i ==> !rule_matches(#[trigger] rules[k].pattern@, class)
}

/// The category of the first matching rule, `other` when none matches.
pub open spec fn categorize_spec(rules: Seq<CategoryRule>, class: Seq<char>) -> Seq<char> {
    if exists|i: int| first_match(rules, class, i) {
        rules[choose|i: int| first_match(rules, class, i)].category@
    } else {
        "other"@
    }
}

/// Classifies an app class by the rules, in the order given.
pub fn categorize(rules: &Vec<CategoryRule>, class: &str) -> (c: String)
    ensures
        c@ == categorize_spec(rules@, class@),
{
    let mut i: usize = 0;
    while i < rules.len()
        invariant
            i <= rules@.len(),
            forall|k: int| 0 <= k < i ==> !rule_matches(#[trigger] rules@[k].pattern@, class@),
        decreases rules@.len() - i,
    {
        if like_match(rules[i].pattern.as_str(), class) {
            proof {
                assert(first_match(rules@, class@, i as int));
                let j = choose|j: int| first_match(rules@, class@, j);
                assert(j == i as int) by {
                    if j < i {
                    } else if j > i {
                        assert(!rule_matches(rules@[i as int].pattern@, class@));
                    }
                }
            }
            return rules[i].category.clone();
        }
        i = i + 1;
    }
    String::from_str("other")
}

/// The project with this id, if listed.
pub open spec fn project_with_id(projects: Seq<Project>, id: i64, j: int) -> bool {
    0 <= j < projects.len() && projects[j].id == Some(id) && forall|k: int|
        0 <= k < j ==> (#[trigger] projects[k]).id != Some(id)
}

/// A rule resolves when it matches the class and its project exists.
pub open spec fn resolves(r: ProjectRule, projects: Seq<Project>, class: Seq<char>) -> bool {
    rule_matches(r.pattern@, class) && exists|j: int| 0 <= j < projects.len() && (#[trigger] projects[j]).id == Some(r.project_id)
}

pub open spec fn first_resolving(rules: Seq<ProjectRule>, projects: Seq<Project>, class: Seq<char>, i: int) -> bool {
    0 <= i < rules.len() && resolves(rules[i], projects, class) && forall|k: int|
        0 <= k < i ==> !resolves(#[trigger] rules[k], projects, class)
}

/// The project of the first rule that matches the class and names an
/// existing project; `None` when there is none.
pub fn project_for_class(rules: &Vec<ProjectRule>, projects: &Vec<Project>, class: &str) -> (p: Option<Project>)
    ensures
        match p {
            Some(pr) => exists|i: int, j: int|
                first_resolving(rules@, projects@, class@, i) && project_with_id(projects@, rules@[i].project_id, j)
                    && pr == projects@[j],
            None => !exists|i: int| first_resolving(rules@, projects@, class@, i),
        },
{
    let mut i: usize = 0;
    while i < rules.len()
        invariant
            i <= rules@.len(),
            forall|k: int| 0 <= k < i ==> !resolves(#[trigger] rules@[k], projects@, class@),
        decreases rules@.len() - i,
    {
        let r = &rules[i];
        if like_match(r.pattern.as_str(), class) {
            let mut j: usize = 0;
            while j < projects.len()
                invariant
                    j <= projects@.len(),
                    i < rules@.len(),
                    *r == rules@[i as int],
                    rule_matches(r.pattern@, class@),
                    forall|k: int| 0 <= k < i ==> !resolves(#[trigger] rules@[k], projects@, class@),
                    forall|k: int| 0 <= k < j ==> (#[trigger] projects@[k]).id != Some(r.project_id),
                decreases projects@.len() - j,
            {
                let found = match projects[j].id {
                    Some(id) => id == r.project_id,
                    None => false,
                };
                if found {
                    proof {
                        assert(resolves(rules@[i as int], projects@, class@));
                        assert(first_resolving(rules@, projects@, class@, i as int));
                        assert(project_with_id(projects@, rules@[i as int].project_id, j as int));
                    }
                    return Some(copy_project(&projects[j]));
                }
                j = j + 1;
            }
            proof {
                assert(!resolves(rules@[i as int], projects@, class@));
            }
        }
        i = i + 1;
    }
    proof {
        assert forall|i: int| !first_resolving(rules@, projects@, class@, i) by {
            if 0 <= i < rules@.len() {
                assert(!resolves(rules@[i], projects@, class@));
            }
        }
    }
    None
}

fn copy_project(p: &Project) -> (q: Project)
    ensures
        q == *p,
{
    Project { id: p.id, name: p.name.clone(), color: p.color.clone(), sort_order: p.sort_order }
}

/// How a category rule is stored: pattern and category trimmed.
pub fn normalized_category_rule(rule: &CategoryRule) -> (r: (String, String, i64))
    ensures
        r.0@ == trim(rule.pattern@),
        r.1@ == trim(rule.category@),
        r.2 == rule.priority,
{
    (
        string_of(&trim_chars(&chars_of(rule.pattern.as_str()))),
        string_of(&trim_chars(&chars_of(rule.category.as_str()))),
        rule.priority,
    )
}

/// How a saved project is stored: its name trimmed, a blank color replaced
/// by the default `#22d3ee`, and its position in the list as sort order.
/// Projects with a blank name are not stored.
pub fn project_row(p: &Project, position: usize) -> (r: Option<(String, String, i64)>)
    requires
        position <= i64::MAX,
    ensures
        match r {
            Some((name, color, order)) => trim(p.name@).len() > 0 && name@ == trim(p.name@) && color@
                == (if trim(p.color@).len() == 0 {
                "#22d3ee"@
            } else {
                trim(p.color@)
            }) && order == position,
            None => trim(p.name@).len() == 0,
        },
{
    let name = trim_chars(&chars_of(p.name.as_str()));
    if name.len() == 0 {
        return None;
    }
    let color = trim_chars(&chars_of(p.color.as_str()));
    let color_s = if color.len() == 0 {
        String::from_str("#22d3ee")
    } else {
        string_of(&color)
    };
    Some((string_of(&name), color_s, position as i64))
}

/// A saved project rule is kept when its project exists and its pattern is
/// not blank; the pattern is stored trimmed.
pub fn rule_row(pattern: &str, project_exists: bool) -> (r: Option<String>)
    ensures
        match r {
            Some(p) => project_exists && trim(pattern@).len() > 0 && p@ == trim(pattern@),
            None => !project_exists || trim(pattern@).len() == 0,
        },
{
    let t = trim_chars(&chars_of(pattern));
    if !project_exists || t.len() == 0 {
        None
    } else {
        Some(string_of(&t))
    }
}

} // verus!
