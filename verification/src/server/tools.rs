//! The agent's tools: the function-tool table offered to the model (each
//! tool's name, description and parameter schema), argument defaults and
//! checks before a tool touches the database, the text truncation used in
//! tool output, and the Hyprland instance lookup from `hyprctl instances`.
use vstd::prelude::*;
use crate::server::models::Goal;
use crate::text::{
    chars_of, find_char, first_index_of, slice_chars, std_lines, std_lines_chars, str_eq,
    string_of, trim, trim_chars, views,
};

verus! {

/// `s` when it has at most `max` characters, else its first `max`
/// characters followed by `…`.
pub open spec fn truncate_spec(s: Seq<char>, max: int) -> Seq<char> {
    if s.len() <= max {
        s
    } else {
        s.take(max) + seq!['…']
    }
}

pub fn truncate(s: &str, max: usize) -> (r: String)
    ensures
        r@ == truncate_spec(s@, max as int),
{
    let v = chars_of(s);
    if v.len() <= max {
        s.to_owned()
    } else {
        let mut t = slice_chars(&v, 0, max);
        t.push('…');
        string_of(&t)
    }
}

/// An integer argument with its default, clamped to `lo..=hi`.
pub fn limit_arg(requested: Option<i64>, default: i64, lo: i64, hi: i64) -> (n: i64)
    requires
        lo <= hi,
    ensures
        ({
            let v = match requested {
                Some(r) => r,
                None => default,
            };
            n == (if v < lo {
                lo
            } else if v > hi {
                hi
            } else {
                v
            })
        }),
{
    let v = match requested {
        Some(r) => r,
        None => default,
    };
    if v < lo {
        lo
    } else if v > hi {
        hi
    } else {
        v
    }
}

/// One entry of `set_goal`'s `goals` argument, as far as it had values of
/// the right JSON types.
#[derive(Debug, Clone)]
pub struct GoalArg {
    pub name: Option<String>,
    pub target_type: Option<String>,
    pub target_key: Option<String>,
    pub daily_target_ms: Option<i64>,
    pub enabled: Option<bool>,
}

/// The goal an entry describes: entries without a name are dropped; the
/// scope defaults to `all`, the target to 0 and `enabled` to true.
pub open spec fn goal_of(a: GoalArg) -> Option<(Seq<char>, Seq<char>, Option<Seq<char>>, i64, bool)> {
    match a.name {
        None => None,
        Some(n) => Some(
            (
                n@,
                match a.target_type {
                    Some(t) => t@,
                    None => "all"@,
                },
                match a.target_key {
                    Some(k) => Some(k@),
                    None => None,
                },
                match a.daily_target_ms {
                    Some(d) => d,
                    None => 0,
                },
                match a.enabled {
                    Some(e) => e,
                    None => true,
                },
            ),
        ),
    }
}

pub open spec fn goal_view(g: Goal) -> (Seq<char>, Seq<char>, Option<Seq<char>>, i64, bool) {
    (
        g.name@,
        g.target_type@,
        match g.target_key {
            Some(k) => Some(k@),
            None => None,
        },
        g.daily_target_ms,
        g.enabled,
    )
}

pub open spec fn goals_of(args: Seq<GoalArg>) -> Seq<(Seq<char>, Seq<char>, Option<Seq<char>>, i64, bool)>
    decreases args.len(),
{
    if args.len() == 0 {
        Seq::empty()
    } else {
        match goal_of(args.last()) {
            Some(g) => goals_of(args.drop_last()).push(g),
            None => goals_of(args.drop_last()),
        }
    }
}

/// The goals `set_goal` asked for, in order.
pub fn parse_goal_args(args: &Vec<GoalArg>) -> (goals: Vec<Goal>)
    ensures
        goals@.map_values(|g: Goal| goal_view(g)) == goals_of(args@),
        forall|i: int| 0 <= i < goals@.len() ==> (#[trigger] goals@[i]).id is None,
{
    let mut goals: Vec<Goal> = Vec::new();
    let mut i: usize = 0;
    while i < args.len()
        invariant
            i <= args@.len(),
            goals@.map_values(|g: Goal| goal_view(g)) == goals_of(args@.take(i as int)),
            forall|j: int| 0 <= j < goals@.len() ==> (#[trigger] goals@[j]).id is None,
        decreases args@.len() - i,
    {
        let a = &args[i];
        proof {
            assert(args@.take(i + 1).drop_last() =~= args@.take(i as int));
            assert(args@.take(i + 1).last() == args@[i as int]);
        }
        match &a.name {
            Some(n) => {
                let g = Goal {
                    id: None,
                    name: n.clone(),
                    target_type: match &a.target_type {
                        Some(t) => t.clone(),
                        None => String::from_str("all"),
                    },
                    target_key: match &a.target_key {
                        Some(k) => Some(k.clone()),
                        None => None,
                    },
                    daily_target_ms: match a.daily_target_ms {
                        Some(d) => d,
                        None => 0,
                    },
                    enabled: match a.enabled {
                        Some(e) => e,
                        None => true,
                    },
                };
                let ghost before = goals@.map_values(|g: Goal| goal_view(g));
                goals.push(g);
                assert(goals@.map_values(|g: Goal| goal_view(g)) =~= before.push(goal_view(g)));
            },
            None => {},
        }
        i = i + 1;
    }
    assert(args@.take(args@.len() as int) =~= args@);
    goals
}

/// An empty goal list is refused unless the caller explicitly asked to
/// replace (and so clear) every goal: an empty list is almost always a
/// parse failure on the model's side.
pub fn check_set_goal(goal_count: usize, replace_all: bool) -> (r: Result<(), String>)
    ensures
        r is Ok <==> (goal_count > 0 || replace_all),
        r matches Err(e) ==> e@ == "set_goal requires at least one goal with a name"@,
{
    if goal_count == 0 && !replace_all {
        Err(String::from_str("set_goal requires at least one goal with a name"))
    } else {
        Ok(())
    }
}

/// The scope `delete_goal` removes: a target type is required, and a
/// `class` goal needs its key. (Empty strings count as absent.)
pub fn delete_goal_scope(target_type: &Option<String>, target_key: &Option<String>) -> (r: Result<(), String>)
    ensures
        match r {
            Ok(()) => (target_type matches Some(t) && t@.len() > 0) && !(target_type matches Some(t)
                && t@ == "class"@ && !(target_key matches Some(k) && k@.len() > 0)),
            Err(e) => ((target_type is None || (target_type matches Some(t) && t@.len() == 0)) && e@
                == "missing required argument: target_type"@) || ((target_type matches Some(t) && t@
                == "class"@ && !(target_key matches Some(k) && k@.len() > 0)) && e@
                == "delete_goal requires target_key when target_type is 'class'"@),
        },
{
    let t = match target_type {
        Some(t) => if t.as_str().unicode_len() > 0 {
            t
        } else {
            return Err(String::from_str("missing required argument: target_type"));
        },
        None => {
            return Err(String::from_str("missing required argument: target_type"));
        },
    };
    let has_key = match target_key {
        Some(k) => k.as_str().unicode_len() > 0,
        None => false,
    };
    if str_eq(t.as_str(), "class") && !has_key {
        proof {
            reveal_strlit("class");
        }
        return Err(String::from_str("delete_goal requires target_key when target_type is 'class'"));
    }
    Ok(())
}

/// The instance signature in `hyprctl instances` output: from the first line
/// that, trimmed, starts with `instance `, the part before the first `:`,
/// trimmed.
pub open spec fn instance_signature_spec(out: Seq<char>) -> Option<Seq<char>> {
    let ls = std_lines(out);
    if exists|i: int| 0 <= i < ls.len() && is_instance_line(#[trigger] ls[i]) {
        let i = choose|i: int|
            0 <= i < ls.len() && is_instance_line(#[trigger] ls[i]) && forall|k: int|
                0 <= k < i ==> !is_instance_line(#[trigger] ls[k]);
        let rest = trim(ls[i]).skip(9);
        Some(trim(before_colon(rest)))
    } else {
        None
    }
}

pub open spec fn is_instance_line(l: Seq<char>) -> bool {
    trim(l).len() >= 9 && trim(l).take(9) == "instance "@
}

/// `s.split(':').next()`: everything before the first `:`.
pub open spec fn before_colon(s: Seq<char>) -> Seq<char> {
    if exists|i: int| first_index_of(s, ':', i) {
        s.take(choose|i: int| first_index_of(s, ':', i))
    } else {
        s
    }
}

/// Finds the running Hyprland instance's signature in `hyprctl instances`
/// output.
pub fn instance_signature(out: &str) -> (r: Option<String>)
    ensures
        match r {
            Some(s) => instance_signature_spec(out@) == Some(s@),
            None => instance_signature_spec(out@) is None,
        },
{
    let lines = std_lines_chars(&chars_of(out));
    let ghost lv = views(lines@);
    let prefix = chars_of("instance ");
    proof {
        reveal_strlit("instance ");
    }
    let mut i: usize = 0;
    while i < lines.len()
        invariant
            i <= lines@.len(),
            lv == views(lines@),
            lv == std_lines(out@),
            prefix@ == "instance "@,
            prefix@.len() == 9,
            forall|k: int| 0 <= k < i ==> !is_instance_line(#[trigger] lv[k]),
        decreases lines@.len() - i,
    {
        let t = trim_chars(&lines[i]);
        assert(lv[i as int] == lines@[i as int]@);
        if crate::text::starts_with_chars(&t, &prefix) {
            proof {
                assert(is_instance_line(lv[i as int]));
                let c = choose|c: int|
                    0 <= c < lv.len() && is_instance_line(#[trigger] lv[c]) && forall|k: int|
                        0 <= k < c ==> !is_instance_line(#[trigger] lv[k]);
                assert(c == i as int) by {
                    if c > i {
                        assert(!is_instance_line(lv[i as int]));
                    }
                }
            }
            let rest = slice_chars(&t, 9, t.len());
            assert(rest@ == t@.skip(9));
            let head = match find_char(&rest, ':') {
                Some(j) => {
                    proof {
                        let c = choose|c: int| first_index_of(rest@, ':', c);
                        assert(c == j as int) by {
                            if c < j {
                                assert(rest@[c] == ':');
                            } else if c > j {
                                assert(rest@[j as int] == ':');
                            }
                        }
                    }
                    slice_chars(&rest, 0, j)
                },
                None => rest,
            };
            return Some(string_of(&trim_chars(&head)));
        }
        i = i + 1;
    }
    None
}

// ---------------------------------------------------------------------------
// The tool table
// ---------------------------------------------------------------------------

/// JSON-schema type of a tool parameter.
#[derive(Debug, Clone, Copy, PartialEq, Eq)]
pub enum ParamKind {
    Text,
    Integer,
    Boolean,
    /// An array of objects, described by the parameter's item fields.
    List,
}

/// One field of the objects an array parameter holds.
#[derive(Debug, Clone)]
pub struct ItemField {
    pub name: String,
    pub kind: ParamKind,
    /// The values a text field may take; empty when any text is allowed.
    pub allowed: Vec<String>,
}

/// One parameter of a tool.
#[derive(Debug, Clone)]
pub struct ToolParam {
    pub name: String,
    pub kind: ParamKind,
    pub description: Option<String>,
    /// The values a text parameter may take; empty when any text is allowed.
    pub allowed: Vec<String>,
    /// For an array parameter, the fields of its objects and the names of
    /// those each object must carry.
    pub items: Vec<ItemField>,
    pub items_required: Vec<String>,
}

/// A function tool offered to the model: its name, description, the
/// parameters its argument object may carry and the names of those it must
/// carry. `additional_properties` says whether the schema admits fields
/// that it does not declare.
#[derive(Debug, Clone)]
pub struct ToolDef {
    pub name: String,
    pub description: String,
    pub params: Vec<ToolParam>,
    pub required: Vec<String>,
    pub additional_properties: bool,
}

/// Plain-value form of an item field.
#[verifier::ext_equal]
pub struct ItemView {
    pub name: Seq<char>,
    pub kind: ParamKind,
    pub allowed: Seq<Seq<char>>,
}

/// Plain-value form of a parameter.
#[verifier::ext_equal]
pub struct ParamView {
    pub name: Seq<char>,
    pub kind: ParamKind,
    pub description: Option<Seq<char>>,
    pub allowed: Seq<Seq<char>>,
    pub items: Seq<ItemView>,
    pub items_required: Seq<Seq<char>>,
}

/// Plain-value form of a tool.
#[verifier::ext_equal]
pub struct ToolView {
    pub name: Seq<char>,
    pub description: Seq<char>,
    pub params: Seq<ParamView>,
    pub required: Seq<Seq<char>>,
    pub additional_properties: bool,
}

pub open spec fn str_views(v: Seq<String>) -> Seq<Seq<char>> {
    v.map_values(|s: String| s@)
}

impl ItemField {
    pub open spec fn view(&self) -> ItemView {
        ItemView { name: self.name@, kind: self.kind, allowed: str_views(self.allowed@) }
    }
}

impl ToolParam {
    pub open spec fn view(&self) -> ParamView {
        ParamView {
            name: self.name@,
            kind: self.kind,
            description: match self.description {
                Some(d) => Some(d@),
                None => None,
            },
            allowed: str_views(self.allowed@),
            items: self.items@.map_values(|f: ItemField| f.view()),
            items_required: str_views(self.items_required@),
        }
    }
}

pub open spec fn param_views(v: Seq<ToolParam>) -> Seq<ParamView> {
    v.map_values(|p: ToolParam| p.view())
}

impl ToolDef {
    pub open spec fn view(&self) -> ToolView {
        ToolView {
            name: self.name@,
            description: self.description@,
            params: param_views(self.params@),
            required: str_views(self.required@),
            additional_properties: self.additional_properties,
        }
    }
}

/// A parameter of a plain type with no item fields and no restricted
/// values.
pub open spec fn plain_view(name: Seq<char>, kind: ParamKind, description: Option<Seq<char>>) -> ParamView {
    ParamView {
        name,
        kind,
        description,
        allowed: Seq::empty(),
        items: Seq::empty(),
        items_required: Seq::empty(),
    }
}

/// A goal scope parameter: text that is `all` or `class`.
pub open spec fn scope_view(name: Seq<char>) -> ParamView {
    ParamView { allowed: seq!["all"@, "class"@], ..plain_view(name, ParamKind::Text, None) }
}

/// The `goals` array of `set_goal`: objects with a name, a scope, an
/// optional app class, a daily target and an enabled flag, of which the
/// name, the scope and the target are required.
pub open spec fn goals_view() -> ParamView {
    ParamView {
        name: "goals"@,
        kind: ParamKind::List,
        description: None,
        allowed: Seq::empty(),
        items: seq![
            ItemView { name: "name"@, kind: ParamKind::Text, allowed: Seq::empty() },
            ItemView { name: "target_type"@, kind: ParamKind::Text, allowed: seq!["all"@, "class"@] },
            ItemView { name: "target_key"@, kind: ParamKind::Text, allowed: Seq::empty() },
            ItemView { name: "daily_target_ms"@, kind: ParamKind::Integer, allowed: Seq::empty() },
            ItemView { name: "enabled"@, kind: ParamKind::Boolean, allowed: Seq::empty() },
        ],
        items_required: seq!["name"@, "target_type"@, "daily_target_ms"@],
    }
}

/// A tool with a closed schema.
pub open spec fn tool_view(name: Seq<char>, description: Seq<char>, params: Seq<ParamView>, required: Seq<Seq<char>>) -> ToolView {
    ToolView { name, description, params, required, additional_properties: false }
}

/// The tools offered to the model, in order: each one's name, description,
/// parameters and required parameters.
pub open spec fn tool_table() -> Seq<ToolView> {
    seq![
        tool_view("get_app_categories"@, "List the app categorization rules (pattern -> category) used to classify apps into development/browsing/gaming/etc."@, Seq::empty(), Seq::empty()),
        tool_view("workspace_recommendations"@, "Analyze the last 14 days of sessions and recommend which workspace each app should be assigned to (where the user spends the most time per app)."@, Seq::empty(), Seq::empty()),
        tool_view("get_goals"@, "List the user's daily usage goals (name, scope, target hours, enabled) with today's progress."@, Seq::empty(), Seq::empty()),
        tool_view("set_goal"@, "Create or update a daily usage goal. This MERGES: a goal is matched by its scope (target_type + target_key) and updated in place, unknown scopes are added, and goals you do not mention are left untouched. To remove one, call delete_goal. To wipe every goal and start over, pass replace_all=true — only do that when the user explicitly asks to clear all of their goals. target_type is 'all' or 'class'; target_key is the app class when target_type is 'class'; daily_target_ms is milliseconds."@, seq![goals_view(), plain_view("replace_all"@, ParamKind::Boolean, Some("Delete every existing goal before applying this list. Requires the user to have explicitly asked for it. Default false."@))], seq!["goals"@]),
        tool_view("delete_goal"@, "Delete one daily usage goal, matched by target_type plus target_key ('class' goals) or by target_type 'all'. Deleting goals is only ever done through this tool, never as a side effect of setting another goal."@, seq![scope_view("target_type"@), plain_view("target_key"@, ParamKind::Text, Some("App class; omit for target_type 'all'"@))], seq!["target_type"@]),
        tool_view("send_reminder"@, "Send a desktop notification to the user with a title and message (e.g. a productivity tip or caution)."@, seq![plain_view("title"@, ParamKind::Text, None), plain_view("message"@, ParamKind::Text, None)], seq!["title"@, "message"@]),
        tool_view("active_window"@, "Get the currently focused window (class, title, workspace, pid). Returns null fields if no window is focused."@, Seq::empty(), Seq::empty()),
        tool_view("clients"@, "List all open windows across workspaces with class, title, workspace, geometry and flags (up to 50)."@, Seq::empty(), Seq::empty()),
        tool_view("active_workspace"@, "Get the currently active workspace (id, name, monitor, window count)."@, Seq::empty(), Seq::empty()),
        tool_view("workspaces"@, "List all workspaces with id, name, monitor and window count."@, Seq::empty(), Seq::empty()),
        tool_view("active_monitor"@, "Get the currently focused monitor (name, resolution, refresh rate, active workspace)."@, Seq::empty(), Seq::empty()),
        tool_view("monitors"@, "List all monitors (including disabled) with resolution, position, scale and active workspace."@, Seq::empty(), Seq::empty()),
        tool_view("layers"@, "List layer-shell surfaces (bars, launchers, wallpapers, notifications) per monitor with namespace and size."@, Seq::empty(), Seq::empty()),
        tool_view("devices"@, "List input devices: mice, keyboards (with active keymap/layout) and tablets."@, Seq::empty(), Seq::empty()),
        tool_view("version"@, "Get the running Hyprland version, branch, commit, tag and build flags."@, Seq::empty(), Seq::empty()),
        tool_view("cursor_position"@, "Get the current cursor position (x, y) in layout coordinates."@, Seq::empty(), Seq::empty()),
        tool_view("binds"@, "List configured keybinds (modifier mask, key, dispatcher, argument), up to 80."@, Seq::empty(), Seq::empty()),
        tool_view("animations"@, "List Hyprland animation configurations (name, enabled, speed)."@, Seq::empty(), Seq::empty()),
        tool_view("workspace_rules"@, "List configured workspace rules (workspace string, monitor, persistent, etc)."@, Seq::empty(), Seq::empty()),
        tool_view("fullscreen_state"@, "Check whether the active workspace currently has a fullscreen window."@, Seq::empty(), Seq::empty()),
        tool_view("get_keyword"@, "Read a Hyprland config keyword value, e.g. 'general:gaps_in', 'decoration:rounding', 'animations:enabled'."@, seq![plain_view("key"@, ParamKind::Text, Some("Config keyword, e.g. 'general:gaps_in'"@))], seq!["key"@]),
        tool_view("list_plugins"@, "List loaded Hyprland plugins (name, author, version, description)."@, Seq::empty(), Seq::empty()),
        tool_view("list_instances"@, "List running Hyprland instances (instance signature, pid, wl socket)."@, Seq::empty(), Seq::empty()),
        tool_view("get_today_summary"@, "Get usage summary for a date: total active/idle/focused time, app count, session count, top 5 apps."@, seq![plain_view("date"@, ParamKind::Text, Some("YYYY-MM-DD, defaults to today"@))], Seq::empty()),
        tool_view("get_app_ranking"@, "Get app usage ranking for a date range with total time, percentage, session count and focused time."@, seq![plain_view("from"@, ParamKind::Text, Some("YYYY-MM-DD, defaults to today"@)), plain_view("to"@, ParamKind::Text, Some("YYYY-MM-DD, defaults to today"@)), plain_view("limit"@, ParamKind::Integer, Some("Max apps, default 10"@))], Seq::empty()),
        tool_view("get_sessions"@, "Get recent window sessions with app class, title, workspace, start/end time, duration, activity state and focus time."@, seq![plain_view("from"@, ParamKind::Text, Some("YYYY-MM-DD, defaults to today"@)), plain_view("to"@, ParamKind::Text, Some("YYYY-MM-DD, defaults to today"@)), plain_view("limit"@, ParamKind::Integer, Some("Max sessions, default 20, max 50"@))], Seq::empty()),
        tool_view("get_hourly_breakdown"@, "Get 24-hour activity breakdown for a date (per-hour active ms, session count, focused ms)."@, seq![plain_view("date"@, ParamKind::Text, Some("YYYY-MM-DD, defaults to today"@))], Seq::empty()),
        tool_view("get_app_trend"@, "Get daily usage trend for a specific app class over a date range."@, seq![plain_view("class"@, ParamKind::Text, Some("App class, e.g. 'firefox', 'code'"@)), plain_view("from"@, ParamKind::Text, Some("YYYY-MM-DD, defaults to 7 days ago"@)), plain_view("to"@, ParamKind::Text, Some("YYYY-MM-DD, defaults to today"@))], seq!["class"@]),
    ]
}

/// A closed schema whose parameter names are distinct and whose required
/// names, at the top and inside array items, are all declared.
pub open spec fn view_schema_ok(t: ToolView) -> bool {
    &&& !t.additional_properties
    &&& forall|i: int| 0 <= i < t.required.len() ==> exists|q: int|
        0 <= q < t.params.len() && t.params[q].name == #[trigger] t.required[i]
    &&& forall|i: int, j: int| 0 <= i < j < t.params.len() ==> t.params[i].name != t.params[j].name
    &&& forall|q: int, i: int|
        0 <= q < t.params.len() && 0 <= i < t.params[q].items_required.len() ==> exists|k: int|
            0 <= k < t.params[q].items.len() && t.params[q].items[k].name == #[trigger] t.params[q].items_required[i]
}

pub open spec fn schema_ok(t: ToolDef) -> bool {
    view_schema_ok(t.view())
}

fn text(s: &str) -> (r: String)
    ensures
        r@ == s@,
{
    s.to_owned()
}

fn bare(name: &str, kind: ParamKind) -> (p: ToolParam)
    ensures
        p.view() == plain_view(name@, kind, None),
{
    let p = ToolParam {
        name: text(name),
        kind,
        description: None,
        allowed: Vec::new(),
        items: Vec::new(),
        items_required: Vec::new(),
    };
    assert(p.view() =~= plain_view(name@, kind, None));
    p
}

fn described(name: &str, kind: ParamKind, description: &str) -> (p: ToolParam)
    ensures
        p.view() == plain_view(name@, kind, Some(description@)),
{
    let mut p = bare(name, kind);
    p.description = Some(text(description));
    p
}

/// A goal scope: `all` or `class`.
fn scope(name: &str) -> (p: ToolParam)
    ensures
        p.view() == scope_view(name@),
{
    let mut p = bare(name, ParamKind::Text);
    p.allowed = vec![text("all"), text("class")];
    assert(str_views(p.allowed@) =~= seq!["all"@, "class"@]);
    p
}

/// The `goals` array of `set_goal`.
fn goals_param() -> (p: ToolParam)
    ensures
        p.view() == goals_view(),
{
    let items = vec![
        ItemField { name: text("name"), kind: ParamKind::Text, allowed: Vec::new() },
        ItemField { name: text("target_type"), kind: ParamKind::Text, allowed: vec![text("all"), text("class")] },
        ItemField { name: text("target_key"), kind: ParamKind::Text, allowed: Vec::new() },
        ItemField { name: text("daily_target_ms"), kind: ParamKind::Integer, allowed: Vec::new() },
        ItemField { name: text("enabled"), kind: ParamKind::Boolean, allowed: Vec::new() },
    ];
    let required = vec![text("name"), text("target_type"), text("daily_target_ms")];
    assert(str_views(items@[1].allowed@) =~= seq!["all"@, "class"@]);
    assert(str_views(items@[0].allowed@) =~= Seq::<Seq<char>>::empty());
    assert(str_views(items@[2].allowed@) =~= Seq::<Seq<char>>::empty());
    assert(str_views(items@[3].allowed@) =~= Seq::<Seq<char>>::empty());
    assert(str_views(items@[4].allowed@) =~= Seq::<Seq<char>>::empty());
    let p = ToolParam {
        name: text("goals"),
        kind: ParamKind::List,
        description: None,
        allowed: Vec::new(),
        items,
        items_required: required,
    };
    assert(p.view().items =~= goals_view().items);
    assert(p.view() =~= goals_view());
    p
}

fn params0() -> (r: Vec<ToolParam>)
    ensures
        param_views(r@) == Seq::<ParamView>::empty(),
{
    let r: Vec<ToolParam> = Vec::new();
    assert(param_views(r@) =~= Seq::<ParamView>::empty());
    r
}

fn params1(a: ToolParam) -> (r: Vec<ToolParam>)
    ensures
        param_views(r@) == seq![a.view()],
{
    let r = vec![a];
    assert(param_views(r@) =~= seq![a.view()]);
    r
}

fn params2(a: ToolParam, b: ToolParam) -> (r: Vec<ToolParam>)
    ensures
        param_views(r@) == seq![a.view(), b.view()],
{
    let r = vec![a, b];
    assert(param_views(r@) =~= seq![a.view(), b.view()]);
    r
}

fn params3(a: ToolParam, b: ToolParam, c: ToolParam) -> (r: Vec<ToolParam>)
    ensures
        param_views(r@) == seq![a.view(), b.view(), c.view()],
{
    let r = vec![a, b, c];
    assert(param_views(r@) =~= seq![a.view(), b.view(), c.view()]);
    r
}

fn names0() -> (r: Vec<String>)
    ensures
        str_views(r@) == Seq::<Seq<char>>::empty(),
{
    let r: Vec<String> = Vec::new();
    assert(str_views(r@) =~= Seq::<Seq<char>>::empty());
    r
}

fn names1(a: &str) -> (r: Vec<String>)
    ensures
        str_views(r@) == seq![a@],
{
    let r = vec![text(a)];
    assert(str_views(r@) =~= seq![a@]);
    r
}

fn names2(a: &str, b: &str) -> (r: Vec<String>)
    ensures
        str_views(r@) == seq![a@, b@],
{
    let r = vec![text(a), text(b)];
    assert(str_views(r@) =~= seq![a@, b@]);
    r
}

fn tool(name: &str, description: &str, params: Vec<ToolParam>, required: Vec<String>) -> (t: ToolDef)
    ensures
        t.view() == tool_view(name@, description@, param_views(params@), str_views(required@)),
{
    ToolDef { name: text(name), description: text(description), params, required, additional_properties: false }
}

/// The parameter names that share a tool differ.
proof fn lemma_param_names_differ()
    ensures
        "goals"@ != "replace_all"@,
        "target_type"@ != "target_key"@,
        "title"@ != "message"@,
        "from"@ != "to"@,
        "from"@ != "limit"@,
        "to"@ != "limit"@,
        "class"@ != "from"@,
        "class"@ != "to"@,
{
    reveal_strlit("goals");
    reveal_strlit("replace_all");
    reveal_strlit("target_type");
    reveal_strlit("target_key");
    reveal_strlit("title");
    reveal_strlit("message");
    reveal_strlit("from");
    reveal_strlit("to");
    reveal_strlit("limit");
    reveal_strlit("class");
    assert("goals"@.len() != "replace_all"@.len());
    assert("target_type"@[7] != "target_key"@[7]);
    assert("title"@.len() != "message"@.len());
    assert("from"@.len() != "to"@.len());
    assert("from"@[0] != "limit"@[0]);
    assert("to"@.len() != "limit"@.len());
    assert("class"@.len() != "from"@.len());
    assert("class"@.len() != "to"@.len());
}

/// No two tools share a name.
proof fn lemma_tool_names_distinct()
    ensures
        forall|i: int, j: int| 0 <= i < j < tool_table().len() ==> tool_table()[i].name != tool_table()[j].name,
{
    reveal_strlit("get_app_categories");
    reveal_strlit("workspace_recommendations");
    reveal_strlit("get_goals");
    reveal_strlit("set_goal");
    reveal_strlit("delete_goal");
    reveal_strlit("send_reminder");
    reveal_strlit("active_window");
    reveal_strlit("clients");
    reveal_strlit("active_workspace");
    reveal_strlit("workspaces");
    reveal_strlit("active_monitor");
    reveal_strlit("monitors");
    reveal_strlit("layers");
    reveal_strlit("devices");
    reveal_strlit("version");
    reveal_strlit("cursor_position");
    reveal_strlit("binds");
    reveal_strlit("animations");
    reveal_strlit("workspace_rules");
    reveal_strlit("fullscreen_state");
    reveal_strlit("get_keyword");
    reveal_strlit("list_plugins");
    reveal_strlit("list_instances");
    reveal_strlit("get_today_summary");
    reveal_strlit("get_app_ranking");
    reveal_strlit("get_sessions");
    reveal_strlit("get_hourly_breakdown");
    reveal_strlit("get_app_trend");
    let t = tool_table();
    // Names of one length already differ at their first or fifth character.
    assert forall|i: int, j: int| 0 <= i < j < t.len() implies t[i].name != t[j].name by {
        if t[i].name == t[j].name {
            assert(t[i].name.len() == t[j].name.len());
            assert(t[i].name[0] == t[j].name[0]);
            assert(t[i].name[4] == t[j].name[4]);
        }
    }
}

/// Every schema of the table is closed, with distinct parameter names and
/// every required name declared.
proof fn lemma_table_schemas_ok()
    ensures
        forall|i: int| 0 <= i < tool_table().len() ==> view_schema_ok(#[trigger] tool_table()[i]),
{
    lemma_param_names_differ();
    let t = tool_table();
    assert forall|i: int| 0 <= i < t.len() implies view_schema_ok(#[trigger] t[i]) by {
        if i == 3 {
            let g = goals_view();
            assert(t[3].params[0] == g);
            assert(g.items[0].name == "name"@);
            assert(g.items[1].name == "target_type"@);
            assert(g.items[3].name == "daily_target_ms"@);
        } else if i == 4 {
            assert(t[4].params[0].name == "target_type"@);
        } else if i == 5 {
            assert(t[5].params[0].name == "title"@);
            assert(t[5].params[1].name == "message"@);
        } else if i == 20 {
            assert(t[20].params[0].name == "key"@);
        } else if i == 27 {
            assert(t[27].params[0].name == "class"@);
        }
    }
}

/// Every tool offered to the model: the goal and reminder actions, the live
/// Hyprland queries and the usage-data queries, each with a closed schema
/// whose required parameters are declared.
#[verifier::rlimit(80)]
#[verifier::spinoff_prover]
pub fn all_tools() -> (r: Vec<ToolDef>)
    ensures
        r@.len() == tool_table().len(),
        forall|i: int| 0 <= i < r@.len() ==> (#[trigger] r@[i]).view() == tool_table()[i],
        forall|i: int| 0 <= i < r@.len() ==> schema_ok(#[trigger] r@[i]),
        forall|i: int, j: int| 0 <= i < j < r@.len() ==> r@[i].name@ != r@[j].name@,
{
    proof {
        lemma_tool_names_distinct();
        lemma_table_schemas_ok();
    }
    let r = vec![
        tool("get_app_categories", "List the app categorization rules (pattern -> category) used to classify apps into development/browsing/gaming/etc.", params0(), names0()),
        tool("workspace_recommendations", "Analyze the last 14 days of sessions and recommend which workspace each app should be assigned to (where the user spends the most time per app).", params0(), names0()),
        tool("get_goals", "List the user's daily usage goals (name, scope, target hours, enabled) with today's progress.", params0(), names0()),
        tool("set_goal", "Create or update a daily usage goal. This MERGES: a goal is matched by its scope (target_type + target_key) and updated in place, unknown scopes are added, and goals you do not mention are left untouched. To remove one, call delete_goal. To wipe every goal and start over, pass replace_all=true — only do that when the user explicitly asks to clear all of their goals. target_type is 'all' or 'class'; target_key is the app class when target_type is 'class'; daily_target_ms is milliseconds.", params2(goals_param(), described("replace_all", ParamKind::Boolean, "Delete every existing goal before applying this list. Requires the user to have explicitly asked for it. Default false.")), names1("goals")),
        tool("delete_goal", "Delete one daily usage goal, matched by target_type plus target_key ('class' goals) or by target_type 'all'. Deleting goals is only ever done through this tool, never as a side effect of setting another goal.", params2(scope("target_type"), described("target_key", ParamKind::Text, "App class; omit for target_type 'all'")), names1("target_type")),
        tool("send_reminder", "Send a desktop notification to the user with a title and message (e.g. a productivity tip or caution).", params2(bare("title", ParamKind::Text), bare("message", ParamKind::Text)), names2("title", "message")),
        tool("active_window", "Get the currently focused window (class, title, workspace, pid). Returns null fields if no window is focused.", params0(), names0()),
        tool("clients", "List all open windows across workspaces with class, title, workspace, geometry and flags (up to 50).", params0(), names0()),
        tool("active_workspace", "Get the currently active workspace (id, name, monitor, window count).", params0(), names0()),
        tool("workspaces", "List all workspaces with id, name, monitor and window count.", params0(), names0()),
        tool("active_monitor", "Get the currently focused monitor (name, resolution, refresh rate, active workspace).", params0(), names0()),
        tool("monitors", "List all monitors (including disabled) with resolution, position, scale and active workspace.", params0(), names0()),
        tool("layers", "List layer-shell surfaces (bars, launchers, wallpapers, notifications) per monitor with namespace and size.", params0(), names0()),
        tool("devices", "List input devices: mice, keyboards (with active keymap/layout) and tablets.", params0(), names0()),
        tool("version", "Get the running Hyprland version, branch, commit, tag and build flags.", params0(), names0()),
        tool("cursor_position", "Get the current cursor position (x, y) in layout coordinates.", params0(), names0()),
        tool("binds", "List configured keybinds (modifier mask, key, dispatcher, argument), up to 80.", params0(), names0()),
        tool("animations", "List Hyprland animation configurations (name, enabled, speed).", params0(), names0()),
        tool("workspace_rules", "List configured workspace rules (workspace string, monitor, persistent, etc).", params0(), names0()),
        tool("fullscreen_state", "Check whether the active workspace currently has a fullscreen window.", params0(), names0()),
        tool("get_keyword", "Read a Hyprland config keyword value, e.g. 'general:gaps_in', 'decoration:rounding', 'animations:enabled'.", params1(described("key", ParamKind::Text, "Config keyword, e.g. 'general:gaps_in'")), names1("key")),
        tool("list_plugins", "List loaded Hyprland plugins (name, author, version, description).", params0(), names0()),
        tool("list_instances", "List running Hyprland instances (instance signature, pid, wl socket).", params0(), names0()),
        tool("get_today_summary", "Get usage summary for a date: total active/idle/focused time, app count, session count, top 5 apps.", params1(described("date", ParamKind::Text, "YYYY-MM-DD, defaults to today")), names0()),
        tool("get_app_ranking", "Get app usage ranking for a date range with total time, percentage, session count and focused time.", params3(described("from", ParamKind::Text, "YYYY-MM-DD, defaults to today"), described("to", ParamKind::Text, "YYYY-MM-DD, defaults to today"), described("limit", ParamKind::Integer, "Max apps, default 10")), names0()),
        tool("get_sessions", "Get recent window sessions with app class, title, workspace, start/end time, duration, activity state and focus time.", params3(described("from", ParamKind::Text, "YYYY-MM-DD, defaults to today"), described("to", ParamKind::Text, "YYYY-MM-DD, defaults to today"), described("limit", ParamKind::Integer, "Max sessions, default 20, max 50")), names0()),
        tool("get_hourly_breakdown", "Get 24-hour activity breakdown for a date (per-hour active ms, session count, focused ms).", params1(described("date", ParamKind::Text, "YYYY-MM-DD, defaults to today")), names0()),
        tool("get_app_trend", "Get daily usage trend for a specific app class over a date range.", params3(described("class", ParamKind::Text, "App class, e.g. 'firefox', 'code'"), described("from", ParamKind::Text, "YYYY-MM-DD, defaults to 7 days ago"), described("to", ParamKind::Text, "YYYY-MM-DD, defaults to today")), names1("class")),
    ];
    assert(tool_table().len() == 28);
    r
}

} // verus!
