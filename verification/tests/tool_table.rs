use hyprtrace::server::tools::{all_tools, ParamKind};

#[test]
fn every_tool_schema_rejects_extra_properties() {
    // Without a closed schema a model can send unknown fields that the
    // executor silently ignores, masking a mismatch between the schema and
    // the real parameters.
    for t in all_tools() {
        assert_eq!(t.additional_properties, false, "tool {} must set additionalProperties=false", t.name);
        // Every required key must also exist in properties.
        for key in &t.required {
            assert!(
                t.params.iter().any(|p| &p.name == key),
                "tool {}: required key '{}' is missing from properties",
                t.name,
                key
            );
        }
    }
}

#[test]
fn tool_table_names_and_schemas() {
    let tools = all_tools();
    assert_eq!(tools.len(), 28);
    assert_eq!(tools[0].name, "get_app_categories");
    assert_eq!(tools[27].name, "get_app_trend");
    let mut names: Vec<&str> = tools.iter().map(|t| t.name.as_str()).collect();
    names.sort();
    names.dedup();
    assert_eq!(names.len(), 28);
    let set_goal = tools.iter().find(|t| t.name == "set_goal").expect("set_goal");
    assert_eq!(set_goal.required, vec!["goals".to_string()]);
    let goals = &set_goal.params[0];
    assert_eq!(goals.kind, ParamKind::List);
    assert_eq!(goals.items_required, vec!["name".to_string(), "target_type".to_string(), "daily_target_ms".to_string()]);
    assert!(goals.items.iter().any(|f| f.name == "target_type" && f.allowed == vec!["all".to_string(), "class".to_string()]));
    let ranking = tools.iter().find(|t| t.name == "get_app_ranking").expect("ranking");
    assert!(ranking.required.is_empty());
    assert_eq!(ranking.params.iter().map(|p| p.name.as_str()).collect::<Vec<_>>(), vec!["from", "to", "limit"]);
    assert_eq!(ranking.params[2].kind, ParamKind::Integer);
    let delete = tools.iter().find(|t| t.name == "delete_goal").expect("delete_goal");
    assert_eq!(delete.params[0].allowed, vec!["all".to_string(), "class".to_string()]);
}

#[test]
fn tool_table_required_parameters() {
    let tools = all_tools();
    let trend = tools.iter().find(|t| t.name == "get_app_trend").expect("get_app_trend");
    assert_eq!(trend.required, vec!["class".to_string()]);
    assert_eq!(trend.params.iter().map(|p| p.name.as_str()).collect::<Vec<_>>(), vec!["class", "from", "to"]);
    let keyword = tools.iter().find(|t| t.name == "get_keyword").expect("get_keyword");
    assert_eq!(keyword.required, vec!["key".to_string()]);
    assert_eq!(keyword.params[0].name, "key");
}
