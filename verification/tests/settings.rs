use mesh_viewer::settings::{copy_tree, merge_settings, JsonTree};

fn text(s: &str) -> Vec<char> {
    s.chars().collect()
}

fn val(s: &str) -> JsonTree {
    JsonTree::Value(text(s))
}

fn obj(members: Vec<(&str, JsonTree)>) -> JsonTree {
    JsonTree::Object(members.into_iter().map(|(k, v)| (text(k), v)).collect())
}

fn render(t: &JsonTree) -> String {
    match t {
        JsonTree::Value(v) => v.iter().collect(),
        JsonTree::Object(m) => {
            let inner: Vec<String> = m
                .iter()
                .map(|(k, v)| format!("{}:{}", k.iter().collect::<String>(), render(v)))
                .collect();
            format!("{{{}}}", inner.join(","))
        }
    }
}

#[test]
fn missing_settings_are_filled_in() {
    let defaults = obj(vec![
        ("background", val("[10,10,10]")),
        ("show_grid", val("true")),
        ("camera", obj(vec![("eye", val("[0,1,2]")), ("speed", val("0.5"))])),
    ]);
    let loaded = obj(vec![("show_grid", val("false")), ("camera", obj(vec![("speed", val("2"))]))]);
    let merged = merge_settings(&defaults, loaded);
    assert_eq!(
        render(&merged),
        "{show_grid:false,camera:{speed:2,eye:[0,1,2]},background:[10,10,10]}"
    );
}

#[test]
fn loaded_values_win_over_defaults() {
    let defaults = obj(vec![("camera", obj(vec![("eye", val("[0,1,2]"))]))]);
    // a loaded plain value where the defaults hold an object is kept
    let loaded = obj(vec![("camera", val("null")), ("extra", val("1"))]);
    assert_eq!(render(&merge_settings(&defaults, loaded)), "{camera:null,extra:1}");
    // a plain loaded document is kept whole
    assert_eq!(render(&merge_settings(&defaults, val("42"))), "42");
    // plain defaults change nothing
    let loaded = obj(vec![("a", val("1"))]);
    assert_eq!(render(&merge_settings(&val("0"), loaded)), "{a:1}");
}

#[test]
fn merging_twice_changes_nothing_more() {
    let defaults = obj(vec![("a", val("1")), ("b", obj(vec![("c", val("2"))]))]);
    let once = merge_settings(&defaults, obj(vec![]));
    let twice = merge_settings(&defaults, copy_tree(&once));
    assert_eq!(render(&once), "{a:1,b:{c:2}}");
    assert_eq!(render(&once), render(&twice));
    assert_eq!(render(&copy_tree(&defaults)), render(&defaults));
}
