use devenv_filter::nix::{add_gcroot, BashFunctionsType, Env, VariablesType};
use devenv_filter::path::{combine_path, join_paths, split_paths, EncodeError};
use devenv_filter::project::{child_path_value, filter_path, keep_segments};
use devenv_filter::table::Table;
use devenv_filter::value::VariableValue;

fn s(x: &str) -> String {
    x.to_string()
}

fn strings(xs: &[&str]) -> Vec<String> {
    xs.iter().map(|x| s(x)).collect()
}

#[test]
fn combine_skips_separator_on_empty_base() {
    assert_eq!(combine_path(s(""), "b", ":"), "b");
    assert_eq!(combine_path(s("a"), "b", ":"), "a:b");
    assert_eq!(combine_path(s("a"), "", ":"), "a:");
}

#[test]
fn split_keeps_empty_segments() {
    assert_eq!(split_paths(""), strings(&[""]));
    assert_eq!(split_paths("a"), strings(&["a"]));
    assert_eq!(split_paths("a::b"), strings(&["a", "", "b"]));
    assert_eq!(split_paths(":a:"), strings(&["", "a", ""]));
}

#[test]
fn join_then_split_round_trip() {
    for segs in [vec!["a"], vec!["a", "", "b"], vec!["", ""], vec!["/usr/bin", "/bin"]] {
        let v = strings(&segs);
        let joined = join_paths(&v).unwrap();
        assert_eq!(split_paths(joined.as_str()), v);
    }
    assert_eq!(join_paths(&strings(&["a", "b"])).unwrap(), "a:b");
    assert_eq!(join_paths(&strings(&[])).unwrap(), "");
}

#[test]
fn join_rejects_separator_in_segment() {
    match join_paths(&strings(&["a", "b:c"])) {
        Err(EncodeError::SeparatorInSegment { segment }) => assert_eq!(segment, "b:c"),
        Ok(_) => panic!("expected an error"),
    }
}

#[test]
fn filter_path_drops_listed_segments() {
    let drop = strings(&["/a", "/b"]);
    assert_eq!(filter_path(&s("/a"), &drop), None);
    assert_eq!(filter_path(&s("/c"), &drop), Some(s("/c")));
    assert_eq!(filter_path(&s("/a/x"), &drop), Some(s("/a/x")));
}

#[test]
fn keep_segments_combines_without_leading_separator() {
    assert_eq!(keep_segments(&s("v1:v2:v3:v4:v5"), &strings(&["v3", "v2"])), "v1:v4:v5");
    assert_eq!(keep_segments(&s("v1:v2"), &strings(&["v1"])), "v2");
    assert_eq!(keep_segments(&s(":a"), &strings(&[])), "a");
    assert_eq!(keep_segments(&s("a"), &strings(&["a"])), "");
}

#[test]
fn child_path_value_appends_to_inherited() {
    assert_eq!(child_path_value(Some(s("/usr/bin")), &s("/nix/bin")), "/usr/bin:/nix/bin");
    assert_eq!(child_path_value(Some(s("")), &s("/nix/bin")), "/nix/bin");
    assert_eq!(child_path_value(None, &s("/nix/bin")), "/nix/bin");
}

#[test]
fn table_insert_overwrites() {
    let mut t = Table::new();
    assert!(t.is_empty());
    t.insert(s("k"), s("1"));
    t.insert(s("j"), s("2"));
    t.insert(s("k"), s("3"));
    assert_eq!(t.len(), 2);
    assert_eq!(t.get("k").map(|x| x.as_str()), Some("3"));
    assert!(t.contains_key("j"));
    assert!(!t.contains_key("x"));
    t.clear();
    assert!(t.is_empty());
}

#[test]
fn variables_type_operations() {
    let mut v = VariablesType(Table::new());
    assert!(v.is_empty());
    v.add(s("a"), VariableValue::Var { value: s("1") });
    v.add(s("b"), VariableValue::Array { value: strings(&["x"]) });
    assert!(v.contains(&s("a")));
    assert!(!v.contains(&s("c")));
    assert!(matches!(v.get("b"), Some(VariableValue::Array { .. })));
    v.retain(|_, value| matches!(value, VariableValue::Var { .. }));
    assert!(v.contains(&s("a")));
    assert!(!v.contains(&s("b")));
    v.clear();
    assert!(v.is_empty());
}

#[test]
fn bash_functions_retain() {
    let mut t = Table::new();
    t.insert(s("f"), s("body"));
    t.insert(s("g"), s(""));
    let mut f = BashFunctionsType(t);
    f.retain(|_, body| !body.is_empty());
    assert!(f.contains(&s("f")));
    assert!(!f.contains(&s("g")));
}

#[test]
fn value_emptiness() {
    assert!(VariableValue::Var { value: s("") }.is_empty());
    assert!(!VariableValue::Exported { value: s("x") }.is_empty());
    assert!(VariableValue::Array { value: vec![] }.is_empty());
    assert!(VariableValue::Associative { value: Table::new() }.is_empty());
}

#[test]
fn gcroot_copies_out_path() {
    let mut vars = Table::new();
    vars.insert(s("out"), VariableValue::Exported { value: s("/nix/store/x") });
    let mut env = Env { bash_functions: BashFunctionsType(Table::new()), variables: VariablesType(vars) };
    add_gcroot(&mut env);
    match env.variables.get("NIX_GCROOT") {
        Some(VariableValue::Var { value }) => assert_eq!(value, "/nix/store/x"),
        _ => panic!("NIX_GCROOT missing"),
    }

    let mut other = Env { bash_functions: BashFunctionsType(Table::new()), variables: VariablesType(Table::new()) };
    add_gcroot(&mut other);
    assert!(other.variables.is_empty());
}
