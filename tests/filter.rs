use devenv_filter::config::Config;
use devenv_filter::filter::{filter_raw, subtract_paths, variable_filter};
use devenv_filter::nix::{BashFunctionsType, Env, VariablesType};
use devenv_filter::project::{filter, filter_config, FinalEnv};
use devenv_filter::table::Table;
use devenv_filter::value::VariableValue;

fn s(x: &str) -> String {
    x.to_string()
}

fn var(x: &str) -> VariableValue {
    VariableValue::Var { value: s(x) }
}

fn exported(x: &str) -> VariableValue {
    VariableValue::Exported { value: s(x) }
}

fn array(xs: &[&str]) -> VariableValue {
    VariableValue::Array { value: xs.iter().map(|x| s(x)).collect() }
}

fn assoc(xs: &[(&str, &str)]) -> VariableValue {
    let mut t = Table::new();
    for (k, v) in xs {
        t.insert(s(k), s(v));
    }
    VariableValue::Associative { value: t }
}

fn env_of(funcs: &[(&str, &str)], vars: Vec<(&str, VariableValue)>) -> Env {
    let mut f = Table::new();
    for (k, v) in funcs {
        f.insert(s(k), s(v));
    }
    let mut t = Table::new();
    for (k, v) in vars {
        t.insert(s(k), v);
    }
    Env { bash_functions: BashFunctionsType(f), variables: VariablesType(t) }
}

fn config_of(path_vars: &[&str], paths: &[(&str, &[&str])], variables: &[&str]) -> Config {
    let mut p = Table::new();
    for (k, v) in paths {
        p.insert(s(k), v.iter().map(|x| s(x)).collect());
    }
    Config {
        path_vars: path_vars.iter().map(|x| s(x)).collect(),
        paths: p,
        variables: variables.iter().map(|x| s(x)).collect(),
    }
}

fn names(xs: &[&str]) -> Vec<String> {
    xs.iter().map(|x| s(x)).collect()
}

fn scalar(v: &VariableValue) -> Option<&str> {
    match v {
        VariableValue::Var { value } | VariableValue::Exported { value } => Some(value.as_str()),
        _ => None,
    }
}

fn raw_env() -> Env {
    env_of(
        &[("func1", "body1"), ("func2", "body2"), ("func3", "body3")],
        vec![
            ("var1", exported("value1")),
            ("var2", var("value2")),
            ("var3", array(&["1", "2", "3"])),
            ("var4", array(&["4", "5", "6"])),
            ("var5", assoc(&[("1", "v1"), ("2", "v2")])),
            ("var6", assoc(&[("3", "v3"), ("4", "v4")])),
        ],
    )
}

fn raw_filter() -> Env {
    env_of(
        &[("func2", "")],
        vec![
            ("var2", var("")),
            ("var3", array(&["2"])),
            ("var4", array(&[])),
            ("var5", assoc(&[("2", "")])),
            ("var6", assoc(&[])),
        ],
    )
}

#[test]
fn test_filter_raw() {
    let empty_vec = Vec::new();
    let env = filter_raw(raw_env(), None, Some(raw_filter()), &empty_vec);

    for (k, v) in &env.bash_functions.0.entries {
        match k.as_str() {
            "func1" => assert_eq!(v, "body1"),
            "func2" => panic!("func2 should have been filtered"),
            "func3" => assert_eq!(v, "body3"),
            _ => panic!("unknown (k, v): {}{}", k, v),
        }
    }

    for (k, v) in &env.variables.0.entries {
        match k.as_str() {
            "var1" => {
                if let VariableValue::Exported { value } = v {
                    assert_eq!(value, "value1");
                } else {
                    panic!("expected var1 to be exported");
                }
            }
            "var3" => {
                if let VariableValue::Array { value } = v {
                    assert_eq!(value.as_slice(), ["1", "3"]);
                } else {
                    panic!("expected var1 to be array");
                }
            }
            "var5" => {
                if let VariableValue::Associative { value } = v {
                    assert_eq!(value.get("1").unwrap(), "v1");
                } else {
                    panic!("expected var1 to be associative");
                }
            }
            "var2" | "var4" | "var6" => panic!("{} should have been filtered", k),
            _ => panic!("unknown (k, v): {}", k),
        }
    }
}

#[test]
fn filter_raw_drops_matching_collections_whole() {
    let env = filter_raw(raw_env(), None, Some(raw_filter()), &Vec::new());
    let funcs = &env.bash_functions;
    assert!(funcs.contains(&s("func1")));
    assert!(!funcs.contains(&s("func2")));
    assert!(funcs.contains(&s("func3")));
    assert_eq!(env.variables.0.len(), 1);
    assert_eq!(scalar(env.variables.get("var1").unwrap()), Some("value1"));
    assert!(matches!(env.variables.get("var1"), Some(VariableValue::Exported { .. })));
    for k in ["var2", "var3", "var4", "var5", "var6"] {
        assert!(!env.variables.contains(&s(k)), "{} should have been filtered", k);
    }
}

#[test]
fn test_config() {
    let env = env_of(
        &[],
        vec![
            ("var1", var("v1:v2:v3:v4:v5")),
            ("var2", var("v1:v2:v3:v4:v5")),
            ("var3", var("value3")),
            ("var4", var("value4")),
        ],
    );
    let config = config_of(&["var1", "var2"], &[("var1", &["v3", "v2"])], &["var2", "var3"]);
    let mut final_env = FinalEnv::new();
    let mut path_var_names = Vec::new();
    path_var_names.extend_from_slice(config.path_vars.as_slice());

    filter_config(&env, config, &path_var_names, &mut final_env);

    assert!(!final_env.paths.is_empty(), "final_env paths is empty");
    assert!(!final_env.variables.is_empty(), "final_env variables is empty");
    for (k, v) in &final_env.paths.entries {
        if k != "var1" {
            panic!("invalid path var: {}", k);
        } else {
            assert_eq!(v, "v1:v4:v5");
        }
    }
    for (k, v) in &final_env.variables.entries {
        if k != "var4" {
            panic!("invalid var: {}", k);
        } else {
            assert_eq!(v, "value4");
        }
    }
}

#[test]
fn no_filters_only_drops_empty_entries() {
    let env = env_of(
        &[("f", "body"), ("g", "")],
        vec![
            ("a", var("x")),
            ("b", var("")),
            ("c", exported("")),
            ("d", array(&[])),
            ("e", assoc(&[])),
            ("h", array(&["1"])),
        ],
    );
    let r = filter_raw(env, None, None, &names(&["PATH"]));
    assert!(r.bash_functions.contains(&s("f")));
    assert!(!r.bash_functions.contains(&s("g")));
    assert_eq!(r.variables.0.len(), 2);
    assert_eq!(scalar(r.variables.get("a").unwrap()), Some("x"));
    assert!(matches!(r.variables.get("h"), Some(VariableValue::Array { value }) if value.len() == 1));
}

#[test]
fn path_variables_lose_filtered_segments() {
    let env = env_of(
        &[],
        vec![
            ("PATH", exported("/a:/b:/c")),
            ("OTHER", var("keep")),
            ("DROPPED", var("x")),
            ("MIXED", var("/a:/b")),
        ],
    );
    let f = env_of(
        &[],
        vec![("PATH", exported("/b:/z")), ("DROPPED", var("")), ("MIXED", exported("/a"))],
    );
    let r = filter_raw(env, Some(f), None, &names(&["PATH", "MIXED"]));
    assert_eq!(scalar(r.variables.get("PATH").unwrap()), Some("/a:/c"));
    assert!(matches!(r.variables.get("PATH"), Some(VariableValue::Exported { .. })));
    assert_eq!(scalar(r.variables.get("OTHER").unwrap()), Some("keep"));
    assert!(!r.variables.contains(&s("DROPPED")));
    assert!(!r.variables.contains(&s("MIXED")));
}

#[test]
fn path_variable_emptied_by_filter_is_pruned() {
    let env = env_of(&[], vec![("PATH", var("/a:/b"))]);
    let f = env_of(&[], vec![("PATH", var("/a:/b"))]);
    let r = filter_raw(env, Some(f), None, &names(&["PATH"]));
    assert!(!r.variables.contains(&s("PATH")));
}

#[test]
fn filters_apply_file_then_string() {
    let env = env_of(&[("f1", "b"), ("f2", "b")], vec![("PATH", var("/a:/b:/c"))]);
    let f1 = env_of(&[("f1", "")], vec![("PATH", var("/a"))]);
    let f2 = env_of(&[("f2", "")], vec![("PATH", var("/c"))]);
    let r = filter_raw(env, Some(f1), Some(f2), &names(&["PATH"]));
    assert_eq!(scalar(r.variables.get("PATH").unwrap()), Some("/b"));
    assert_eq!(r.bash_functions.0.len(), 0);
}

#[test]
fn filtering_twice_equals_filtering_once() {
    let make_env = || env_of(&[("f", "b"), ("g", "b")], vec![("PATH", var("/a:/b::/c")), ("X", var("1"))]);
    let make_filter = || env_of(&[("g", "")], vec![("PATH", var("/b:"))]);
    let p = names(&["PATH"]);
    let once = filter_raw(make_env(), Some(make_filter()), None, &p);
    let once_path = s(scalar(once.variables.get("PATH").unwrap()).unwrap());
    assert_eq!(once_path, "/a:/c");
    let twice = filter_raw(once, Some(make_filter()), None, &p);
    assert_eq!(scalar(twice.variables.get("PATH").unwrap()), Some(once_path.as_str()));
    assert_eq!(scalar(twice.variables.get("X").unwrap()), Some("1"));
    assert!(twice.bash_functions.contains(&s("f")));
    assert!(!twice.bash_functions.contains(&s("g")));
}

#[test]
fn variable_filter_rules() {
    let f = VariablesType({
        let mut t = Table::new();
        t.insert(s("P"), var("/x"));
        t.insert(s("Q"), array(&[]));
        t
    });
    let p = names(&["P"]);
    let mut v = var("/x:/y");
    assert!(variable_filter(&s("P"), &mut v, &f, &p));
    assert_eq!(scalar(&v), Some("/y"));
    let mut w = exported("/x:/y");
    assert!(!variable_filter(&s("P"), &mut w, &f, &p));
    let mut a = array(&["1"]);
    assert!(!variable_filter(&s("Q"), &mut a, &f, &p));
    let mut b = var("/x");
    assert!(variable_filter(&s("R"), &mut b, &f, &p));
    assert_eq!(scalar(&b), Some("/x"));
}

#[test]
fn subtract_paths_keeps_order() {
    assert_eq!(subtract_paths(&s("c:a:b:a"), &s("a")), "c:b");
    assert_eq!(subtract_paths(&s("a"), &s("a")), "");
    assert_eq!(subtract_paths(&s("a::b"), &s("")), "a:b");
}

#[test]
fn later_config_readds_dropped_key() {
    let env = env_of(&[], vec![("A", var("1")), ("PATH", var("/a:/b"))]);
    let c1 = config_of(&[], &[], &["A", "PATH"]);
    let c2 = config_of(&[], &[("PATH", &["/a"])], &[]);
    let mut out = FinalEnv::new();
    let p = names(&["PATH", "XDG_DATA_DIRS"]);
    filter_config(&env, c1, &p, &mut out);
    assert!(out.variables.is_empty());
    assert!(out.paths.is_empty());
    filter_config(&env, c2, &p, &mut out);
    assert_eq!(out.variables.get("A").map(|x| x.as_str()), Some("1"));
    assert_eq!(out.paths.get("PATH").map(|x| x.as_str()), Some("/b"));
}

#[test]
fn second_config_overwrites_first() {
    let env = env_of(&[], vec![("PATH", var("/a:/b:/c"))]);
    let c1 = config_of(&[], &[("PATH", &["/a"])], &[]);
    let c2 = config_of(&[], &[("PATH", &["/c"])], &[]);
    let r = filter(env, None, None, Some(c1), Some(c2));
    assert_eq!(r.paths.get("PATH").map(|x| x.as_str()), Some("/a:/b"));
    assert!(r.variables.is_empty());
}

#[test]
fn filter_whole_pipeline() {
    let env = env_of(
        &[("f", "body")],
        vec![
            ("PATH", exported("/bin:/nix/a:/usr/bin")),
            ("XDG_DATA_DIRS", var("/share")),
            ("MY_PATH", var("a::b")),
            ("CC", var("gcc")),
            ("NOISE", var("x")),
            ("EMPTY", var("")),
            ("LIST", array(&["1"])),
        ],
    );
    let filter_spec = env_of(&[], vec![("NOISE", var(""))]);
    let config = config_of(&["MY_PATH"], &[("PATH", &["/nix/a"]), ("MY_PATH", &["b"])], &[]);
    let r = filter(env, None, Some(filter_spec), None, Some(config));
    assert_eq!(r.paths.get("PATH").map(|x| x.as_str()), Some("/bin:/usr/bin"));
    assert_eq!(r.paths.get("XDG_DATA_DIRS").map(|x| x.as_str()), Some("/share"));
    assert_eq!(r.paths.get("MY_PATH").map(|x| x.as_str()), Some("a:"));
    assert_eq!(r.paths.len(), 3);
    assert_eq!(r.variables.get("CC").map(|x| x.as_str()), Some("gcc"));
    assert_eq!(r.variables.len(), 1);
}

#[test]
fn filter_without_configs_is_empty() {
    let env = env_of(&[], vec![("PATH", var("/bin")), ("A", var("1"))]);
    let r = filter(env, None, None, None, None);
    assert!(r.paths.is_empty());
    assert!(r.variables.is_empty());
}

#[test]
fn config_ignores_lists_and_maps() {
    let env = env_of(&[], vec![("L", array(&["1"])), ("M", assoc(&[("k", "v")]))]);
    let mut out = FinalEnv::new();
    filter_config(&env, config_of(&[], &[], &[]), &names(&[]), &mut out);
    assert!(out.paths.is_empty());
    assert!(out.variables.is_empty());
}
