use vstd::prelude::*;

use crate::config::{Config, ConfigView};
use crate::filter::{filter_raw, filter_raw_spec, list_contains, present_filters};
use crate::nix::{Env, EnvView};
use crate::path::{combine_all, combine_path, combine_spec, sep, split_paths, split_spec, strs};
use crate::table::{lemma_prefix_full, lemma_prefix_step, map_of, Table};
use crate::value::{ValueView, VariableValue};

verus! {

/// The environment handed to the shell: path variables, already joined,
/// and plain variables.
pub struct FinalEnv {
    pub paths: Table<String>,
    pub variables: Table<String>,
}

/// What a `FinalEnv` holds, as maps.
pub struct FinalView {
    pub paths: Map<Seq<char>, Seq<char>>,
    pub variables: Map<Seq<char>, Seq<char>>,
}

impl View for FinalEnv {
    type V = FinalView;

    open spec fn view(&self) -> FinalView {
        FinalView { paths: self.paths@, variables: self.variables@ }
    }
}

impl FinalEnv {
    pub open spec fn wf(&self) -> bool {
        self.paths.wf() && self.variables.wf()
    }

    pub fn new() -> (r: Self)
        ensures
            r.wf(),
            r@ == empty_final(),
    {
        FinalEnv { paths: Table::new(), variables: Table::new() }
    }
}

/// A final environment with nothing in it.
pub open spec fn empty_final() -> FinalView {
    FinalView { paths: Map::empty(), variables: Map::empty() }
}

/// The text of a scalar variable; lists and maps have none.
pub open spec fn scalar_of(v: ValueView) -> Option<Seq<char>> {
    match v {
        ValueView::Exported(x) => Some(x),
        ValueView::Var(x) => Some(x),
        _ => None,
    }
}

/// Holds of a segment that `drop` does not list.
pub open spec fn not_listed(drop: Seq<Seq<char>>) -> spec_fn(Seq<char>) -> bool {
    |s: Seq<char>| !drop.contains(s)
}

/// The segments of the path list `x` that `drop` does not list, combined
/// again with the separator.
pub open spec fn keep_segments_spec(x: Seq<char>, drop: Seq<Seq<char>>) -> Seq<char> {
    combine_all(split_spec(x).filter(not_listed(drop)))
}

/// What one config writes for the path variable `k` holding `v`, if anything.
pub open spec fn path_entry(k: Seq<char>, v: ValueView, c: ConfigView, names: Seq<Seq<char>>) -> Option<
    Seq<char>,
> {
    match scalar_of(v) {
        Some(x) => if !c.variables.contains(k) && names.contains(k) {
            if c.paths.contains_key(k) {
                Some(keep_segments_spec(x, strs(c.paths[k])))
            } else {
                Some(x)
            }
        } else {
            None
        },
        None => None,
    }
}

/// What one config writes for the plain variable `k` holding `v`, if anything.
pub open spec fn plain_entry(k: Seq<char>, v: ValueView, c: ConfigView, names: Seq<Seq<char>>) -> Option<
    Seq<char>,
> {
    match scalar_of(v) {
        Some(x) => if !c.variables.contains(k) && !names.contains(k) {
            Some(x)
        } else {
            None
        },
        None => None,
    }
}

/// The path variables that one config writes.
pub open spec fn config_paths(
    vars: Map<Seq<char>, ValueView>,
    c: ConfigView,
    names: Seq<Seq<char>>,
) -> Map<Seq<char>, Seq<char>> {
    Map::new(
        |k: Seq<char>| vars.contains_key(k) && path_entry(k, vars[k], c, names) is Some,
        |k: Seq<char>| path_entry(k, vars[k], c, names)->Some_0,
    )
}

/// The plain variables that one config writes.
pub open spec fn config_variables(
    vars: Map<Seq<char>, ValueView>,
    c: ConfigView,
    names: Seq<Seq<char>>,
) -> Map<Seq<char>, Seq<char>> {
    Map::new(
        |k: Seq<char>| vars.contains_key(k) && plain_entry(k, vars[k], c, names) is Some,
        |k: Seq<char>| plain_entry(k, vars[k], c, names)->Some_0,
    )
}

/// `out` after one config has written into it; what it writes wins.
pub open spec fn config_pass(
    out: FinalView,
    vars: Map<Seq<char>, ValueView>,
    c: ConfigView,
    names: Seq<Seq<char>>,
) -> FinalView {
    FinalView {
        paths: out.paths.union_prefer_right(config_paths(vars, c, names)),
        variables: out.variables.union_prefer_right(config_variables(vars, c, names)),
    }
}

/// `out` after each config in turn.
pub open spec fn config_passes(
    out: FinalView,
    vars: Map<Seq<char>, ValueView>,
    cs: Seq<ConfigView>,
    names: Seq<Seq<char>>,
) -> FinalView
    decreases cs.len(),
{
    if cs.len() == 0 {
        out
    } else {
        config_pass(config_passes(out, vars, cs.drop_last(), names), vars, cs.last(), names)
    }
}

/// The names always treated as path variables: `PATH` and `XDG_DATA_DIRS`.
pub open spec fn baseline_names() -> Seq<Seq<char>> {
    seq![seq!['P', 'A', 'T', 'H'], seq!['X', 'D', 'G', '_', 'D', 'A', 'T', 'A', '_', 'D', 'I', 'R', 'S']]
}

/// The path-variable names: the baseline, then each config's in turn.
pub open spec fn path_names_of(cs: Seq<ConfigView>) -> Seq<Seq<char>>
    decreases cs.len(),
{
    if cs.len() == 0 {
        baseline_names()
    } else {
        path_names_of(cs.drop_last()) + cs.last().path_vars
    }
}

/// The configs that are present, in order.
pub open spec fn present_configs(a: Option<Config>, b: Option<Config>) -> Seq<ConfigView> {
    let first = match a {
        Some(c) => seq![c@],
        None => Seq::empty(),
    };
    match b {
        Some(c) => first.push(c@),
        None => first,
    }
}

/// The whole pipeline: the exclusion filters, then each config written into
/// an empty final environment.
pub open spec fn filter_spec(e: EnvView, fs: Seq<EnvView>, cs: Seq<ConfigView>) -> FinalView {
    let names = path_names_of(cs);
    config_passes(empty_final(), filter_raw_spec(e, fs, names).variables, cs, names)
}

/// The segment `p`, unless `paths` lists it.
pub fn filter_path(p: &String, paths: &Vec<String>) -> (r: Option<String>)
    ensures
        r is Some <==> !strs(paths@).contains(p@),
        r matches Some(s) ==> s@ == p@,
{
    if list_contains(paths, p) {
        None
    } else {
        Some(p.clone())
    }
}

/// The segments of the path list `value` that `drop` does not list,
/// combined again with the separator.
pub fn keep_segments(value: &String, drop: &Vec<String>) -> (r: String)
    ensures
        r@ == keep_segments_spec(value@, strs(drop@)),
{
    let segs = split_paths(value.as_str());
    let ghost pred = not_listed(strs(drop@));
    let mut acc = String::new();
    let mut i: usize = 0;
    while i < segs.len()
        invariant
            i <= segs@.len(),
            strs(segs@) == split_spec(value@),
            pred == not_listed(strs(drop@)),
            acc@ == combine_all(strs(segs@).subrange(0, i as int).filter(pred)),
        decreases segs@.len() - i,
    {
        let ghost prev = strs(segs@).subrange(0, i as int);
        let ghost x = segs@[i as int]@;
        assert(strs(segs@).subrange(0, i as int + 1) =~= prev.push(x));
        proof {
            prev.lemma_filter_push(x, pred);
        }
        match filter_path(&segs[i], drop) {
            Some(s) => {
                let ghost before = prev.filter(pred);
                acc = combine_path(acc, s.as_str(), ":");
                proof {
                    reveal_strlit(":");
                    assert(":"@ =~= seq![sep()]);
                    assert(before.push(x).drop_last() =~= before);
                }
            },
            None => {},
        }
        i = i + 1;
    }
    assert(strs(segs@).subrange(0, i as int) =~= strs(segs@));
    acc
}

/// Writes what `config` lets through of the variables of `env` into
/// `out_env`, replacing what was there for the same names.
pub fn filter_config(env: &Env, config: Config, path_var_names: &Vec<String>, out_env: &mut FinalEnv)
    requires
        env.wf(),
        config.wf(),
        old(out_env).wf(),
    ensures
        final(out_env).wf(),
        final(out_env)@ == config_pass(old(out_env)@, env@.variables, config@, strs(path_var_names@)),
{
    let ghost names = strs(path_var_names@);
    let ghost start = out_env@;
    let vars = &env.variables.0;
    let mut i: usize = 0;
    proof {
        lemma_prefix_full(vars.pairs());
        assert(config_pass(start, map_of(vars.pairs().subrange(0, 0)), config@, names).paths =~= start.paths);
        assert(config_pass(start, map_of(vars.pairs().subrange(0, 0)), config@, names).variables
            =~= start.variables);
    }
    while i < vars.entries.len()
        invariant
            env.wf(),
            config.wf(),
            vars == &env.variables.0,
            names == strs(path_var_names@),
            i <= vars.entries@.len(),
            out_env.wf(),
            out_env@ == config_pass(start, map_of(vars.pairs().subrange(0, i as int)), config@, names),
        decreases vars.entries@.len() - i,
    {
        let key = &vars.entries[i].0;
        let value = &vars.entries[i].1;
        let ghost m = map_of(vars.pairs().subrange(0, i as int));
        proof {
            lemma_prefix_step(vars.pairs(), i as int);
        }
        let ghost m2 = map_of(vars.pairs().subrange(0, i as int + 1));
        assert(m2 == m.insert(key@, value@));
        let ghost prev = out_env@;
        let ghost next = config_pass(start, m2, config@, names);
        if !list_contains(&config.variables, key) {
            match value {
                VariableValue::Exported { value: text } | VariableValue::Var { value: text } => {
                    if list_contains(path_var_names, key) {
                        match config.paths.get(key.as_str()) {
                            Some(drop) => {
                                let kept = keep_segments(text, drop);
                                out_env.paths.insert(key.clone(), kept);
                            },
                            None => {
                                out_env.paths.insert(key.clone(), text.clone());
                            },
                        }
                    } else {
                        out_env.variables.insert(key.clone(), text.clone());
                    }
                },
                _ => {},
            }
        }
        assert(out_env@.paths =~= next.paths);
        assert(out_env@.variables =~= next.variables);
        i = i + 1;
    }
    proof {
        lemma_prefix_full(vars.pairs());
    }
}

/// Appends the names of `more` to `names`.
fn append_names(names: &mut Vec<String>, more: &Vec<String>)
    ensures
        strs(final(names)@) == strs(old(names)@) + strs(more@),
{
    let ghost start = strs(names@);
    let mut i: usize = 0;
    while i < more.len()
        invariant
            i <= more@.len(),
            strs(names@) == start + strs(more@).subrange(0, i as int),
        decreases more@.len() - i,
    {
        let ghost before = names@;
        names.push(more[i].clone());
        assert(strs(names@) =~= strs(before).push(more@[i as int]@));
        assert(strs(more@).subrange(0, i as int + 1) =~= strs(more@).subrange(0, i as int).push(
            more@[i as int]@,
        ));
        i = i + 1;
    }
    assert(strs(more@).subrange(0, i as int) =~= strs(more@));
}

/// Runs the whole pipeline: the filter from a file, then the one from a
/// string, then the config from a file and the one from a string, each
/// written into one final environment. Path variables are `PATH`,
/// `XDG_DATA_DIRS` and those that either config names.
pub fn filter(
    env: Env,
    filter_file: Option<Env>,
    filter_str: Option<Env>,
    config_file: Option<Config>,
    config_str: Option<Config>,
) -> (r: FinalEnv)
    requires
        env.wf(),
        filter_file matches Some(f) ==> f.wf(),
        filter_str matches Some(f) ==> f.wf(),
        config_file matches Some(c) ==> c.wf(),
        config_str matches Some(c) ==> c.wf(),
    ensures
        r.wf(),
        r@ == filter_spec(
            env@,
            present_filters(filter_file, filter_str),
            present_configs(config_file, config_str),
        ),
{
    let ghost fs = present_filters(filter_file, filter_str);
    let ghost cs = present_configs(config_file, config_str);
    let ghost first = present_configs(config_file, None);
    let mut names: Vec<String> = Vec::new();
    names.push(String::from_str("PATH"));
    names.push(String::from_str("XDG_DATA_DIRS"));
    proof {
        reveal_strlit("PATH");
        reveal_strlit("XDG_DATA_DIRS");
        assert(names@[0]@ =~= baseline_names()[0]);
        assert(names@[1]@ =~= baseline_names()[1]);
        assert(strs(names@) =~= baseline_names());
    }
    match &config_file {
        Some(c) => {
            append_names(&mut names, &c.path_vars);
            assert(first.drop_last() =~= Seq::<ConfigView>::empty());
            assert(path_names_of(first.drop_last()) == baseline_names());
        },
        None => {
            assert(first =~= Seq::<ConfigView>::empty());
        },
    }
    assert(strs(names@) == path_names_of(first));
    match &config_str {
        Some(c) => {
            append_names(&mut names, &c.path_vars);
            assert(cs.drop_last() =~= first);
        },
        None => {},
    }
    let ghost names_view = strs(names@);
    assert(names_view == path_names_of(cs));
    let filtered = filter_raw(env, filter_file, filter_str, &names);
    let ghost vars = filtered@.variables;
    let mut res = FinalEnv::new();
    match config_file {
        Some(c) => {
            filter_config(&filtered, c, &names, &mut res);
            assert(config_passes(empty_final(), vars, first.drop_last(), names_view) == empty_final());
        },
        None => {},
    }
    assert(res@ == config_passes(empty_final(), vars, first, names_view));
    match config_str {
        Some(c) => {
            filter_config(&filtered, c, &names, &mut res);
        },
        None => {},
    }
    assert(res@ == config_passes(empty_final(), vars, cs, names_view));
    res
}

/// The value a path variable gets in the shell: appended to the value the
/// shell inherits, if it inherits one.
pub fn child_path_value(current: Option<String>, value: &String) -> (r: String)
    ensures
        r@ == match current {
            Some(c) => combine_spec(c@, value@, seq![sep()]),
            None => value@,
        },
{
    proof {
        reveal_strlit(":");
        assert(":"@ =~= seq![sep()]);
    }
    match current {
        Some(c) => combine_path(c, value.as_str(), ":"),
        None => value.clone(),
    }
}

} // verus!
