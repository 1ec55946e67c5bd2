use vstd::prelude::*;

use crate::nix::{BashFunctionsType, Env, EnvView, VariablesType};
use crate::path::{join_paths, lemma_split_joinable, joinable, split_paths, split_spec, join_spec, strs};
use crate::table::{lemma_prefix_full, lemma_prefix_step, map_of, Table};
use crate::value::{value_empty, ValueView, VariableValue};

verus! {

/// Holds of a segment that is not a segment of the path list `f`.
pub open spec fn outside_of(f: Seq<char>) -> spec_fn(Seq<char>) -> bool {
    |s: Seq<char>| !split_spec(f).contains(s)
}

/// The segments of `x` that are not segments of `f`, joined again.
pub open spec fn subtract_segments(x: Seq<char>, f: Seq<char>) -> Seq<char> {
    join_spec(split_spec(x).filter(outside_of(f)))
}

/// What one filter makes of the variable `key` holding `v`: `None` drops it.
/// A key the filter does not name is kept. Where the filter names it, a
/// scalar path variable loses the filter's segments when both are of one
/// kind; every other entry is dropped.
pub open spec fn variable_after(
    key: Seq<char>,
    v: ValueView,
    filter: Map<Seq<char>, ValueView>,
    names: Seq<Seq<char>>,
) -> Option<ValueView> {
    if !filter.contains_key(key) {
        Some(v)
    } else {
        match (filter[key], v) {
            (ValueView::Var(f), ValueView::Var(x)) => if names.contains(key) {
                Some(ValueView::Var(subtract_segments(x, f)))
            } else {
                None
            },
            (ValueView::Exported(f), ValueView::Exported(x)) => if names.contains(key) {
                Some(ValueView::Exported(subtract_segments(x, f)))
            } else {
                None
            },
            _ => None,
        }
    }
}

/// The variables after one filter.
pub open spec fn pass_variables(
    m: Map<Seq<char>, ValueView>,
    filter: Map<Seq<char>, ValueView>,
    names: Seq<Seq<char>>,
) -> Map<Seq<char>, ValueView> {
    Map::new(
        |k: Seq<char>| m.contains_key(k) && variable_after(k, m[k], filter, names) is Some,
        |k: Seq<char>| variable_after(k, m[k], filter, names)->Some_0,
    )
}

/// The functions after one filter: those it names are dropped.
pub open spec fn pass_functions(
    m: Map<Seq<char>, Seq<char>>,
    filter: Map<Seq<char>, Seq<char>>,
) -> Map<Seq<char>, Seq<char>> {
    Map::new(|k: Seq<char>| m.contains_key(k) && !filter.contains_key(k), |k: Seq<char>| m[k])
}

/// A snapshot after one filter.
pub open spec fn pass_spec(e: EnvView, f: EnvView, names: Seq<Seq<char>>) -> EnvView {
    EnvView {
        functions: pass_functions(e.functions, f.functions),
        variables: pass_variables(e.variables, f.variables, names),
    }
}

/// A snapshot after each filter in turn.
pub open spec fn passes(e: EnvView, fs: Seq<EnvView>, names: Seq<Seq<char>>) -> EnvView
    decreases fs.len(),
{
    if fs.len() == 0 {
        e
    } else {
        pass_spec(passes(e, fs.drop_last(), names), fs.last(), names)
    }
}

/// A snapshot without its empty variables and functions.
pub open spec fn prune_spec(e: EnvView) -> EnvView {
    EnvView {
        functions: Map::new(
            |k: Seq<char>| e.functions.contains_key(k) && e.functions[k].len() > 0,
            |k: Seq<char>| e.functions[k],
        ),
        variables: Map::new(
            |k: Seq<char>| e.variables.contains_key(k) && !value_empty(e.variables[k]),
            |k: Seq<char>| e.variables[k],
        ),
    }
}

/// The exclusion filter: each filter in turn, then pruning.
pub open spec fn filter_raw_spec(e: EnvView, fs: Seq<EnvView>, names: Seq<Seq<char>>) -> EnvView {
    prune_spec(passes(e, fs, names))
}

/// The filters that are present, in order.
pub open spec fn present_filters(a: Option<Env>, b: Option<Env>) -> Seq<EnvView> {
    let first = match a {
        Some(f) => seq![f@],
        None => Seq::empty(),
    };
    match b {
        Some(f) => first.push(f@),
        None => first,
    }
}

/// Whether `list` holds `s`.
pub fn list_contains(list: &Vec<String>, s: &String) -> (r: bool)
    ensures
        r == strs(list@).contains(s@),
{
    let mut i: usize = 0;
    while i < list.len()
        invariant
            i <= list@.len(),
            forall|j: int| 0 <= j < i ==> list@[j]@ != s@,
        decreases list@.len() - i,
    {
        if list[i] == *s {
            assert(strs(list@)[i as int] == s@);
            return true;
        }
        i = i + 1;
    }
    proof {
        if strs(list@).contains(s@) {
            let j = choose|j: int| 0 <= j < strs(list@).len() && strs(list@)[j] == s@;
            assert(list@[j]@ == s@);
        }
    }
    false
}

/// Removes from the path list `value` every segment of the path list `f`.
pub fn subtract_paths(value: &String, f: &String) -> (r: String)
    ensures
        r@ == subtract_segments(value@, f@),
{
    let segs = split_paths(value.as_str());
    let drop = split_paths(f.as_str());
    let ghost pred = outside_of(f@);
    proof {
        lemma_split_joinable(value@);
    }
    let mut kept: Vec<String> = Vec::new();
    let mut i: usize = 0;
    while i < segs.len()
        invariant
            i <= segs@.len(),
            strs(segs@) == split_spec(value@),
            strs(drop@) == split_spec(f@),
            joinable(split_spec(value@)),
            pred == outside_of(f@),
            strs(kept@) == strs(segs@).subrange(0, i as int).filter(pred),
            joinable(strs(kept@)),
        decreases segs@.len() - i,
    {
        let ghost before = kept@;
        let ghost sub = strs(segs@).subrange(0, i as int + 1);
        assert(sub =~= strs(segs@).subrange(0, i as int).push(segs@[i as int]@));
        proof {
            strs(segs@).subrange(0, i as int).lemma_filter_push(segs@[i as int]@, pred);
        }
        let ghost x = segs@[i as int]@;
        let ghost prevf = strs(segs@).subrange(0, i as int).filter(pred);
        let present = list_contains(&drop, &segs[i]);
        assert(present == split_spec(f@).contains(x));
        assert(pred(x) == !split_spec(f@).contains(x));
        if !present {
            assert(sub.filter(pred) == prevf.push(x));
            kept.push(segs[i].clone());
            assert(strs(kept@) =~= strs(before).push(segs@[i as int]@));
            assert forall|a: int, b: int| 0 <= a < strs(kept@).len() && 0 <= b < strs(kept@)[a].len()
                implies strs(kept@)[a][b] != ':' by {
                if a < before.len() {
                    assert(strs(kept@)[a] == strs(before)[a]);
                } else {
                    assert(strs(kept@)[a] == split_spec(value@)[i as int]);
                }
            }
        } else {
            assert(sub.filter(pred) == prevf);
        }
        i = i + 1;
    }
    assert(strs(segs@).subrange(0, i as int) =~= strs(segs@));
    match join_paths(&kept) {
        Ok(s) => s,
        Err(_) => value.clone(),
    }
}

/// Applies one filter to the variable `key`. Returns whether it stays;
/// a path variable that stays may lose segments.
pub fn variable_filter(
    key: &String,
    value: &mut VariableValue,
    filter: &VariablesType,
    path_var_names: &Vec<String>,
) -> (r: bool)
    requires
        filter.wf(),
    ensures
        r == variable_after(key@, old(value)@, filter@, strs(path_var_names@)) is Some,
        r ==> final(value)@ == variable_after(key@, old(value)@, filter@, strs(path_var_names@))->Some_0,
{
    match filter.get(key.as_str()) {
        None => true,
        Some(f_value) => {
            let is_path = list_contains(path_var_names, key);
            match (f_value, &*value) {
                (VariableValue::Var { value: f }, VariableValue::Var { value: x }) => {
                    if is_path {
                        let kept = subtract_paths(x, f);
                        *value = VariableValue::Var { value: kept };
                        true
                    } else {
                        false
                    }
                },
                (VariableValue::Exported { value: f }, VariableValue::Exported { value: x }) => {
                    if is_path {
                        let kept = subtract_paths(x, f);
                        *value = VariableValue::Exported { value: kept };
                        true
                    } else {
                        false
                    }
                },
                _ => false,
            }
        },
    }
}

/// Whether a variable holds something.
pub fn variable_filter_empty(_key: &String, value: &VariableValue) -> (r: bool)
    ensures
        r == !value_empty(value@),
{
    !value.is_empty()
}

/// Whether a function stays under a filter: it does unless the filter names it.
pub fn function_filter(key: &String, filter: &BashFunctionsType) -> (r: bool)
    ensures
        r == !filter@.contains_key(key@),
{
    !filter.contains(key)
}

/// Whether a function has a body.
pub fn function_filter_empty(_key: &String, value: &String) -> (r: bool)
    ensures
        r == (value@.len() > 0),
{
    value.as_str().unicode_len() != 0
}

/// Applies one filter to a snapshot.
pub fn filter_pass(env: &Env, filter: &Env, path_var_names: &Vec<String>) -> (r: Env)
    requires
        env.wf(),
        filter.wf(),
    ensures
        r.wf(),
        r@ == pass_spec(env@, filter@, strs(path_var_names@)),
{
    let ghost names = strs(path_var_names@);
    let vars = &env.variables.0;
    let mut out_vars = VariablesType(Table::new());
    let mut i: usize = 0;
    proof {
        lemma_prefix_full(vars.pairs());
        assert(out_vars@ =~= pass_variables(map_of(vars.pairs().subrange(0, 0)), filter@.variables, names));
    }
    while i < vars.entries.len()
        invariant
            env.wf(),
            filter.wf(),
            vars == &env.variables.0,
            names == strs(path_var_names@),
            i <= vars.entries@.len(),
            out_vars.wf(),
            out_vars@ == pass_variables(map_of(vars.pairs().subrange(0, i as int)), filter@.variables, names),
        decreases vars.entries@.len() - i,
    {
        let key = vars.entries[i].0.clone();
        let mut value = vars.entries[i].1.copy();
        let ghost m = map_of(vars.pairs().subrange(0, i as int));
        let ghost old_value = value@;
        proof {
            lemma_prefix_step(vars.pairs(), i as int);
        }
        let ghost m2 = map_of(vars.pairs().subrange(0, i as int + 1));
        assert(m2 == m.insert(key@, old_value));
        if variable_filter(&key, &mut value, &filter.variables, path_var_names) {
            out_vars.add(key, value);
            assert(out_vars@ =~= pass_variables(m2, filter@.variables, names));
        } else {
            assert(out_vars@ =~= pass_variables(m2, filter@.variables, names));
        }
        i = i + 1;
    }
    proof {
        lemma_prefix_full(vars.pairs());
    }
    let funcs = &env.bash_functions.0;
    let mut out_funcs = BashFunctionsType(Table::new());
    let mut j: usize = 0;
    proof {
        lemma_prefix_full(funcs.pairs());
        assert(out_funcs@ =~= pass_functions(map_of(funcs.pairs().subrange(0, 0)), filter@.functions));
    }
    while j < funcs.entries.len()
        invariant
            env.wf(),
            filter.wf(),
            funcs == &env.bash_functions.0,
            j <= funcs.entries@.len(),
            out_funcs.wf(),
            out_funcs@ == pass_functions(map_of(funcs.pairs().subrange(0, j as int)), filter@.functions),
        decreases funcs.entries@.len() - j,
    {
        let key = funcs.entries[j].0.clone();
        let body = funcs.entries[j].1.clone();
        let ghost m = map_of(funcs.pairs().subrange(0, j as int));
        proof {
            lemma_prefix_step(funcs.pairs(), j as int);
        }
        let ghost m2 = map_of(funcs.pairs().subrange(0, j as int + 1));
        assert(m2 == m.insert(key@, body@));
        if function_filter(&key, &filter.bash_functions) {
            out_funcs.0.insert(key, body);
            assert(out_funcs@ =~= pass_functions(m2, filter@.functions));
        } else {
            assert(out_funcs@ =~= pass_functions(m2, filter@.functions));
        }
        j = j + 1;
    }
    proof {
        lemma_prefix_full(funcs.pairs());
    }
    let r = Env { bash_functions: out_funcs, variables: out_vars };
    assert(r@ == pass_spec(env@, filter@, names));
    r
}

/// Drops the empty variables and the functions without a body.
pub fn prune(env: &Env) -> (r: Env)
    requires
        env.wf(),
    ensures
        r.wf(),
        r@ == prune_spec(env@),
{
    let vars = &env.variables.0;
    let ghost target = prune_spec(env@);
    let mut out_vars = VariablesType(Table::new());
    let mut i: usize = 0;
    proof {
        lemma_prefix_full(vars.pairs());
    }
    while i < vars.entries.len()
        invariant
            env.wf(),
            vars == &env.variables.0,
            i <= vars.entries@.len(),
            out_vars.wf(),
            out_vars@ == prune_spec(
                EnvView { functions: env@.functions, variables: map_of(vars.pairs().subrange(0, i as int)) },
            ).variables,
        decreases vars.entries@.len() - i,
    {
        let key = vars.entries[i].0.clone();
        let ghost m = map_of(vars.pairs().subrange(0, i as int));
        proof {
            lemma_prefix_step(vars.pairs(), i as int);
        }
        let ghost m2 = map_of(vars.pairs().subrange(0, i as int + 1));
        let ghost e2 = EnvView { functions: env@.functions, variables: m2 };
        if variable_filter_empty(&key, &vars.entries[i].1) {
            let value = vars.entries[i].1.copy();
            out_vars.add(key, value);
        }
        assert(out_vars@ =~= prune_spec(e2).variables);
        i = i + 1;
    }
    proof {
        lemma_prefix_full(vars.pairs());
    }
    let funcs = &env.bash_functions.0;
    let mut out_funcs = BashFunctionsType(Table::new());
    let mut j: usize = 0;
    proof {
        lemma_prefix_full(funcs.pairs());
    }
    while j < funcs.entries.len()
        invariant
            env.wf(),
            funcs == &env.bash_functions.0,
            j <= funcs.entries@.len(),
            out_funcs.wf(),
            out_funcs@ == prune_spec(
                EnvView { functions: map_of(funcs.pairs().subrange(0, j as int)), variables: env@.variables },
            ).functions,
        decreases funcs.entries@.len() - j,
    {
        let key = funcs.entries[j].0.clone();
        let ghost m = map_of(funcs.pairs().subrange(0, j as int));
        proof {
            lemma_prefix_step(funcs.pairs(), j as int);
        }
        let ghost m2 = map_of(funcs.pairs().subrange(0, j as int + 1));
        let ghost e2 = EnvView { functions: m2, variables: env@.variables };
        if function_filter_empty(&key, &funcs.entries[j].1) {
            let body = funcs.entries[j].1.clone();
            out_funcs.0.insert(key, body);
        }
        assert(out_funcs@ =~= prune_spec(e2).functions);
        j = j + 1;
    }
    proof {
        lemma_prefix_full(funcs.pairs());
    }
    Env { bash_functions: out_funcs, variables: out_vars }
}

/// The exclusion filter: applies the filter read from a file, then the one
/// given as a string, then drops what is left empty.
pub fn filter_raw(
    env: Env,
    filter_file: Option<Env>,
    filter_str: Option<Env>,
    path_var_names: &Vec<String>,
) -> (r: Env)
    requires
        env.wf(),
        filter_file matches Some(f) ==> f.wf(),
        filter_str matches Some(f) ==> f.wf(),
    ensures
        r.wf(),
        r@ == filter_raw_spec(env@, present_filters(filter_file, filter_str), strs(path_var_names@)),
{
    let ghost names = strs(path_var_names@);
    let ghost first = present_filters(filter_file, None);
    let ghost all = present_filters(filter_file, filter_str);
    let mut cur = env;
    match &filter_file {
        Some(f) => {
            cur = filter_pass(&cur, f, path_var_names);
            assert(first.drop_last() =~= Seq::<EnvView>::empty());
            assert(passes(env@, first.drop_last(), names) == env@);
        },
        None => {
            assert(first =~= Seq::<EnvView>::empty());
        },
    }
    assert(cur@ == passes(env@, first, names));
    match &filter_str {
        Some(f) => {
            cur = filter_pass(&cur, f, path_var_names);
            assert(all.drop_last() =~= first);
        },
        None => {},
    }
    assert(cur@ == passes(env@, all, names));
    prune(&cur)
}

} // verus!
