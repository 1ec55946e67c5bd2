use vstd::prelude::*;

use crate::filter::{
    filter_raw_spec, outside_of, pass_spec, passes, prune_spec, subtract_segments, variable_after,
};
use crate::nix::EnvView;
use crate::project::{
    config_pass, config_passes, empty_final, filter_spec, path_entry, path_names_of, scalar_of,
};
use crate::value::ValueView;
use crate::path::{join_spec, joinable, lemma_split_join, lemma_split_joinable, sep, split_spec};

verus! {

/// With no filters, the exclusion filter only drops the empty entries:
/// every other entry is kept as it is.
pub proof fn lemma_no_filters_only_prune(e: EnvView, names: Seq<Seq<char>>)
    ensures
        filter_raw_spec(e, Seq::empty(), names) == prune_spec(e),
{
}

/// Filtering a filtered sequence again by the same predicate changes nothing.
proof fn lemma_filter_twice(s: Seq<Seq<char>>, p: spec_fn(Seq<char>) -> bool)
    ensures
        s.filter(p).filter(p) == s.filter(p),
    decreases s.len(),
{
    if s.len() > 0 {
        let init = s.drop_last();
        lemma_filter_twice(init, p);
        assert(init.push(s.last()) =~= s);
        init.lemma_filter_push(s.last(), p);
        if p(s.last()) {
            init.filter(p).lemma_filter_push(s.last(), p);
        }
    }
}

/// What is left of segments without separators has none either.
proof fn lemma_filter_joinable(s: Seq<Seq<char>>, p: spec_fn(Seq<char>) -> bool)
    requires
        joinable(s),
    ensures
        joinable(s.filter(p)),
{
    let t = s.filter(p);
    assert forall|i: int, j: int| 0 <= i < t.len() && 0 <= j < t[i].len() implies t[i][j] != sep() by {
        assert(t.contains(t[i]));
        s.lemma_filter_contains_rev(p, t[i]);
        let k = choose|k: int| 0 <= k < s.len() && s[k] == t[i];
        assert(s[k][j] != sep());
    }
}

/// Removing the segments of `f` twice is removing them once.
pub proof fn lemma_subtract_twice(x: Seq<char>, f: Seq<char>)
    ensures
        subtract_segments(subtract_segments(x, f), f) == subtract_segments(x, f),
{
    let p = outside_of(f);
    let kept = split_spec(x).filter(p);
    lemma_split_joinable(x);
    lemma_filter_joinable(split_spec(x), p);
    if kept.len() > 0 {
        lemma_split_join(kept);
        lemma_filter_twice(split_spec(x), p);
    } else {
        let empty = Seq::<char>::empty();
        assert(join_spec(kept) == empty);
        let one = seq![empty];
        assert(split_spec(empty) == one);
        assert(one.drop_last() =~= Seq::<Seq<char>>::empty());
        assert(join_spec(one) == empty);
        one.drop_last().lemma_filter_push(empty, p);
        assert(Seq::<Seq<char>>::empty().push(empty) =~= one);
        assert(Seq::<Seq<char>>::empty().filter(p) =~= Seq::<Seq<char>>::empty());
    }
}

/// A variable that one filter keeps is kept unchanged by that filter again.
proof fn lemma_variable_after_twice(
    k: Seq<char>,
    v: crate::value::ValueView,
    fm: Map<Seq<char>, crate::value::ValueView>,
    names: Seq<Seq<char>>,
)
    requires
        variable_after(k, v, fm, names) is Some,
    ensures
        variable_after(k, variable_after(k, v, fm, names)->Some_0, fm, names) == variable_after(
            k,
            v,
            fm,
            names,
        ),
{
    if fm.contains_key(k) {
        match (fm[k], v) {
            (crate::value::ValueView::Var(f), crate::value::ValueView::Var(x)) => {
                lemma_subtract_twice(x, f);
            },
            (crate::value::ValueView::Exported(f), crate::value::ValueView::Exported(x)) => {
                lemma_subtract_twice(x, f);
            },
            _ => {},
        }
    }
}

/// Whatever one filter leaves is left alone by the same filter.
proof fn lemma_pass_fixed(e: EnvView, f: EnvView, names: Seq<Seq<char>>, y: EnvView)
    requires
        y.functions.submap_of(pass_spec(e, f, names).functions),
        y.variables.submap_of(pass_spec(e, f, names).variables),
    ensures
        pass_spec(y, f, names) == y,
{
    let x = pass_spec(e, f, names);
    assert forall|k: Seq<char>| #[trigger] y.variables.contains_key(k) implies variable_after(
        k,
        y.variables[k],
        f.variables,
        names,
    ) == Some(y.variables[k]) by {
        assert(x.variables.contains_key(k));
        lemma_variable_after_twice(k, e.variables[k], f.variables, names);
    }
    assert forall|k: Seq<char>| #[trigger] y.functions.contains_key(k) implies !f.functions.contains_key(k) by {
        assert(x.functions.contains_key(k));
    }
    assert(pass_spec(y, f, names).variables =~= y.variables);
    assert(pass_spec(y, f, names).functions =~= y.functions);
}

/// Filtering twice with the same filter gives what filtering once gives.
pub proof fn lemma_filter_raw_idempotent(e: EnvView, f: EnvView, names: Seq<Seq<char>>)
    ensures
        filter_raw_spec(filter_raw_spec(e, seq![f], names), seq![f], names) == filter_raw_spec(
            e,
            seq![f],
            names,
        ),
{
    let fs = seq![f];
    assert(fs.drop_last() =~= Seq::<EnvView>::empty());
    assert(fs.last() == f);
    let x = pass_spec(e, f, names);
    assert(passes(e, fs.drop_last(), names) == e);
    assert(passes(e, fs, names) == x);
    let once = prune_spec(x);
    assert(passes(once, fs.drop_last(), names) == once);
    assert(passes(once, fs, names) == pass_spec(once, f, names));
    lemma_pass_fixed(e, f, names, once);
    assert(prune_spec(once).variables =~= once.variables);
    assert(prune_spec(once).functions =~= once.functions);
}

/// Configs are independent passes, the later one winning: a scalar variable
/// that the first config drops, and that the second does not list among its
/// dropped names, is absent after the first pass and written by the second,
/// as a path variable or a plain one.
pub proof fn lemma_later_config_readds(
    vars: Map<Seq<char>, ValueView>,
    c1: crate::config::ConfigView,
    c2: crate::config::ConfigView,
    names: Seq<Seq<char>>,
    k: Seq<char>,
)
    requires
        vars.contains_key(k),
        scalar_of(vars[k]) is Some,
        c1.variables.contains(k),
        !c2.variables.contains(k),
    ensures
        !config_pass(empty_final(), vars, c1, names).paths.contains_key(k),
        !config_pass(empty_final(), vars, c1, names).variables.contains_key(k),
        names.contains(k) ==> config_pass(
            config_pass(empty_final(), vars, c1, names),
            vars,
            c2,
            names,
        ).paths.contains_key(k) && config_pass(
            config_pass(empty_final(), vars, c1, names),
            vars,
            c2,
            names,
        ).paths[k] == path_entry(k, vars[k], c2, names)->Some_0,
        !names.contains(k) ==> config_pass(
            config_pass(empty_final(), vars, c1, names),
            vars,
            c2,
            names,
        ).variables.contains_key(k) && config_pass(
            config_pass(empty_final(), vars, c1, names),
            vars,
            c2,
            names,
        ).variables[k] == scalar_of(vars[k])->Some_0,
{
}

/// What a config writes does not depend on what was written before it.
pub proof fn lemma_config_pass_overwrites(
    out: crate::project::FinalView,
    vars: Map<Seq<char>, ValueView>,
    c: crate::config::ConfigView,
    names: Seq<Seq<char>>,
    k: Seq<char>,
)
    ensures
        config_pass(empty_final(), vars, c, names).paths.contains_key(k) ==> config_pass(
            out,
            vars,
            c,
            names,
        ).paths[k] == config_pass(empty_final(), vars, c, names).paths[k],
        config_pass(empty_final(), vars, c, names).variables.contains_key(k) ==> config_pass(
            out,
            vars,
            c,
            names,
        ).variables[k] == config_pass(empty_final(), vars, c, names).variables[k],
{
}

/// After any number of configs, every path entry is named a path variable
/// and no plain entry is.
proof fn lemma_config_passes_split(
    vars: Map<Seq<char>, ValueView>,
    cs: Seq<crate::config::ConfigView>,
    names: Seq<Seq<char>>,
)
    ensures
        forall|k: Seq<char>|
            #[trigger] config_passes(empty_final(), vars, cs, names).paths.contains_key(k)
                ==> names.contains(k),
        forall|k: Seq<char>|
            #[trigger] config_passes(empty_final(), vars, cs, names).variables.contains_key(k)
                ==> !names.contains(k),
    decreases cs.len(),
{
    if cs.len() > 0 {
        lemma_config_passes_split(vars, cs.drop_last(), names);
        let prev = config_passes(empty_final(), vars, cs.drop_last(), names);
        let r = config_passes(empty_final(), vars, cs, names);
        assert(r == config_pass(prev, vars, cs.last(), names));
        assert forall|k: Seq<char>| #[trigger] r.paths.contains_key(k) implies names.contains(k) by {
            if !prev.paths.contains_key(k) {
                assert(path_entry(k, vars[k], cs.last(), names) is Some);
            }
        }
        assert forall|k: Seq<char>| #[trigger] r.variables.contains_key(k) implies !names.contains(k) by {
            if !prev.variables.contains_key(k) {
                assert(crate::project::plain_entry(k, vars[k], cs.last(), names) is Some);
            }
        }
    }
}

/// No name is both a path variable and a plain variable of the final
/// environment.
pub proof fn lemma_final_names_disjoint(
    e: EnvView,
    fs: Seq<EnvView>,
    cs: Seq<crate::config::ConfigView>,
    k: Seq<char>,
)
    ensures
        !(filter_spec(e, fs, cs).paths.contains_key(k) && filter_spec(e, fs, cs).variables.contains_key(k)),
{
    let names = path_names_of(cs);
    lemma_config_passes_split(filter_raw_spec(e, fs, names).variables, cs, names);
}

} // verus!
