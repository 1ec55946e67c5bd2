use vstd::prelude::*;

use crate::table::Table;
use crate::value::{ValueView, VariableValue};

verus! {

/// Shell functions of a snapshot: name to body.
pub struct BashFunctionsType(pub Table<String>);

impl View for BashFunctionsType {
    type V = Map<Seq<char>, Seq<char>>;

    open spec fn view(&self) -> Map<Seq<char>, Seq<char>> {
        self.0@
    }
}

impl BashFunctionsType {
    pub open spec fn wf(&self) -> bool {
        self.0.wf()
    }

    pub fn contains(&self, key: &String) -> (r: bool)
        ensures
            r == self@.contains_key(key@),
    {
        self.0.contains_key(key.as_str())
    }

    /// Keeps the functions for which `f` holds, each unchanged.
    pub fn retain<F: Fn(&String, &String) -> bool>(&mut self, f: F)
        requires
            old(self).wf(),
            forall|k: &String, v: &String| f.requires((k, v)),
        ensures
            final(self).wf(),
            final(self)@.submap_of(old(self)@),
            forall|i: int|
                #![trigger old(self).0.entries@[i]]
                0 <= i < old(self).0.entries@.len() ==> {
                    let e = old(self).0.entries@[i];
                    &&& final(self)@.contains_key(e.0@) ==> f.ensures((&e.0, &e.1), true)
                    &&& !final(self)@.contains_key(e.0@) ==> f.ensures((&e.0, &e.1), false)
                },
    {
        self.0.retain(f)
    }
}

/// Variables of a snapshot: name to value.
pub struct VariablesType(pub Table<VariableValue>);

impl View for VariablesType {
    type V = Map<Seq<char>, ValueView>;

    open spec fn view(&self) -> Map<Seq<char>, ValueView> {
        self.0@
    }
}

impl VariablesType {
    pub open spec fn wf(&self) -> bool {
        self.0.wf()
    }

    pub fn contains(&self, key: &String) -> (r: bool)
        ensures
            r == self@.contains_key(key@),
    {
        self.0.contains_key(key.as_str())
    }

    pub fn get(&self, key: &str) -> (r: Option<&VariableValue>)
        requires
            self.wf(),
        ensures
            r is Some <==> self@.contains_key(key@),
            r matches Some(v) ==> v@ == self@[key@],
    {
        self.0.get(key)
    }

    /// Sets `key` to `value`, replacing what it held.
    pub fn add(&mut self, key: String, value: VariableValue)
        requires
            old(self).wf(),
        ensures
            final(self).wf(),
            final(self)@ == old(self)@.insert(key@, value@),
    {
        self.0.insert(key, value)
    }

    /// Keeps the variables for which `f` holds, each unchanged.
    pub fn retain<F: Fn(&String, &VariableValue) -> bool>(&mut self, f: F)
        requires
            old(self).wf(),
            forall|k: &String, v: &VariableValue| f.requires((k, v)),
        ensures
            final(self).wf(),
            final(self)@.submap_of(old(self)@),
            forall|i: int|
                #![trigger old(self).0.entries@[i]]
                0 <= i < old(self).0.entries@.len() ==> {
                    let e = old(self).0.entries@[i];
                    &&& final(self)@.contains_key(e.0@) ==> f.ensures((&e.0, &e.1), true)
                    &&& !final(self)@.contains_key(e.0@) ==> f.ensures((&e.0, &e.1), false)
                },
    {
        self.0.retain(f)
    }

    pub fn is_empty(&self) -> (r: bool)
        ensures
            r == (self@ == Map::<Seq<char>, ValueView>::empty()),
    {
        self.0.is_empty()
    }

    pub fn clear(&mut self)
        ensures
            final(self).wf(),
            final(self)@ == Map::<Seq<char>, ValueView>::empty(),
    {
        self.0.clear()
    }
}

/// A snapshot of a development environment, also used as a filter.
pub struct Env {
    pub bash_functions: BashFunctionsType,
    pub variables: VariablesType,
}

/// What a snapshot holds, as maps.
pub struct EnvView {
    pub functions: Map<Seq<char>, Seq<char>>,
    pub variables: Map<Seq<char>, ValueView>,
}

impl View for Env {
    type V = EnvView;

    open spec fn view(&self) -> EnvView {
        EnvView { functions: self.bash_functions@, variables: self.variables@ }
    }
}

impl Env {
    pub open spec fn wf(&self) -> bool {
        self.bash_functions.wf() && self.variables.wf()
    }
}

/// The variable that holds the store path of the built output.
pub open spec fn out_name() -> Seq<char> {
    seq!['o', 'u', 't']
}

/// The variable that keeps that store path alive while the shell runs.
pub open spec fn gcroot_name() -> Seq<char> {
    seq!['N', 'I', 'X', '_', 'G', 'C', 'R', 'O', 'O', 'T']
}

/// The variables with the store path of `out`, when it is a scalar, copied
/// into `NIX_GCROOT`.
pub open spec fn with_gcroot(vars: Map<Seq<char>, ValueView>) -> Map<Seq<char>, ValueView> {
    if vars.contains_key(out_name()) {
        match vars[out_name()] {
            ValueView::Exported(x) => vars.insert(gcroot_name(), ValueView::Var(x)),
            ValueView::Var(x) => vars.insert(gcroot_name(), ValueView::Var(x)),
            _ => vars,
        }
    } else {
        vars
    }
}

/// Records the store path of `out` in `NIX_GCROOT`, so that it is not
/// collected while the shell runs.
pub fn add_gcroot(env: &mut Env)
    requires
        old(env).wf(),
    ensures
        final(env).wf(),
        final(env)@.functions == old(env)@.functions,
        final(env)@.variables == with_gcroot(old(env)@.variables),
{
    proof {
        reveal_strlit("out");
        reveal_strlit("NIX_GCROOT");
        assert("out"@ =~= out_name());
        assert("NIX_GCROOT"@ =~= gcroot_name());
    }
    let path = match env.variables.get("out") {
        Some(VariableValue::Exported { value }) => Some(value.clone()),
        Some(VariableValue::Var { value }) => Some(value.clone()),
        _ => None,
    };
    match path {
        Some(value) => env.variables.add(String::from_str("NIX_GCROOT"), VariableValue::Var { value }),
        None => {},
    }
}

} // verus!
