//! The shared, mutable binding environment of one lexical scope: two
//! independent name-to-entry stores, one for variable bindings and one for
//! registered functions.
//!
//! Both stores are modelled as maps from names to entries. Registration is
//! insert-or-replace (last write wins); mutation of an existing variable
//! flows through the single gate [`VmContext::set_var`], so every later
//! lookup of the name observes the new value.

use vstd::prelude::*;

use crate::defs::Binding;
use crate::defs::Function;
use crate::defs::Variable;
use crate::value::EvalError;
use crate::value::Value;
use crate::value::ValueView;

verus! {

/// No two bindings of the store share a name.
pub open spec fn unique_names(s: Seq<Binding>) -> bool {
    forall|i: int, j: int|
        0 <= i < j < s.len() ==> (#[trigger] s[i].name_view()) != (#[trigger] s[j].name_view())
}

/// The map a sequence of bindings denotes, later entries winning.
pub open spec fn map_of(s: Seq<Binding>) -> Map<Seq<char>, Binding>
    decreases s.len(),
{
    if s.len() == 0 {
        Map::empty()
    } else {
        map_of(s.drop_last()).insert(s.last().name_view(), s.last())
    }
}

proof fn lemma_map_of_contains(s: Seq<Binding>, k: Seq<char>)
    ensures
        map_of(s).contains_key(k) <==> exists|i: int|
            0 <= i < s.len() && (#[trigger] s[i].name_view()) == k,
    decreases s.len(),
{
    if s.len() > 0 {
        lemma_map_of_contains(s.drop_last(), k);
        assert(forall|i: int|
            0 <= i < s.len() - 1 ==> (#[trigger] s.drop_last()[i]) == s[i]);
        if map_of(s).contains_key(k) {
            if s.last().name_view() == k {
                assert(s[s.len() - 1].name_view() == k);
            }
        } else {
            assert forall|i: int| 0 <= i < s.len() implies (#[trigger] s[i].name_view()) != k by {
                if i < s.len() - 1 {
                    assert(s.drop_last()[i] == s[i]);
                    assert(s.drop_last()[i].name_view() != k);
                }
            }
        }
    }
}

proof fn lemma_map_of_index(s: Seq<Binding>, i: int)
    requires
        unique_names(s),
        0 <= i < s.len(),
    ensures
        map_of(s).contains_key(s[i].name_view()),
        map_of(s)[s[i].name_view()] == s[i],
    decreases s.len(),
{
    if i < s.len() - 1 {
        assert(unique_names(s.drop_last()));
        assert(s.drop_last()[i] == s[i]);
        lemma_map_of_index(s.drop_last(), i);
        assert(s.last().name_view() != s[i].name_view());
    }
}

proof fn lemma_map_of_update(s: Seq<Binding>, i: int, b: Binding)
    requires
        unique_names(s),
        0 <= i < s.len(),
        b.name_view() == s[i].name_view(),
    ensures
        map_of(s.update(i, b)) == map_of(s).insert(b.name_view(), b),
        unique_names(s.update(i, b)),
    decreases s.len(),
{
    let t = s.update(i, b);
    assert(forall|j: int| 0 <= j < s.len() && j != i ==> (#[trigger] t[j]) == s[j]);
    if i == s.len() - 1 {
        assert(t.drop_last() =~= s.drop_last());
        assert(map_of(t) =~= map_of(s).insert(b.name_view(), b));
    } else {
        assert(t.drop_last() =~= s.drop_last().update(i, b));
        assert(unique_names(s.drop_last()));
        assert(s.drop_last()[i] == s[i]);
        lemma_map_of_update(s.drop_last(), i, b);
        assert(s.last().name_view() != b.name_view());
        assert(t.last() == s.last());
        assert(map_of(t) =~= map_of(s).insert(b.name_view(), b));
    }
}

proof fn lemma_map_of_push(s: Seq<Binding>, b: Binding)
    requires
        unique_names(s),
        forall|i: int| 0 <= i < s.len() ==> (#[trigger] s[i].name_view()) != b.name_view(),
    ensures
        map_of(s.push(b)) == map_of(s).insert(b.name_view(), b),
        unique_names(s.push(b)),
{
    assert(s.push(b).drop_last() =~= s);
    assert(s.push(b).last() == b);
    assert(forall|i: int| 0 <= i < s.len() ==> (#[trigger] s.push(b)[i]) == s[i]);
}

/// No two registered functions share a name.
pub open spec fn unique_func_names(s: Seq<Function>) -> bool {
    forall|i: int, j: int|
        0 <= i < j < s.len() ==> (#[trigger] s[i].name@) != (#[trigger] s[j].name@)
}

/// The map a sequence of functions denotes, later entries winning.
pub open spec fn func_map_of(s: Seq<Function>) -> Map<Seq<char>, Function>
    decreases s.len(),
{
    if s.len() == 0 {
        Map::empty()
    } else {
        func_map_of(s.drop_last()).insert(s.last().name@, s.last())
    }
}

proof fn lemma_func_map_of_contains(s: Seq<Function>, k: Seq<char>)
    ensures
        func_map_of(s).contains_key(k) <==> exists|i: int|
            0 <= i < s.len() && (#[trigger] s[i].name@) == k,
    decreases s.len(),
{
    if s.len() > 0 {
        lemma_func_map_of_contains(s.drop_last(), k);
        assert(forall|i: int|
            0 <= i < s.len() - 1 ==> (#[trigger] s.drop_last()[i]) == s[i]);
        if func_map_of(s).contains_key(k) {
            if s.last().name@ == k {
                assert(s[s.len() - 1].name@ == k);
            }
        } else {
            assert forall|i: int| 0 <= i < s.len() implies (#[trigger] s[i].name@) != k by {
                if i < s.len() - 1 {
                    assert(s.drop_last()[i] == s[i]);
                    assert(s.drop_last()[i].name@ != k);
                }
            }
        }
    }
}

proof fn lemma_func_map_of_index(s: Seq<Function>, i: int)
    requires
        unique_func_names(s),
        0 <= i < s.len(),
    ensures
        func_map_of(s).contains_key(s[i].name@),
        func_map_of(s)[s[i].name@] == s[i],
    decreases s.len(),
{
    if i < s.len() - 1 {
        assert(unique_func_names(s.drop_last()));
        assert(s.drop_last()[i] == s[i]);
        lemma_func_map_of_index(s.drop_last(), i);
        assert(s.last().name@ != s[i].name@);
    }
}

proof fn lemma_func_map_of_update(s: Seq<Function>, i: int, f: Function)
    requires
        unique_func_names(s),
        0 <= i < s.len(),
        f.name@ == s[i].name@,
    ensures
        func_map_of(s.update(i, f)) == func_map_of(s).insert(f.name@, f),
        unique_func_names(s.update(i, f)),
    decreases s.len(),
{
    let t = s.update(i, f);
    assert(forall|j: int| 0 <= j < s.len() && j != i ==> (#[trigger] t[j]) == s[j]);
    if i == s.len() - 1 {
        assert(t.drop_last() =~= s.drop_last());
        assert(func_map_of(t) =~= func_map_of(s).insert(f.name@, f));
    } else {
        assert(t.drop_last() =~= s.drop_last().update(i, f));
        assert(unique_func_names(s.drop_last()));
        assert(s.drop_last()[i] == s[i]);
        lemma_func_map_of_update(s.drop_last(), i, f);
        assert(s.last().name@ != f.name@);
        assert(t.last() == s.last());
        assert(func_map_of(t) =~= func_map_of(s).insert(f.name@, f));
    }
}

proof fn lemma_func_map_of_push(s: Seq<Function>, f: Function)
    requires
        unique_func_names(s),
        forall|i: int| 0 <= i < s.len() ==> (#[trigger] s[i].name@) != f.name@,
    ensures
        func_map_of(s.push(f)) == func_map_of(s).insert(f.name@, f),
        unique_func_names(s.push(f)),
{
    assert(s.push(f).drop_last() =~= s);
    assert(s.push(f).last() == f);
    assert(forall|i: int| 0 <= i < s.len() ==> (#[trigger] s.push(f)[i]) == s[i]);
}

/// The binding environment of one lexical scope.
pub struct VmContext {
    vars: Vec<Binding>,
    funcs: Vec<Function>,
}

impl VmContext {
    /// The variable store: name to live binding.
    pub closed spec fn vars_map(self) -> Map<Seq<char>, Binding> {
        map_of(self.vars@)
    }

    /// The function store: name to registered function.
    pub closed spec fn funcs_map(self) -> Map<Seq<char>, Function> {
        func_map_of(self.funcs@)
    }

    /// The value each bound name currently resolves to.
    pub open spec fn var_vals(self) -> Map<Seq<char>, ValueView> {
        self.vars_map().map_values(|b: Binding| b.val_view())
    }

    /// Well-formedness: each store holds each name at most once.
    pub closed spec fn wf(self) -> bool {
        unique_names(self.vars@) && unique_func_names(self.funcs@)
    }

    /// A fresh, empty context.
    pub fn new() -> (r: VmContext)
        ensures
            r.wf(),
            r.vars_map() == Map::<Seq<char>, Binding>::empty(),
            r.funcs_map() == Map::<Seq<char>, Function>::empty(),
    {
        VmContext { vars: Vec::new(), funcs: Vec::new() }
    }

    fn find_var_index(&self, name: &String) -> (r: Option<usize>)
        requires
            self.wf(),
        ensures
            match r {
                Some(i) => i < self.vars@.len() && self.vars@[i as int].name_view() == name@
                    && self.vars_map().contains_key(name@) && self.vars_map()[name@]
                    == self.vars@[i as int],
                None => !self.vars_map().contains_key(name@),
            },
    {
        let n = self.vars.len();
        let mut i: usize = 0;
        while i < n
            invariant
                self.wf(),
                n == self.vars@.len(),
                i <= n,
                forall|j: int| 0 <= j < i ==> (#[trigger] self.vars@[j].name_view()) != name@,
            decreases n - i,
        {
            let b = &self.vars[i];
            if *b.name_str() == *name {
                proof {
                    lemma_map_of_index(self.vars@, i as int);
                }
                return Some(i);
            }
            i += 1;
        }
        proof {
            lemma_map_of_contains(self.vars@, name@);
        }
        None
    }

    fn find_func_index(&self, name: &String) -> (r: Option<usize>)
        requires
            self.wf(),
        ensures
            match r {
                Some(i) => i < self.funcs@.len() && self.funcs@[i as int].name@ == name@
                    && self.funcs_map().contains_key(name@) && self.funcs_map()[name@]
                    == self.funcs@[i as int],
                None => !self.funcs_map().contains_key(name@),
            },
    {
        let n = self.funcs.len();
        let mut i: usize = 0;
        while i < n
            invariant
                self.wf(),
                n == self.funcs@.len(),
                i <= n,
                forall|j: int| 0 <= j < i ==> (#[trigger] self.funcs@[j].name@) != name@,
            decreases n - i,
        {
            let f = &self.funcs[i];
            if f.name == *name {
                proof {
                    lemma_func_map_of_index(self.funcs@, i as int);
                }
                return Some(i);
            }
            i += 1;
        }
        proof {
            lemma_func_map_of_contains(self.funcs@, name@);
        }
        None
    }

    /// A shared handle to the live binding under `name`, if one exists.
    pub fn get_var(&self, name: &str) -> (r: Option<&Binding>)
        requires
            self.wf(),
        ensures
            match r {
                Some(b) => self.vars_map().contains_key(name@) && *b == self.vars_map()[name@],
                None => !self.vars_map().contains_key(name@),
            },
    {
        let key = name.to_owned();
        match self.find_var_index(&key) {
            Some(i) => Some(&self.vars[i]),
            None => None,
        }
    }

    /// The registered function under `name`, if one exists.
    pub fn get_func(&self, name: &str) -> (r: Option<&Function>)
        requires
            self.wf(),
        ensures
            match r {
                Some(f) => self.funcs_map().contains_key(name@) && *f == self.funcs_map()[name@],
                None => !self.funcs_map().contains_key(name@),
            },
    {
        let key = name.to_owned();
        match self.find_func_index(&key) {
            Some(i) => Some(&self.funcs[i]),
            None => None,
        }
    }

    /// Inserts or replaces a binding under its own name.
    pub fn push_var(&mut self, var: Binding)
        requires
            old(self).wf(),
        ensures
            final(self).wf(),
            final(self).vars_map() == old(self).vars_map().insert(var.name_view(), var),
            final(self).var_vals() == old(self).var_vals().insert(
                var.name_view(),
                var.val_view(),
            ),
            final(self).funcs_map() == old(self).funcs_map(),
    {
        let ghost vg = var;
        let idx = self.find_var_index(var.name_str());
        match idx {
            Some(i) => {
                proof {
                    lemma_map_of_update(self.vars@, i as int, vg);
                }
                self.vars.set(i, var);
            },
            None => {
                proof {
                    lemma_map_of_contains(self.vars@, vg.name_view());
                }
                self.vars.push(var);
                proof {
                    lemma_map_of_push(old(self).vars@, vg);
                }
            },
        }
        proof {
            assert(final(self).var_vals() =~= old(self).var_vals().insert(
                vg.name_view(),
                vg.val_view(),
            ));
        }
    }

    /// Registers or replaces a function under its own name. Functions are
    /// replace-only: no in-place mutation operation exists.
    pub fn push_func(&mut self, func: Function)
        requires
            old(self).wf(),
        ensures
            final(self).wf(),
            final(self).funcs_map() == old(self).funcs_map().insert(func.name@, func),
            final(self).vars_map() == old(self).vars_map(),
            final(self).var_vals() == old(self).var_vals(),
    {
        let ghost fg = func;
        let idx = self.find_func_index(&func.name);
        match idx {
            Some(i) => {
                proof {
                    lemma_func_map_of_update(self.funcs@, i as int, fg);
                }
                self.funcs.set(i, func);
            },
            None => {
                proof {
                    lemma_func_map_of_contains(self.funcs@, fg.name@);
                }
                self.funcs.push(func);
                proof {
                    lemma_func_map_of_push(old(self).funcs@, fg);
                }
            },
        }
    }

    /// Mutates the existing variable binding under `name` in place, or fails
    /// with a `NameError` when no binding exists, leaving the context
    /// unchanged. Mutating a parameter binding would be an internal
    /// invariant violation, so callers must not aim this at one.
    pub fn set_var(&mut self, name: &str, value: Value) -> (r: Result<(), EvalError>)
        requires
            old(self).wf(),
            old(self).vars_map().contains_key(name@) ==> old(self).vars_map()[name@] is Var,
        ensures
            final(self).wf(),
            final(self).funcs_map() == old(self).funcs_map(),
            r is Ok <==> old(self).vars_map().contains_key(name@),
            r is Err ==> ({
                &&& r == Err::<(), EvalError>(EvalError::NameError)
                &&& final(self).vars_map() == old(self).vars_map()
                &&& final(self).var_vals() == old(self).var_vals()
            }),
            r is Ok ==> ({
                &&& final(self).vars_map().dom() == old(self).vars_map().dom()
                &&& final(self).vars_map()[name@] is Var
                &&& final(self).vars_map()[name@].name_view() == name@
                &&& final(self).vars_map()[name@].val_view() == value@
                &&& forall|k: Seq<char>|
                    old(self).vars_map().contains_key(k) && k != name@
                        ==> final(self).vars_map()[k] == old(self).vars_map()[k]
                &&& final(self).var_vals() == old(self).var_vals().insert(name@, value@)
            }),
    {
        let key = name.to_owned();
        match self.find_var_index(&key) {
            None => Err(EvalError::NameError),
            Some(i) => {
                let b = Binding::Var(Variable { name: key, value });
                let ghost bg = b;
                proof {
                    lemma_map_of_update(self.vars@, i as int, bg);
                }
                self.vars.set(i, b);
                proof {
                    assert(final(self).vars_map().dom() =~= old(self).vars_map().dom());
                    assert(final(self).var_vals() =~= old(self).var_vals().insert(
                        name@,
                        value@,
                    ));
                }
                Ok(())
            },
        }
    }

    /// Whether a binding exists under `var_name`, without exposing a handle.
    pub fn contains_var(&self, var_name: &str) -> (r: bool)
        requires
            self.wf(),
        ensures
            r == self.vars_map().contains_key(var_name@),
    {
        self.get_var(var_name).is_some()
    }

    /// Whether a function is registered under `func_name`.
    pub fn contains_func(&self, func_name: &str) -> (r: bool)
        requires
            self.wf(),
        ensures
            r == self.funcs_map().contains_key(func_name@),
    {
        self.get_func(func_name).is_some()
    }
}

impl Default for VmContext {
    fn default() -> (r: VmContext)
        ensures
            r.wf(),
            r.vars_map() == Map::<Seq<char>, Binding>::empty(),
            r.funcs_map() == Map::<Seq<char>, Function>::empty(),
    {
        VmContext::new()
    }
}

/// Pushing a binding and then fetching its name yields a handle to that very
/// binding: the fetched value equals what was pushed.
pub proof fn lemma_push_then_fetch(m: Map<Seq<char>, Binding>, b: Binding)
    ensures
        m.insert(b.name_view(), b).contains_key(b.name_view()),
        m.insert(b.name_view(), b)[b.name_view()] == b,
{
}

} // verus!
