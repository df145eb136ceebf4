//! The environment action engine.
//!
//! An `EnvMap` is an explicit snapshot of a process environment. The engine
//! starts from a full snapshot and applies a descriptor's ordered action
//! list; each action reads the in-progress value of its variable, so later
//! actions see the effect of earlier ones.

use vstd::prelude::*;
use crate::descriptor::{ActionModel, ShimConfigEnvAction, ShimConfigEnvActionItem};
use vstd::string::StringExecFns;

verus! {

/// An environment snapshot: variable names with their values.
pub struct EnvMap {
    entries: Vec<(String, String)>,
}

/// The mapping an entry list stands for; a later entry overrides an earlier
/// one with the same name.
pub closed spec fn as_map(s: Seq<(String, String)>) -> Map<Seq<char>, Seq<char>>
    decreases s.len(),
{
    if s.len() == 0 {
        Map::empty()
    } else {
        as_map(s.drop_last()).insert(s.last().0@, s.last().1@)
    }
}

impl View for EnvMap {
    type V = Map<Seq<char>, Seq<char>>;

    closed spec fn view(&self) -> Map<Seq<char>, Seq<char>> {
        as_map(self.entries@)
    }
}

/// A key occurs in `as_map(s)` exactly when some entry carries it.
proof fn lemma_as_map_key(s: Seq<(String, String)>, k: Seq<char>)
    ensures
        as_map(s).contains_key(k) <==> (exists|i: int| 0 <= i < s.len() && s[i].0@ == k),
    decreases s.len(),
{
    if s.len() > 0 {
        let dl = s.drop_last();
        lemma_as_map_key(dl, k);
        if s.last().0@ == k {
            assert(s[s.len() - 1].0@ == k);
        } else {
            if as_map(s).contains_key(k) {
                let i = choose|i: int| 0 <= i < dl.len() && dl[i].0@ == k;
                assert(s[i].0@ == k);
            }
            if exists|i: int| 0 <= i < s.len() && s[i].0@ == k {
                let i = choose|i: int| 0 <= i < s.len() && s[i].0@ == k;
                assert(dl[i].0@ == k);
            }
        }
    }
}

/// Entry keys occur pairwise distinct in `s`.
spec fn unique_keys(s: Seq<(String, String)>) -> bool {
    forall|a: int, b: int| 0 <= a < b < s.len() ==> s[a].0@ != s[b].0@
}

/// With unique keys, each entry's value is the one the map carries.
proof fn lemma_as_map_val(s: Seq<(String, String)>, i: int)
    requires
        unique_keys(s),
        0 <= i < s.len(),
    ensures
        as_map(s).contains_key(s[i].0@),
        as_map(s)[s[i].0@] == s[i].1@,
    decreases s.len(),
{
    let dl = s.drop_last();
    if i == s.len() - 1 {
    } else {
        assert(unique_keys(dl));
        assert(dl[i] == s[i]);
        lemma_as_map_val(dl, i);
        assert(s.last().0@ != s[i].0@);
    }
}

/// With unique keys, removing the entry at `i` removes exactly its key.
proof fn lemma_as_map_remove(s: Seq<(String, String)>, i: int)
    requires
        unique_keys(s),
        0 <= i < s.len(),
    ensures
        as_map(s.remove(i)) == as_map(s).remove(s[i].0@),
    decreases s.len(),
{
    let dl = s.drop_last();
    if i == s.len() - 1 {
        assert(s.remove(i) =~= dl);
        lemma_as_map_key(dl, s[i].0@);
        assert(forall|j: int| 0 <= j < dl.len() ==> dl[j] == s[j]);
        assert(!as_map(dl).contains_key(s[i].0@));
        assert(as_map(dl).remove(s[i].0@) =~= as_map(dl));
    } else {
        assert(unique_keys(dl));
        assert(dl[i] == s[i]);
        lemma_as_map_remove(dl, i);
        assert(s.remove(i).drop_last() =~= dl.remove(i));
        assert(s.remove(i).last() == s.last());
        assert(s.last().0@ != s[i].0@);
        assert(as_map(dl).remove(s[i].0@).insert(s.last().0@, s.last().1@) =~= as_map(dl).insert(
            s.last().0@,
            s.last().1@,
        ).remove(s[i].0@));
    }
}

/// The value a variable has in `m`, the empty string when it is unset.
pub open spec fn env_value_or_empty(m: Map<Seq<char>, Seq<char>>, k: Seq<char>) -> Seq<char> {
    if m.contains_key(k) {
        m[k]
    } else {
        Seq::empty()
    }
}

/// The effect of one environment action on a snapshot.
pub open spec fn spec_apply_action(m: Map<Seq<char>, Seq<char>>, a: ActionModel) -> Map<
    Seq<char>,
    Seq<char>,
> {
    match a.action {
        ShimConfigEnvAction::SET => m.insert(a.var, a.value),
        ShimConfigEnvAction::CLEAR => m.remove(a.var),
        ShimConfigEnvAction::APPEND => m.insert(
            a.var,
            env_value_or_empty(m, a.var) + a.separator + a.value,
        ),
        ShimConfigEnvAction::PREPEND => m.insert(
            a.var,
            a.value + a.separator + env_value_or_empty(m, a.var),
        ),
    }
}

/// The effect of an ordered action list, applied sequentially: each action
/// sees the in-progress snapshot left by the actions before it.
pub open spec fn spec_apply(m: Map<Seq<char>, Seq<char>>, actions: Seq<ActionModel>) -> Map<
    Seq<char>,
    Seq<char>,
>
    decreases actions.len(),
{
    if actions.len() == 0 {
        m
    } else {
        spec_apply(spec_apply_action(m, actions[0]), actions.drop_first())
    }
}

/// The models of an action-item list.
pub open spec fn action_models(s: Seq<ShimConfigEnvActionItem>) -> Seq<ActionModel> {
    s.map_values(|a: ShimConfigEnvActionItem| a@)
}

impl EnvMap {
    /// Names occur at most once in the entry list.
    pub closed spec fn wf(&self) -> bool {
        unique_keys(self.entries@)
    }

    /// The empty snapshot.
    pub fn new() -> (r: EnvMap)
        ensures
            r.wf(),
            r@ == Map::<Seq<char>, Seq<char>>::empty(),
    {
        EnvMap { entries: Vec::new() }
    }

    /// The value of `name`, or `None` when the variable is unset.
    pub fn lookup(&self, name: &str) -> (r: Option<String>)
        requires
            self.wf(),
        ensures
            match r {
                Some(v) => self@.contains_key(name@) && v@ == self@[name@],
                None => !self@.contains_key(name@),
            },
    {
        let n = self.entries.len();
        let mut i: usize = 0;
        while i < n
            invariant
                self.wf(),
                n == self.entries@.len(),
                i <= n,
                forall|j: int| 0 <= j < i ==> self.entries@[j].0@ != name@,
            decreases n - i,
        {
            let e = &self.entries[i];
            if crate::text::str_eq(e.0.as_str(), name) {
                proof {
                    lemma_as_map_val(self.entries@, i as int);
                }
                return Some(e.1.clone());
            }
            i = i + 1;
        }
        proof {
            lemma_as_map_key(self.entries@, name@);
        }
        None
    }

    /// Removes `name` from the snapshot; absent names are a no-op.
    pub fn remove(&mut self, name: &String)
        requires
            old(self).wf(),
        ensures
            final(self).wf(),
            final(self)@ == old(self)@.remove(name@),
    {
        let n = self.entries.len();
        let mut i: usize = 0;
        while i < n
            invariant
                self.wf(),
                self.entries@ == old(self).entries@,
                n == self.entries@.len(),
                i <= n,
                forall|j: int| 0 <= j < i ==> self.entries@[j].0@ != name@,
            decreases n - i,
        {
            let e = &self.entries[i];
            if e.0 == *name {
                proof {
                    lemma_as_map_remove(self.entries@, i as int);
                }
                self.entries.remove(i);
                proof {
                    assert(forall|a: int, b: int|
                        0 <= a < b < self.entries@.len() ==> self.entries@[a].0@
                            != self.entries@[b].0@);
                }
                return ;
            }
            i = i + 1;
        }
        proof {
            lemma_as_map_key(self.entries@, name@);
            assert(!old(self)@.contains_key(name@));
            assert(old(self)@.remove(name@) =~= old(self)@);
        }
    }

    /// Gives `name` the value `value`, creating it if absent.
    pub fn set(&mut self, name: &String, value: &String)
        requires
            old(self).wf(),
        ensures
            final(self).wf(),
            final(self)@ == old(self)@.insert(name@, value@),
    {
        self.remove(name);
        let ghost removed = self.entries@;
        proof {
            lemma_as_map_key(removed, name@);
        }
        self.entries.push((name.clone(), value.clone()));
        proof {
            assert(self.entries@.drop_last() =~= removed);
            assert(forall|j: int| 0 <= j < removed.len() ==> removed[j].0@ != name@);
            assert(old(self)@.remove(name@).insert(name@, value@) =~= old(self)@.insert(
                name@,
                value@,
            ));
        }
    }

    /// Applies one action to the snapshot.
    pub fn apply_action(&mut self, item: &ShimConfigEnvActionItem)
        requires
            old(self).wf(),
        ensures
            final(self).wf(),
            final(self)@ == spec_apply_action(old(self)@, item@),
    {
        match item.action {
            ShimConfigEnvAction::SET => {
                self.set(&item.var, &item.value);
            },
            ShimConfigEnvAction::CLEAR => {
                self.remove(&item.var);
            },
            ShimConfigEnvAction::APPEND => {
                let mut nv = match self.lookup(item.var.as_str()) {
                    Some(cur) => cur,
                    None => String::new(),
                };
                nv.append(item.separator.as_str());
                nv.append(item.value.as_str());
                self.set(&item.var, &nv);
            },
            ShimConfigEnvAction::PREPEND => {
                let cur = match self.lookup(item.var.as_str()) {
                    Some(cur) => cur,
                    None => String::new(),
                };
                let mut nv = item.value.clone();
                nv.append(item.separator.as_str());
                nv.append(cur.as_str());
                self.set(&item.var, &nv);
            },
        }
    }

    /// Applies an ordered action list, in declared order.
    pub fn apply_all(&mut self, actions: &Vec<ShimConfigEnvActionItem>)
        requires
            old(self).wf(),
        ensures
            final(self).wf(),
            final(self)@ == spec_apply(old(self)@, action_models(actions@)),
    {
        let n = actions.len();
        let mut i: usize = 0;
        proof {
            assert(actions@.skip(0) =~= actions@);
        }
        while i < n
            invariant
                self.wf(),
                n == actions@.len(),
                i <= n,
                spec_apply(old(self)@, action_models(actions@)) == spec_apply(
                    self@,
                    action_models(actions@.skip(i as int)),
                ),
            decreases n - i,
        {
            let ghost before = self@;
            self.apply_action(&actions[i]);
            proof {
                let suffix = action_models(actions@.skip(i as int));
                assert(suffix[0] == actions@[i as int]@);
                assert(suffix.drop_first() =~= action_models(actions@.skip(i as int + 1)));
                assert(spec_apply(before, suffix) == spec_apply(
                    spec_apply_action(before, suffix[0]),
                    suffix.drop_first(),
                ));
            }
            i = i + 1;
        }
        proof {
            assert(action_models(actions@.skip(n as int)) =~= Seq::<ActionModel>::empty());
        }
    }

    /// The entries of the snapshot, for handing to a process spawn: each
    /// listed pair is in the mapping, and every variable of the mapping is
    /// listed exactly once.
    pub fn pairs(&self) -> (r: &Vec<(String, String)>)
        requires
            self.wf(),
        ensures
            forall|i: int|
                0 <= i < r@.len() ==> self@.contains_key(#[trigger] r@[i].0@) && self@[r@[i].0@]
                    == r@[i].1@,
            forall|k: Seq<char>|
                self@.contains_key(k) ==> exists|i: int| 0 <= i < r@.len() && #[trigger] r@[i].0@
                    == k,
            forall|a: int, b: int| 0 <= a < b < r@.len() ==> r@[a].0@ != r@[b].0@,
    {
        proof {
            assert forall|i: int| 0 <= i < self.entries@.len() implies self@.contains_key(
                #[trigger] self.entries@[i].0@,
            ) && self@[self.entries@[i].0@] == self.entries@[i].1@ by {
                lemma_as_map_val(self.entries@, i);
            }
            assert forall|k: Seq<char>| self@.contains_key(k) implies exists|i: int|
                0 <= i < self.entries@.len() && #[trigger] self.entries@[i].0@ == k by {
                lemma_as_map_key(self.entries@, k);
            }
        }
        &self.entries
    }

    /// A copy of the snapshot.
    pub fn duplicate(&self) -> (r: EnvMap)
        requires
            self.wf(),
        ensures
            r.wf(),
            r@ == self@,
    {
        let n = self.entries.len();
        let mut entries: Vec<(String, String)> = Vec::new();
        let mut i: usize = 0;
        while i < n
            invariant
                n == self.entries@.len(),
                i <= n,
                entries@ =~= self.entries@.take(i as int),
            decreases n - i,
        {
            let e = &self.entries[i];
            entries.push((e.0.clone(), e.1.clone()));
            proof {
                assert(self.entries@.take(i as int).push(self.entries@[i as int])
                    =~= self.entries@.take(i as int + 1));
            }
            i = i + 1;
        }
        proof {
            assert(entries@ =~= self.entries@);
        }
        EnvMap { entries }
    }
}

/// Applies an action list to a base snapshot and yields the final snapshot,
/// leaving the base one unchanged.
pub fn apply(base: &EnvMap, actions: &Vec<ShimConfigEnvActionItem>) -> (r: EnvMap)
    requires
        base.wf(),
    ensures
        r.wf(),
        r@ == spec_apply(base@, action_models(actions@)),
{
    let mut m = base.duplicate();
    m.apply_all(actions);
    m
}

/// A snapshot transformed by clear actions alone holds a variable exactly
/// when the base snapshot holds it and no action names it; in particular
/// every named variable is absent from the result, whatever it held before.
pub proof fn lemma_all_clear(m: Map<Seq<char>, Seq<char>>, actions: Seq<ActionModel>)
    requires
        forall|i: int|
            0 <= i < actions.len() ==> (#[trigger] actions[i]).action == ShimConfigEnvAction::CLEAR,
    ensures
        forall|k: Seq<char>|
            spec_apply(m, actions).contains_key(k) <==> (m.contains_key(k) && forall|i: int|
                0 <= i < actions.len() ==> (#[trigger] actions[i]).var != k),
        forall|i: int|
            0 <= i < actions.len() ==> !spec_apply(m, actions).contains_key(
                (#[trigger] actions[i]).var,
            ),
    decreases actions.len(),
{
    if actions.len() > 0 {
        let head = actions[0];
        let rest = actions.drop_first();
        assert(forall|i: int| 0 <= i < rest.len() ==> #[trigger] rest[i] == actions[i + 1]);
        assert forall|i: int| 0 <= i < rest.len() implies (#[trigger] rest[i]).action
            == ShimConfigEnvAction::CLEAR by {
            assert(rest[i] == actions[i + 1]);
        }
        lemma_all_clear(m.remove(head.var), rest);
        let r = spec_apply(m, actions);
        assert(r == spec_apply(m.remove(head.var), rest));
        assert forall|k: Seq<char>| r.contains_key(k) implies (m.contains_key(k) && forall|i: int|
            0 <= i < actions.len() ==> (#[trigger] actions[i]).var != k) by {
            assert(m.remove(head.var).contains_key(k));
            assert(forall|i: int| 0 <= i < rest.len() ==> (#[trigger] rest[i]).var != k);
            assert(m.contains_key(k));
            assert(head.var != k);
            assert forall|i: int| 0 <= i < actions.len() implies (#[trigger] actions[i]).var
                != k by {
                if i > 0 {
                    assert(actions[i] == rest[i - 1]);
                    assert(rest[i - 1].var != k);
                }
            }
        }
        assert forall|k: Seq<char>|
            m.contains_key(k) && (forall|i: int|
                0 <= i < actions.len() ==> (#[trigger] actions[i]).var != k) implies r.contains_key(
            k,
        ) by {
            assert(actions[0].var != k);
            assert(m.remove(head.var).contains_key(k));
            assert forall|i: int| 0 <= i < rest.len() implies (#[trigger] rest[i]).var != k by {
                assert(rest[i] == actions[i + 1]);
                assert(actions[i + 1].var != k);
            }
        }
        assert forall|i: int| 0 <= i < actions.len() implies !r.contains_key(
            (#[trigger] actions[i]).var,
        ) by {
            if r.contains_key(actions[i].var) {
                assert(actions[i].var != actions[i].var);
            }
        }
    }
}

} // verus!
