//! The environment store: shell variables, the working directory, and the
//! `pushd`/`popd` directory stack, together with the `PATH` dedup/insert
//! helper.
//!
//! This is the in-memory model of the process environment. The surrounding
//! binary is its only bridge to the real one: it seeds the store from the
//! inherited environment at startup, mirrors every `set_var`/`remove_var`
//! into the real environment, performs the real directory changes, and
//! reports the working directory back through `set_cwd`, so the two views
//! never diverge.

use vstd::prelude::*;

use crate::assoc::{
    lemma_bind_absent, lemma_bind_at, lemma_lookup_absent, lemma_lookup_at, spec_bind,
    spec_lookup, spec_unbind,
};
use crate::text::{
    contains_char, spec_join, spec_split_char, spec_split_from, split_char, str_eq, strs_view, join_strings,
    lemma_split_join,
};

verus! {

/// A failure of a directory-stack operation.
#[derive(Debug, PartialEq, Clone)]
pub enum EnvError {
    /// `popd` with nothing on the stack.
    StackEmpty,
}

impl EnvError {
    /// The single-line diagnostic for this failure.
    pub fn message(&self) -> (r: String)
        ensures
            *self is StackEmpty ==> r@ == "popd: directory stack empty"@,
    {
        match self {
            EnvError::StackEmpty => String::from_str("popd: directory stack empty"),
        }
    }
}

/// The mathematical value of the store: the variable bindings (an
/// association list, earlier entries shadowing later ones), the previously
/// visited directories (most recent last), and the working directory.
pub struct EnvModel {
    pub vars: Seq<(Seq<char>, Seq<char>)>,
    pub dir_stack: Seq<Seq<char>>,
    pub cwd: Seq<char>,
}

/// The key under which the executable search path is stored.
pub open spec fn path_key() -> Seq<char> {
    seq!['P', 'A', 'T', 'H']
}

/// The entries of `parts` that differ from `p`, in order.
pub open spec fn drop_matching(parts: Seq<Seq<char>>, p: Seq<char>) -> Seq<Seq<char>> {
    parts.filter(|x: Seq<char>| x != p)
}

/// The entries of `parts` equal to `p`.
pub open spec fn only_matching(parts: Seq<Seq<char>>, p: Seq<char>) -> Seq<Seq<char>> {
    parts.filter(|x: Seq<char>| x == p)
}

/// What `add_to_path` computes: the current `PATH` split on `:`, every
/// entry equal to `new_path` removed, and `new_path` inserted at the front
/// or the back.
pub open spec fn spec_path_parts(
    vars: Seq<(Seq<char>, Seq<char>)>,
    new_path: Seq<char>,
    at_front: bool,
) -> Seq<Seq<char>> {
    let current = match spec_lookup(vars, path_key()) {
        Some(v) => v,
        None => Seq::empty(),
    };
    let kept = drop_matching(spec_split_char(current, ':'), new_path);
    if at_front {
        seq![new_path] + kept
    } else {
        kept.push(new_path)
    }
}

/// What `pushd` does to the store: records the working directory on the
/// stack and moves to `path`.
pub open spec fn spec_pushd(e: EnvModel, path: Seq<char>) -> EnvModel {
    EnvModel { vars: e.vars, dir_stack: e.dir_stack.push(e.cwd), cwd: path }
}

/// What `popd` does to the store: with a nonempty stack, pops the most
/// recent directory, returns to it and reports it; with an empty stack,
/// changes nothing and reports nothing.
pub open spec fn spec_popd(e: EnvModel) -> (EnvModel, Option<Seq<char>>) {
    if e.dir_stack.len() == 0 {
        (e, None)
    } else {
        (
            EnvModel {
                vars: e.vars,
                dir_stack: e.dir_stack.drop_last(),
                cwd: e.dir_stack.last(),
            },
            Some(e.dir_stack.last()),
        )
    }
}

/// `pushd(P)` followed by `popd()` is the identity: the store — working
/// directory included — returns to its value from just before the
/// `pushd`, and `popd` reports exactly that directory.
pub proof fn lemma_pushd_popd_inverse(e: EnvModel, path: Seq<char>)
    ensures
        spec_popd(spec_pushd(e, path)).0 == e,
        spec_popd(spec_pushd(e, path)).1 == Some(e.cwd),
{
    assert(e.dir_stack.push(e.cwd).drop_last() =~= e.dir_stack);
}

/// The store of environment variables and the directory stack.
pub struct EnvManager {
    vars: Vec<(String, String)>,
    dir_stack: Vec<String>,
    cwd: String,
}

impl View for EnvManager {
    type V = EnvModel;

    closed spec fn view(&self) -> EnvModel {
        EnvModel {
            vars: Seq::new(self.vars@.len(), |i: int| (self.vars@[i].0@, self.vars@[i].1@)),
            dir_stack: Seq::new(self.dir_stack@.len(), |i: int| self.dir_stack@[i]@),
            cwd: self.cwd@,
        }
    }
}

impl EnvManager {
    /// An empty store. The caller seeds it with the inherited environment
    /// and the current working directory.
    pub fn new() -> (r: EnvManager)
        ensures
            r@.vars == Seq::<(Seq<char>, Seq<char>)>::empty(),
            r@.dir_stack == Seq::<Seq<char>>::empty(),
            r@.cwd == Seq::<char>::empty(),
    {
        let r = EnvManager { vars: Vec::new(), dir_stack: Vec::new(), cwd: String::new() };
        proof {
            assert(r@.vars =~= Seq::<(Seq<char>, Seq<char>)>::empty());
            assert(r@.dir_stack =~= Seq::<Seq<char>>::empty());
        }
        r
    }

    /// The index of the first binding of `key`, if any.
    fn find_var_index(&self, key: &str) -> (r: Option<usize>)
        ensures
            match r {
                Some(i) => 0 <= i < self@.vars.len() && self@.vars[i as int].0 == key@ && (
                forall|j: int| 0 <= j < i ==> (#[trigger] self@.vars[j]).0 != key@),
                None => forall|j: int|
                    0 <= j < self@.vars.len() ==> (#[trigger] self@.vars[j]).0 != key@,
            },
    {
        let mut i: usize = 0;
        while i < self.vars.len()
            invariant
                i <= self.vars@.len(),
                forall|j: int| 0 <= j < i ==> (#[trigger] self@.vars[j]).0 != key@,
            decreases self.vars@.len() - i,
        {
            if str_eq(self.vars[i].0.as_str(), key) {
                return Some(i);
            }
            i = i + 1;
        }
        None
    }

    /// Binds `key` to `value`. The caller mirrors the change into the real
    /// process environment so spawned children inherit it.
    pub fn set_var(&mut self, key: String, value: String)
        ensures
            final(self)@.vars == spec_bind(old(self)@.vars, key@, value@),
            final(self)@.dir_stack == old(self)@.dir_stack,
            final(self)@.cwd == old(self)@.cwd,
    {
        match self.find_var_index(key.as_str()) {
            Some(i) => {
                self.vars.set(i, (key, value));
                proof {
                    lemma_bind_at(old(self)@.vars, old(self)@.vars[i as int].0,
                        self@.vars[i as int].1, i as int);
                    assert(self@.vars =~= old(self)@.vars.update(i as int, (
                        old(self)@.vars[i as int].0,
                        self@.vars[i as int].1,
                    )));
                    assert(self@.dir_stack =~= old(self)@.dir_stack);
                }
            },
            None => {
                self.vars.push((key, value));
                proof {
                    lemma_bind_absent(old(self)@.vars, self@.vars.last().0, self@.vars.last().1);
                    assert(self@.vars =~= old(self)@.vars.push((self@.vars.last().0,
                        self@.vars.last().1)));
                    assert(self@.dir_stack =~= old(self)@.dir_stack);
                }
            },
        }
    }

    /// Removes every binding of `key`. The caller mirrors the change into
    /// the real process environment.
    pub fn remove_var(&mut self, key: &str)
        ensures
            final(self)@.vars == spec_unbind(old(self)@.vars, key@),
            final(self)@.dir_stack == old(self)@.dir_stack,
            final(self)@.cwd == old(self)@.cwd,
    {
        let ghost pre = self@.vars;
        let mut kept: Vec<(String, String)> = Vec::new();
        let mut i: usize = 0;
        proof {
            assert(pre.take(0int).filter(|e: (Seq<char>, Seq<char>)| e.0 != key@) =~= Seq::<
                (Seq<char>, Seq<char>),
            >::empty());
        }
        while i < self.vars.len()
            invariant
                i <= self.vars@.len(),
                pre == self@.vars,
                pre.len() == self.vars@.len(),
                Seq::new(kept@.len(), |j: int| (kept@[j].0@, kept@[j].1@)) =~= pre.take(
                    i as int,
                ).filter(|e: (Seq<char>, Seq<char>)| e.0 != key@),
            decreases self.vars@.len() - i,
        {
            proof {
                assert(pre.take(i + 1int).drop_last() =~= pre.take(i as int));
                reveal_with_fuel(Seq::filter, 2);
                assert(pre.take(i + 1int).last() == pre[i as int]);
            }
            if !str_eq(self.vars[i].0.as_str(), key) {
                let e = (self.vars[i].0.clone(), self.vars[i].1.clone());
                kept.push(e);
            }
            proof {
                assert(Seq::new(kept@.len(), |j: int| (kept@[j].0@, kept@[j].1@)) =~= pre.take(
                    i + 1int,
                ).filter(|e: (Seq<char>, Seq<char>)| e.0 != key@));
            }
            i = i + 1;
        }
        self.vars = kept;
        proof {
            assert(pre.take(pre.len() as int) =~= pre);
            assert(self@.vars =~= spec_unbind(pre, key@));
            assert(self@.dir_stack =~= old(self)@.dir_stack);
        }
    }

    /// The value bound to `key`, if any.
    pub fn get_var(&self, key: &str) -> (r: Option<&String>)
        ensures
            match r {
                Some(s) => spec_lookup(self@.vars, key@) == Some(s@),
                None => spec_lookup(self@.vars, key@) is None,
            },
    {
        match self.find_var_index(key) {
            Some(i) => {
                proof {
                    lemma_lookup_at(self@.vars, key@, i as int);
                }
                Some(&self.vars[i].1)
            },
            None => {
                proof {
                    lemma_lookup_absent(self@.vars, key@);
                }
                None
            },
        }
    }

    /// All bindings, in insertion order.
    pub fn get_all_vars(&self) -> (r: &Vec<(String, String)>)
        ensures
            Seq::new(r@.len(), |i: int| (r@[i].0@, r@[i].1@)) == self@.vars,
    {
        &self.vars
    }

    /// Reports the working directory after the caller performed a real
    /// directory change outside `pushd`/`popd` (at startup, or for `cd`).
    pub fn set_cwd(&mut self, cwd: String)
        ensures
            final(self)@.cwd == cwd@,
            final(self)@.vars == old(self)@.vars,
            final(self)@.dir_stack == old(self)@.dir_stack,
    {
        self.cwd = cwd;
    }

    /// The working directory the store believes in.
    pub fn cwd(&self) -> (r: &String)
        ensures
            r@ == self@.cwd,
    {
        &self.cwd
    }

    /// Records the old working directory on the stack and makes `path` the
    /// new one. The caller performs the real directory change first and
    /// calls this only when that change succeeded, so a failed `pushd`
    /// changes nothing.
    pub fn pushd(&mut self, path: String)
        ensures
            final(self)@ == spec_pushd(old(self)@, path@),
            final(self)@.dir_stack == old(self)@.dir_stack.push(old(self)@.cwd),
            final(self)@.cwd == path@,
            final(self)@.vars == old(self)@.vars,
    {
        let prev = self.cwd.clone();
        self.dir_stack.push(prev);
        self.cwd = path;
        proof {
            assert(self@.dir_stack =~= old(self)@.dir_stack.push(old(self)@.cwd));
        }
    }

    /// Pops the most recently recorded directory, makes it the working
    /// directory again and returns it; fails exactly when the stack is
    /// empty, in which case nothing changes. The caller performs the real
    /// directory change with the returned path.
    pub fn popd(&mut self) -> (r: Result<String, EnvError>)
        ensures
            old(self)@.dir_stack.len() == 0 ==> (r == Result::<String, EnvError>::Err(
                EnvError::StackEmpty,
            ) && final(self)@ == old(self)@),
            old(self)@.dir_stack.len() > 0 ==> {
                &&& r is Ok
                &&& final(self)@ == spec_popd(old(self)@).0
                &&& Some(r->Ok_0@) == spec_popd(old(self)@).1
                &&& r->Ok_0@ == old(self)@.dir_stack.last()
                &&& final(self)@.cwd == old(self)@.dir_stack.last()
                &&& final(self)@.dir_stack == old(self)@.dir_stack.drop_last()
                &&& final(self)@.vars == old(self)@.vars
            },
    {
        match self.dir_stack.pop() {
            Some(prev) => {
                self.cwd = prev.clone();
                proof {
                    assert(self@.dir_stack =~= old(self)@.dir_stack.drop_last());
                }
                Ok(prev)
            },
            None => Err(EnvError::StackEmpty),
        }
    }

    /// The stack for display: the working directory first, then the
    /// recorded directories, most recent first.
    pub fn get_stack(&self) -> (r: Vec<String>)
        ensures
            r@.len() == 1 + self@.dir_stack.len(),
            r@[0]@ == self@.cwd,
            forall|i: int|
                0 <= i < self@.dir_stack.len() ==> (#[trigger] r@[i + 1])@ == self@.dir_stack[
                    self@.dir_stack.len() - 1 - i],
    {
        let mut r: Vec<String> = Vec::new();
        r.push(self.cwd.clone());
        let mut i: usize = self.dir_stack.len();
        while i > 0
            invariant
                i <= self.dir_stack@.len(),
                r@.len() == 1 + self@.dir_stack.len() - i,
                r@[0]@ == self@.cwd,
                forall|j: int|
                    0 <= j < self@.dir_stack.len() - i ==> (#[trigger] r@[j + 1])@ == self@
                        .dir_stack[self@.dir_stack.len() - 1 - j],
            decreases i,
        {
            i = i - 1;
            r.push(self.dir_stack[i].clone());
        }
        r
    }

    /// Splits the current `PATH` on `:`, removes every entry equal to
    /// `new_path`, inserts `new_path` at the front or the back, rejoins
    /// and rebinds `PATH`. Afterwards `PATH` holds `new_path` exactly
    /// once. The caller mirrors the change into the real environment.
    pub fn add_to_path(&mut self, new_path: &str, at_front: bool)
        ensures
            final(self)@.vars == spec_bind(
                old(self)@.vars,
                path_key(),
                spec_join(spec_path_parts(old(self)@.vars, new_path@, at_front), seq![':']),
            ),
            final(self)@.dir_stack == old(self)@.dir_stack,
            final(self)@.cwd == old(self)@.cwd,
    {
        proof {
            reveal_strlit("PATH");
            assert("PATH"@ =~= path_key());
        }
        let current: String = match self.get_var("PATH") {
            Some(v) => v.clone(),
            None => String::new(),
        };
        let parts = split_char(current.as_str(), ':');
        let mut kept: Vec<String> = Vec::new();
        let ghost all = strs_view(parts@);
        let mut i: usize = 0;
        proof {
            assert(drop_matching(all.take(0int), new_path@) =~= Seq::<Seq<char>>::empty()) by {
                reveal_with_fuel(Seq::filter, 2);
                assert(all.take(0int) =~= Seq::<Seq<char>>::empty());
            };
            assert(strs_view(kept@) =~= Seq::<Seq<char>>::empty());
        }
        while i < parts.len()
            invariant
                i <= parts@.len(),
                all == strs_view(parts@),
                strs_view(kept@) =~= drop_matching(all.take(i as int), new_path@),
            decreases parts@.len() - i,
        {
            proof {
                assert(all.take(i + 1int).drop_last() =~= all.take(i as int));
                reveal_with_fuel(Seq::filter, 2);
                assert(all.take(i + 1int).last() == all[i as int]);
            }
            if !str_eq(parts[i].as_str(), new_path) {
                kept.push(parts[i].clone());
            }
            proof {
                assert(strs_view(kept@) =~= drop_matching(all.take(i + 1int), new_path@));
            }
            i = i + 1;
        }
        proof {
            assert(all.take(all.len() as int) =~= all);
        }
        let mut new_parts: Vec<String> = Vec::new();
        if at_front {
            new_parts.push(String::from_str(new_path));
            let mut k: usize = 0;
            while k < kept.len()
                invariant
                    k <= kept@.len(),
                    new_parts@.len() == 1 + k,
                    new_parts@[0]@ == new_path@,
                    forall|j: int| 1 <= j < k + 1 ==> (#[trigger] new_parts@[j])@ == kept@[j - 1]@,
                decreases kept@.len() - k,
            {
                new_parts.push(kept[k].clone());
                k = k + 1;
            }
            proof {
                assert(strs_view(new_parts@) =~= seq![new_path@] + strs_view(kept@));
            }
        } else {
            let mut k: usize = 0;
            while k < kept.len()
                invariant
                    k <= kept@.len(),
                    new_parts@.len() == k,
                    forall|j: int| 0 <= j < k ==> (#[trigger] new_parts@[j])@ == kept@[j]@,
                decreases kept@.len() - k,
            {
                new_parts.push(kept[k].clone());
                k = k + 1;
            }
            new_parts.push(String::from_str(new_path));
            proof {
                assert(strs_view(new_parts@) =~= strs_view(kept@).push(new_path@));
            }
        }
        let joined = join_strings(&new_parts, ":");
        proof {
            reveal_strlit(":");
            assert(":"@ =~= seq![':']);
            assert(strs_view(new_parts@) =~= spec_path_parts(old(self)@.vars, new_path@,
                at_front));
        }
        self.set_var(String::from_str("PATH"), joined);
    }
}

/// After `add_to_path`, the `PATH` entries are exactly the computed parts:
/// `new_path` stands exactly once (first or last, per the flag), the other
/// entries are the old ones that differ from it with their order kept, and
/// splitting the stored string recovers precisely these parts, provided
/// `new_path` contains no `:`.
pub proof fn lemma_add_to_path_dedup(
    vars: Seq<(Seq<char>, Seq<char>)>,
    new_path: Seq<char>,
    at_front: bool,
)
    requires
        !contains_char(new_path, ':'),
    ensures
        ({
            let parts = spec_path_parts(vars, new_path, at_front);
            let stored = spec_join(parts, seq![':']);
            &&& spec_split_char(stored, ':') =~= parts
            &&& only_matching(parts, new_path) =~= seq![new_path]
            &&& if at_front {
                parts[0] == new_path
            } else {
                parts.last() == new_path
            }
        }),
{
    let current = match spec_lookup(vars, path_key()) {
        Some(v) => v,
        None => Seq::empty(),
    };
    let pieces = spec_split_char(current, ':');
    let kept = drop_matching(pieces, new_path);
    let parts = spec_path_parts(vars, new_path, at_front);
    lemma_split_pieces_no_colon(current);
    assert forall|k: int| 0 <= k < kept.len() implies !contains_char(#[trigger] kept[k], ':')
        && kept[k] != new_path by {
        lemma_drop_matching_at(pieces, new_path, k);
    }
    assert(forall|k: int| 0 <= k < parts.len() ==> !contains_char(#[trigger] parts[k], ':'))
        by {
        if at_front {
            assert(forall|k: int| 1 <= k < parts.len() ==> parts[k] == kept[k - 1]);
        } else {
            assert(forall|k: int| 0 <= k < parts.len() - 1 ==> parts[k] == kept[k]);
        }
    };
    lemma_split_join(parts, ':');
    if at_front {
        assert(parts.drop_first() =~= kept);
        lemma_only_matching_cons(parts, new_path);
        lemma_only_matching_none(kept, new_path);
    } else {
        assert(parts.drop_last() =~= kept);
        lemma_only_matching_none(kept, new_path);
        reveal_with_fuel(Seq::filter, 2);
        assert(only_matching(parts, new_path) =~= only_matching(kept, new_path).push(new_path));
    }
}

/// An entry of `drop_matching` comes from the original sequence and
/// differs from the dropped value.
proof fn lemma_drop_matching_at(s: Seq<Seq<char>>, p: Seq<char>, k: int)
    requires
        0 <= k < drop_matching(s, p).len(),
    ensures
        s.contains(drop_matching(s, p)[k]),
        drop_matching(s, p)[k] != p,
    decreases s.len(),
{
    reveal_with_fuel(Seq::filter, 2);
    if s.len() > 0 {
        let rest = drop_matching(s.drop_last(), p);
        if k < rest.len() {
            lemma_drop_matching_at(s.drop_last(), p, k);
            assert(s.drop_last().contains(rest[k]));
            let j = choose|j: int| 0 <= j < s.drop_last().len() && s.drop_last()[j] == rest[k];
            assert(s[j] == rest[k]);
        } else {
            assert(drop_matching(s, p)[k] == s.last());
            assert(s[s.len() - 1] == s.last());
        }
    }
}

/// No entry equals `p`: keeping only the matches leaves nothing.
proof fn lemma_only_matching_none(s: Seq<Seq<char>>, p: Seq<char>)
    requires
        forall|k: int| 0 <= k < s.len() ==> (#[trigger] s[k]) != p,
    ensures
        only_matching(s, p) =~= Seq::<Seq<char>>::empty(),
    decreases s.len(),
{
    reveal_with_fuel(Seq::filter, 2);
    if s.len() > 0 {
        lemma_only_matching_none(s.drop_last(), p);
    }
}

/// Keeping the matches distributes over taking the head element.
proof fn lemma_only_matching_cons(s: Seq<Seq<char>>, p: Seq<char>)
    requires
        s.len() >= 1,
    ensures
        only_matching(s, p) =~= (if s[0] == p {
            seq![s[0]] + only_matching(s.drop_first(), p)
        } else {
            only_matching(s.drop_first(), p)
        }),
    decreases s.len(),
{
    reveal_with_fuel(Seq::filter, 2);
    if s.len() == 1 {
        assert(s.drop_first() =~= Seq::<Seq<char>>::empty());
    } else {
        lemma_only_matching_cons(s.drop_last(), p);
        assert(s.drop_last()[0] == s[0]);
        assert(s.drop_last().drop_first() =~= s.drop_first().drop_last());
        assert(only_matching(s, p) =~= if s.last() == p {
            only_matching(s.drop_last(), p).push(s.last())
        } else {
            only_matching(s.drop_last(), p)
        });
        assert(only_matching(s.drop_first(), p) =~= if s.drop_first().last() == p {
            only_matching(s.drop_first().drop_last(), p).push(s.drop_first().last())
        } else {
            only_matching(s.drop_first().drop_last(), p)
        });
    }
}

/// Every piece of a split on `:` is free of `:`.
proof fn lemma_split_pieces_no_colon(s: Seq<char>)
    ensures
        forall|k: int|
            0 <= k < spec_split_char(s, ':').len() ==> !contains_char(
                #[trigger] spec_split_char(s, ':')[k],
                ':',
            ),
{
    lemma_split_pieces_no_colon_from(s, 0);
}

proof fn lemma_split_pieces_no_colon_from(s: Seq<char>, i: int)
    requires
        0 <= i <= s.len(),
    ensures
        forall|k: int|
            0 <= k < spec_split_from(s, ':', i).len() ==> !contains_char(
                #[trigger] spec_split_from(s, ':', i)[k],
                ':',
            ),
    decreases s.len() - i,
{
    let cl = crate::text::CharClass::NotChar(':');
    let e = crate::text::scan(s, i, cl);
    crate::text::lemma_scan(s, i, cl);
    assert(!contains_char(s.subrange(i, e), ':')) by {
        assert(forall|k: int| 0 <= k < e - i ==> s.subrange(i, e)[k] == s[i + k]);
    };
    if e < s.len() {
        lemma_split_pieces_no_colon_from(s, e + 1);
        assert(forall|k: int|
            1 <= k < spec_split_from(s, ':', i).len() ==> spec_split_from(s, ':', i)[k]
                == spec_split_from(s, ':', e + 1)[k - 1]);
    }
}

} // verus!
