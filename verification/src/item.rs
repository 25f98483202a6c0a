//! A named record with a deduplicated, order-insensitive list of dependency
//! names. Duplicates are removed whenever dependencies are added, keeping the
//! first occurrence of each name.

use vstd::prelude::*;

verus! {

/// Keeps the first occurrence of every name in `s`, dropping later repeats.
pub open spec fn dedup_first(s: Seq<Seq<char>>) -> Seq<Seq<char>>
    decreases s.len(),
{
    if s.len() == 0 {
        Seq::empty()
    } else {
        let front = dedup_first(s.drop_last());
        if front.contains(s.last()) {
            front
        } else {
            front.push(s.last())
        }
    }
}

/// `s` with every element that occurs in `ts` removed, order otherwise kept.
pub open spec fn remove_many(s: Seq<Seq<char>>, ts: Seq<Seq<char>>) -> Seq<Seq<char>>
    decreases s.len(),
{
    if s.len() == 0 {
        Seq::empty()
    } else {
        let front = remove_many(s.drop_last(), ts);
        if ts.contains(s.last()) {
            front
        } else {
            front.push(s.last())
        }
    }
}

/// No two entries of `s` are the same name.
pub open spec fn no_duplicates(s: Seq<Seq<char>>) -> bool {
    forall|i: int, j: int| 0 <= i < j < s.len() ==> s[i] != s[j]
}

/// The result of `dedup_first` has no duplicates and holds exactly the names
/// of its input.
pub proof fn lemma_dedup_first_props(s: Seq<Seq<char>>)
    ensures
        no_duplicates(dedup_first(s)),
        forall|x: Seq<char>| dedup_first(s).contains(x) <==> s.contains(x),
    decreases s.len(),
{
    if s.len() == 0 {
    } else {
        let t = s.drop_last();
        let l = s.last();
        lemma_dedup_first_props(t);
        let front = dedup_first(t);
        let d = dedup_first(s);
        if !front.contains(l) {
            assert(d == front.push(l));
            assert forall|i: int, j: int| 0 <= i < j < d.len() implies d[i] != d[j] by {
                if j < front.len() {
                    assert(front[i] != front[j]);
                } else {
                    assert(d[j] == l);
                    assert(d[i] == front[i]);
                    if front[i] == l {
                        assert(front.contains(l));
                    }
                }
            }
        }
        assert forall|x: Seq<char>| d.contains(x) implies s.contains(x) by {
            let k = choose|k: int| 0 <= k < d.len() && d[k] == x;
            if k < front.len() {
                assert(front.contains(x));
                assert(t.contains(x));
                let j = choose|j: int| 0 <= j < t.len() && t[j] == x;
                assert(s[j] == x);
            } else {
                assert(x == l);
                assert(s[s.len() - 1] == x);
            }
        }
        assert forall|x: Seq<char>| s.contains(x) implies d.contains(x) by {
            let k = choose|k: int| 0 <= k < s.len() && s[k] == x;
            if k < s.len() - 1 {
                assert(t[k] == x);
                assert(t.contains(x));
                assert(front.contains(x));
                let j = choose|j: int| 0 <= j < front.len() && front[j] == x;
                assert(d[j] == x);
            } else {
                if front.contains(l) {
                    let j = choose|j: int| 0 <= j < front.len() && front[j] == l;
                    assert(d[j] == x);
                } else {
                    assert(d[d.len() - 1] == x);
                }
            }
        }
    }
}

/// Represents an object with limited knowledge of its dependencies: a name
/// together with the names of the things it depends on.
#[derive(Clone, Debug)]
pub struct Item {
    name: String,
    depends_on: Vec<String>,
}

impl Item {
    /// The dependency names as a sequence of character sequences.
    pub closed spec fn deps(self) -> Seq<Seq<char>> {
        self.depends_on@.map_values(|s: String| s@)
    }

    /// The name as a character sequence.
    pub closed spec fn spec_name(self) -> Seq<char> {
        self.name@
    }

    /// Creates a new `Item` with no name and no dependencies.
    pub fn new() -> (r: Item)
        ensures
            r.spec_name() == Seq::<char>::empty(),
            r.deps() == Seq::<Seq<char>>::empty(),
    {
        let r = Item { name: String::new(), depends_on: Vec::new() };
        proof {
            assert(r.deps() =~= Seq::<Seq<char>>::empty());
        }
        r
    }

    /// Creates a new `Item` with the given name, but no dependencies.
    pub fn with_name(name: String) -> (r: Item)
        ensures
            r.spec_name() == name@,
            r.deps() == Seq::<Seq<char>>::empty(),
    {
        let r = Item { name, depends_on: Vec::new() };
        proof {
            assert(r.deps() =~= Seq::<Seq<char>>::empty());
        }
        r
    }

    /// Creates a new `Item` with the given name and dependencies, stored as
    /// given: duplicates are only removed by the mutating operations below.
    pub fn with_name_and_dependencies(name: String, dependencies: Vec<String>) -> (r: Item)
        ensures
            r.spec_name() == name@,
            r.deps() == dependencies@.map_values(|s: String| s@),
    {
        Item { name, depends_on: dependencies }
    }

    /// Get an immutable reference to the name of the `Item`.
    pub fn name(&self) -> (r: &String)
        ensures
            r@ == self.spec_name(),
    {
        &self.name
    }

    /// Changes the name of the `Item` to the one given.
    pub fn set_name(&mut self, new_name: String)
        ensures
            final(self).spec_name() == new_name@,
            final(self).deps() == old(self).deps(),
    {
        self.name = new_name;
    }

    /// Get an immutable reference to the list of dependencies of the `Item`.
    pub fn depends_on(&self) -> (r: &Vec<String>)
        ensures
            r@.map_values(|s: String| s@) == self.deps(),
    {
        &self.depends_on
    }

    /// Adds a new dependency to the `Item`.
    /// Duplicate dependencies will be removed from the list.
    pub fn add_dependency(&mut self, new_dep: String)
        ensures
            final(self).spec_name() == old(self).spec_name(),
            final(self).deps() == dedup_first(old(self).deps().push(new_dep@)),
            no_duplicates(final(self).deps()),
    {
        self.depends_on.push(new_dep);
        proof {
            assert(self.deps() =~= old(self).deps().push(new_dep@));
        }
        self.remove_duplicates();
        proof {
            lemma_dedup_first_props(old(self).deps().push(new_dep@));
        }
    }

    /// Removes the given dependency from the `Item` if it exists.
    #[verifier::loop_isolation(false)]
    pub fn remove_dependency(&mut self, dep: &String)
        ensures
            final(self).spec_name() == old(self).spec_name(),
            final(self).deps() == remove_many(old(self).deps(), seq![dep@]),
    {
        let ghost targets: Seq<Seq<char>> = seq![dep@];
        let mut kept: Vec<String> = Vec::new();
        let mut i: usize = 0;
        while i < self.depends_on.len()
            invariant
                0 <= i <= self.depends_on.len(),
                self == old(self),
                kept@.map_values(|s: String| s@) == remove_many(
                    self.deps().take(i as int),
                    targets,
                ),
            decreases self.depends_on.len() - i,
        {
            let ghost cur = self.deps()[i as int];
            proof {
                assert(self.deps().take(i + 1).drop_last() =~= self.deps().take(i as int));
                assert(self.deps().take(i + 1).last() == cur);
                assert(cur == self.depends_on@[i as int]@);
                assert(targets[0] == dep@);
            }
            if !self.depends_on[i].eq(dep) {
                let d = self.depends_on[i].clone();
                kept.push(d);
                proof {
                    assert(!targets.contains(cur)) by {
                        if targets.contains(cur) {
                            let k = choose|k: int| 0 <= k < targets.len() && targets[k] == cur;
                            assert(k == 0);
                        }
                    }
                    assert(d@ == cur);
                    assert(kept@.map_values(|s: String| s@) =~= remove_many(
                        self.deps().take(i + 1),
                        targets,
                    ));
                }
            } else {
                proof {
                    assert(cur == dep@);
                    assert(targets.contains(cur));
                }
            }
            i = i + 1;
        }
        proof {
            assert(self.deps().take(self.depends_on.len() as int) =~= self.deps());
        }
        self.depends_on = kept;
    }

    /// Removes all the dependencies from the `Item`.
    pub fn clear_dependencies(&mut self)
        ensures
            final(self).spec_name() == old(self).spec_name(),
            final(self).deps() == Seq::<Seq<char>>::empty(),
    {
        self.depends_on.clear();
        proof {
            assert(self.deps() =~= Seq::<Seq<char>>::empty());
        }
    }

    /// Adds multiple new dependencies to the `Item`.
    /// Duplicate dependencies will be removed from the list.
    #[verifier::loop_isolation(false)]
    pub fn add_dependencies(&mut self, deps: &Vec<String>)
        ensures
            final(self).spec_name() == old(self).spec_name(),
            final(self).deps() == dedup_first(
                old(self).deps() + deps@.map_values(|s: String| s@),
            ),
            no_duplicates(final(self).deps()),
    {
        let ghost added: Seq<Seq<char>> = deps@.map_values(|s: String| s@);
        let mut i: usize = 0;
        while i < deps.len()
            invariant
                0 <= i <= deps.len(),
                self.spec_name() == old(self).spec_name(),
                self.deps() == old(self).deps() + added.take(i as int),
            decreases deps.len() - i,
        {
            let ghost prev = self.depends_on@;
            let d = deps[i].clone();
            self.depends_on.push(d);
            proof {
                assert(self.depends_on@ == prev.push(d));
                assert(d@ == added[i as int]);
                assert(self.deps() =~= prev.map_values(|s: String| s@).push(d@));
                assert(self.deps() =~= old(self).deps() + added.take(i + 1));
            }
            i = i + 1;
        }
        proof {
            assert(old(self).deps() + added.take(deps.len() as int) =~= old(self).deps()
                + added);
        }
        self.remove_duplicates();
        proof {
            lemma_dedup_first_props(old(self).deps() + added);
        }
    }

    /// Removes multiple dependencies from the `Item` if they exist.
    #[verifier::loop_isolation(false)]
    pub fn remove_dependencies(&mut self, deps: &Vec<String>)
        ensures
            final(self).spec_name() == old(self).spec_name(),
            final(self).deps() == remove_many(
                old(self).deps(),
                deps@.map_values(|s: String| s@),
            ),
    {
        let ghost targets: Seq<Seq<char>> = deps@.map_values(|s: String| s@);
        let mut kept: Vec<String> = Vec::new();
        let mut i: usize = 0;
        while i < self.depends_on.len()
            invariant
                0 <= i <= self.depends_on.len(),
                self == old(self),
                kept@.map_values(|s: String| s@) == remove_many(
                    self.deps().take(i as int),
                    targets,
                ),
            decreases self.depends_on.len() - i,
        {
            let ghost cur = self.deps()[i as int];
            proof {
                assert(self.deps().take(i + 1).drop_last() =~= self.deps().take(i as int));
                assert(self.deps().take(i + 1).last() == cur);
                assert(cur == self.depends_on@[i as int]@);
            }
            let hit = contains_string(deps, &self.depends_on[i]);
            if !hit {
                let d = self.depends_on[i].clone();
                kept.push(d);
                proof {
                    assert(d@ == cur);
                    assert(kept@.map_values(|s: String| s@) =~= remove_many(
                        self.deps().take(i + 1),
                        targets,
                    ));
                }
            } else {
                proof {
                    assert(targets.contains(cur));
                }
            }
            i = i + 1;
        }
        proof {
            assert(self.deps().take(self.depends_on.len() as int) =~= self.deps());
        }
        self.depends_on = kept;
    }

    /// Sets the dependency list of the `Item` to contain only the dependencies
    /// given. Duplicate dependencies will be removed from the list.
    pub fn set_dependencies(&mut self, deps: &Vec<String>)
        ensures
            final(self).spec_name() == old(self).spec_name(),
            final(self).deps() == dedup_first(deps@.map_values(|s: String| s@)),
            no_duplicates(final(self).deps()),
    {
        self.clear_dependencies();
        self.add_dependencies(deps);
        proof {
            assert(Seq::<Seq<char>>::empty() + deps@.map_values(|s: String| s@)
                =~= deps@.map_values(|s: String| s@));
        }
    }

    /// Rebuilds the dependency list keeping only the first occurrence of each
    /// name.
    #[verifier::loop_isolation(false)]
    fn remove_duplicates(&mut self)
        ensures
            final(self).spec_name() == old(self).spec_name(),
            final(self).deps() == dedup_first(old(self).deps()),
    {
        let mut kept: Vec<String> = Vec::new();
        let mut i: usize = 0;
        while i < self.depends_on.len()
            invariant
                0 <= i <= self.depends_on.len(),
                self == old(self),
                kept@.map_values(|s: String| s@) == dedup_first(self.deps().take(i as int)),
            decreases self.depends_on.len() - i,
        {
            proof {
                assert(self.deps().take(i + 1).drop_last() =~= self.deps().take(i as int));
                assert(self.deps().take(i + 1).last() == self.deps()[i as int]);
            }
            let hit = contains_string(&kept, &self.depends_on[i]);
            if !hit {
                let d = self.depends_on[i].clone();
                kept.push(d);
                proof {
                    assert(kept@.map_values(|s: String| s@) =~= dedup_first(
                        self.deps().take(i + 1),
                    ));
                }
            }
            i = i + 1;
        }
        proof {
            assert(self.deps().take(self.depends_on.len() as int) =~= self.deps());
        }
        self.depends_on = kept;
    }
}

/// Whether `v` holds a string with the same characters as `s`.
#[verifier::loop_isolation(false)]
fn contains_string(v: &Vec<String>, s: &String) -> (r: bool)
    ensures
        r == v@.map_values(|t: String| t@).contains(s@),
{
    let mut i: usize = 0;
    while i < v.len()
        invariant
            0 <= i <= v.len(),
            forall|j: int| 0 <= j < i ==> (#[trigger] v@[j])@ != s@,
        decreases v.len() - i,
    {
        if v[i].eq(s) {
            proof {
                assert(v@.map_values(|t: String| t@)[i as int] == s@);
            }
            return true;
        }
        i = i + 1;
    }
    proof {
        let m = v@.map_values(|t: String| t@);
        if m.contains(s@) {
            let j = choose|j: int| 0 <= j < m.len() && m[j] == s@;
            assert(m[j] == v@[j]@);
        }
    }
    false
}

} // verus!



verus! {

impl Default for Item {
    /// The default item has no name and no dependencies, exactly as
    /// `Item::new` builds it.
    fn default() -> (r: Item)
        ensures
            r.spec_name() == Seq::<char>::empty(),
            r.deps() == Seq::<Seq<char>>::empty(),
    {
        Item::new()
    }
}

} // verus!
