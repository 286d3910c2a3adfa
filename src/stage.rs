//! Named computation stages, their dependencies, and the resolved order.
use crate::order::{
    as_ints, deps_in_range, graph_of, is_topological, lemma_stable_order_deterministic,
    lemma_stable_order_sound, stable_order, stable_sort, cyclic_positions, cyclic_stages, lemma_stuck_has_cycle,
};
use vstd::prelude::*;

verus! {

/// Which phase of a frame runs a stage.
#[derive(Clone, Copy, PartialEq, Eq, Structural, Debug)]
pub enum Rate {
    /// Once per fixed step consumed in the frame.
    Fixed,
    /// Once per frame, with the frame's delta.
    Variable,
}

/// One named unit of per-frame work.
pub struct Stage<A> {
    pub name: String,
    /// Names of the stages that must run first.
    pub dependencies: Vec<String>,
    pub rate: Rate,
    pub action: A,
}

/// Why a graph could not take a stage or could not be ordered.
#[derive(Debug)]
pub enum GraphError {
    /// A stage of that name is already registered.
    DuplicateStage { name: String },
    /// `stage` depends on a name that no stage has.
    UnknownDependency { stage: String, dependency: String },
    /// No order exists; these stages, in registration order, lie on dependency cycles.
    CyclicDependency { stages: Vec<String> },
}

/// Stages in registration order.
pub struct StageGraph<A> {
    stages: Vec<Stage<A>>,
}

/// Position of the stage named `d`.
pub open spec fn index_of(names: Seq<Seq<char>>, d: Seq<char>) -> int {
    choose|k: int| 0 <= k < names.len() && names[k] == d
}

/// No two entries are equal.
pub open spec fn distinct_names(names: Seq<Seq<char>>) -> bool {
    forall|i: int, j: int| 0 <= i < names.len() && 0 <= j < names.len() && i != j ==> names[i] != names[j]
}

impl<A> StageGraph<A> {
    /// The registered stages.
    pub closed spec fn spec_stages(&self) -> Seq<Stage<A>> {
        self.stages@
    }

    pub open spec fn spec_len(&self) -> int {
        self.spec_stages().len() as int
    }

    pub open spec fn names(&self) -> Seq<Seq<char>> {
        Seq::new(self.spec_stages().len(), |i: int| self.spec_stages()[i].name@)
    }

    pub open spec fn dep_names(&self, i: int) -> Seq<Seq<char>> {
        Seq::new(
            self.spec_stages()[i].dependencies@.len(),
            |j: int| self.spec_stages()[i].dependencies@[j]@,
        )
    }

    pub open spec fn rates(&self) -> Seq<Rate> {
        Seq::new(self.spec_stages().len(), |i: int| self.spec_stages()[i].rate)
    }

    /// Stage names are unique.
    pub open spec fn wf(&self) -> bool {
        distinct_names(self.names())
    }

    /// Every dependency names a registered stage.
    pub open spec fn all_known(&self) -> bool {
        forall|i: int, j: int|
            0 <= i < self.spec_len() && 0 <= j < self.dep_names(i).len() ==> self.names().contains(
                #[trigger] self.dep_names(i)[j],
            )
    }

    /// Dependencies as stage positions.
    pub open spec fn resolved(&self) -> Seq<Seq<int>> {
        Seq::new(
            self.spec_stages().len(),
            |i: int| Seq::new(self.dep_names(i).len(), |j: int| index_of(self.names(), self.dep_names(i)[j])),
        )
    }

    /// `other` has the same stages as `self`, actions aside.
    pub open spec fn same_shape(&self, other: &StageGraph<A>) -> bool {
        &&& self.spec_len() == other.spec_len()
        &&& self.names() == other.names()
        &&& self.rates() == other.rates()
        &&& forall|i: int| 0 <= i < self.spec_len() ==> #[trigger] self.dep_names(i) == other.dep_names(i)
    }

    /// Graphs of the same shape resolve alike.
    pub proof fn lemma_same_shape_resolves(&self, other: &StageGraph<A>)
        requires
            self.same_shape(other),
        ensures
            self.resolved() == other.resolved(),
            self.wf() == other.wf(),
    {
        assert(self.resolved() =~= other.resolved());
    }

    /// Replacing one stage's action keeps the shape.
    pub proof fn lemma_action_keeps_shape(&self, other: &StageGraph<A>, i: int, act: A)
        requires
            0 <= i < self.spec_len(),
            other.spec_stages() == self.spec_stages().update(
                i,
                Stage { action: act, ..self.spec_stages()[i] },
            ),
        ensures
            other.same_shape(self),
    {
        assert(other.names() =~= self.names());
        assert(other.rates() =~= self.rates());
        assert forall|k: int| 0 <= k < other.spec_len() implies #[trigger] other.dep_names(k)
            == self.dep_names(k) by {
            assert(other.dep_names(k) =~= self.dep_names(k));
        }
    }

    /// The errors `build` may give, each exactly when it is given: an
    /// unknown dependency, found in some stage; or, with every dependency
    /// known but no full order, a cycle, naming in registration order every
    /// stage that lies on a dependency cycle (there is at least one).
    pub open spec fn build_error(&self, e: GraphError) -> bool {
        match e {
            GraphError::UnknownDependency { stage, dependency } => {
                &&& !self.all_known()
                &&& exists|i: int, j: int|
                    0 <= i < self.spec_len() && 0 <= j < self.dep_names(i).len() && self.names()[i]
                        == stage@ && #[trigger] self.dep_names(i)[j] == dependency@
                        && !self.names().contains(dependency@)
            },
            GraphError::CyclicDependency { stages } => {
                &&& self.all_known()
                &&& stable_order(self.resolved()).len() < self.spec_len()
                &&& stages@.len() > 0
                &&& stages@.len() == cyclic_stages(self.resolved(), self.spec_len()).len()
                &&& forall|m: int|
                    0 <= m < stages@.len() ==> #[trigger] stages@[m]@ == self.names()[cyclic_stages(
                        self.resolved(),
                        self.spec_len(),
                    )[m]]
            },
            GraphError::DuplicateStage { .. } => false,
        }
    }

    /// An empty graph.
    pub fn new() -> (r: StageGraph<A>)
        ensures
            r.spec_len() == 0,
            r.wf(),
    {
        StageGraph { stages: Vec::new() }
    }

    /// Number of registered stages.
    pub fn len(&self) -> (r: usize)
        ensures
            r == self.spec_len(),
    {
        self.stages.len()
    }

    /// Name of the stage at `i`.
    pub fn name(&self, i: usize) -> (r: &String)
        requires
            i < self.spec_len(),
        ensures
            r@ == self.names()[i as int],
    {
        &self.stages[i].name
    }

    /// Rate of the stage at `i`.
    pub fn rate(&self, i: usize) -> (r: Rate)
        requires
            i < self.spec_len(),
        ensures
            r == self.rates()[i as int],
    {
        self.stages[i].rate
    }

    /// Action of the stage at `i`, for running it.
    pub fn action_mut(&mut self, i: usize) -> (r: &mut A)
        requires
            i < old(self).spec_len(),
        ensures
            *r == old(self).spec_stages()[i as int].action,
            final(self).spec_stages() == old(self).spec_stages().update(
                i as int,
                Stage { action: *final(r), ..old(self).spec_stages()[i as int] },
            ),
    {
        &mut self.stages[i].action
    }

    /// Position of the stage named `name`, if any.
    pub fn find(&self, name: &String) -> (r: Option<usize>)
        ensures
            match r {
                Some(k) => k < self.spec_len() && self.names()[k as int] == name@,
                None => !self.names().contains(name@),
            },
    {
        let mut k: usize = 0;
        while k < self.stages.len()
            invariant
                k <= self.spec_len(),
                forall|m: int| 0 <= m < k ==> self.names()[m] != name@,
            decreases self.spec_len() - k,
        {
            if self.stages[k].name == *name {
                return Some(k);
            }
            k = k + 1;
        }
        None
    }

    /// Registers a stage after the others. Fails, changing nothing, when a
    /// stage of that name is already registered.
    pub fn add_stage(&mut self, name: String, dependencies: Vec<String>, rate: Rate, action: A) -> (r:
        Result<(), GraphError>)
        requires
            old(self).wf(),
        ensures
            final(self).wf(),
            old(self).names().contains(name@) ==> r is Err && final(self).spec_stages()
                == old(self).spec_stages() && match r {
                Err(GraphError::DuplicateStage { name: n }) => n@ == name@,
                _ => false,
            },
            !old(self).names().contains(name@) ==> r is Ok && final(self).spec_stages()
                == old(self).spec_stages().push(Stage { name, dependencies, rate, action }),
    {
        match self.find(&name) {
            Some(_) => Err(GraphError::DuplicateStage { name }),
            None => {
                let ghost before = self.names();
                self.stages.push(Stage { name, dependencies, rate, action });
                proof {
                    assert(self.names() == before.push(name@));
                }
                Ok(())
            },
        }
    }

    /// Dependencies as positions, or the first unknown one found.
    fn resolve(&self) -> (r: Result<Vec<Vec<usize>>, GraphError>)
        requires
            self.wf(),
        ensures
            match r {
                Ok(deps) => self.all_known() && graph_of(deps@) == self.resolved(),
                Err(GraphError::UnknownDependency { stage, dependency }) => exists|i: int, j: int|
                    0 <= i < self.spec_len() && 0 <= j < self.dep_names(i).len() && self.names()[i]
                        == stage@ && #[trigger] self.dep_names(i)[j] == dependency@
                        && !self.names().contains(dependency@),
                _ => false,
            },
    {
        let n = self.stages.len();
        let mut out: Vec<Vec<usize>> = Vec::new();
        let mut i: usize = 0;
        while i < n
            invariant
                n == self.spec_len(),
                self.wf(),
                i <= n,
                out@.len() == i,
                forall|a: int, j: int|
                    0 <= a < i && 0 <= j < self.dep_names(a).len() ==> self.names().contains(
                        #[trigger] self.dep_names(a)[j],
                    ),
                forall|a: int| 0 <= a < i ==> #[trigger] graph_of(out@)[a] == self.resolved()[a],
            decreases n - i,
        {
            let deps = &self.stages[i].dependencies;
            let mut row: Vec<usize> = Vec::new();
            let mut j: usize = 0;
            while j < deps.len()
                invariant
                    n == self.spec_len(),
                    self.wf(),
                    i < n,
                    *deps == self.spec_stages()[i as int].dependencies,
                    j <= deps@.len(),
                    row@.len() == j,
                    forall|m: int| 0 <= m < j ==> self.names().contains(#[trigger] self.dep_names(i as int)[m]),
                    forall|m: int| 0 <= m < j ==> #[trigger] row@[m] as int == index_of(self.names(), self.dep_names(i as int)[m]),
                decreases deps@.len() - j,
            {
                match self.find(&deps[j]) {
                    Some(k) => {
                        proof {
                            let names = self.names();
                            let d = self.dep_names(i as int)[j as int];
                            assert(d == deps@[j as int]@);
                            let c = index_of(names, d);
                            assert(0 <= c < names.len() && names[c] == d);
                            assert(c == k as int);
                        }
                        row.push(k);
                    },
                    None => {
                        proof {
                            assert(self.dep_names(i as int)[j as int] == deps@[j as int]@);
                        }
                        return Err(
                            GraphError::UnknownDependency {
                                stage: self.stages[i].name.clone(),
                                dependency: deps[j].clone(),
                            },
                        );
                    },
                }
                j = j + 1;
            }
            proof {
                assert(as_ints(row@) == self.resolved()[i as int]);
            }
            let ghost before = out@;
            out.push(row);
            proof {
                assert forall|a: int| 0 <= a <= i implies #[trigger] graph_of(out@)[a] == self.resolved()[a] by {
                    if a < i {
                        assert(out@[a] == before[a]);
                        assert(graph_of(before)[a] == self.resolved()[a]);
                    }
                }
            }
            i = i + 1;
        }
        proof {
            assert(graph_of(out@) == self.resolved());
        }
        Ok(out)
    }

    /// Resolves the execution order: stage positions such that every stage
    /// comes after its dependencies, ties broken by registration order.
    /// Fails on an unknown dependency, and on a cycle, naming the stages
    /// that could not be placed.
    pub fn build(&self) -> (r: Result<Vec<usize>, GraphError>)
        requires
            self.wf(),
        ensures
            match r {
                Ok(order) => {
                    &&& self.all_known()
                    &&& forall|p: int| 0 <= p < order@.len() ==> #[trigger] order@[p] < self.spec_len()
                    &&& stable_order(self.resolved()).len() == self.spec_len()
                    &&& as_ints(order@) == stable_order(self.resolved())
                },
                Err(e) => self.build_error(e),
            },
    {
        let deps = match self.resolve() {
            Ok(d) => d,
            Err(e) => {
                return Err(e);
            },
        };
        proof {
            assert(deps_in_range(graph_of(deps@))) by {
                assert forall|i: int, j: int|
                    0 <= i < graph_of(deps@).len() && 0 <= j < graph_of(deps@)[i].len() implies 0
                    <= #[trigger] graph_of(deps@)[i][j] < graph_of(deps@).len() by {
                    assert(self.names().contains(self.dep_names(i)[j]));
                }
            }
        }
        let order = stable_sort(&deps);
        if order.len() == self.stages.len() {
            proof {
                assert forall|p: int| 0 <= p < order@.len() implies #[trigger] order@[p] < self.spec_len() by {
                    assert(as_ints(order@)[p] == order@[p] as int);
                }
            }
            Ok(order)
        } else {
            let left = cyclic_positions(&deps);
            proof {
                lemma_stuck_has_cycle(graph_of(deps@));
            }
            let mut names: Vec<String> = Vec::new();
            let mut m: usize = 0;
            while m < left.len()
                invariant
                    m <= left@.len(),
                    names@.len() == m,
                    forall|a: int| 0 <= a < left@.len() ==> #[trigger] left@[a] < self.spec_len(),
                    forall|a: int| 0 <= a < m ==> #[trigger] names@[a]@ == self.names()[left@[a] as int],
                    as_ints(left@) == cyclic_stages(self.resolved(), self.spec_len()),
                decreases left@.len() - m,
            {
                names.push(self.stages[left[m]].name.clone());
                m = m + 1;
            }
            proof {
                assert forall|a: int| 0 <= a < names@.len() implies #[trigger] names@[a]@ == self.names()[cyclic_stages(
                    self.resolved(),
                    self.spec_len(),
                )[a]] by {
                    assert(as_ints(left@)[a] == left@[a] as int);
                }
            }
            Err(GraphError::CyclicDependency { stages: names })
        }
    }
}

impl<A> StageGraph<A> {
    /// With every dependency known, the resolved dependencies point at
    /// registered stages.
    pub proof fn lemma_resolved_in_range(&self)
        requires
            self.all_known(),
        ensures
            deps_in_range(self.resolved()),
    {
        assert forall|i: int, j: int|
            0 <= i < self.resolved().len() && 0 <= j < self.resolved()[i].len() implies 0
            <= #[trigger] self.resolved()[i][j] < self.resolved().len() by {
            assert(self.names().contains(self.dep_names(i)[j]));
        }
    }

    /// What `build` returns is sound: an order it returns runs every stage
    /// once, after all of its dependencies; and when it reports a cycle, no
    /// such order exists.
    pub proof fn lemma_build_sound(&self)
        requires
            self.wf(),
            self.all_known(),
        ensures
            stable_order(self.resolved()).len() == self.spec_len() ==> is_topological(
                self.resolved(),
                stable_order(self.resolved()),
            ),
            stable_order(self.resolved()).len() < self.spec_len() ==> forall|o: Seq<int>|
                !is_topological(self.resolved(), o),
    {
        self.lemma_resolved_in_range();
        lemma_stable_order_sound(self.resolved());
    }

    /// `build` is deterministic: two graphs with the same stage names in the
    /// same registration order, and the same set of dependencies for each
    /// stage, resolve to the same order.
    pub proof fn lemma_build_deterministic(&self, other: &StageGraph<A>)
        requires
            self.wf(),
            self.names() == other.names(),
            forall|i: int| 0 <= i < self.spec_len() ==> #[trigger] self.dep_names(i).to_set() == other.dep_names(i).to_set(),
        ensures
            self.all_known() == other.all_known(),
            stable_order(self.resolved()) == stable_order(other.resolved()),
    {
        let g1 = self.resolved();
        let g2 = other.resolved();
        assert(self.names().len() == self.spec_stages().len());
        assert(other.names().len() == other.spec_stages().len());
        assert(self.names().len() == other.names().len());
        assert(self.spec_len() == other.spec_len());
        assert forall|i: int| 0 <= i < g1.len() implies #[trigger] g1[i].to_set() == g2[i].to_set() by {
            let d1 = self.dep_names(i);
            let d2 = other.dep_names(i);
            assert(d1.to_set() == d2.to_set());
            assert forall|x: int| g1[i].to_set().contains(x) implies g2[i].to_set().contains(x) by {
                let j = choose|j: int| 0 <= j < g1[i].len() && g1[i][j] == x;
                assert(d1.contains(d1[j]));
                assert(d1.to_set().contains(d1[j]));
                let k = choose|k: int| 0 <= k < d2.len() && d2[k] == d1[j];
                assert(g2[i][k] == x);
            }
            assert forall|x: int| g2[i].to_set().contains(x) implies g1[i].to_set().contains(x) by {
                let j = choose|j: int| 0 <= j < g2[i].len() && g2[i][j] == x;
                assert(d2.contains(d2[j]));
                assert(d2.to_set().contains(d2[j]));
                let k = choose|k: int| 0 <= k < d1.len() && d1[k] == d2[j];
                assert(g1[i][k] == x);
            }
            assert(g1[i].to_set() =~= g2[i].to_set());
        }
        lemma_stable_order_deterministic(g1, g2);
        if self.all_known() {
            assert forall|i: int, j: int|
                0 <= i < other.spec_len() && 0 <= j < other.dep_names(i).len() implies other.names().contains(
                #[trigger] other.dep_names(i)[j],
            ) by {
                let d = other.dep_names(i)[j];
                assert(other.dep_names(i).contains(d));
                assert(other.dep_names(i).to_set().contains(d));
                assert(self.dep_names(i).to_set() == other.dep_names(i).to_set());
                assert(self.dep_names(i).to_set().contains(d));
                assert(self.dep_names(i).contains(d));
                let k = choose|k: int| 0 <= k < self.dep_names(i).len() && self.dep_names(i)[k] == d;
                assert(self.names().contains(self.dep_names(i)[k]));
            }
        }
        if other.all_known() {
            assert forall|i: int, j: int|
                0 <= i < self.spec_len() && 0 <= j < self.dep_names(i).len() implies self.names().contains(
                #[trigger] self.dep_names(i)[j],
            ) by {
                let d = self.dep_names(i)[j];
                assert(self.dep_names(i).contains(d));
                assert(self.dep_names(i).to_set().contains(d));
                assert(other.dep_names(i).to_set().contains(d));
                assert(other.dep_names(i).contains(d));
                let k = choose|k: int| 0 <= k < other.dep_names(i).len() && other.dep_names(i)[k] == d;
                assert(other.names().contains(other.dep_names(i)[k]));
            }
        }
    }
}

} // verus!
