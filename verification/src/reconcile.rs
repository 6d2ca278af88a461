//! Reconciliation: from a configuration text to the order in which its
//! resources are provisioned, and from the outcome of each provisioning
//! step to the state that records it. The steps themselves are carried out
//! by the caller.

use vstd::prelude::*;
use crate::dag::{GraphError, GraphModel, ResourceGraph};
use crate::hcl::{
    is_resource, models, parse_blocks, parse_blocks_spec, resource_id, resource_id_of,
    resource_ids, resource_ids_of, Block, BlockModel, SyntaxError,
};
use crate::state::{State, StateModel};
use crate::text::{reads, texts};

verus! {

/// Why no plan could be made.
#[derive(Clone, Copy, Debug, PartialEq, Eq, Structural)]
pub enum PlanError {
    /// The configuration text is malformed.
    Syntax(SyntaxError),
    /// A dependency names an unknown resource, or the dependencies run in
    /// a circle.
    Graph(GraphError),
}

/// A dependency supplied by the caller: `from` depends on `to`.
pub struct Dependency {
    pub from: String,
    pub to: String,
}

/// The mathematical content of a list of dependencies.
pub open spec fn dependency_models(v: Seq<Dependency>) -> Seq<(Seq<char>, Seq<char>)> {
    Seq::new(v.len(), |i: int| (v[i].from@, v[i].to@))
}

/// The graph whose resources are `ids`, each once, in the order of their
/// first occurrence.
pub open spec fn graph_of_resources(ids: Seq<Seq<char>>) -> GraphModel
    decreases ids.len(),
{
    if ids.len() == 0 {
        GraphModel { nodes: Seq::empty(), edges: Seq::empty() }
    } else {
        graph_of_resources(ids.drop_last()).with_resource(ids.last())
    }
}

/// `g` with the dependencies `deps` declared one after the other, or
/// `None` if one of them names a resource that `g` does not hold.
pub open spec fn with_dependencies(
    g: GraphModel,
    deps: Seq<(Seq<char>, Seq<char>)>,
) -> Option<GraphModel>
    decreases deps.len(),
{
    if deps.len() == 0 {
        Some(g)
    } else {
        match with_dependencies(g, deps.drop_last()) {
            None => None,
            Some(h) => if h.contains(deps.last().0) && h.contains(deps.last().1) {
                Some(h.with_dependency(deps.last().0, deps.last().1))
            } else {
                None
            },
        }
    }
}

/// What a plan holds.
pub struct PlanModel {
    pub blocks: Seq<BlockModel>,
    pub order: Seq<Seq<char>>,
}

/// The plan for a configuration text and the dependencies between its
/// resources: the text's blocks, and its resources in provisioning order.
/// A malformed text, a dependency on an unknown resource and a circle of
/// dependencies each leave no plan, in this order.
pub open spec fn plan_spec(
    text: Seq<char>,
    deps: Seq<(Seq<char>, Seq<char>)>,
) -> Result<PlanModel, PlanError> {
    match parse_blocks_spec(text) {
        Err(e) => Err(PlanError::Syntax(e)),
        Ok(blocks) => match with_dependencies(graph_of_resources(resource_ids(blocks)), deps) {
            None => Err(PlanError::Graph(GraphError::NotFound)),
            Some(g) => match g.ordered() {
                Err(e) => Err(PlanError::Graph(e)),
                Ok(order) => Ok(PlanModel { blocks, order }),
            },
        },
    }
}

/// The graph that a plan is made from, where there is one.
pub open spec fn plan_graph(text: Seq<char>, deps: Seq<(Seq<char>, Seq<char>)>) -> GraphModel {
    with_dependencies(graph_of_resources(resource_ids(parse_blocks_spec(text)->Ok_0)), deps)->0
}

/// The blocks of a configuration and its resources in provisioning order.
pub struct Plan {
    pub blocks: Vec<Block>,
    pub order: Vec<String>,
}

impl View for Plan {
    type V = PlanModel;

    open spec fn view(&self) -> PlanModel {
        PlanModel { blocks: models(self.blocks@), order: texts(self.order@) }
    }
}

/// The model of a plan, or of the error in its place.
pub open spec fn plan_result(r: Result<Plan, PlanError>) -> Result<PlanModel, PlanError> {
    match r {
        Ok(p) => Ok(p@),
        Err(e) => Err(e),
    }
}

/// Makes the plan for a configuration text and the dependencies that the
/// caller declares between its resources. Nothing is provisioned and no
/// state is touched.
pub fn plan(config_text: &str, dependencies: &Vec<Dependency>) -> (r: Result<Plan, PlanError>)
    ensures
        plan_result(r) == plan_spec(config_text@, dependency_models(dependencies@)),
        r matches Ok(p) ==> plan_graph(config_text@, dependency_models(dependencies@)).is_order(
            p@.order,
        ),
{
    let ghost deps = dependency_models(dependencies@);
    let blocks = match parse_blocks(config_text) {
        Err(e) => {
            return Err(PlanError::Syntax(e));
        },
        Ok(blocks) => blocks,
    };
    let ids = resource_ids_of(&blocks);
    let mut graph = ResourceGraph::new();
    let mut i: usize = 0;
    proof {
        graph.lemma_content_well_formed();
        assert(texts(ids@).take(0) =~= Seq::<Seq<char>>::empty());
        assert(graph@.nodes =~= Seq::<Seq<char>>::empty());
        assert(graph@.edges =~= Seq::<(int, int)>::empty());
    }
    while i < ids.len()
        invariant
            i <= ids.len(),
            graph.well_formed(),
            graph@ == graph_of_resources(texts(ids@).take(i as int)),
        decreases ids.len() - i,
    {
        proof {
            let next = texts(ids@).take(i + 1);
            assert(next.drop_last() =~= texts(ids@).take(i as int));
            assert(next.last() == ids@[i as int]@);
        }
        graph.add_resource(ids[i].as_str());
        i = i + 1;
    }
    proof {
        assert(texts(ids@).take(i as int) =~= texts(ids@));
        assert(deps.take(0) =~= Seq::<(Seq<char>, Seq<char>)>::empty());
    }
    let ghost start = graph@;
    let mut k: usize = 0;
    while k < dependencies.len()
        invariant
            k <= dependencies.len(),
            deps == dependency_models(dependencies@),
            graph.well_formed(),
            parse_blocks_spec(config_text@) == Ok::<Seq<BlockModel>, SyntaxError>(
                models(blocks@),
            ),
            start == graph_of_resources(resource_ids(models(blocks@))),
            with_dependencies(start, deps.take(k as int)) == Some(graph@),
        decreases dependencies.len() - k,
    {
        proof {
            let next = deps.take(k + 1);
            assert(next.drop_last() =~= deps.take(k as int));
            assert(next.last() == deps[k as int]);
        }
        match graph.add_dependency(dependencies[k].from.as_str(), dependencies[k].to.as_str()) {
            Err(_) => {
                proof {
                    assert(with_dependencies(start, deps.take(k + 1)) is None);
                    lemma_with_dependencies_fails(start, deps, k + 1);
                }
                return Err(PlanError::Graph(GraphError::NotFound));
            },
            Ok(_) => {},
        }
        k = k + 1;
    }
    proof {
        assert(deps.take(k as int) =~= deps);
        graph.lemma_content_well_formed();
    }
    match graph.get_ordered_resources() {
        Err(e) => Err(PlanError::Graph(e)),
        Ok(order) => Ok(Plan { blocks, order }),
    }
}

/// Once a prefix of the dependencies cannot be declared, neither can all of them.
pub proof fn lemma_with_dependencies_fails(
    g: GraphModel,
    deps: Seq<(Seq<char>, Seq<char>)>,
    n: int,
)
    requires
        0 <= n <= deps.len(),
        with_dependencies(g, deps.take(n)) is None,
    ensures
        with_dependencies(g, deps) is None,
    decreases deps.len() - n,
{
    if n < deps.len() {
        let next = deps.take(n + 1);
        assert(next.drop_last() =~= deps.take(n));
        lemma_with_dependencies_fails(g, deps, n + 1);
    } else {
        assert(deps.take(n) =~= deps);
    }
}

/// The first resource block among `blocks` whose identifier is `id`.
pub fn find_resource(blocks: &Vec<Block>, id: &str) -> (r: Option<usize>)
    ensures
        match r {
            Some(i) => i < blocks@.len() && is_resource(blocks@[i as int]@) && resource_id(
                blocks@[i as int]@,
            ) == id@ && forall|j: int|
                0 <= j < i ==> !(is_resource(#[trigger] blocks@[j]@) && resource_id(blocks@[j]@)
                    == id@),
            None => forall|j: int|
                0 <= j < blocks@.len() ==> !(is_resource(#[trigger] blocks@[j]@) && resource_id(
                    blocks@[j]@,
                ) == id@),
        },
{
    let mut i: usize = 0;
    while i < blocks.len()
        invariant
            i <= blocks.len(),
            forall|j: int|
                0 <= j < i ==> !(is_resource(#[trigger] blocks@[j]@) && resource_id(blocks@[j]@)
                    == id@),
        decreases blocks.len() - i,
    {
        match resource_id_of(&blocks[i]) {
            Some(found) => {
                if reads(found.as_str(), id) {
                    return Some(i);
                }
            },
            None => {},
        }
        i = i + 1;
    }
    None
}

/// A resource could not be provisioned or destroyed.
pub struct ProvisioningFailure {
    /// The identifier of the resource.
    pub resource: String,
    /// What the provisioning side reported.
    pub cause: String,
}

/// An apply in progress: the resources are provisioned one after the
/// other, in plan order, and each success is recorded in the state at
/// once. The first failure halts the apply; what was recorded stays.
pub struct Apply {
    order: Vec<String>,
    done: usize,
    base: usize,
    state: State,
    failure: Option<ProvisioningFailure>,
}

impl Apply {
    /// The resources to provision, in order.
    pub closed spec fn order(&self) -> Seq<Seq<char>> {
        texts(self.order@)
    }

    /// How many of them have been provisioned.
    pub closed spec fn done(&self) -> nat {
        self.done as nat
    }

    /// Whether a step has failed.
    pub closed spec fn halted(&self) -> bool {
        self.failure is Some
    }

    /// What was reported of the step that failed, if one has.
    pub closed spec fn cause(&self) -> Option<Seq<char>> {
        match self.failure {
            Some(f) => Some(f.cause@),
            None => None,
        }
    }

    /// The state as it stands.
    pub closed spec fn state(&self) -> StateModel {
        self.state@
    }

    /// The resources that the state recorded when the apply began.
    pub closed spec fn initial(&self) -> Seq<Seq<char>> {
        self.state@.resources.take(self.base as int)
    }

    /// The state records what it recorded at the start, followed by the
    /// resources provisioned so far.
    pub closed spec fn well_formed(&self) -> bool {
        &&& self.done <= self.order@.len()
        &&& self.state@.resources.len() == self.base + self.done
        &&& self.state@.resources == self.initial() + self.order().take(self.done as int)
        &&& self.failure matches Some(f) ==> self.done < self.order@.len() && f.resource@
            == self.order@[self.done as int]@
    }

    /// What the state records at any point of an apply.
    pub proof fn lemma_recorded(&self)
        requires
            self.well_formed(),
        ensures
            self.done() <= self.order().len(),
            self.state().resources == self.initial() + self.order().take(self.done() as int),
            self.halted() ==> self.done() < self.order().len(),
    {
    }

    /// Begins an apply of `order` on top of `state`.
    pub fn begin(order: Vec<String>, state: State) -> (r: Apply)
        ensures
            r.well_formed(),
            r.order() == texts(order@),
            r.done() == 0,
            !r.halted(),
            r.state() == state@,
            r.initial() == state@.resources,
    {
        let base = state.resources.len();
        let r = Apply { order, done: 0, base, state, failure: None };
        proof {
            assert(r.state@.resources.take(base as int) =~= r.state@.resources);
            assert(r.order().take(0) =~= Seq::<Seq<char>>::empty());
            assert(r.state@.resources =~= r.initial() + r.order().take(0));
        }
        r
    }

    /// The position in the order of the resource to provision next, or
    /// `None` when all are provisioned or a step has failed.
    pub fn next(&self) -> (r: Option<usize>)
        requires
            self.well_formed(),
        ensures
            r == (if !self.halted() && self.done() < self.order().len() {
                Some(self.done() as usize)
            } else {
                None
            }),
    {
        if self.failure.is_none() && self.done < self.order.len() {
            Some(self.done)
        } else {
            None
        }
    }

    /// The identifier of the resource to provision next.
    pub fn next_resource(&self) -> (r: &String)
        requires
            self.well_formed(),
            !self.halted(),
            self.done() < self.order().len(),
        ensures
            r@ == self.order()[self.done() as int],
    {
        &self.order[self.done]
    }

    /// Takes note that the next resource was provisioned: its identifier
    /// is recorded behind all others.
    pub fn succeeded(&mut self)
        requires
            old(self).well_formed(),
            !old(self).halted(),
            old(self).done() < old(self).order().len(),
        ensures
            final(self).well_formed(),
            final(self).order() == old(self).order(),
            final(self).initial() == old(self).initial(),
            final(self).done() == old(self).done() + 1,
            !final(self).halted(),
            final(self).state() == (StateModel {
                resources: old(self).state().resources.push(
                    old(self).order()[old(self).done() as int],
                ),
                ..old(self).state()
            }),
    {
        let n = self.order.len();
        assert(self.done < n);
        let id = self.order[self.done].clone();
        let ghost before = self.state@.resources;
        self.state.record(id);
        self.done = self.done + 1;
        proof {
            let now = self.state@.resources;
            assert(now.take(self.base as int) =~= before.take(self.base as int));
            assert(self.order().take(self.done as int) =~= self.order().take(self.done - 1).push(
                self.order()[self.done - 1],
            ));
            assert(now =~= self.initial() + self.order().take(self.done as int));
        }
    }

    /// Takes note that the next resource could not be provisioned: the
    /// apply halts, and the state keeps what it has recorded.
    pub fn failed(&mut self, cause: String)
        requires
            old(self).well_formed(),
            !old(self).halted(),
            old(self).done() < old(self).order().len(),
        ensures
            final(self).well_formed(),
            final(self).order() == old(self).order(),
            final(self).initial() == old(self).initial(),
            final(self).done() == old(self).done(),
            final(self).state() == old(self).state(),
            final(self).halted(),
            final(self).cause() == Some(cause@),
    {
        let resource = self.order[self.done].clone();
        self.failure = Some(ProvisioningFailure { resource, cause });
    }

    /// Ends the apply: the state to store, and the failure that halted
    /// the apply if there was one. The failure names the resource that
    /// was next in the order.
    pub fn finish(self) -> (r: (State, Option<ProvisioningFailure>))
        requires
            self.well_formed(),
        ensures
            r.0@ == self.state(),
            r.1 is Some <==> self.halted(),
            r.1 matches Some(f) ==> f.resource@ == self.order()[self.done() as int] && Some(
                f.cause@,
            ) == self.cause(),
    {
        (self.state, self.failure)
    }
}

/// A destroy in progress: the recorded resources are destroyed one after
/// the other, the last recorded first, and each success is struck from
/// the state at once. The first failure halts the destroy; what is not
/// yet destroyed stays recorded.
pub struct Destroy {
    state: State,
    failure: Option<ProvisioningFailure>,
}

impl Destroy {
    /// The state as it stands.
    pub closed spec fn state(&self) -> StateModel {
        self.state@
    }

    /// Whether a step has failed.
    pub closed spec fn halted(&self) -> bool {
        self.failure is Some
    }

    /// What was reported of the step that failed, if one has.
    pub closed spec fn cause(&self) -> Option<Seq<char>> {
        match self.failure {
            Some(f) => Some(f.cause@),
            None => None,
        }
    }

    /// A failure names the resource that is still recorded last.
    pub closed spec fn well_formed(&self) -> bool {
        self.failure matches Some(f) ==> self.state@.resources.len() > 0 && f.resource@
            == self.state@.resources.last()
    }

    /// Begins the destruction of all that `state` records.
    pub fn begin(state: State) -> (r: Destroy)
        ensures
            r.well_formed(),
            r.state() == state@,
            !r.halted(),
    {
        Destroy { state, failure: None }
    }

    /// The identifier of the resource to destroy next, or `None` when
    /// nothing is left or a step has failed.
    pub fn next(&self) -> (r: Option<&String>)
        requires
            self.well_formed(),
        ensures
            match r {
                Some(id) => !self.halted() && self.state().resources.len() > 0 && id@
                    == self.state().resources.last(),
                None => self.halted() || self.state().resources.len() == 0,
            },
    {
        let n = self.state.resources.len();
        if self.failure.is_none() && n > 0 {
            Some(&self.state.resources[n - 1])
        } else {
            None
        }
    }

    /// Takes note that the next resource was destroyed: it is struck
    /// from the state.
    pub fn succeeded(&mut self)
        requires
            old(self).well_formed(),
            !old(self).halted(),
            old(self).state().resources.len() > 0,
        ensures
            final(self).well_formed(),
            !final(self).halted(),
            final(self).state() == (StateModel {
                resources: old(self).state().resources.drop_last(),
                ..old(self).state()
            }),
    {
        let ghost before = self.state@.resources;
        self.state.resources.pop();
        assert(self.state@.resources =~= before.drop_last());
    }

    /// Takes note that the next resource could not be destroyed: the
    /// destroy halts, and the state keeps what is left.
    pub fn failed(&mut self, cause: String)
        requires
            old(self).well_formed(),
            !old(self).halted(),
            old(self).state().resources.len() > 0,
        ensures
            final(self).well_formed(),
            final(self).halted(),
            final(self).state() == old(self).state(),
            final(self).cause() == Some(cause@),
    {
        let n = self.state.resources.len();
        let resource = self.state.resources[n - 1].clone();
        self.failure = Some(ProvisioningFailure { resource, cause });
    }

    /// Ends the destroy: the state to store, and the failure that halted
    /// the destroy if there was one. Without a failure the state records
    /// no resource once `next` has returned `None`.
    pub fn finish(self) -> (r: (State, Option<ProvisioningFailure>))
        requires
            self.well_formed(),
        ensures
            r.0@ == self.state(),
            r.1 is Some <==> self.halted(),
            r.1 matches Some(f) ==> self.state().resources.len() > 0 && f.resource@
                == self.state().resources.last() && Some(f.cause@) == self.cause(),
    {
        (self.state, self.failure)
    }
}

} // verus!
