use vstd::prelude::*;

verus! {

/// Where an `Empty` source is already materialised.
#[derive(Clone, Copy, Debug, PartialEq, Eq, Structural)]
pub enum Scope {
    /// Only on the node that accepted the query.
    Local,
    /// On every node of the cluster.
    Cluster,
}

/// The exchange topology of a stage boundary.
#[derive(Clone, Copy, Debug, PartialEq, Eq, Structural)]
pub enum StageKind {
    /// Full shuffle: the stage's source nodes route into themselves.
    Normal,
    /// Fan-out: the source nodes route into every cluster node.
    Expansive,
    /// Funnel: the source nodes route into the local node only.
    Convergent,
}

/// The routing expression of a stage, threaded through untouched.
#[derive(Debug, PartialEq, Eq)]
pub enum Expression {
    Literal(u64),
    Column(String),
    Function { op: String, args: Vec<Expression> },
}

/// The mathematical value of an `Expression`.
pub enum ExprModel {
    Literal(u64),
    Column(Seq<char>),
    Function { op: Seq<char>, args: Seq<ExprModel> },
}

impl Expression {
    pub open spec fn view(&self) -> ExprModel
        decreases self,
    {
        match self {
            Expression::Literal(v) => ExprModel::Literal(*v),
            Expression::Column(c) => ExprModel::Column(c@),
            Expression::Function { op, args } => ExprModel::Function {
                op: op@,
                args: Seq::new(
                    args@.len(),
                    |i: int|
                        if 0 <= i < args@.len() {
                            args@[i].view()
                        } else {
                            ExprModel::Literal(0)
                        },
                ),
            },
        }
    }

    /// A copy with the same model.
    pub fn duplicate(&self) -> (r: Expression)
        ensures
            r.view() == self.view(),
        decreases self,
    {
        match self {
            Expression::Literal(v) => Expression::Literal(*v),
            Expression::Column(c) => Expression::Column(c.clone()),
            Expression::Function { op, args } => {
                let mut copied: Vec<Expression> = Vec::new();
                let mut i: usize = 0;
                while i < args.len()
                    invariant
                        0 <= i <= args@.len(),
                        copied@.len() == i,
                        *self matches Expression::Function { args: a, .. } && a == *args,
                        forall|j: int| 0 <= j < i ==> (#[trigger] copied@[j]).view() == args@[j].view(),
                    decreases args@.len() - i,
                {
                    proof {
                        assert(decreases_to!(self => args@[i as int]));
                    }
                    let e = args[i].duplicate();
                    copied.push(e);
                    i = i + 1;
                }
                let r = Expression::Function { op: op.clone(), args: copied };
                proof {
                    assert(r.view() matches ExprModel::Function { args: a, .. } && a =~= self.view()->args);
                }
                r
            },
        }
    }
}

/// A node of a logical plan tree.
#[derive(Debug, PartialEq, Eq)]
pub enum PlanNode {
    /// A terminal source, materialised according to its scope.
    Empty { scope: Scope },
    /// A pass-through computation over one child (a projection, a filter).
    Compute { input: Box<PlanNode> },
    /// An exchange boundary: rows of `input` are routed by `scatter_expr`.
    Stage { kind: StageKind, scatter_expr: Expression, input: Box<PlanNode> },
    /// Reads the mailbox `stream_id`, whose writers are exactly `fetch_nodes`.
    Remote { stream_id: String, fetch_nodes: Vec<String> },
}

/// The mathematical value of a `PlanNode`.
pub enum PlanModel {
    Empty { scope: Scope },
    Compute { input: Box<PlanModel> },
    Stage { kind: StageKind, scatter_expr: ExprModel, input: Box<PlanModel> },
    Remote { stream_id: Seq<char>, fetch_nodes: Seq<Seq<char>> },
}

/// The characters of each name, in order.
pub open spec fn names_view(names: Seq<String>) -> Seq<Seq<char>> {
    names.map_values(|n: String| n@)
}

/// A copy of a list of names.
pub fn copy_names(names: &Vec<String>) -> (r: Vec<String>)
    ensures
        names_view(r@) == names_view(names@),
{
    let mut r: Vec<String> = Vec::new();
    let mut i: usize = 0;
    while i < names.len()
        invariant
            0 <= i <= names@.len(),
            r@.len() == i,
            forall|j: int| 0 <= j < i ==> (#[trigger] r@[j])@ == names@[j]@,
        decreases names@.len() - i,
    {
        r.push(names[i].clone());
        i = i + 1;
    }
    proof {
        assert(names_view(r@) =~= names_view(names@));
    }
    r
}

impl PlanNode {
    pub open spec fn view(&self) -> PlanModel
        decreases self,
    {
        match self {
            PlanNode::Empty { scope } => PlanModel::Empty { scope: *scope },
            PlanNode::Compute { input } => PlanModel::Compute { input: Box::new(input.view()) },
            PlanNode::Stage { kind, scatter_expr, input } => PlanModel::Stage {
                kind: *kind,
                scatter_expr: scatter_expr.view(),
                input: Box::new(input.view()),
            },
            PlanNode::Remote { stream_id, fetch_nodes } => PlanModel::Remote {
                stream_id: stream_id@,
                fetch_nodes: names_view(fetch_nodes@),
            },
        }
    }

    /// A copy with the same model.
    pub fn duplicate(&self) -> (r: PlanNode)
        ensures
            r.view() == self.view(),
        decreases self,
    {
        match self {
            PlanNode::Empty { scope } => PlanNode::Empty { scope: *scope },
            PlanNode::Compute { input } => PlanNode::Compute { input: Box::new(input.duplicate()) },
            PlanNode::Stage { kind, scatter_expr, input } => PlanNode::Stage {
                kind: *kind,
                scatter_expr: scatter_expr.duplicate(),
                input: Box::new(input.duplicate()),
            },
            PlanNode::Remote { stream_id, fetch_nodes } => PlanNode::Remote {
                stream_id: stream_id.clone(),
                fetch_nodes: copy_names(fetch_nodes),
            },
        }
    }
}

} // verus!
