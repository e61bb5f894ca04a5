//! What every node of an execution plan has.

use std::sync::Arc;

use datafusion::arrow::datatypes::Schema;
use vstd::prelude::*;

use crate::error::ExecError;
use crate::text::{decimal, decimal_text};

verus! {

/// When a node hands on its rows.
#[derive(Clone, Copy, Debug, PartialEq, Eq, Structural)]
pub enum EmissionType {
    /// As soon as there are some.
    Incremental,
    /// Once it has seen all of its input.
    Final,
    /// Some early and some late.
    Both,
}

/// Whether a node comes to an end.
#[derive(Clone, Copy, Debug, PartialEq, Eq, Structural)]
pub enum Boundedness {
    /// It does, if its input does.
    Bounded,
    /// It may go on forever.
    Unbounded,
}

/// What a planner has to know of a node.
pub struct NodeProperties {
    /// The schema of the node's rows.
    pub schema: Arc<Schema>,
    /// Over how many partitions the rows are spread, in no particular way.
    pub partition_count: usize,
    /// When the rows are handed on.
    pub emission: EmissionType,
    /// Whether the rows come to an end.
    pub boundedness: Boundedness,
}

impl NodeProperties {
    /// The properties of a node that takes in all of its input before it hands on
    /// anything.
    pub fn blocking(schema: Arc<Schema>, partition_count: usize) -> (properties: NodeProperties)
        ensures
            properties == (NodeProperties {
                schema,
                partition_count,
                emission: EmissionType::Final,
                boundedness: Boundedness::Bounded,
            }),
    {
        NodeProperties {
            schema,
            partition_count,
            emission: EmissionType::Final,
            boundedness: Boundedness::Bounded,
        }
    }
}

impl Clone for NodeProperties {
    fn clone(&self) -> (copy: Self)
        ensures
            copy == *self,
    {
        NodeProperties {
            schema: self.schema.clone(),
            partition_count: self.partition_count,
            emission: self.emission,
            boundedness: self.boundedness,
        }
    }
}

/// A plan that a node takes its rows from.
pub struct PlanInput<P> {
    /// The plan.
    pub plan: P,
    /// Over how many partitions the plan's rows are spread.
    pub partition_count: usize,
}

/// What a node asks of how its input is spread over partitions.
#[derive(Clone, Copy, Debug, PartialEq, Eq, Structural)]
pub enum InputDistribution {
    /// Nothing.
    Unspecified,
    /// That there is one partition.
    SinglePartition,
}

/// The refusal of more or fewer inputs than one.
pub open spec fn one_child_wanted(node: Seq<char>, provided: nat) -> Seq<char> {
    node + " expects exactly one child, but provided "@ + decimal(provided)
}

/// Takes the one input out of a list of exactly one.
pub fn only_child<P>(node: &str, children: Vec<PlanInput<P>>) -> (result: Result<
    PlanInput<P>,
    ExecError,
>)
    ensures
        match result {
            Ok(child) => children@ == seq![child],
            Err(ExecError::Internal(message)) => {
                &&& children.len() != 1
                &&& message@ == one_child_wanted(node@, children.len() as nat)
            },
            Err(_) => false,
        },
{
    if children.len() != 1 {
        let mut message = node.to_string();
        message.append(" expects exactly one child, but provided ");
        message.append(decimal_text(children.len()).as_str());
        return Err(ExecError::Internal(message));
    }
    let mut children = children;
    let ghost all = children@;
    let child = children.pop().unwrap();
    assert(all =~= seq![child]);
    Ok(child)
}

/// How much a plan is to tell of a node.
#[derive(Clone, Copy, Debug, PartialEq, Eq, Structural)]
pub enum DisplayFormat {
    /// One short line.
    Default,
    /// One line with all there is.
    Verbose,
    /// A box in a drawing of the plan.
    TreeRender,
}

} // verus!
