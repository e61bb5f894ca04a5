//! What can go wrong.

use datafusion::arrow::error::ArrowError;
use datafusion::error::DataFusionError;
use vstd::prelude::*;

verus! {

/// Why DataFusion could not evaluate an expression.
#[verifier::external_type_specification]
#[verifier::external_body]
pub struct ExDataFusionError(DataFusionError);

/// Why a step of an execution failed.
#[derive(Debug)]
pub enum ExecError {
    /// Arrow refused to compute something; `context` says what it was for.
    Arrow { error: ArrowError, context: Option<String> },
    /// DataFusion could not evaluate an expression.
    DataFusion(DataFusionError),
    /// The table's metadata refused something.
    Iceberg(iceberg::Error),
    /// The table asks for something that is not available.
    FeatureUnsupported(String),
    /// A step met something that no earlier step should have let through.
    Internal(String),
    /// The plan does not make sense.
    Plan(String),
    /// A column or a count outgrew what its type can hold.
    Overflow(String),
    /// A data file could not be put together.
    Unexpected(String),
}

} // verus!
