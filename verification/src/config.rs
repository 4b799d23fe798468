//! The configuration that the command line produces.

use vstd::prelude::*;
use vstd::string::*;

verus! {

/// How matrices are stored.
#[derive(Clone, Copy, Debug, PartialEq, Eq, Structural)]
pub enum MatrixLayout {
    RowMajor,
    ColMajor,
}

/// Which of the measured runs the report picks.
#[derive(Clone, Copy, Debug, PartialEq, Eq, Structural)]
pub enum Summary {
    Min,
    Avg,
    Max,
}

/// Settings of a DGEMM run. `alpha` and `beta` hold the scalars as the text given
/// on the command line (text that `f64` parsing accepts); the program reads them as
/// floating-point numbers.
#[derive(Debug)]
pub struct DgemmConfig {
    pub nthreads: u8,
    pub layout: MatrixLayout,
    pub transa: bool,
    pub transb: bool,
    pub alpha: String,
    pub beta: String,
    pub m: u32,
    pub n: u32,
    pub k: u32,
}

/// Settings of an HPCG-style SpMV run on an `n` x `n` x `n` grid.
#[derive(Debug, Clone, Copy, PartialEq, Eq, Structural)]
pub struct HpcgSpmvConfig {
    pub n: u32,
}

/// The kernel to benchmark, with its settings.
#[derive(Debug)]
pub enum KernelConfig {
    Dgemm(DgemmConfig),
    HpcgSpmv(HpcgSpmvConfig),
}

/// Settings shared by all kernels: the library to load and how to measure.
#[derive(Debug)]
pub struct TestConfig {
    pub lib_dir: String,
    pub warmup: u16,
    pub iter: u16,
    pub verify: bool,
    pub summary: Summary,
    pub concise: bool,
}

/// The name of a summary as reports print it.
pub open spec fn summary_text(s: Summary) -> Seq<char> {
    match s {
        Summary::Min => "min"@,
        Summary::Avg => "avg"@,
        Summary::Max => "max"@,
    }
}

impl Summary {
    /// The name of the summary as reports print it.
    pub fn label(&self) -> (s: String)
        ensures
            s@ == summary_text(*self),
    {
        match self {
            Summary::Min => String::from_str("min"),
            Summary::Avg => String::from_str("avg"),
            Summary::Max => String::from_str("max"),
        }
    }
}

} // verus!
