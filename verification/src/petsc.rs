//! Solver back-end descriptors: the PETSc/SLEPc option names of the
//! Krylov solvers, preconditioners, direct solvers and eigenvalue targets,
//! and the handles of the back ends, of which only the native one solves.
use vstd::prelude::*;
use crate::text::owned;

verus! {

broadcast use vstd::string::group_string_axioms;

/// Krylov subspace solver kinds.
#[derive(Debug, Clone, Copy, PartialEq, Eq)]
pub enum KspType {
    CG,
    GMRES,
    BiCGSTAB,
    TFQMR,
    Richardson,
    Chebyshev,
    PreOnly,
}

/// PETSc name of a Krylov solver kind.
pub open spec fn ksp_name(t: KspType) -> Seq<char> {
    match t {
        KspType::CG => "cg"@,
        KspType::GMRES => "gmres"@,
        KspType::BiCGSTAB => "bcgs"@,
        KspType::TFQMR => "tfqmr"@,
        KspType::Richardson => "richardson"@,
        KspType::Chebyshev => "chebyshev"@,
        KspType::PreOnly => "preonly"@,
    }
}

impl Default for KspType {
    fn default() -> (r: Self)
        ensures
            r == KspType::GMRES,
    {
        KspType::GMRES
    }
}

impl KspType {
    /// The PETSc identifier of this solver kind.
    pub fn petsc_name(&self) -> (r: &'static str)
        ensures
            r@ == ksp_name(*self),
    {
        match self {
            KspType::CG => "cg",
            KspType::GMRES => "gmres",
            KspType::BiCGSTAB => "bcgs",
            KspType::TFQMR => "tfqmr",
            KspType::Richardson => "richardson",
            KspType::Chebyshev => "chebyshev",
            KspType::PreOnly => "preonly",
        }
    }
}

/// Preconditioner kinds.
#[derive(Debug, Clone, Copy, PartialEq, Eq)]
pub enum PcType {
    NoPreconditioner,
    Jacobi,
    ILU,
    ICC,
    ASM,
    BJ,
    SOR,
    HYPRE,
    LU,
    Cholesky,
}

/// PETSc name of a preconditioner kind.
pub open spec fn pc_name(t: PcType) -> Seq<char> {
    match t {
        PcType::NoPreconditioner => "none"@,
        PcType::Jacobi => "jacobi"@,
        PcType::ILU => "ilu"@,
        PcType::ICC => "icc"@,
        PcType::ASM => "asm"@,
        PcType::BJ => "bjacobi"@,
        PcType::SOR => "sor"@,
        PcType::HYPRE => "hypre"@,
        PcType::LU => "lu"@,
        PcType::Cholesky => "cholesky"@,
    }
}

impl Default for PcType {
    fn default() -> (r: Self)
        ensures
            r == PcType::ILU,
    {
        PcType::ILU
    }
}

impl PcType {
    /// The PETSc identifier of this preconditioner kind.
    pub fn petsc_name(&self) -> (r: &'static str)
        ensures
            r@ == pc_name(*self),
    {
        match self {
            PcType::NoPreconditioner => "none",
            PcType::Jacobi => "jacobi",
            PcType::ILU => "ilu",
            PcType::ICC => "icc",
            PcType::ASM => "asm",
            PcType::BJ => "bjacobi",
            PcType::SOR => "sor",
            PcType::HYPRE => "hypre",
            PcType::LU => "lu",
            PcType::Cholesky => "cholesky",
        }
    }
}

/// Direct solver libraries reachable through PETSc.
#[derive(Debug, Clone, Copy, PartialEq, Eq)]
pub enum MatSolverType {
    MUMPS,
    SuperLU,
    SuperLUDist,
    PARDISO,
    PaStiX,
    UMFPACK,
    Default,
}

/// PETSc name of a direct solver library.
pub open spec fn mat_solver_name(t: MatSolverType) -> Seq<char> {
    match t {
        MatSolverType::MUMPS => "mumps"@,
        MatSolverType::SuperLU => "superlu"@,
        MatSolverType::SuperLUDist => "superlu_dist"@,
        MatSolverType::PARDISO => "mkl_pardiso"@,
        MatSolverType::PaStiX => "pastix"@,
        MatSolverType::UMFPACK => "umfpack"@,
        MatSolverType::Default => "petsc"@,
    }
}

impl Default for MatSolverType {
    fn default() -> (r: Self)
        ensures
            r == MatSolverType::Default,
    {
        MatSolverType::Default
    }
}

impl MatSolverType {
    /// The PETSc identifier of this direct solver.
    pub fn petsc_name(&self) -> (r: &'static str)
        ensures
            r@ == mat_solver_name(*self),
    {
        match self {
            MatSolverType::MUMPS => "mumps",
            MatSolverType::SuperLU => "superlu",
            MatSolverType::SuperLUDist => "superlu_dist",
            MatSolverType::PARDISO => "mkl_pardiso",
            MatSolverType::PaStiX => "pastix",
            MatSolverType::UMFPACK => "umfpack",
            MatSolverType::Default => "petsc",
        }
    }
}

/// Which eigenvalues SLEPc computes.
#[derive(Debug, Clone, Copy, PartialEq, Eq)]
pub enum WhichEigenvalues {
    SmallestMagnitude,
    LargestMagnitude,
    SmallestReal,
    LargestReal,
    Target,
}

/// SLEPc name of an eigenvalue selection.
pub open spec fn slepc_which_name(w: WhichEigenvalues) -> Seq<char> {
    match w {
        WhichEigenvalues::SmallestMagnitude => "smallest_magnitude"@,
        WhichEigenvalues::LargestMagnitude => "largest_magnitude"@,
        WhichEigenvalues::SmallestReal => "smallest_real"@,
        WhichEigenvalues::LargestReal => "largest_real"@,
        WhichEigenvalues::Target => "target_magnitude"@,
    }
}

impl Default for WhichEigenvalues {
    fn default() -> (r: Self)
        ensures
            r == WhichEigenvalues::SmallestMagnitude,
    {
        WhichEigenvalues::SmallestMagnitude
    }
}

impl WhichEigenvalues {
    /// The SLEPc identifier of this selection.
    pub fn slepc_name(&self) -> (r: &'static str)
        ensures
            r@ == slepc_which_name(*self),
    {
        match self {
            WhichEigenvalues::SmallestMagnitude => "smallest_magnitude",
            WhichEigenvalues::LargestMagnitude => "largest_magnitude",
            WhichEigenvalues::SmallestReal => "smallest_real",
            WhichEigenvalues::LargestReal => "largest_real",
            WhichEigenvalues::Target => "target_magnitude",
        }
    }
}

/// Error of a solver back end, with its message.
#[derive(Debug, Clone)]
pub struct BackendError(pub String);

impl BackendError {
    /// The error's message.
    pub fn to_string(&self) -> (r: String)
        ensures
            r@ == self.0@,
    {
        self.0.clone()
    }
}

impl From<String> for BackendError {
    fn from(s: String) -> (r: Self)
        ensures
            r.0@ == s@,
    {
        BackendError(s)
    }
}

impl vstd::std_specs::convert::FromSpecImpl<String> for BackendError {
    open spec fn obeys_from_spec() -> bool {
        true
    }

    open spec fn from_spec(s: String) -> BackendError {
        BackendError(s)
    }
}

/// Message of back-end operations attempted without the PETSc bindings.
pub open spec fn msg_petsc_not_compiled() -> Seq<char> {
    "PETSc backend not compiled. Rebuild with --features petsc"@
}

/// Handle of a PETSc sparse matrix (no bindings are compiled in).
pub struct PetscMat {
    marker: (),
}

impl PetscMat {
    /// Dimensions of the matrix; without bindings no matrix holds entries.
    pub fn shape(&self) -> (r: (usize, usize))
        ensures
            r == (0usize, 0usize),
    {
        (0, 0)
    }
}

/// Handle of a PETSc vector (no bindings are compiled in).
pub struct PetscVec {
    marker: (),
}

impl PetscVec {
    /// Number of entries; without bindings always zero.
    pub fn len(&self) -> (r: usize)
        ensures
            r == 0,
    {
        0
    }

    /// Whether the vector has no entries.
    pub fn is_empty(&self) -> (r: bool)
        ensures
            r,
    {
        self.len() == 0
    }
}

/// Guard of PETSc initialization.
pub struct PetscContext {
    marker: (),
}

impl PetscContext {
    /// Initializes PETSc; without the bindings this always fails.
    pub fn init() -> (r: Result<PetscContext, BackendError>)
        ensures
            r matches Err(e) && e.0@ == msg_petsc_not_compiled(),
    {
        Err(BackendError(owned("PETSc backend not compiled. Rebuild with --features petsc")))
    }

    /// Whether PETSc has been initialized; never without the bindings.
    pub fn is_initialized() -> (r: bool)
        ensures
            !r,
    {
        false
    }
}

/// The dense back end built on the native linear algebra.
pub struct NativeBackend;

/// A numerical back end for the global solves.
pub trait SolverBackend {
    /// The name a back end reports.
    spec fn backend_name(&self) -> Seq<char>;

    /// Name of the back end.
    fn name(&self) -> (r: &str)
        ensures
            r@ == self.backend_name();
}

impl SolverBackend for NativeBackend {
    open spec fn backend_name(&self) -> Seq<char> {
        "native-nalgebra"@
    }

    fn name(&self) -> (r: &str) {
        "native-nalgebra"
    }
}

pub struct PetscBackend {}

impl PetscBackend {
    /// A PETSc back-end handle.
    pub fn new() -> (r: PetscBackend) {
        PetscBackend {}
    }
}

impl SolverBackend for PetscBackend {
    open spec fn backend_name(&self) -> Seq<char> {
        "petsc"@
    }

    fn name(&self) -> (r: &str) {
        "petsc"
    }
}

/// The back end used when none is chosen: the native one.
pub fn default_backend() -> (r: NativeBackend) {
    NativeBackend
}

} // verus!
