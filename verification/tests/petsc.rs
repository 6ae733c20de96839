use ccx::petsc::{
    default_backend, KspType, MatSolverType, NativeBackend, PcType, PetscBackend, PetscContext,
    SolverBackend, WhichEigenvalues,
};

#[test]
fn test_ksp_type_names() {
    assert_eq!(KspType::CG.petsc_name(), "cg");
    assert_eq!(KspType::GMRES.petsc_name(), "gmres");
    assert_eq!(KspType::BiCGSTAB.petsc_name(), "bcgs");
}

#[test]
fn test_pc_type_names() {
    assert_eq!(PcType::ILU.petsc_name(), "ilu");
    assert_eq!(PcType::Jacobi.petsc_name(), "jacobi");
    assert_eq!(PcType::HYPRE.petsc_name(), "hypre");
}

#[test]
fn test_mat_solver_names() {
    assert_eq!(MatSolverType::MUMPS.petsc_name(), "mumps");
    assert_eq!(MatSolverType::SuperLU.petsc_name(), "superlu");
    assert_eq!(MatSolverType::PARDISO.petsc_name(), "mkl_pardiso");
}

#[test]
fn test_petsc_context_placeholder() {
    let result = PetscContext::init();
    assert!(result.is_err());
    assert!(!PetscContext::is_initialized());
}

#[test]
fn petsc_context_error_names_the_missing_feature() {
    match PetscContext::init() {
        Err(e) => assert_eq!(e.to_string(), "PETSc backend not compiled. Rebuild with --features petsc"),
        Ok(_) => panic!("PETSc cannot be initialized without bindings"),
    }
}

#[test]
fn backends_report_their_names() {
    assert_eq!(NativeBackend.name(), "native-nalgebra");
    assert_eq!(PetscBackend::new().name(), "petsc");
    assert_eq!(default_backend().name(), "native-nalgebra");
}

#[test]
fn slepc_names_of_eigenvalue_targets() {
    assert_eq!(WhichEigenvalues::default().slepc_name(), "smallest_magnitude");
    assert_eq!(WhichEigenvalues::Target.slepc_name(), "target_magnitude");
    assert_eq!(KspType::default().petsc_name(), "gmres");
    assert_eq!(PcType::default().petsc_name(), "ilu");
}
