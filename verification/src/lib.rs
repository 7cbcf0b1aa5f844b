//! Successive-convexification trajectory solver for powered descent.
pub mod agreement_laws;
pub mod algebra;
pub mod api;
pub mod api_laws;
pub mod assemble;
pub mod assembly_laws;
pub mod cone_laws;
pub mod cones;
pub mod corrector_laws;
pub mod dense_laws;
pub mod descent_laws;
pub mod diagonal_laws;
pub mod driver_laws;
pub mod embedding_laws;
pub mod free_tf_laws;
pub mod judgement_laws;
pub mod kkt_backend;
pub mod kkt_laws;
pub mod layout;
pub mod linalg;
pub mod measure_laws;
pub mod merit;
pub mod newton_laws;
pub mod numerics;
pub mod precondition;
pub mod precondition_laws;
pub mod program_laws;
pub mod reduced_kkt;
pub mod reduced_kkt_free_tf;
pub mod repeat_laws;
pub mod scalar;
pub mod scaling_laws;
pub mod scvx;
pub mod scvx_laws;
pub mod solver_laws;
pub mod stage_blocks;
pub mod start_laws;
pub mod structured_hsd;
pub mod structured_socp;
pub mod trust;
pub mod types;
