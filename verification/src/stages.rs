//! The validation pipeline's stages, one module per stage.
pub mod s1_package_merge;
pub mod s2_substitutions;
pub mod s3_extend_remove;
pub mod s3_5_variant_resolution;
pub mod s4_external_components;
pub mod s5_preload;
pub mod s6_load_components;
pub mod s8_id_resolution;
pub mod s7_schema_validation;
pub mod s9_final_validation;
pub mod s11_exclusive_groups;
pub mod s12_profile_validation;
pub mod s13_secret_fields;
pub mod s10_pin_conflicts;
