pub mod aim;
pub mod queued_strains;
pub mod reading;
pub mod sorting;
