pub mod class_def;
pub mod coverage;
pub mod features;
pub mod lang_sys;
pub mod lookup;
pub mod offset_table;
pub mod script;
pub mod sequence;
pub mod variation;
