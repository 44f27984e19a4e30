pub mod rresamp;
pub mod resamp2;
pub mod msresamp2;
