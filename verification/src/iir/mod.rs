pub mod iirfiltsos;
pub mod iirfilt;
pub mod iirdecim;
pub mod iirinterp;
pub mod interpolation;
pub mod design;
