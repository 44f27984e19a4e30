pub mod firfilt;
pub mod firpfb;
pub mod polyphase_filter;
pub mod firinterp;
pub mod decimation;
pub mod design;
