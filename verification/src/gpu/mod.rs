//! Optical flow and motion blur on a graphics device: which kernels run, on
//! which buffers, in which order.
pub mod calls;
pub mod device;
pub mod flows;
pub mod frame;
pub mod kernel;
pub mod meaning;
pub mod orders;
pub mod stages;
