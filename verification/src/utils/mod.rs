pub mod byte_queue;
pub mod text;
mod kernel_pointer;
mod port;
pub use kernel_pointer::KernelPointer;
pub use port::{Port, PortWrite, PortWriteLong};
