//! Self-programming of flash memory, page by page.
//!
//! A page of program memory is rewritten in three steps: the page is erased,
//! the staging buffer of the microcontroller is filled with the new words, and
//! the buffer is written to the page. This crate holds the address arithmetic,
//! the order in which the instructions are issued, and a model of the hardware
//! against which that order is proved to program the page.
//!
//! ```
//! use avr_boot::{Address, Device, PageBuffer, Target};
//!
//! let device = Device::new(Target::atmega328p());
//! let mut buffer = PageBuffer::new(device, Address::new(0x1005));
//! buffer.fill_from_iter(core::iter::repeat(0xabcd));
//! let device = buffer.store();
//! assert_eq!(device.read_word(Address::new(0x1000)), Some(0xabcd));
//! ```
//!
//! The engine gives its instructions to a [`Device`], which carries them out
//! on values and records them. A program that drives a real microcontroller
//! gives it the recorded instructions in the recorded order.
pub mod address;
pub mod buffer;
pub mod device;
pub mod order;
pub mod page;
pub mod spm;
pub mod spm_extended;
pub mod spm_normal;
pub mod target;

pub use address::Address;
pub use buffer::{BufferCell, CellIter, PageBuffer};
pub use device::{Device, DeviceState, Operation};
pub use page::DataPage;
pub use target::Target;
