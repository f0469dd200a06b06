//! Converts integers of every width into their ASCII numerals in any base from
//! 2 to 36, written into a buffer that the caller supplies.
pub mod numeral;
pub mod lookup;
pub mod writer;
pub mod encode;
pub mod numtoa_trait;
pub mod ascii_number;
pub mod laws;

pub use ascii_number::{AsciiNumber, BaseN};
pub use encode::{
    numtoa_i128, numtoa_i128_str, numtoa_i16, numtoa_i16_str, numtoa_i32, numtoa_i32_str,
    numtoa_i64, numtoa_i64_str, numtoa_i8, numtoa_i8_str, numtoa_isize, numtoa_isize_str,
    numtoa_u128, numtoa_u128_str, numtoa_u16, numtoa_u16_str, numtoa_u32, numtoa_u32_str,
    numtoa_u64, numtoa_u64_str, numtoa_u8, numtoa_u8_str, numtoa_usize, numtoa_usize_str,
    required_space,
};
pub use numtoa_trait::NumToA;
