//! Encoding and decoding of the (23, 12, 7) standard and (24, 12, 8) extended binary
//! Golay codes, generated by g(x) = x^11 + x^10 + x^6 + x^5 + x^4 + x^2 + 1.
pub mod bits;
pub mod extended;
pub mod standard;
