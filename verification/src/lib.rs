//! Z-score statistics over a pasted series of numbers: the text is split
//! into fields, the values that go beyond a threshold are counted over the
//! whole series and over a fixed sub-range, a window of fixed width slides
//! over the series, and the whole is written out as one report.
//!
//! The library holds everything that is decided on text and on whole numbers,
//! and none of the floating-point arithmetic: a caller reads each field as a
//! number, tells for each value on which side of the threshold its z-score
//! lies, and writes means, deviations and percentages as fixed-point text.
pub mod format;
pub mod report;
pub mod tally;
pub mod text;
pub mod window;
