pub mod decoder;
pub mod statistics;
pub mod timestamp;

pub use decoder::{PowerEvent, VoltcraftData, VoltcraftError};
pub use statistics::{PowerBlackout, PowerInterval, PowerStats, VoltcraftStatistics};
pub use timestamp::{LocalDate, Timestamp};
