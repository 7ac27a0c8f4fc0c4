//! The bookkeeping and the rules of a signal bot that watches price against
//! the levels its owner draws, and says what a finished candle did at them.

pub mod awake;
pub mod bands;
pub mod candle;
pub mod closes;
pub mod due;
pub mod files;
pub mod frames;
pub mod history;
pub mod laws;
pub mod line;
pub mod memory;
pub mod moment;
pub mod news;
pub mod price;
pub mod pulse;
pub mod refusals;
pub mod reload;
pub mod review;
pub mod secrets;
pub mod text;
pub mod trouble;
pub mod version;
pub mod watcher;
pub mod words;
