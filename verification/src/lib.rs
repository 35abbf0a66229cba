//! Rules engine, computer opponents and save-game model for the four-player
//! trick-taking games Spardame (Norwegian queen-of-spades rules, played to
//! 500) and Hearts (Windows rules, played to 100).
pub mod seqs;
pub mod cards;
pub mod engine;
pub mod ai;
pub mod storage;
pub mod i18n;
pub mod app;
pub mod status;
pub mod face;
