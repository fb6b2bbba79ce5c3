//! Rules engine for a four-player trick-taking card game of the Schafkopf
//! family: card model, ruleset catalogue, card ledger, bidding, trick play
//! and scoring.

pub mod table;
