pub mod ab;
pub mod ab_tt;
pub mod ab_tt_bitstates;
pub mod ab_tt_optimized;
pub mod alpha_beta;
pub mod local_state;
pub mod trans_table;
