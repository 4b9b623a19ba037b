pub mod lazy_smp;
