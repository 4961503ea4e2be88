pub mod arange;
