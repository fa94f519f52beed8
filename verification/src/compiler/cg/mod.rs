//! Code generators that write their output as text.

pub mod nasm;
