//! Verified core of the Umbra TrustZone-M secure kernel for the STM32N657:
//! software SHA-256 and AES-128, register-level peripheral drivers over an
//! MMIO access model, the board bring-up sequences, the decisions of the
//! enclave API and of the exception handlers, and the anti-rollback /
//! state-continuity stores kept in the TAMP backup registers.

pub mod aes;
pub mod antirollback;
pub mod attest;
pub mod bkpsram;
pub mod cryp;
pub mod crypto_engine;
pub mod crypto_wait;
pub mod dhuk_provision;
pub mod dma;
pub mod enclave_api;
pub mod exceptions;
pub mod gpio;
pub mod hash;
pub mod hdpl;
pub mod hpdma;
pub mod key_derivation;
pub mod measurement;
pub mod mce;
pub mod mmio;
pub mod mpu;
pub mod nsc;
pub mod platform;
pub mod prefetch;
pub mod raw_print;
pub mod rcc;
pub mod regprog;
pub mod bringup;
pub mod risaf;
pub mod saes;
pub mod sha256;
pub mod state_anchor;
pub mod state_flash;
pub mod state_store;
pub mod tamp_store;
pub mod uart;
pub mod uart_bridge;
pub mod validator;
