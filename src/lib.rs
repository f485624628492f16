//! An on-chain program for a token-launch platform: instruction decoding,
//! dispatch, and the template-creation handler, over a plain model of the
//! accounts that the host runtime hands to the program.

pub mod codec;
pub mod error;
pub mod state;
pub mod instruction;
pub mod processor;
pub mod laws;

pub use error::ProgramError;
pub use instruction::TokenInstruction;
pub use processor::{
    process_create_template, process_deploy_token, process_instruction,
    process_register_trading_pair, Account,
};
pub use state::{Pubkey, TokenDeployment, TokenTemplate, TradingPair};
