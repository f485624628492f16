//! Dispatch of an instruction to its handler, and the handlers, over the
//! accounts that the host runtime passes to the program.

use crate::codec::write_front;
use crate::error::ProgramError;
use crate::instruction::{lemma_instruction_unique, InstructionView, TokenInstruction};
use crate::state::{Pubkey, TemplateView, TokenTemplate};
use vstd::prelude::*;

verus! {

/// An account as the program sees it: its identity, the program that owns
/// it, whether it signed the transaction, and its data buffer.
pub struct Account {
    pub key: Pubkey,
    pub owner: Pubkey,
    pub is_signer: bool,
    pub data: Vec<u8>,
}

/// The template that CreateTemplate builds: active, created by the second account.
pub open spec fn new_template(
    accounts: Seq<Account>,
    name: Seq<char>,
    symbol: Seq<char>,
    decimals: u8,
) -> TemplateView {
    TemplateView { name, symbol, decimals, is_active: true, created_by: accounts[1].key@ }
}

/// What CreateTemplate returns: the accounts are checked in order (two are
/// present, the admin signed, the template account belongs to the program),
/// then the template must fit the template account's buffer.
pub open spec fn create_template_result(
    program_id: Seq<u8>,
    accounts: Seq<Account>,
    name: Seq<char>,
    symbol: Seq<char>,
    decimals: u8,
) -> Result<(), ProgramError> {
    if accounts.len() < 2 {
        Err(ProgramError::NotEnoughAccountKeys)
    } else if !accounts[1].is_signer {
        Err(ProgramError::MissingRequiredSignature)
    } else if accounts[0].owner@ != program_id {
        Err(ProgramError::IncorrectProgramId)
    } else {
        let t = new_template(accounts, name, symbol, decimals);
        if t.wf() && t.bytes().len() <= accounts[0].data@.len() {
            Ok(())
        } else {
            Err(ProgramError::BorshIoError)
        }
    }
}

/// CreateTemplate went from `before` to `after` with result `r`: on success
/// only the template account's data changed, its front now holding the
/// template; on failure nothing changed.
pub open spec fn create_template_done(
    program_id: Seq<u8>,
    before: Seq<Account>,
    after: Seq<Account>,
    name: Seq<char>,
    symbol: Seq<char>,
    decimals: u8,
    r: Result<(), ProgramError>,
) -> bool {
    &&& r == create_template_result(program_id, before, name, symbol, decimals)
    &&& r is Ok ==> {
        let t = new_template(before, name, symbol, decimals);
        &&& after.len() == before.len()
        &&& forall|i: int| 1 <= i < before.len() ==> after[i] == before[i]
        &&& after[0].key == before[0].key
        &&& after[0].owner == before[0].owner
        &&& after[0].is_signer == before[0].is_signer
        &&& after[0].data@ == t.bytes() + before[0].data@.skip(t.bytes().len() as int)
    }
    &&& r is Err ==> after == before
}

/// The program ran `data` from `before` to `after` with result `r`: bytes
/// that encode no instruction fail with `InvalidInstructionData`,
/// CreateTemplate does its work, and the other instructions succeed and
/// change nothing.
pub open spec fn instruction_done(
    program_id: Seq<u8>,
    data: Seq<u8>,
    before: Seq<Account>,
    after: Seq<Account>,
    r: Result<(), ProgramError>,
) -> bool {
    &&& (forall|v: InstructionView| v.wf() ==> #[trigger] v.bytes() != data) ==> {
        &&& r == Err::<(), ProgramError>(ProgramError::InvalidInstructionData)
        &&& after == before
    }
    &&& forall|v: InstructionView| #[trigger] v.bytes() == data && v.wf() ==> match v {
        InstructionView::CreateTemplate { name, symbol, decimals } => create_template_done(
            program_id,
            before,
            after,
            name,
            symbol,
            decimals,
            r,
        ),
        _ => r == Ok::<(), ProgramError>(()) && after == before,
    }
}

/// Decodes `instruction_data` and runs the instruction it names.
pub fn process_instruction(
    program_id: &Pubkey,
    accounts: &mut Vec<Account>,
    instruction_data: &[u8],
) -> (r: Result<(), ProgramError>)
    ensures
        instruction_done(program_id@, instruction_data@, old(accounts)@, final(accounts)@, r),
{
    let instruction = match TokenInstruction::try_from_slice(instruction_data) {
        Ok(i) => i,
        Err(e) => return Err(e),
    };
    let ghost iv = instruction@;
    proof {
        assert forall|v: InstructionView| #[trigger] v.bytes() == instruction_data@ && v.wf()
            implies v == iv by {
            lemma_instruction_unique(v, iv);
        }
    }
    match instruction {
        TokenInstruction::CreateTemplate { name, symbol, decimals } => {
            process_create_template(program_id, accounts, name, symbol, decimals)
        },
        TokenInstruction::DeployToken { template_id, initial_supply } => {
            process_deploy_token(program_id, accounts.as_slice(), template_id, initial_supply)
        },
        TokenInstruction::RegisterTradingPair { token_address, initial_price } => {
            process_register_trading_pair(
                program_id,
                accounts.as_slice(),
                token_address,
                initial_price,
            )
        },
    }
}

/// Creates a token template in the first account, on behalf of the admin
/// that the second account names.
pub fn process_create_template(
    program_id: &Pubkey,
    accounts: &mut Vec<Account>,
    name: String,
    symbol: String,
    decimals: u8,
) -> (r: Result<(), ProgramError>)
    ensures
        create_template_done(
            program_id@,
            old(accounts)@,
            final(accounts)@,
            name@,
            symbol@,
            decimals,
            r,
        ),
{
    if accounts.len() < 2 {
        return Err(ProgramError::NotEnoughAccountKeys);
    }
    if !accounts[1].is_signer {
        return Err(ProgramError::MissingRequiredSignature);
    }
    if !accounts[0].owner.same_as(program_id) {
        return Err(ProgramError::IncorrectProgramId);
    }
    let template = TokenTemplate {
        name,
        symbol,
        decimals,
        is_active: true,
        created_by: accounts[1].key,
    };
    let bytes = match template.try_to_vec() {
        Ok(v) => v,
        Err(e) => return Err(e),
    };
    if bytes.len() > accounts[0].data.len() {
        return Err(ProgramError::BorshIoError);
    }
    write_front(&mut accounts[0].data, &bytes);
    Ok(())
}

/// Deploys a token from a template: nothing is read or written yet.
pub fn process_deploy_token(
    program_id: &Pubkey,
    accounts: &[Account],
    template_id: u64,
    initial_supply: u64,
) -> (r: Result<(), ProgramError>)
    ensures
        r == Ok::<(), ProgramError>(()),
{
    Ok(())
}

/// Registers a trading pair for a token: nothing is read or written yet.
pub fn process_register_trading_pair(
    program_id: &Pubkey,
    accounts: &[Account],
    token_address: Pubkey,
    initial_price: u64,
) -> (r: Result<(), ProgramError>)
    ensures
        r == Ok::<(), ProgramError>(()),
{
    Ok(())
}

} // verus!
