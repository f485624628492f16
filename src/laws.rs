//! What holds of every run of the program.

use crate::codec::{prefix_at, text_fits};
use crate::error::ProgramError;
use crate::instruction::InstructionView;
use crate::processor::{instruction_done, new_template, Account};
use crate::state::{lemma_template_unique, TemplateView};
use vstd::prelude::*;

verus! {

/// A CreateTemplate instruction with texts that fit, run with a signing admin
/// and a template account that the program owns and that is large enough,
/// succeeds, and the only record that the template account's data then holds
/// is the one with the given name, symbol and decimals, active, and created
/// by the admin.
pub proof fn lemma_created_template_reads_back(
    program_id: Seq<u8>,
    data: Seq<u8>,
    before: Seq<Account>,
    after: Seq<Account>,
    r: Result<(), ProgramError>,
    name: Seq<char>,
    symbol: Seq<char>,
    decimals: u8,
)
    requires
        data == (InstructionView::CreateTemplate { name, symbol, decimals }).bytes(),
        text_fits(name),
        text_fits(symbol),
        before.len() >= 2,
        before[1].is_signer,
        before[0].owner@ == program_id,
        new_template(before, name, symbol, decimals).bytes().len() <= before[0].data@.len(),
        instruction_done(program_id, data, before, after, r),
    ensures
        r is Ok,
        after[0].key == before[0].key,
        prefix_at(new_template(before, name, symbol, decimals).bytes(), after[0].data@, 0),
        forall|t: TemplateView|
            t.wf() && prefix_at(#[trigger] t.bytes(), after[0].data@, 0) ==> t == (TemplateView {
                name,
                symbol,
                decimals,
                is_active: true,
                created_by: before[1].key@,
            }),
{
    let v = InstructionView::CreateTemplate { name, symbol, decimals };
    assert(v.bytes() == data && v.wf());
    let t0 = new_template(before, name, symbol, decimals);
    let d = after[0].data@;
    assert(before[1].key@.len() == 32);
    assert(d.subrange(0, t0.bytes().len() as int) =~= t0.bytes());
    assert forall|t: TemplateView| t.wf() && prefix_at(#[trigger] t.bytes(), d, 0) implies t
        == t0 by {
        lemma_template_unique(d, 0, t, t0);
    }
}

/// A CreateTemplate instruction whose admin account did not sign fails with
/// `MissingRequiredSignature` and changes no account.
pub proof fn lemma_unsigned_admin_is_refused(
    program_id: Seq<u8>,
    data: Seq<u8>,
    before: Seq<Account>,
    after: Seq<Account>,
    r: Result<(), ProgramError>,
    name: Seq<char>,
    symbol: Seq<char>,
    decimals: u8,
)
    requires
        data == (InstructionView::CreateTemplate { name, symbol, decimals }).bytes(),
        text_fits(name),
        text_fits(symbol),
        before.len() >= 2,
        !before[1].is_signer,
        instruction_done(program_id, data, before, after, r),
    ensures
        r == Err::<(), ProgramError>(ProgramError::MissingRequiredSignature),
        after == before,
{
    let v = InstructionView::CreateTemplate { name, symbol, decimals };
    assert(v.bytes() == data && v.wf());
}

/// A CreateTemplate instruction signed by its admin whose template account
/// the program does not own fails with `IncorrectProgramId` and changes no
/// account.
pub proof fn lemma_foreign_template_account_is_refused(
    program_id: Seq<u8>,
    data: Seq<u8>,
    before: Seq<Account>,
    after: Seq<Account>,
    r: Result<(), ProgramError>,
    name: Seq<char>,
    symbol: Seq<char>,
    decimals: u8,
)
    requires
        data == (InstructionView::CreateTemplate { name, symbol, decimals }).bytes(),
        text_fits(name),
        text_fits(symbol),
        before.len() >= 2,
        before[1].is_signer,
        before[0].owner@ != program_id,
        instruction_done(program_id, data, before, after, r),
    ensures
        r == Err::<(), ProgramError>(ProgramError::IncorrectProgramId),
        after == before,
{
    let v = InstructionView::CreateTemplate { name, symbol, decimals };
    assert(v.bytes() == data && v.wf());
}

/// DeployToken and RegisterTradingPair succeed on any accounts and leave
/// every account, its data included, as it was.
pub proof fn lemma_placeholders_change_nothing(
    program_id: Seq<u8>,
    v: InstructionView,
    before: Seq<Account>,
    after: Seq<Account>,
    r: Result<(), ProgramError>,
)
    requires
        v is DeployToken || v is RegisterTradingPair,
        v.wf(),
        instruction_done(program_id, v.bytes(), before, after, r),
    ensures
        r == Ok::<(), ProgramError>(()),
        after == before,
        forall|i: int| 0 <= i < before.len() ==> (#[trigger] after[i]).data@ == before[i].data@,
{
}

} // verus!
