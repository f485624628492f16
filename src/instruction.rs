//! The instructions that the program accepts, and their binary encoding:
//! a one-byte tag followed by the fields of the variant in order.

use crate::codec::{
    lemma_prefix_join, lemma_prefix_split, lemma_text_unique, prefix_at,
    push_text, push_u64, read_text, read_u64, text_bytes, text_fits,
};
use crate::error::ProgramError;
use crate::state::Pubkey;
use vstd::bytes::{lemma_auto_spec_u64_to_from_le_bytes, spec_u64_to_le_bytes};
use vstd::prelude::*;

verus! {

/// What an instruction asks for.
pub ghost enum InstructionView {
    CreateTemplate { name: Seq<char>, symbol: Seq<char>, decimals: u8 },
    DeployToken { template_id: u64, initial_supply: u64 },
    RegisterTradingPair { token_address: Seq<u8>, initial_price: u64 },
}

impl InstructionView {
    /// Texts fit their length prefixes and identities are 32 bytes long.
    pub open spec fn wf(self) -> bool {
        match self {
            InstructionView::CreateTemplate { name, symbol, .. } => text_fits(name) && text_fits(
                symbol,
            ),
            InstructionView::DeployToken { .. } => true,
            InstructionView::RegisterTradingPair { token_address, .. } => token_address.len()
                == 32,
        }
    }

    /// The encoded form: tag 0, 1 or 2, then the fields.
    pub open spec fn bytes(self) -> Seq<u8> {
        match self {
            InstructionView::CreateTemplate { name, symbol, decimals } => seq![0u8] + text_bytes(
                name,
            ) + text_bytes(symbol) + seq![decimals],
            InstructionView::DeployToken { template_id, initial_supply } => seq![1u8]
                + spec_u64_to_le_bytes(template_id) + spec_u64_to_le_bytes(initial_supply),
            InstructionView::RegisterTradingPair { token_address, initial_price } => seq![2u8]
                + token_address + spec_u64_to_le_bytes(initial_price),
        }
    }
}

/// Where the fields of an encoded instruction stand.
pub proof fn lemma_instruction_parts(v: InstructionView, d: Seq<u8>)
    requires
        v.bytes() == d,
    ensures
        d.len() > 0,
        match v {
            InstructionView::CreateTemplate { name, symbol, decimals } => {
                &&& d[0] == 0
                &&& prefix_at(text_bytes(name), d, 1)
                &&& prefix_at(text_bytes(symbol), d, 1 + text_bytes(name).len() as int)
                &&& d.len() == 2 + text_bytes(name).len() + text_bytes(symbol).len()
                &&& d[d.len() - 1] == decimals
            },
            InstructionView::DeployToken { template_id, initial_supply } => {
                &&& d[0] == 1
                &&& d.len() == 17
                &&& prefix_at(spec_u64_to_le_bytes(template_id), d, 1)
                &&& prefix_at(spec_u64_to_le_bytes(initial_supply), d, 9)
            },
            InstructionView::RegisterTradingPair { token_address, initial_price } => {
                &&& d[0] == 2
                &&& d.len() == 9 + token_address.len()
                &&& prefix_at(token_address, d, 1)
                &&& prefix_at(spec_u64_to_le_bytes(initial_price), d, 1 + token_address.len() as int)
            },
        },
{
    lemma_auto_spec_u64_to_from_le_bytes();
    assert(prefix_at(d, d, 0)) by {
        assert(d.subrange(0, d.len() as int) =~= d);
    }
    match v {
        InstructionView::CreateTemplate { name, symbol, decimals } => {
            let a = seq![0u8];
            let b = text_bytes(name);
            let c = text_bytes(symbol);
            let e = seq![decimals];
            assert(a.len() == 1 && e.len() == 1);
            lemma_prefix_split(a + b + c, e, d, 0);
            lemma_prefix_split(a + b, c, d, 0);
            lemma_prefix_split(a, b, d, 0);
            assert(d.len() == (a + b + c).len() + 1);
            assert(d[0] == a[0]);
            assert(d[0] == 0);
            assert(d[d.len() - 1] == e[0]);
            assert(prefix_at(text_bytes(symbol), d, 1 + text_bytes(name).len() as int));
            assert(d.len() == 2 + text_bytes(name).len() + text_bytes(symbol).len());
        },
        InstructionView::DeployToken { template_id, initial_supply } => {
            let a = seq![1u8];
            let b = spec_u64_to_le_bytes(template_id);
            let c = spec_u64_to_le_bytes(initial_supply);
            lemma_prefix_split(a + b, c, d, 0);
            lemma_prefix_split(a, b, d, 0);
            assert(d[0] == (a + b + c)[0]);
        },
        InstructionView::RegisterTradingPair { token_address, initial_price } => {
            let a = seq![2u8];
            let b = token_address;
            let c = spec_u64_to_le_bytes(initial_price);
            assert(c.len() == 8);
            lemma_prefix_split(a + b, c, d, 0);
            lemma_prefix_split(a, b, d, 0);
            assert(d[0] == (a + b + c)[0]);
            assert(d.len() == 1 + b.len() + 8);
        },
    }
}

/// An instruction of the program.
#[derive(Debug)]
pub enum TokenInstruction {
    /// Create a token template.
    CreateTemplate { name: String, symbol: String, decimals: u8 },
    /// Deploy a token from a template.
    DeployToken { template_id: u64, initial_supply: u64 },
    /// Register a trading pair for a token.
    RegisterTradingPair { token_address: Pubkey, initial_price: u64 },
}

impl View for TokenInstruction {
    type V = InstructionView;

    open spec fn view(&self) -> InstructionView {
        match self {
            TokenInstruction::CreateTemplate { name, symbol, decimals } => {
                InstructionView::CreateTemplate { name: name@, symbol: symbol@, decimals: *decimals }
            },
            TokenInstruction::DeployToken { template_id, initial_supply } => {
                InstructionView::DeployToken {
                    template_id: *template_id,
                    initial_supply: *initial_supply,
                }
            },
            TokenInstruction::RegisterTradingPair { token_address, initial_price } => {
                InstructionView::RegisterTradingPair {
                    token_address: token_address@,
                    initial_price: *initial_price,
                }
            },
        }
    }
}

impl TokenInstruction {
    /// The encoded form of this instruction, or `BorshIoError` when a text is
    /// too long for its length prefix.
    pub fn try_to_vec(&self) -> (r: Result<Vec<u8>, ProgramError>)
        ensures
            match r {
                Ok(v) => self@.wf() && v@ == self@.bytes(),
                Err(e) => !self@.wf() && e == ProgramError::BorshIoError,
            },
    {
        let mut out: Vec<u8> = Vec::new();
        match self {
            TokenInstruction::CreateTemplate { name, symbol, decimals } => {
                if name.as_str().as_bytes().len() > 0xffff_ffffusize
                    || symbol.as_str().as_bytes().len() > 0xffff_ffffusize {
                    return Err(ProgramError::BorshIoError);
                }
                out.push(0u8);
                push_text(&mut out, name);
                push_text(&mut out, symbol);
                out.push(*decimals);
            },
            TokenInstruction::DeployToken { template_id, initial_supply } => {
                out.push(1u8);
                push_u64(&mut out, *template_id);
                push_u64(&mut out, *initial_supply);
            },
            TokenInstruction::RegisterTradingPair { token_address, initial_price } => {
                out.push(2u8);
                out.extend_from_slice(token_address.bytes.as_slice());
                push_u64(&mut out, *initial_price);
            },
        }
        assert(out@ =~= self@.bytes());
        Ok(out)
    }

    /// Decodes an instruction that takes up all of `data`.
    pub fn try_from_slice(data: &[u8]) -> (r: Result<TokenInstruction, ProgramError>)
        ensures
            match r {
                Ok(i) => i@.wf() && i@.bytes() == data@,
                Err(e) => e == ProgramError::InvalidInstructionData && forall|v: InstructionView|
                    v.wf() ==> #[trigger] v.bytes() != data@,
            },
    {
        let ghost d = data@;
        proof {
            lemma_auto_spec_u64_to_from_le_bytes();
            assert forall|v: InstructionView| #[trigger] v.bytes() == d implies v.bytes().len()
                > 0 by {
                lemma_instruction_parts(v, d);
            }
        }
        if data.len() == 0 {
            return Err(ProgramError::InvalidInstructionData);
        }
        let tag = data[0];
        assert(prefix_at(seq![tag], d, 0)) by {
            assert(d.subrange(0, 1) =~= seq![tag]);
        }
        if tag == 0 {
            let (name, p1) = match read_text(data, 1) {
                Some(x) => x,
                None => {
                    proof {
                        assert forall|v: InstructionView| v.wf() implies #[trigger] v.bytes()
                            != d by {
                            if v.bytes() == d {
                                lemma_instruction_parts(v, d);
                            }
                        }
                    }
                    return Err(ProgramError::InvalidInstructionData);
                },
            };
            let (symbol, p2) = match read_text(data, p1) {
                Some(x) => x,
                None => {
                    proof {
                        assert forall|v: InstructionView| v.wf() implies #[trigger] v.bytes()
                            != d by {
                            if v.bytes() == d {
                                lemma_instruction_parts(v, d);
                                if let InstructionView::CreateTemplate { name: n, .. } = v {
                                    lemma_text_unique(d, 1, n, name@);
                                }
                            }
                        }
                    }
                    return Err(ProgramError::InvalidInstructionData);
                },
            };
            if p2 >= data.len() || p2 + 1 != data.len() {
                proof {
                    assert forall|v: InstructionView| v.wf() implies #[trigger] v.bytes()
                        != d by {
                        if v.bytes() == d {
                            lemma_instruction_parts(v, d);
                            if let InstructionView::CreateTemplate { name: n, symbol: s, .. } = v {
                                lemma_text_unique(d, 1, n, name@);
                                lemma_text_unique(d, p1 as int, s, symbol@);
                            }
                        }
                    }
                }
                return Err(ProgramError::InvalidInstructionData);
            }
            let i = TokenInstruction::CreateTemplate { name, symbol, decimals: data[p2] };
            proof {
                let a = seq![0u8];
                let b = text_bytes(name@);
                let c = text_bytes(symbol@);
                assert(prefix_at(seq![data[p2 as int]], d, p2 as int)) by {
                    assert(d.subrange(p2 as int, p2 + 1) =~= seq![d[p2 as int]]);
                }
                lemma_prefix_join(a, b, d, 0);
                lemma_prefix_join(a + b, c, d, 0);
                lemma_prefix_join(a + b + c, seq![d[p2 as int]], d, 0);
                assert(d.subrange(0, d.len() as int) =~= d);
            }
            Ok(i)
        } else if tag == 1 || tag == 2 {
            let want: usize = if tag == 1 {
                17
            } else {
                41
            };
            if data.len() != want {
                proof {
                    assert forall|v: InstructionView| v.wf() implies #[trigger] v.bytes()
                        != d by {
                        if v.bytes() == d {
                            lemma_instruction_parts(v, d);
                        }
                    }
                }
                return Err(ProgramError::InvalidInstructionData);
            }
            let i = if tag == 1 {
                let template_id = match read_u64(data, 1) {
                    Some(x) => x,
                    None => return Err(ProgramError::InvalidInstructionData),
                };
                let initial_supply = match read_u64(data, 9) {
                    Some(x) => x,
                    None => return Err(ProgramError::InvalidInstructionData),
                };
                let i = TokenInstruction::DeployToken { template_id, initial_supply };
                proof {
                    let a = seq![1u8];
                    let b = spec_u64_to_le_bytes(template_id);
                    let c = spec_u64_to_le_bytes(initial_supply);
                    lemma_prefix_join(a, b, d, 0);
                    lemma_prefix_join(a + b, c, d, 0);
                    assert(d.subrange(0, d.len() as int) =~= d);
                }
                i
            } else {
                let token_address = match Pubkey::read(data, 1) {
                    Some(k) => k,
                    None => return Err(ProgramError::InvalidInstructionData),
                };
                let initial_price = match read_u64(data, 33) {
                    Some(x) => x,
                    None => return Err(ProgramError::InvalidInstructionData),
                };
                let i = TokenInstruction::RegisterTradingPair { token_address, initial_price };
                proof {
                    let a = seq![2u8];
                    let b = token_address@;
                    let c = spec_u64_to_le_bytes(initial_price);
                    lemma_prefix_join(a, b, d, 0);
                    lemma_prefix_join(a + b, c, d, 0);
                    assert(d.subrange(0, d.len() as int) =~= d);
                }
                i
            };
            Ok(i)
        } else {
            proof {
                assert forall|v: InstructionView| v.wf() implies #[trigger] v.bytes() != d by {
                    if v.bytes() == d {
                        lemma_instruction_parts(v, d);
                    }
                }
            }
            Err(ProgramError::InvalidInstructionData)
        }
    }
}

/// Two well-formed instructions with the same encoding are the same instruction.
pub proof fn lemma_instruction_unique(v1: InstructionView, v2: InstructionView)
    requires
        v1.wf(),
        v2.wf(),
        v1.bytes() == v2.bytes(),
    ensures
        v1 == v2,
{
    let d = v1.bytes();
    lemma_auto_spec_u64_to_from_le_bytes();
    lemma_instruction_parts(v1, d);
    lemma_instruction_parts(v2, d);
    match (v1, v2) {
        (
            InstructionView::CreateTemplate { name: n1, symbol: s1, .. },
            InstructionView::CreateTemplate { name: n2, symbol: s2, .. },
        ) => {
            lemma_text_unique(d, 1, n1, n2);
            lemma_text_unique(d, 1 + text_bytes(n1).len() as int, s1, s2);
        },
        (
            InstructionView::DeployToken { template_id: a1, initial_supply: b1 },
            InstructionView::DeployToken { template_id: a2, initial_supply: b2 },
        ) => {
            assert(spec_u64_to_le_bytes(a1) == spec_u64_to_le_bytes(a2));
            assert(spec_u64_to_le_bytes(b1) == spec_u64_to_le_bytes(b2));
        },
        (
            InstructionView::RegisterTradingPair { token_address: k1, initial_price: p1 },
            InstructionView::RegisterTradingPair { token_address: k2, initial_price: p2 },
        ) => {
            assert(k1 == k2);
            assert(spec_u64_to_le_bytes(p1) == spec_u64_to_le_bytes(p2));
        },
        _ => {},
    }
}

} // verus!
