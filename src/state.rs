//! The records that the program stores in accounts, and their binary layout.

use crate::codec::{
    lemma_prefix_join, lemma_prefix_split, lemma_text_unique, prefix_at, push_text, read_text,
    text_bytes, text_fits, write_front,
};
use crate::error::ProgramError;
use vstd::prelude::*;

verus! {

/// A 32-byte account or program identity.
#[derive(Debug, Clone, Copy, PartialEq, Eq)]
pub struct Pubkey {
    pub bytes: [u8; 32],
}

impl View for Pubkey {
    type V = Seq<u8>;

    open spec fn view(&self) -> Seq<u8> {
        self.bytes@
    }
}

impl Pubkey {
    pub fn new_from_array(bytes: [u8; 32]) -> (r: Pubkey)
        ensures
            r@ == bytes@,
    {
        Pubkey { bytes }
    }

    pub fn to_bytes(&self) -> (r: [u8; 32])
        ensures
            r@ == self@,
    {
        self.bytes
    }

    /// Compares two identities byte by byte.
    pub fn same_as(&self, other: &Pubkey) -> (r: bool)
        ensures
            r == (self@ == other@),
    {
        let mut i: usize = 0;
        while i < 32
            invariant
                i <= 32,
                self@.len() == 32,
                other@.len() == 32,
                forall|j: int| 0 <= j < i ==> self@[j] == other@[j],
            decreases 32 - i,
        {
            if self.bytes[i] != other.bytes[i] {
                return false;
            }
            i = i + 1;
        }
        assert(self@ =~= other@);
        true
    }

    /// Reads an identity at `pos`.
    pub fn read(data: &[u8], pos: usize) -> (r: Option<Pubkey>)
        ensures
            match r {
                Some(k) => prefix_at(k@, data@, pos as int),
                None => pos + 32 > data@.len(),
            },
    {
        if pos > data.len() || data.len() - pos < 32 {
            return None;
        }
        let mut bytes = [0u8; 32];
        let mut i: usize = 0;
        while i < 32
            invariant
                i <= 32,
                pos + 32 <= data.len(),
                bytes@.len() == 32,
                forall|j: int| 0 <= j < i ==> bytes@[j] == data@[pos + j],
            decreases 32 - i,
        {
            bytes[i] = data[pos + i];
            i = i + 1;
        }
        let k = Pubkey { bytes };
        assert(data@.subrange(pos as int, pos + 32) =~= k@);
        Some(k)
    }
}

/// The byte that stands for a flag.
pub open spec fn flag_byte(b: bool) -> u8 {
    if b {
        1
    } else {
        0
    }
}

/// What a token template holds.
pub ghost struct TemplateView {
    pub name: Seq<char>,
    pub symbol: Seq<char>,
    pub decimals: u8,
    pub is_active: bool,
    pub created_by: Seq<u8>,
}

impl TemplateView {
    /// Both texts fit their length prefixes and the creator is a 32-byte identity.
    pub open spec fn wf(self) -> bool {
        text_fits(self.name) && text_fits(self.symbol) && self.created_by.len() == 32
    }

    /// The stored layout: name, symbol, decimals, active flag, creator.
    pub open spec fn bytes(self) -> Seq<u8> {
        text_bytes(self.name) + text_bytes(self.symbol) + seq![
            self.decimals,
            flag_byte(self.is_active),
        ] + self.created_by
    }
}

pub proof fn lemma_template_parts(t: TemplateView, d: Seq<u8>, pos: int)
    requires
        prefix_at(t.bytes(), d, pos),
    ensures
        prefix_at(text_bytes(t.name), d, pos),
        prefix_at(text_bytes(t.symbol), d, pos + text_bytes(t.name).len()),
        prefix_at(
            seq![t.decimals, flag_byte(t.is_active)],
            d,
            pos + text_bytes(t.name).len() + text_bytes(t.symbol).len(),
        ),
        prefix_at(t.created_by, d, pos + text_bytes(t.name).len() + text_bytes(t.symbol).len() + 2),
{
    let a = text_bytes(t.name);
    let b = text_bytes(t.symbol);
    let c = seq![t.decimals, flag_byte(t.is_active)];
    lemma_prefix_split(a + b + c, t.created_by, d, pos);
    lemma_prefix_split(a + b, c, d, pos);
    lemma_prefix_split(a, b, d, pos);
}

/// Two well-formed templates stored at one position are the same template.
pub proof fn lemma_template_unique(d: Seq<u8>, pos: int, t1: TemplateView, t2: TemplateView)
    requires
        t1.wf(),
        t2.wf(),
        prefix_at(t1.bytes(), d, pos),
        prefix_at(t2.bytes(), d, pos),
    ensures
        t1 == t2,
{
    lemma_template_parts(t1, d, pos);
    lemma_template_parts(t2, d, pos);
    lemma_text_unique(d, pos, t1.name, t2.name);
    lemma_text_unique(d, pos + text_bytes(t1.name).len(), t1.symbol, t2.symbol);
    let p = pos + text_bytes(t1.name).len() + text_bytes(t1.symbol).len();
    assert(d[p] == t1.decimals && d[p] == t2.decimals) by {
        assert(d.subrange(p, p + 2)[0] == d[p]);
    }
    assert(d[p + 1] == flag_byte(t1.is_active) && d[p + 1] == flag_byte(t2.is_active)) by {
        assert(d.subrange(p, p + 2)[1] == d[p + 1]);
    }
    assert(t1.created_by == t2.created_by);
}

/// A token template: the parameters from which tokens are later deployed.
#[derive(Debug)]
pub struct TokenTemplate {
    pub name: String,
    pub symbol: String,
    pub decimals: u8,
    pub is_active: bool,
    pub created_by: Pubkey,
}

impl View for TokenTemplate {
    type V = TemplateView;

    open spec fn view(&self) -> TemplateView {
        TemplateView {
            name: self.name@,
            symbol: self.symbol@,
            decimals: self.decimals,
            is_active: self.is_active,
            created_by: self.created_by@,
        }
    }
}

impl TokenTemplate {
    /// The stored form of this template, or `BorshIoError` when a text is too
    /// long for its length prefix.
    pub fn try_to_vec(&self) -> (r: Result<Vec<u8>, ProgramError>)
        ensures
            match r {
                Ok(v) => self@.wf() && v@ == self@.bytes(),
                Err(e) => !self@.wf() && e == ProgramError::BorshIoError,
            },
    {
        if self.name.as_str().as_bytes().len() > 0xffff_ffffusize
            || self.symbol.as_str().as_bytes().len() > 0xffff_ffffusize {
            return Err(ProgramError::BorshIoError);
        }
        let mut out: Vec<u8> = Vec::new();
        push_text(&mut out, &self.name);
        push_text(&mut out, &self.symbol);
        out.push(self.decimals);
        out.push(if self.is_active {
            1u8
        } else {
            0u8
        });
        out.extend_from_slice(self.created_by.bytes.as_slice());
        assert(out@ =~= self@.bytes());
        Ok(out)
    }

    /// Writes the stored form over the front of `buf`, keeping the rest of
    /// it; fails with `BorshIoError`, leaving `buf` as it was, when the form
    /// cannot be built or is longer than `buf`.
    pub fn serialize(&self, buf: &mut Vec<u8>) -> (r: Result<(), ProgramError>)
        ensures
            r is Ok <==> self@.wf() && self@.bytes().len() <= old(buf)@.len(),
            r is Ok ==> final(buf)@ == self@.bytes() + old(buf)@.skip(
                self@.bytes().len() as int,
            ),
            r is Err ==> r == Err::<(), ProgramError>(ProgramError::BorshIoError) && final(buf)@
                == old(buf)@,
    {
        let bytes = match self.try_to_vec() {
            Ok(v) => v,
            Err(e) => return Err(e),
        };
        if bytes.len() > buf.len() {
            return Err(ProgramError::BorshIoError);
        }
        write_front(buf, &bytes);
        Ok(())
    }

    /// Reads a template from the front of `data`, as `serialize` leaves it;
    /// bytes after the template are not read.
    pub fn deserialize(data: &[u8]) -> (r: Result<TokenTemplate, ProgramError>)
        ensures
            match r {
                Ok(t) => t@.wf() && prefix_at(t@.bytes(), data@, 0),
                Err(e) => e == ProgramError::InvalidAccountData && forall|v: TemplateView|
                    v.wf() ==> !prefix_at(#[trigger] v.bytes(), data@, 0),
            },
    {
        let ghost d = data@;
        let (name, p1) = match read_text(data, 0) {
            Some(x) => x,
            None => {
                proof {
                    assert forall|v: TemplateView| v.wf() implies !prefix_at(
                        #[trigger] v.bytes(),
                        d,
                        0,
                    ) by {
                        if prefix_at(v.bytes(), d, 0) {
                            lemma_template_parts(v, d, 0);
                        }
                    }
                }
                return Err(ProgramError::InvalidAccountData);
            },
        };
        let (symbol, p2) = match read_text(data, p1) {
            Some(x) => x,
            None => {
                proof {
                    assert forall|v: TemplateView| v.wf() implies !prefix_at(
                        #[trigger] v.bytes(),
                        d,
                        0,
                    ) by {
                        if prefix_at(v.bytes(), d, 0) {
                            lemma_template_parts(v, d, 0);
                            lemma_text_unique(d, 0, v.name, name@);
                        }
                    }
                }
                return Err(ProgramError::InvalidAccountData);
            },
        };
        let flag = if p2 < data.len() && data.len() - p2 >= 2 {
            data[p2 + 1]
        } else {
            2u8
        };
        let key = if flag <= 1 {
            Pubkey::read(data, p2 + 2)
        } else {
            None
        };
        match key {
            Some(created_by) => {
                let t = TokenTemplate {
                    name,
                    symbol,
                    decimals: data[p2],
                    is_active: flag == 1,
                    created_by,
                };
                proof {
                    assert(prefix_at(seq![t.decimals, flag_byte(t.is_active)], d, p2 as int)) by {
                        assert(d.subrange(p2 as int, p2 + 2) =~= seq![
                            t.decimals,
                            flag_byte(t.is_active),
                        ]);
                    }
                    let a = text_bytes(t@.name);
                    let b = text_bytes(t@.symbol);
                    let c = seq![t.decimals, flag_byte(t.is_active)];
                    lemma_prefix_join(a, b, d, 0);
                    lemma_prefix_join(a + b, c, d, 0);
                    lemma_prefix_join(a + b + c, t@.created_by, d, 0);
                }
                Ok(t)
            },
            None => {
                proof {
                    assert forall|v: TemplateView| v.wf() implies !prefix_at(
                        #[trigger] v.bytes(),
                        d,
                        0,
                    ) by {
                        if prefix_at(v.bytes(), d, 0) {
                            lemma_template_parts(v, d, 0);
                            lemma_text_unique(d, 0, v.name, name@);
                            lemma_text_unique(d, p1 as int, v.symbol, symbol@);
                            assert(d.subrange(p2 as int, p2 + 2)[1] == d[p2 + 1]);
                        }
                    }
                }
                Err(ProgramError::InvalidAccountData)
            },
        }
    }
}

/// A token deployed from a template.
#[derive(Debug, Clone, Copy)]
pub struct TokenDeployment {
    pub template_id: u64,
    pub token_address: Pubkey,
    pub initial_supply: u64,
    pub owner: Pubkey,
    pub creation_timestamp: i64,
}

/// A trading pair registered for a deployed token.
#[derive(Debug, Clone, Copy)]
pub struct TradingPair {
    pub token_address: Pubkey,
    pub initial_price: u64,
    pub creator: Pubkey,
    pub is_active: bool,
    pub creation_timestamp: i64,
}

} // verus!
