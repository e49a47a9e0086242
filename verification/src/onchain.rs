//! What the on-chain programs of this crate see of the Solana runtime, as
//! plain values: 32-byte keys, the accounts handed to an instruction, the
//! errors an instruction ends with, and program-derived addresses.
use vstd::prelude::*;
use solana_program::pubkey::Pubkey;

verus! {

/// A public key or program id.
pub type Key = [u8; 32];

/// An account handed to an instruction: its address, the program that
/// owns it, whether it signed, and its balance in lamports.
#[derive(Clone, Copy, Debug)]
pub struct AccountMeta {
    pub key: Key,
    pub owner: Key,
    pub is_signer: bool,
    pub lamports: u64,
}

/// How an instruction fails; `Other` carries the code of an error that
/// came from the runtime or from decoding account data.
#[derive(Clone, Copy, Debug, PartialEq, Eq, Structural)]
pub enum ProgError {
    Custom(u32),
    InvalidInstructionData,
    InvalidAccountData,
    InsufficientFunds,
    IncorrectProgramId,
    MissingRequiredSignature,
    NotEnoughAccountKeys,
    InvalidSeeds,
    AccountNotRentExempt,
    ArithmeticOverflow,
    Other(u64),
}

/// A lamport transfer the program asks the system program to make.
#[derive(Clone, Copy, Debug)]
pub struct Transfer {
    pub from: Key,
    pub to: Key,
    pub amount: u64,
}

/// Whether `k` is the all-zero key, `Pubkey::default()`.
pub open spec fn is_zero_key(k: Key) -> bool {
    forall|i: int| 0 <= i < 32 ==> k@[i] == 0
}

/// Whether two keys are the same.
pub fn key_eq(a: &Key, b: &Key) -> (r: bool)
    ensures
        r == (*a == *b),
        r == (a@ == b@),
{
    let mut i: usize = 0;
    while i < 32
        invariant
            i <= 32,
            forall|j: int| 0 <= j < i ==> a@[j] == b@[j],
        decreases 32 - i,
    {
        if a[i] != b[i] {
            assert(a@[i as int] != b@[i as int]);
            return false;
        }
        i = i + 1;
    }
    proof {
        broadcast use vstd::array::axiom_array_ext_equal;
        assert(*a =~= *b);
    }
    true
}

/// The all-zero key.
pub fn default_key() -> (k: Key)
    ensures
        is_zero_key(k),
{
    let k = [0u8; 32];
    assert(forall|i: int| 0 <= i < 32 ==> k@[i] == 0);
    k
}

/// Whether `k` is the all-zero key.
pub fn key_is_zero(k: &Key) -> (r: bool)
    ensures
        r == is_zero_key(*k),
{
    let mut i: usize = 0;
    while i < 32
        invariant
            i <= 32,
            forall|j: int| 0 <= j < i ==> k@[j] == 0,
        decreases 32 - i,
    {
        if k[i] != 0 {
            return false;
        }
        i = i + 1;
    }
    true
}

/// The program-derived address of `seeds` under `program_id` and its bump
/// seed, as `Pubkey::try_find_program_address` finds them.
pub uninterp spec fn program_address(seeds: Seq<Seq<u8>>, program_id: Seq<u8>) -> Option<(Seq<u8>, u8)>;

/// The seeds as plain bytes.
pub open spec fn seeds_view(seeds: Seq<Vec<u8>>) -> Seq<Seq<u8>> {
    Seq::new(seeds.len(), |i: int| seeds[i]@)
}

/// Calls `Pubkey::try_find_program_address`. Trusted: the search is a
/// function of the seeds and the program id.
#[verifier::external_body]
pub(crate) fn find_program_address(seeds: &Vec<Vec<u8>>, program_id: &Key) -> (r: Option<(Key, u8)>)
    ensures
        match r {
            Some(p) => program_address(seeds_view(seeds@), program_id@) == Some((p.0@, p.1)),
            None => program_address(seeds_view(seeds@), program_id@) is None,
        },
{
    let slices: Vec<&[u8]> = seeds.iter().map(|s| s.as_slice()).collect();
    Pubkey::try_find_program_address(&slices, &Pubkey::new_from_array(*program_id))
        .map(|(key, bump)| (key.to_bytes(), bump))
}

/// The address `find_program_address` gives for these seeds, or the error
/// `InvalidSeeds` when no bump seed yields one.
pub open spec fn pda_of(seeds: Seq<Seq<u8>>, program_id: Key) -> Result<Seq<u8>, ProgError> {
    match program_address(seeds, program_id@) {
        Some(p) => Ok(p.0),
        None => Err(ProgError::InvalidSeeds),
    }
}

/// Two seeds: a tag and a value.
pub fn two_seeds(tag: &[u8], value: &[u8]) -> (s: Vec<Vec<u8>>)
    ensures
        seeds_view(s@) == seq![tag@, value@],
{
    let mut a: Vec<u8> = Vec::new();
    let mut i: usize = 0;
    while i < tag.len()
        invariant
            i <= tag@.len(),
            a@ == tag@.take(i as int),
        decreases tag@.len() - i,
    {
        a.push(tag[i]);
        i = i + 1;
        assert(a@ =~= tag@.take(i as int));
    }
    let mut b: Vec<u8> = Vec::new();
    let mut j: usize = 0;
    while j < value.len()
        invariant
            j <= value@.len(),
            b@ == value@.take(j as int),
        decreases value@.len() - j,
    {
        b.push(value[j]);
        j = j + 1;
        assert(b@ =~= value@.take(j as int));
    }
    assert(tag@.take(tag@.len() as int) =~= tag@);
    assert(value@.take(value@.len() as int) =~= value@);
    let s = vec![a, b];
    assert(seeds_view(s@) =~= seq![tag@, value@]);
    s
}

/// Checks that `pda` is the program-derived address of the seeds.
pub fn check_pda(seeds: &Vec<Vec<u8>>, program_id: &Key, pda: &Key) -> (r: Result<(), ProgError>)
    ensures
        r == (match pda_of(seeds_view(seeds@), *program_id) {
            Ok(k) => if k == pda@ { Ok(()) } else { Err(ProgError::InvalidAccountData) },
            Err(e) => Err(e),
        }),
{
    match find_program_address(seeds, program_id) {
        Some((key, _bump)) => {
            if key_eq(&key, pda) {
                Ok(())
            } else {
                Err(ProgError::InvalidAccountData)
            }
        },
        None => Err(ProgError::InvalidSeeds),
    }
}

} // verus!
