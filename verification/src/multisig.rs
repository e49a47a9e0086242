//! An m-of-n multisignature redeem script (`m`, the keys, `n`,
//! `OP_CHECKMULTISIG`) and its pay-to-script-hash address, built with the
//! `bitcoin` crate.
use vstd::prelude::*;
use bitcoin::blockdata::script::{Builder, PushBytes};
use bitcoin::{Address, ScriptBuf};

verus! {

/// The Bitcoin networks an address can be made for.
#[derive(Clone, Copy, Debug, PartialEq, Eq, Structural)]
pub enum Net {
    Bitcoin,
    Testnet,
    Testnet4,
    Signet,
    Regtest,
}

/// The largest redeem script a P2SH address accepts.
pub const MAX_REDEEM_SCRIPT: usize = 520;

/// The `OP_CHECKMULTISIG` opcode.
pub const OP_CHECKMULTISIG: u8 = 0xae;

/// The push of `data`: its length in the shortest of the direct,
/// `OP_PUSHDATA1`, `OP_PUSHDATA2` and `OP_PUSHDATA4` forms, then the bytes.
pub open spec fn data_push(data: Seq<u8>) -> Seq<u8> {
    let n = data.len();
    if n < 0x4c {
        seq![n as u8] + data
    } else if n < 0x100 {
        seq![0x4cu8, n as u8] + data
    } else if n < 0x10000 {
        seq![0x4du8, (n % 0x100) as u8, (n / 0x100) as u8] + data
    } else {
        seq![
            0x4eu8,
            (n % 0x100) as u8,
            ((n / 0x100) % 0x100) as u8,
            ((n / 0x10000) % 0x100) as u8,
            (n / 0x1000000) as u8,
        ] + data
    }
}

/// The low bytes of `a`, least significant first, up to but not including
/// its most significant byte.
pub open spec fn low_bytes(a: nat) -> Seq<u8>
    decreases a,
{
    if a <= 0xff {
        Seq::empty()
    } else {
        seq![(a % 0x100) as u8] + low_bytes(a / 0x100)
    }
}

/// The most significant byte of `a`.
pub open spec fn top_byte(a: nat) -> nat
    decreases a,
{
    if a <= 0xff {
        a
    } else {
        top_byte(a / 0x100)
    }
}

/// The minimal script-number encoding of `n`: the magnitude little-endian
/// with the sign in the top bit, and an extra byte for the sign when the top
/// byte already uses that bit; nothing for zero.
pub open spec fn scriptint(n: int) -> Seq<u8> {
    if n == 0 {
        Seq::empty()
    } else {
        let a = (if n < 0 { -n } else { n }) as nat;
        let t = top_byte(a);
        let sign: nat = if n < 0 { 0x80 } else { 0 };
        if t >= 0x80 {
            low_bytes(a) + seq![t as u8, sign as u8]
        } else {
            low_bytes(a) + seq![(t + sign) as u8]
        }
    }
}

/// What `Builder::push_int` appends for a number other than `-1..=16`: its
/// script-number encoding, pushed as data.
pub open spec fn scriptint_push(n: i64) -> Seq<u8> {
    data_push(scriptint(n as int))
}

/// What `Builder::push_int` appends: `OP_0`, `OP_1NEGATE`, `OP_1` to
/// `OP_16`, or the number pushed as data.
pub open spec fn int_push(n: i64) -> Seq<u8> {
    if n == 0 {
        seq![0x00u8]
    } else if n == -1 {
        seq![0x4fu8]
    } else if 1 <= n <= 16 {
        seq![(0x50 + n) as u8]
    } else {
        scriptint_push(n)
    }
}

/// The pushes of the keys, one after the other.
pub open spec fn key_pushes(keys: Seq<Seq<u8>>) -> Seq<u8>
    decreases keys.len(),
{
    if keys.len() == 0 {
        Seq::empty()
    } else {
        key_pushes(keys.drop_last()) + data_push(keys.last())
    }
}

/// The redeem script for `m` of these keys.
pub open spec fn multisig_script(keys: Seq<Seq<u8>>, m: usize) -> Seq<u8> {
    int_push(m as i64) + key_pushes(keys) + int_push(keys.len() as i64) + seq![OP_CHECKMULTISIG]
}

/// The keys, by their bytes.
pub open spec fn key_bytes(keys: Seq<Vec<u8>>) -> Seq<Seq<u8>> {
    Seq::new(keys.len(), |i: int| keys[i]@)
}

/// Every key can be pushed: it is shorter than 2^32 bytes.
pub open spec fn pushable(keys: Seq<Vec<u8>>) -> bool {
    forall|i: int| 0 <= i < keys.len() ==> (#[trigger] keys[i])@.len() < 0x1_0000_0000
}

/// The text of the P2SH address of `script` on `net`.
pub uninterp spec fn p2sh_address_text(script: Seq<u8>, net: Net) -> Seq<char>;

/// Appends `Builder::push_int(n)` to the script. Trusted: `OP_0`,
/// `OP_1NEGATE` and `OP_1`..`OP_16` for the small numbers, otherwise the
/// bytes `write_scriptint` produces, pushed as a slice. `i64::MIN` is left
/// out: its magnitude overflows the eight-byte buffer of `write_scriptint`.
#[verifier::external_body]
fn script_push_int(script: Vec<u8>, n: i64) -> (r: Vec<u8>)
    requires
        n != i64::MIN,
    ensures
        r@ == script@ + int_push(n),
        n < -1 || n > 16 ==> r@ == script@ + scriptint_push(n),
{
    Builder::from(script).push_int(n).into_bytes()
}

/// Appends `Builder::push_slice(data)`. Trusted: the length prefix is the
/// one `ScriptBuf::push_slice` writes.
#[verifier::external_body]
fn script_push_slice(script: Vec<u8>, data: &[u8]) -> (r: Vec<u8>)
    requires
        data@.len() < 0x1_0000_0000,
    ensures
        r@ == script@ + data_push(data@),
{
    match <&PushBytes>::try_from(data) {
        Ok(bytes) => Builder::from(script).push_slice(bytes).into_bytes(),
        Err(_) => script,
    }
}

/// Appends `Builder::push_opcode(OP_CHECKMULTISIG)`. Trusted: it appends
/// the opcode's byte.
#[verifier::external_body]
fn script_push_checkmultisig(script: Vec<u8>) -> (r: Vec<u8>)
    ensures
        r@ == script@.push(OP_CHECKMULTISIG),
{
    Builder::from(script).push_opcode(bitcoin::blockdata::opcodes::all::OP_CHECKMULTISIG).into_bytes()
}

/// Calls `Address::p2sh` and renders the address. Trusted: it fails exactly
/// for scripts over 520 bytes, and the address is a function of script and
/// network.
#[verifier::external_body]
fn p2sh_address(script: &[u8], net: Net) -> (r: Option<String>)
    ensures
        r is Some <==> script@.len() <= MAX_REDEEM_SCRIPT,
        r matches Some(a) ==> a@ == p2sh_address_text(script@, net),
{
    let network = match net {
        Net::Bitcoin => bitcoin::Network::Bitcoin,
        Net::Testnet => bitcoin::Network::Testnet,
        Net::Testnet4 => bitcoin::Network::Testnet4,
        Net::Signet => bitcoin::Network::Signet,
        Net::Regtest => bitcoin::Network::Regtest,
    };
    let script = ScriptBuf::from_bytes(script.to_vec());
    match Address::p2sh(&script, network) {
        Ok(address) => Some(address.to_string()),
        Err(_) => None,
    }
}

/// The redeem script `m, keys..., n, OP_CHECKMULTISIG`.
pub fn redeem_script(pubkeys: &Vec<Vec<u8>>, m: usize) -> (script: Vec<u8>)
    requires
        pushable(pubkeys@),
        m <= i64::MAX,
        pubkeys@.len() <= i64::MAX,
    ensures
        script@ == multisig_script(key_bytes(pubkeys@), m),
{
    let mi = m as i64;
    let mut script = script_push_int(Vec::new(), mi);
    let ghost keys = key_bytes(pubkeys@);
    let mut i: usize = 0;
    while i < pubkeys.len()
        invariant
            pushable(pubkeys@),
            keys == key_bytes(pubkeys@),
            i <= pubkeys@.len(),
            script@ == int_push(m as i64) + key_pushes(keys.take(i as int)),
        decreases pubkeys@.len() - i,
    {
        script = script_push_slice(script, pubkeys[i].as_slice());
        assert(keys.take(i + 1).drop_last() =~= keys.take(i as int));
        i = i + 1;
        assert(script@ =~= int_push(m as i64) + key_pushes(keys.take(i as int)));
    }
    assert(keys.take(keys.len() as int) =~= keys);
    let n = pubkeys.len() as i64;
    script = script_push_int(script, n);
    script = script_push_checkmultisig(script);
    assert(script@ =~= multisig_script(keys, m));
    script
}

/// The P2SH address and redeem script of an `m`-of-`n` multisignature over
/// the keys; the script must fit in 520 bytes.
pub fn create_multisig_address(pubkeys: &Vec<Vec<u8>>, m: usize, network: Net) -> (r: (String, Vec<u8>))
    requires
        pushable(pubkeys@),
        m <= i64::MAX,
        pubkeys@.len() <= i64::MAX,
        multisig_script(key_bytes(pubkeys@), m).len() <= MAX_REDEEM_SCRIPT,
    ensures
        r.1@ == multisig_script(key_bytes(pubkeys@), m),
        r.0@ == p2sh_address_text(r.1@, network),
{
    let script = redeem_script(pubkeys, m);
    match p2sh_address(script.as_slice(), network) {
        Some(address) => (address, script),
        None => {
            assert(false);
            (String::new(), script)
        },
    }
}

/// [`create_multisig_address`] when the redeem script fits in 520 bytes,
/// else `None`.
pub fn try_create_multisig_address(pubkeys: &Vec<Vec<u8>>, m: usize, network: Net) -> (r: Option<(String, Vec<u8>)>)
    requires
        pushable(pubkeys@),
        m <= i64::MAX,
        pubkeys@.len() <= i64::MAX,
    ensures
        r is Some <==> multisig_script(key_bytes(pubkeys@), m).len() <= MAX_REDEEM_SCRIPT,
        r matches Some(p) ==> p.1@ == multisig_script(key_bytes(pubkeys@), m) && p.0@
            == p2sh_address_text(p.1@, network),
{
    let script = redeem_script(pubkeys, m);
    if script.len() <= MAX_REDEEM_SCRIPT {
        Some(create_multisig_address(pubkeys, m, network))
    } else {
        None
    }
}

} // verus!
