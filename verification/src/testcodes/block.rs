//! A block of transactions, mined until its hash starts with two zeros, with
//! a Merkle root over the hashes of its transactions.
use vstd::prelude::*;
use vstd::string::{StringExecFns, StrSliceExecFns};
use crate::digest::{hash_text, is_lower_hex, sha256_hex};
use crate::pow::meets_difficulty;
use crate::testcodes::transaction::{tx_view, Transaction};
use crate::text::{concat_strs, decimal, push_decimal};

verus! {

/// Number of leading zeros a mined block hash starts with.
pub const MINING_ZEROS: usize = 2;

/// A block: position, link to its predecessor, time, transactions, nonce,
/// hash and Merkle root.
#[derive(Debug)]
pub struct Block {
    pub index: u32,
    pub previous_hash: String,
    pub timestamp: u64,
    pub trans_data: Vec<Transaction>,
    pub nonce: u64,
    pub hash: String,
    pub merkle_root: String,
}

/// The transactions as plain values.
pub open spec fn txs_view(txs: Seq<Transaction>) -> Seq<(u64, u64, Seq<char>, Seq<char>)> {
    Seq::new(txs.len(), |i: int| tx_view(txs[i]))
}

/// What std's pretty `Debug` formatting (`{:#?}`) prints for a list of
/// transactions with these fields.
pub uninterp spec fn debug_listing(txs: Seq<(u64, u64, Seq<char>, Seq<char>)>) -> Seq<char>;

/// Formats the transactions with `format!("{:#?}", ..)`, the derived
/// pretty `Debug` rendering. Trusted: the text depends on the fields alone.
#[verifier::external_body]
pub(crate) fn pretty_debug(txs: &Vec<Transaction>) -> (s: String)
    ensures
        s@ == debug_listing(txs_view(txs@)),
{
    format!("{:#?}", txs)
}

/// One level up a Merkle tree: each pair of hashes hashed together, the
/// last one paired with itself when the count is odd.
pub open spec fn merkle_level(h: Seq<Seq<char>>) -> Seq<Seq<char>> {
    Seq::new(
        ((h.len() + 1) / 2) as nat,
        |i: int| hash_text(h[2 * i] + (if 2 * i + 1 < h.len() { h[2 * i + 1] } else { h[2 * i] })),
    )
}

/// The Merkle root of a list of hashes: empty for none, the hash itself for
/// one, else the root of the level above.
pub open spec fn merkle_root(h: Seq<Seq<char>>) -> Seq<char>
    decreases h.len(),
{
    if h.len() == 0 {
        Seq::empty()
    } else if h.len() == 1 {
        h[0]
    } else {
        merkle_root(merkle_level(h))
    }
}

/// The transaction hashes of a list of transactions, in order.
pub open spec fn tx_hashes(txs: Seq<Transaction>) -> Seq<Seq<char>> {
    Seq::new(txs.len(), |i: int| txs[i].tx_hash@)
}

/// The views of a list of strings.
pub open spec fn views(v: Seq<String>) -> Seq<Seq<char>> {
    Seq::new(v.len(), |i: int| v[i]@)
}

/// The text a block is hashed from: index, previous hash, time, the
/// transactions pretty-printed, and the nonce.
pub open spec fn text_of_parts(
    index: u32,
    previous_hash: Seq<char>,
    timestamp: u64,
    txs: Seq<(u64, u64, Seq<char>, Seq<char>)>,
    nonce: u64,
) -> Seq<char> {
    decimal(index as nat) + previous_hash + decimal(timestamp as nat) + debug_listing(txs) + decimal(
        nonce as nat,
    )
}

/// Some nonce from `from` on makes the block with these parts accepted.
pub open spec fn parts_solvable(
    index: u32,
    previous_hash: Seq<char>,
    timestamp: u64,
    txs: Seq<(u64, u64, Seq<char>, Seq<char>)>,
    from: u64,
) -> bool {
    exists|k: u64|
        from <= k && #[trigger] mined_hash(
            hash_text(text_of_parts(index, previous_hash, timestamp, txs, k)),
        )
}

/// The text block `b` is hashed from at nonce `nonce`.
pub open spec fn block_text(b: Block, nonce: u64) -> Seq<char> {
    text_of_parts(b.index, b.previous_hash@, b.timestamp, txs_view(b.trans_data@), nonce)
}

/// The hash of a block at nonce `nonce`.
pub open spec fn block_hash(b: Block, nonce: u64) -> Seq<char> {
    hash_text(block_text(b, nonce))
}

/// The hash is accepted: it starts with two zeros.
pub open spec fn mined_hash(h: Seq<char>) -> bool {
    meets_difficulty(h, MINING_ZEROS as nat)
}

/// Some nonce from `from` on gives an accepted hash.
pub open spec fn solvable_from(b: Block, from: u64) -> bool {
    exists|k: u64| from <= k && #[trigger] mined_hash(block_hash(b, k))
}

/// `k` is the first nonce from `from` on that gives an accepted hash.
pub open spec fn first_solution(b: Block, from: u64, k: u64) -> bool {
    &&& from <= k
    &&& mined_hash(block_hash(b, k))
    &&& forall|j: u64| from <= j < k ==> !mined_hash(#[trigger] block_hash(b, j))
}

/// The two blocks agree on everything the hash is made from but the nonce.
pub open spec fn same_contents(a: Block, b: Block) -> bool {
    &&& a.index == b.index
    &&& a.previous_hash@ == b.previous_hash@
    &&& a.timestamp == b.timestamp
    &&& a.trans_data@ == b.trans_data@
}

/// A mined block: its hash is its hash at its nonce, it is accepted, and
/// its Merkle root is that of its transactions.
pub open spec fn is_mined(b: Block) -> bool {
    &&& b.hash@ == block_hash(b, b.nonce)
    &&& mined_hash(b.hash@)
    &&& b.merkle_root@ == merkle_root(tx_hashes(b.trans_data@))
}

proof fn lemma_level_shorter(h: Seq<Seq<char>>)
    requires
        h.len() >= 2,
    ensures
        merkle_level(h).len() < h.len(),
        merkle_level(h).len() >= 1,
{
}

/// Building a level pair by pair: appending two hashes to a list of even
/// length appends the hash of the first followed by the second; appending
/// one hash appends the hash of it followed by itself; the empty list has
/// an empty level.
pub proof fn lemma_level_by_pairs(h: Seq<Seq<char>>, x: Seq<char>, y: Seq<char>)
    requires
        h.len() % 2 == 0,
    ensures
        merkle_level(Seq::empty()) == Seq::<Seq<char>>::empty(),
        merkle_level(h + seq![x, y]) == merkle_level(h).push(hash_text(x + y)),
        merkle_level(h.push(x)) == merkle_level(h).push(hash_text(x + x)),
{
    assert(merkle_level(Seq::<Seq<char>>::empty()) =~= Seq::<Seq<char>>::empty());
    let h2 = h + seq![x, y];
    assert(merkle_level(h2).len() == merkle_level(h).len() + 1);
    assert forall|i: int| 0 <= i < merkle_level(h2).len() implies #[trigger] merkle_level(h2)[i] == merkle_level(
        h,
    ).push(hash_text(x + y))[i] by {
        if i < merkle_level(h).len() {
            assert(h2[2 * i] == h[2 * i]);
            assert(h2[2 * i + 1] == h[2 * i + 1]);
        } else {
            assert(2 * i == h.len());
            assert(h2[2 * i] == x);
            assert(h2[2 * i + 1] == y);
        }
    }
    assert(merkle_level(h2) =~= merkle_level(h).push(hash_text(x + y)));
    let h1 = h.push(x);
    assert(merkle_level(h1).len() == merkle_level(h).len() + 1);
    assert forall|i: int| 0 <= i < merkle_level(h1).len() implies #[trigger] merkle_level(h1)[i] == merkle_level(
        h,
    ).push(hash_text(x + x))[i] by {
        if i < merkle_level(h).len() {
            assert(h1[2 * i] == h[2 * i]);
            assert(h1[2 * i + 1] == h[2 * i + 1]);
        } else {
            assert(2 * i == h.len());
            assert(h1[2 * i] == x);
        }
    }
    assert(merkle_level(h1) =~= merkle_level(h).push(hash_text(x + x)));
}

/// `2^k`.
pub open spec fn two_pow(k: nat) -> nat
    decreases k,
{
    if k == 0 { 1 } else { 2 * two_pow((k - 1) as nat) }
}

/// The level of two lists, the first of even length, is the level of the
/// first followed by that of the second.
proof fn lemma_level_concat(h1: Seq<Seq<char>>, h2: Seq<Seq<char>>)
    requires
        h1.len() % 2 == 0,
    ensures
        merkle_level(h1 + h2) == merkle_level(h1) + merkle_level(h2),
{
    let h = h1 + h2;
    let l1 = merkle_level(h1);
    assert(l1.len() * 2 == h1.len());
    assert(merkle_level(h).len() == l1.len() + merkle_level(h2).len());
    assert forall|i: int| 0 <= i < merkle_level(h).len() implies #[trigger] merkle_level(h)[i] == (l1
        + merkle_level(h2))[i] by {
        if i < l1.len() {
            assert(h[2 * i] == h1[2 * i]);
            assert(h[2 * i + 1] == h1[2 * i + 1]);
        } else {
            let j = i - l1.len();
            assert(2 * i == h1.len() + 2 * j);
            assert(h[2 * i] == h2[2 * j]);
            if 2 * j + 1 < h2.len() {
                assert(h[2 * i + 1] == h2[2 * j + 1]);
            }
        }
    }
    assert(merkle_level(h) =~= l1 + merkle_level(h2));
}

/// The Merkle root of two halves of the same power-of-two size is the hash
/// of the first half's root followed by the second half's.
pub proof fn lemma_root_of_halves(h1: Seq<Seq<char>>, h2: Seq<Seq<char>>, k: nat)
    requires
        h1.len() == two_pow(k),
        h2.len() == two_pow(k),
    ensures
        merkle_root(h1 + h2) == hash_text(merkle_root(h1) + merkle_root(h2)),
    decreases k,
{
    let h = h1 + h2;
    if k == 0 {
        assert(h =~= seq![h1[0], h2[0]]);
        assert(merkle_level(h).len() == 1);
        assert(merkle_level(h)[0] == hash_text(h1[0] + h2[0]));
        assert(merkle_root(merkle_level(h)) == merkle_level(h)[0]);
    } else {
        let k1 = (k - 1) as nat;
        assert(two_pow(k) == 2 * two_pow(k1));
        lemma_level_concat(h1, h2);
        assert(merkle_level(h1).len() == two_pow(k1));
        assert(merkle_level(h2).len() == two_pow(k1));
        lemma_root_of_halves(merkle_level(h1), merkle_level(h2), k1);
        assert(two_pow(k1) >= 1) by {
            lemma_two_pow_positive(k1);
        }
    }
}

proof fn lemma_two_pow_positive(k: nat)
    ensures
        two_pow(k) >= 1,
    decreases k,
{
    if k > 0 {
        lemma_two_pow_positive((k - 1) as nat);
    }
}

proof fn lemma_same_hash(a: Block, b: Block, nonce: u64)
    requires
        same_contents(a, b),
    ensures
        block_hash(a, nonce) == block_hash(b, nonce),
{
    assert(txs_view(a.trans_data@) =~= txs_view(b.trans_data@));
    assert(block_text(a, nonce) =~= block_text(b, nonce));
}

/// Hashes the strings pairwise into the next level of a Merkle tree.
fn next_level(hashes: &Vec<String>) -> (next: Vec<String>)
    requires
        hashes.len() >= 1,
    ensures
        views(next@) == merkle_level(views(hashes@)),
        forall|j: int| 0 <= j < next@.len() ==> (#[trigger] next@[j])@.len() == 64 && is_lower_hex(next@[j]@),
{
    let ghost h = views(hashes@);
    let n = hashes.len();
    let half = n / 2 + n % 2;
    assert(half == (h.len() + 1) / 2);
    let mut next: Vec<String> = Vec::new();
    let mut i: usize = 0;
    while i < half
        invariant
            n == hashes@.len(),
            h == views(hashes@),
            half == (h.len() + 1) / 2,
            i <= half,
            next@.len() == i,
            forall|j: int| 0 <= j < i ==> #[trigger] next@[j]@ == merkle_level(h)[j],
            forall|j: int| 0 <= j < i ==> (#[trigger] next@[j])@.len() == 64 && is_lower_hex(next@[j]@),
        decreases half - i,
    {
        let left = &hashes[2 * i];
        let combined = if 2 * i + 1 < n {
            concat_strs(left.as_str(), hashes[2 * i + 1].as_str())
        } else {
            concat_strs(left.as_str(), left.as_str())
        };
        let digest = sha256_hex(combined.as_str());
        assert(combined@ == h[2 * i] + (if 2 * i + 1 < h.len() { h[2 * i + 1] } else { h[2 * i] }));
        next.push(digest);
        i = i + 1;
    }
    assert(views(next@) =~= merkle_level(h));
    next
}

impl Block {
    /// A block at position `index` linked to `previous_hash`, stamped with
    /// `timestamp`, with nonce 0 and no hash or Merkle root yet.
    pub fn new(index: u32, previous_hash: String, trans_data: Vec<Transaction>, timestamp: u64) -> (b: Block)
        ensures
            b.index == index,
            b.previous_hash == previous_hash,
            b.timestamp == timestamp,
            b.trans_data == trans_data,
            b.nonce == 0,
            b.hash@ == Seq::<char>::empty(),
            b.merkle_root@ == Seq::<char>::empty(),
    {
        Block {
            index,
            previous_hash,
            timestamp,
            trans_data,
            nonce: 0,
            hash: String::new(),
            merkle_root: String::new(),
        }
    }

    /// The Merkle root of the block's transaction hashes.
    pub fn calculate_merkle_root(&self) -> (root: String)
        ensures
            root@ == merkle_root(tx_hashes(self.trans_data@)),
            self.trans_data@.len() >= 2 ==> root@.len() == 64 && is_lower_hex(root@),
    {
        let n = self.trans_data.len();
        let mut hashes: Vec<String> = Vec::new();
        let mut i: usize = 0;
        while i < n
            invariant
                n == self.trans_data@.len(),
                i <= n,
                hashes@.len() == i,
                forall|j: int| 0 <= j < i ==> #[trigger] hashes@[j]@ == self.trans_data@[j].tx_hash@,
            decreases n - i,
        {
            hashes.push(self.trans_data[i].tx_hash.clone());
            i = i + 1;
        }
        assert(views(hashes@) =~= tx_hashes(self.trans_data@));
        if hashes.len() == 0 {
            return String::new();
        }
        let ghost mut leveled = false;
        while hashes.len() > 1
            invariant
                hashes.len() >= 1,
                merkle_root(views(hashes@)) == merkle_root(tx_hashes(self.trans_data@)),
                !leveled ==> hashes@.len() == self.trans_data@.len(),
                leveled ==> forall|j: int| 0 <= j < hashes@.len() ==> (#[trigger] hashes@[j])@.len() == 64
                    && is_lower_hex(hashes@[j]@),
            decreases hashes.len(),
        {
            let next = next_level(&hashes);
            proof {
                lemma_level_shorter(views(hashes@));
                leveled = true;
            }
            hashes = next;
        }
        let root = hashes[0].clone();
        root
    }

    /// The text the block is hashed from at its current nonce.
    fn hash_input(&self) -> (s: String)
        ensures
            s@ == block_text(*self, self.nonce),
    {
        let mut data = String::new();
        push_decimal(&mut data, self.index as u64);
        data.append(self.previous_hash.as_str());
        push_decimal(&mut data, self.timestamp);
        let listing = pretty_debug(&self.trans_data);
        data.append(listing.as_str());
        push_decimal(&mut data, self.nonce);
        assert(data@ =~= block_text(*self, self.nonce));
        data
    }

    /// The SHA-256 of the block's contents at its current nonce, in
    /// lowercase hexadecimal.
    pub fn hash_cal(&mut self) -> (h: String)
        ensures
            *final(self) == *old(self),
            h@ == block_hash(*old(self), old(self).nonce),
            h@.len() == 64,
    {
        let data = self.hash_input();
        sha256_hex(data.as_str())
    }

    /// Whether the first two characters of `h` are zeros.
    fn accepted(h: &String) -> (ok: bool)
        ensures
            ok == mined_hash(h@),
    {
        let len = h.as_str().unicode_len();
        if len < 2 {
            return false;
        }
        let c0 = h.as_str().get_char(0);
        let c1 = h.as_str().get_char(1);
        let ok = c0 == '0' && c1 == '0';
        assert(ok ==> forall|i: int| 0 <= i < 2 ==> h@[i] == '0') by {
            if ok {
                assert forall|i: int| 0 <= i < 2 implies h@[i] == '0' by {
                    if i == 0 {
                    } else {
                        assert(i == 1);
                    }
                }
            }
        }
        ok
    }

    /// Raises the nonce until the block's hash starts with two zeros; sets
    /// the hash and the Merkle root. Some nonce up to `u64::MAX` must
    /// succeed: past it the nonce would overflow.
    pub fn mine(&mut self)
        requires
            solvable_from(*old(self), old(self).nonce),
        ensures
            first_solution(*old(self), old(self).nonce, final(self).nonce),
            same_contents(*final(self), *old(self)),
            final(self).index == old(self).index,
            final(self).previous_hash == old(self).previous_hash,
            final(self).timestamp == old(self).timestamp,
            final(self).trans_data == old(self).trans_data,
            is_mined(*final(self)),
    {
        let ghost start = self.nonce;
        loop
            invariant
                solvable_from(*old(self), start),
                start == old(self).nonce,
                start <= self.nonce,
                self.index == old(self).index,
                self.previous_hash == old(self).previous_hash,
                self.timestamp == old(self).timestamp,
                self.trans_data == old(self).trans_data,
                forall|j: u64| start <= j < self.nonce ==> !mined_hash(
                    #[trigger] block_hash(*old(self), j),
                ),
            decreases u64::MAX - self.nonce,
        {
            proof {
                lemma_same_hash(*self, *old(self), self.nonce);
            }
            self.hash = self.hash_cal();
            self.merkle_root = self.calculate_merkle_root();
            if Self::accepted(&self.hash) {
                return;
            }
            if self.nonce == u64::MAX {
                let ghost k = choose|k: u64| start <= k && #[trigger] mined_hash(
                    block_hash(*old(self), k),
                );
                assert(k <= self.nonce);
                assert(false);
            }
            self.nonce = self.nonce + 1;
        }
    }

    /// Whether some nonce from the current one on gives an accepted hash;
    /// if so the block is mined as [`Block::mine`] does, otherwise it is left
    /// as it is.
    pub fn try_mine(&mut self) -> (ok: bool)
        ensures
            ok <==> solvable_from(*old(self), old(self).nonce),
            !ok ==> *final(self) == *old(self),
            ok ==> first_solution(*old(self), old(self).nonce, final(self).nonce)
                && same_contents(*final(self), *old(self))
                && final(self).index == old(self).index
                && final(self).previous_hash == old(self).previous_hash
                && final(self).timestamp == old(self).timestamp
                && final(self).trans_data == old(self).trans_data
                && is_mined(*final(self)),
    {
        let start = self.nonce;
        let mut k = start;
        loop
            invariant
                start == old(self).nonce,
                *self == *old(self),
                start <= k,
                forall|j: u64| start <= j < k ==> !mined_hash(#[trigger] block_hash(*old(self), j)),
            decreases u64::MAX - k,
        {
            self.nonce = k;
            let ghost probe = *self;
            let h = self.hash_cal();
            self.nonce = start;
            assert(*self == *old(self));
            proof {
                lemma_same_hash(probe, *old(self), k);
            }
            if Self::accepted(&h) {
                assert(mined_hash(block_hash(*old(self), k)));
                self.mine();
                return true;
            }
            if k == u64::MAX {
                assert forall|j: u64| start <= j implies !mined_hash(#[trigger] block_hash(*old(self), j)) by {
                    if j == k {
                    }
                }
                return false;
            }
            k = k + 1;
        }
    }
}

} // verus!
