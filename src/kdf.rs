use crate::mac::{hmac_tag, sign, Algorithm};
use vstd::prelude::*;

verus! {

/// Input keying material: the secret that a derivation starts from.
pub struct Ikm {
    pub data: Vec<u8>,
}

/// A pseudorandom key, one digest long. Only `extract` makes one.
pub struct Prk {
    alg: Algorithm,
    data: Vec<u8>,
}

/// Output keying material, exactly as long as was asked for.
pub struct Okm {
    data: Vec<u8>,
}

impl View for Ikm {
    type V = Seq<u8>;

    open spec fn view(&self) -> Seq<u8> {
        self.data@
    }
}

impl View for Prk {
    type V = Seq<u8>;

    closed spec fn view(&self) -> Seq<u8> {
        self.data@
    }
}

impl View for Okm {
    type V = Seq<u8>;

    closed spec fn view(&self) -> Seq<u8> {
        self.data@
    }
}

impl Prk {
    /// The algorithm this key was extracted with, which `expand` uses too.
    pub closed spec fn spec_algorithm(&self) -> Algorithm {
        self.alg
    }

    /// A key is one digest of its algorithm long.
    pub open spec fn wf(&self) -> bool {
        self@.len() == self.spec_algorithm().spec_digest_len()
    }

    pub fn algorithm(&self) -> (r: Algorithm)
        ensures
            r == self.spec_algorithm(),
    {
        self.alg
    }

    pub fn as_bytes(&self) -> (r: &[u8])
        ensures
            r@ == self@,
    {
        self.data.as_slice()
    }
}

impl Okm {
    pub fn as_bytes(&self) -> (r: &[u8])
        ensures
            r@ == self@,
    {
        self.data.as_slice()
    }

    pub fn into_vec(self) -> (r: Vec<u8>)
        ensures
            r@ == self@,
    {
        self.data
    }
}

/// The pseudorandom key: HMAC of the input keying material, keyed by the salt.
pub open spec fn extract_of(alg: Algorithm, salt: Seq<u8>, ikm: Seq<u8>) -> Seq<u8> {
    hmac_tag(alg, salt, ikm)
}

/// HKDF-Extract: `PRK = HMAC(salt, ikm)`. Any salt and any input keying
/// material are accepted, empty ones included.
pub fn extract(alg: Algorithm, salt: &[u8], ikm: &Ikm) -> (r: Prk)
    ensures
        r.spec_algorithm() == alg,
        r@ == extract_of(alg, salt@, ikm@),
        r.wf(),
{
    let data = sign(alg, salt, ikm.data.as_slice());
    Prk { alg, data }
}

/// Block `i` of the expansion: `T(0)` is empty and
/// `T(i) = HMAC(prk, T(i - 1) || info || [i])`.
pub open spec fn block(alg: Algorithm, prk: Seq<u8>, info: Seq<u8>, i: nat) -> Seq<u8>
    decreases i,
{
    if i == 0 {
        Seq::empty()
    } else {
        hmac_tag(alg, prk, block(alg, prk, info, (i - 1) as nat) + info + seq![i as u8])
    }
}

/// The concatenation `T(1) || ... || T(n)`.
pub open spec fn blocks(alg: Algorithm, prk: Seq<u8>, info: Seq<u8>, n: nat) -> Seq<u8>
    decreases n,
{
    if n == 0 {
        Seq::empty()
    } else {
        blocks(alg, prk, info, (n - 1) as nat) + block(alg, prk, info, n)
    }
}

/// How many blocks an output of `len` bytes takes: `ceil(len / d)`.
pub open spec fn block_count(len: nat, d: nat) -> nat {
    if d == 0 {
        0
    } else {
        ((len + d - 1) as nat / d) as nat
    }
}

/// The longest output that one key can give: 255 blocks.
pub open spec fn max_okm_len(alg: Algorithm) -> nat {
    255 * alg.spec_digest_len()
}

/// The output keying material of `len` bytes: byte `k` is byte `k mod d` of
/// block `k / d + 1`, where `d` is the digest length.
pub open spec fn okm_of(alg: Algorithm, prk: Seq<u8>, info: Seq<u8>, len: nat) -> Seq<u8> {
    let d = alg.spec_digest_len();
    Seq::new(len, |k: int| block(alg, prk, info, (k / d as int + 1) as nat)[k % d as int])
}

/// When each of the first `n` blocks is one digest long, their concatenation
/// is `n` digests long and its byte `k` is the one that `okm_of` names.
proof fn lemma_blocks_index(alg: Algorithm, prk: Seq<u8>, info: Seq<u8>, n: nat)
    requires
        forall|j: nat| 1 <= j <= n ==> #[trigger] block(alg, prk, info, j).len()
            == alg.spec_digest_len(),
    ensures
        blocks(alg, prk, info, n).len() == n * alg.spec_digest_len(),
        forall|k: int|
            0 <= k < n * alg.spec_digest_len() ==> #[trigger] blocks(alg, prk, info, n)[k]
                == block(alg, prk, info, (k / alg.spec_digest_len() as int + 1) as nat)[k
                % alg.spec_digest_len() as int],
    decreases n,
{
    let d = alg.spec_digest_len() as int;
    if n > 0 {
        let m = (n - 1) as nat;
        lemma_blocks_index(alg, prk, info, m);
        assert(block(alg, prk, info, n).len() == d);
        assert((m * d) + d == n * d) by (nonlinear_arith)
            requires
                m + 1 == n,
        ;
        assert forall|k: int| 0 <= k < n * d implies #[trigger] blocks(alg, prk, info, n)[k]
            == block(alg, prk, info, (k / d + 1) as nat)[k % d] by {
            if k >= m * d {
                assert(k / d == m && k % d == k - m * d) by (nonlinear_arith)
                    requires
                        m * d <= k < m * d + d,
                        d > 0,
                ;
            }
        }
    }
}

/// HKDF-Expand: the first `len` bytes of `T(1) || T(2) || ...`, with
/// `len` at most 255 digests.
pub fn expand(prk: &Prk, info: &[u8], len: usize) -> (r: Okm)
    requires
        len <= max_okm_len(prk.spec_algorithm()),
    ensures
        r@.len() == len,
        r@ == okm_of(prk.spec_algorithm(), prk@, info@, len as nat),
        r@ == blocks(
            prk.spec_algorithm(),
            prk@,
            info@,
            block_count(len as nat, prk.spec_algorithm().spec_digest_len()),
        ).take(len as int),
{
    let alg = prk.algorithm();
    let d = alg.digest_len();
    let n: usize = (len + d - 1) / d;
    assert(n <= 255) by (nonlinear_arith)
        requires
            n == (len + d - 1) / d as int,
            len <= 255 * d,
            d > 0,
    ;
    assert(n * d >= len) by (nonlinear_arith)
        requires
            n == (len + d - 1) / d as int,
            d > 0,
    ;
    let ghost key = prk@;
    let mut okm: Vec<u8> = Vec::new();
    let mut prev: Vec<u8> = Vec::new();
    let mut i: usize = 1;
    while i <= n
        invariant
            1 <= i <= n + 1,
            n <= 255,
            d == alg.spec_digest_len(),
            alg == prk.spec_algorithm(),
            key == prk@,
            prev@ == block(alg, key, info@, (i - 1) as nat),
            okm@ == blocks(alg, key, info@, (i - 1) as nat),
            forall|j: nat| 1 <= j < i ==> #[trigger] block(alg, key, info@, j).len() == d,
        decreases n + 1 - i,
    {
        let mut msg: Vec<u8> = prev;
        msg.extend_from_slice(info);
        msg.push(i as u8);
        assert(msg@ =~= block(alg, key, info@, (i - 1) as nat) + info@ + seq![i as u8]);
        let t = sign(alg, prk.as_bytes(), msg.as_slice());
        assert(t@ == block(alg, key, info@, i as nat));
        okm.extend_from_slice(t.as_slice());
        assert(okm@ =~= blocks(alg, key, info@, i as nat));
        prev = t;
        i = i + 1;
    }
    proof {
        lemma_blocks_index(alg, key, info@, n as nat);
    }
    okm.truncate(len);
    assert(okm@ =~= okm_of(alg, key, info@, len as nat));
    Okm { data: okm }
}

/// The whole derivation: expand the key that extract gives.
pub open spec fn derive_of(
    alg: Algorithm,
    salt: Seq<u8>,
    ikm: Seq<u8>,
    info: Seq<u8>,
    len: nat,
) -> Seq<u8> {
    okm_of(alg, extract_of(alg, salt, ikm), info, len)
}

/// Deriving twice from the same salt, input keying material, info and length
/// gives the same key and the same output.
pub proof fn lemma_derive_deterministic(
    alg: Algorithm,
    salt1: Seq<u8>,
    ikm1: Seq<u8>,
    info1: Seq<u8>,
    len1: nat,
    salt2: Seq<u8>,
    ikm2: Seq<u8>,
    info2: Seq<u8>,
    len2: nat,
)
    requires
        salt1 == salt2,
        ikm1 == ikm2,
        info1 == info2,
        len1 == len2,
    ensures
        extract_of(alg, salt1, ikm1) == extract_of(alg, salt2, ikm2),
        derive_of(alg, salt1, ikm1, info1, len1) == derive_of(alg, salt2, ikm2, info2, len2),
{
}

/// The output is exactly as long as was asked for.
pub proof fn lemma_okm_len(alg: Algorithm, prk: Seq<u8>, info: Seq<u8>, len: nat)
    requires
        len <= max_okm_len(alg),
    ensures
        okm_of(alg, prk, info, len).len() == len,
{
}

/// With the key and the info fixed, a shorter output is a prefix of a longer one.
pub proof fn lemma_okm_prefix(alg: Algorithm, prk: Seq<u8>, info: Seq<u8>, len1: nat, len2: nat)
    requires
        len1 < len2,
        len2 <= max_okm_len(alg),
    ensures
        okm_of(alg, prk, info, len1) == okm_of(alg, prk, info, len2).take(len1 as int),
{
    assert(okm_of(alg, prk, info, len1) =~= okm_of(alg, prk, info, len2).take(len1 as int));
}

/// An empty request gives no bytes; a request of one digest takes one block,
/// untruncated, and byte for byte; the longest request takes 255 blocks.
pub proof fn lemma_okm_boundaries(alg: Algorithm, prk: Seq<u8>, info: Seq<u8>)
    ensures
        okm_of(alg, prk, info, 0) == Seq::<u8>::empty(),
        block_count(alg.spec_digest_len(), alg.spec_digest_len()) == 1,
        blocks(alg, prk, info, 1) == block(alg, prk, info, 1),
        block(alg, prk, info, 1).len() == alg.spec_digest_len() ==> okm_of(
            alg,
            prk,
            info,
            alg.spec_digest_len(),
        ) == block(alg, prk, info, 1),
        block_count(max_okm_len(alg), alg.spec_digest_len()) == 255,
{
    let d = alg.spec_digest_len();
    assert(okm_of(alg, prk, info, 0) =~= Seq::<u8>::empty());
    assert(blocks(alg, prk, info, 0) + block(alg, prk, info, 1) =~= block(alg, prk, info, 1));
    if block(alg, prk, info, 1).len() == d {
        assert forall|k: int| 0 <= k < d implies #[trigger] okm_of(alg, prk, info, d)[k] == block(
            alg,
            prk,
            info,
            1,
        )[k] by {
            assert(k / d as int == 0 && k % d as int == k) by (nonlinear_arith)
                requires
                    0 <= k < d,
            ;
        }
        assert(okm_of(alg, prk, info, d) =~= block(alg, prk, info, 1));
    }
    assert(block_count(d, d) == 1);
    assert(block_count(255 * d, d) == 255);
}

} // verus!
