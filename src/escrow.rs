use vstd::prelude::*;
use vstd::string::*;
use sha2::Digest;
use crate::types::Ident;

verus! {

/// The SHA-256 digest of a byte string.
pub uninterp spec fn sha256_of(data: Seq<u8>) -> Seq<u8>;

/// The textual form of the principal with the given bytes.
pub uninterp spec fn principal_text_of(bytes: Seq<u8>) -> Seq<char>;

/// Relies on sha2::Sha256 (new, update, finalize): the digest of `data`, which depends
/// on the bytes alone.
#[verifier::external_body]
fn sha256(data: &Vec<u8>) -> (r: [u8; 32])
    ensures
        r@ == sha256_of(data@),
{
    let mut hasher = sha2::Sha256::new();
    hasher.update(data);
    let digest = hasher.finalize();
    let mut out = [0u8; 32];
    out.copy_from_slice(&digest);
    out
}

/// Relies on candid::Principal::from_slice and Principal::to_text: the textual form of a
/// principal, a function of its bytes. `from_slice` panics on more than 29 bytes.
#[verifier::external_body]
fn principal_text(bytes: &Vec<u8>) -> (r: String)
    requires
        bytes@.len() <= 29,
    ensures
        r@ == principal_text_of(bytes@),
{
    candid::Principal::from_slice(bytes).to_text()
}

/// The lower-case hexadecimal digit of a value below 16.
pub open spec fn hex_digit(n: int) -> char {
    seq!['0', '1', '2', '3', '4', '5', '6', '7', '8', '9', 'a', 'b', 'c', 'd', 'e', 'f'][n]
}

/// Two lower-case hexadecimal digits for each byte, high digit first.
pub open spec fn hex_of(b: Seq<u8>) -> Seq<char>
    decreases b.len(),
{
    if b.len() == 0 {
        Seq::empty()
    } else {
        seq![hex_digit(b[0] as int / 16), hex_digit(b[0] as int % 16)] + hex_of(b.skip(1))
    }
}

/// Relies on hex::encode: two lower-case hexadecimal digits for each byte, in order.
#[verifier::external_body]
fn hex_encode(b: &Vec<u8>) -> (r: String)
    ensures
        r@ == hex_of(b@),
{
    hex::encode(b)
}

/// The tag that every escrow derivation hashes first: the ASCII text "avox-bounty-".
pub open spec fn escrow_tag() -> Seq<u8> {
    seq![97u8, 118, 111, 120, 45, 98, 111, 117, 110, 116, 121, 45]
}

/// The eight big-endian bytes of `n`.
pub open spec fn be_bytes(n: u64) -> Seq<u8> {
    Seq::new(8, |k: int| (n >> ((56 - 8 * k) as u64)) as u8)
}

/// What is hashed to give a bounty's escrow subaccount.
pub open spec fn escrow_seed(bounty_id: u64) -> Seq<u8> {
    escrow_tag() + be_bytes(bounty_id)
}

/// The escrow subaccount of a bounty.
pub open spec fn escrow_subaccount_of(bounty_id: u64) -> Seq<u8> {
    sha256_of(escrow_seed(bounty_id))
}

/// Derives the escrow subaccount of a bounty: SHA-256 over the tag and the id's
/// big-endian bytes.
pub fn generate_subaccount(bounty_id: u64) -> (r: [u8; 32])
    ensures
        r@ == escrow_subaccount_of(bounty_id),
{
    let mut seed: Vec<u8> = vec![97u8, 118, 111, 120, 45, 98, 111, 117, 110, 116, 121, 45];
    assert(seed@ =~= escrow_tag());
    let mut k: usize = 0;
    while k < 8
        invariant
            k <= 8,
            seed@ =~= escrow_tag() + be_bytes(bounty_id).take(k as int),
        decreases 8 - k,
    {
        let shift: u64 = (56 - 8 * k) as u64;
        seed.push((bounty_id >> shift) as u8);
        assert(be_bytes(bounty_id).take((k + 1) as int) =~= be_bytes(bounty_id).take(k as int).push(
            (bounty_id >> shift) as u8,
        ));
        k = k + 1;
    }
    assert(be_bytes(bounty_id).take(8) =~= be_bytes(bounty_id));
    sha256(&seed)
}

/// Distinct bounty ids hash distinct seeds, so their escrow subaccounts differ unless
/// SHA-256 collides.
pub proof fn lemma_escrow_seed_injective(a: u64, b: u64)
    ensures
        a != b ==> escrow_seed(a) != escrow_seed(b),
{
    if escrow_seed(a) == escrow_seed(b) {
        let sa = be_bytes(a);
        let sb = be_bytes(b);
        assert forall|k: int| 0 <= k < 8 implies sa[k] == sb[k] by {
            assert(escrow_seed(a)[12 + k] == sa[k]);
            assert(escrow_seed(b)[12 + k] == sb[k]);
        }
        assert(sa[0] == sb[0] && sa[1] == sb[1] && sa[2] == sb[2] && sa[3] == sb[3]);
        assert(sa[4] == sb[4] && sa[5] == sb[5] && sa[6] == sb[6] && sa[7] == sb[7]);
        lemma_be_bytes_injective(a, b);
    }
}

proof fn lemma_be_bytes_injective(a: u64, b: u64)
    requires
        (a >> 56u64) as u8 == (b >> 56u64) as u8,
        (a >> 48u64) as u8 == (b >> 48u64) as u8,
        (a >> 40u64) as u8 == (b >> 40u64) as u8,
        (a >> 32u64) as u8 == (b >> 32u64) as u8,
        (a >> 24u64) as u8 == (b >> 24u64) as u8,
        (a >> 16u64) as u8 == (b >> 16u64) as u8,
        (a >> 8u64) as u8 == (b >> 8u64) as u8,
        (a >> 0u64) as u8 == (b >> 0u64) as u8,
    ensures
        a == b,
{
    assert(a == b) by (bit_vector)
        requires
            (a >> 56u64) as u8 == (b >> 56u64) as u8,
            (a >> 48u64) as u8 == (b >> 48u64) as u8,
            (a >> 40u64) as u8 == (b >> 40u64) as u8,
            (a >> 32u64) as u8 == (b >> 32u64) as u8,
            (a >> 24u64) as u8 == (b >> 24u64) as u8,
            (a >> 16u64) as u8 == (b >> 16u64) as u8,
            (a >> 8u64) as u8 == (b >> 8u64) as u8,
            (a >> 0u64) as u8 == (b >> 0u64) as u8,
    ;
}

/// `s` without its trailing zero bytes.
pub open spec fn trim_zeros(s: Seq<u8>) -> Seq<u8>
    decreases s.len(),
{
    if s.len() > 0 && s.last() == 0 {
        trim_zeros(s.drop_last())
    } else {
        s
    }
}

/// The text of an account: the owner's text, then, where the subaccount has a non-zero
/// byte, a dash and the hexadecimal of the subaccount without its trailing zero bytes.
pub open spec fn account_text(owner: Seq<u8>, subaccount: Option<Seq<u8>>) -> Seq<char> {
    match subaccount {
        Some(sub) => {
            let t = trim_zeros(sub);
            if t.len() == 0 {
                principal_text_of(owner)
            } else {
                principal_text_of(owner) + seq!['-'] + hex_of(t)
            }
        },
        None => principal_text_of(owner),
    }
}

/// The first `n` bytes of `a`.
fn leading_bytes(a: &[u8; 32], n: usize) -> (r: Vec<u8>)
    requires
        n <= 32,
    ensures
        r@ == a@.take(n as int),
{
    let mut r: Vec<u8> = Vec::new();
    let mut i: usize = 0;
    while i < n
        invariant
            n <= 32,
            i <= n,
            r@ =~= a@.take(i as int),
        decreases n - i,
    {
        r.push(a[i]);
        i = i + 1;
    }
    r
}

/// A ledger account: an owner and an optional 32-byte subaccount.
pub struct Account {
    pub owner: Ident,
    pub subaccount: Option<[u8; 32]>,
}

impl Account {
    pub open spec fn subaccount_view(&self) -> Option<Seq<u8>> {
        match self.subaccount {
            Some(s) => Some(s@),
            None => None,
        }
    }

    pub fn to_string(&self) -> (r: String)
        requires
            self.owner.wf(),
        ensures
            r@ == account_text(self.owner@, self.subaccount_view()),
    {
        let owner = principal_text(&self.owner.bytes);
        match &self.subaccount {
            None => owner,
            Some(sub) => {
                let mut end: usize = 32;
                assert(sub@.take(32) =~= sub@);
                while end > 0 && sub[end - 1] == 0
                    invariant
                        end <= 32,
                        trim_zeros(sub@) == trim_zeros(sub@.take(end as int)),
                    decreases end,
                {
                    assert(sub@.take(end as int).drop_last() =~= sub@.take(end - 1));
                    end = end - 1;
                }
                let kept = leading_bytes(sub, end);
                assert(trim_zeros(sub@.take(end as int)) == sub@.take(end as int));
                if kept.len() == 0 {
                    owner
                } else {
                    let mut text = owner;
                    text.append("-");
                    proof {
                        reveal_strlit("-");
                    }
                    let hex = hex_encode(&kept);
                    text.append(hex.as_str());
                    text
                }
            },
        }
    }
}

/// The escrow account of a subaccount: owned by this service, under that subaccount.
pub fn get_escrow_account(canister: &Ident, subaccount: [u8; 32]) -> (r: Account)
    ensures
        r.owner@ == canister@,
        r.subaccount_view() == Some(subaccount@),
{
    Account { owner: canister.copy(), subaccount: Some(subaccount) }
}

/// The text that tells a funder where to deposit a bounty's prize.
pub open spec fn deposit_text(bounty_id: u64, canister: Seq<u8>) -> Seq<char> {
    let sub = escrow_subaccount_of(bounty_id);
    "To fund this bounty, transfer tokens to:\nAccount: "@ + account_text(canister, Some(sub))
        + "\nOwner: "@ + principal_text_of(canister) + "\nSubaccount: "@ + hex_of(sub)
}

/// Instructions for funding a bounty: its escrow account, the owner and the subaccount.
pub fn get_deposit_instructions(bounty_id: u64, canister: &Ident) -> (r: String)
    requires
        canister.wf(),
    ensures
        r@ == deposit_text(bounty_id, canister@),
{
    let subaccount = generate_subaccount(bounty_id);
    let account = get_escrow_account(canister, subaccount);
    let mut text = String::from_str("To fund this bounty, transfer tokens to:\nAccount: ");
    text.append(account.to_string().as_str());
    text.append("\nOwner: ");
    text.append(principal_text(&canister.bytes).as_str());
    text.append("\nSubaccount: ");
    let sub = leading_bytes(&subaccount, 32);
    assert(subaccount@.take(32) =~= subaccount@);
    text.append(hex_encode(&sub).as_str());
    proof {
        reveal_strlit("To fund this bounty, transfer tokens to:\nAccount: ");
        reveal_strlit("\nOwner: ");
        reveal_strlit("\nSubaccount: ");
    }
    text
}

} // verus!
