use vstd::prelude::*;

verus! {

/// A ledger address: 32 raw bytes. Owner identities, derived wallets and
/// record storage locations are all values of this type.
#[derive(Clone, Copy, Debug, PartialEq, Eq)]
pub struct Address {
    pub bytes: [u8; 32],
}

impl View for Address {
    type V = Seq<u8>;

    open spec fn view(&self) -> Seq<u8> {
        self.bytes@
    }
}

impl Address {
    pub fn new(bytes: [u8; 32]) -> (r: Address)
        ensures
            r@ == bytes@,
    {
        Address { bytes }
    }

    /// Byte-for-byte comparison; contracts speak of addresses through
    /// their views, and this is the one equality test verified code uses.
    pub fn equals(&self, other: &Address) -> (r: bool)
        ensures
            r == (self@ == other@),
    {
        let mut i: usize = 0;
        while i < 32
            invariant
                i <= 32,
                forall|j: int| 0 <= j < i ==> self.bytes@[j] == other.bytes@[j],
            decreases 32 - i,
        {
            if self.bytes[i] != other.bytes[i] {
                return false;
            }
            i = i + 1;
        }
        proof {
            assert(self@ =~= other@);
        }
        true
    }
}

/// The seed label under which an owner's treasury record address is derived.
pub open spec fn treasury_label() -> Seq<u8> {
    seq![116u8, 114u8, 101u8, 97u8, 115u8, 117u8, 114u8, 121u8]
}

/// The seed label under which an owner's central wallet address is derived.
pub open spec fn wallet_label() -> Seq<u8> {
    seq![99u8, 101u8, 110u8, 116u8, 114u8, 97u8, 108u8, 95u8, 119u8, 97u8, 108u8, 108u8, 101u8, 116u8]
}

/// The bytes of `treasury_label`, for handing to the derivation primitive.
pub fn treasury_label_bytes() -> (r: Vec<u8>)
    ensures
        r@ == treasury_label(),
{
    let mut v: Vec<u8> = Vec::new();
    v.push(116);
    v.push(114);
    v.push(101);
    v.push(97);
    v.push(115);
    v.push(117);
    v.push(114);
    v.push(121);
    proof {
        assert(v@ =~= treasury_label());
    }
    v
}

/// The bytes of `wallet_label`, for handing to the derivation primitive.
pub fn wallet_label_bytes() -> (r: Vec<u8>)
    ensures
        r@ == wallet_label(),
{
    let mut v: Vec<u8> = Vec::new();
    v.push(99);
    v.push(101);
    v.push(110);
    v.push(116);
    v.push(114);
    v.push(97);
    v.push(108);
    v.push(95);
    v.push(119);
    v.push(97);
    v.push(108);
    v.push(108);
    v.push(101);
    v.push(116);
    proof {
        assert(v@ =~= wallet_label());
    }
    v
}

/// The address that the ledger's derivation primitive yields for one
/// (label, owner, salt, program) combination, or `None` where that
/// combination has no derived address (the hash lands on the curve of
/// valid signing keys, or a seed is over the primitive's length cap).
pub uninterp spec fn salted_derivation(
    label: Seq<u8>,
    owner: Seq<u8>,
    salt: u8,
    program: Seq<u8>,
) -> Option<Seq<u8>>;

/// Relies on Pubkey::create_program_address of solana-pubkey (the type
/// anchor_lang re-exports): it hashes label, owner, salt and program id
/// into an address with no corresponding private key, or reports that
/// this salt yields none; the result depends on the arguments alone.
#[verifier::external_body]
pub(crate) fn derive_with_salt(label: &[u8], owner: &Address, salt: u8, program: &Address) -> (r: Option<
    Address,
>)
    ensures
        r matches Some(a) ==> salted_derivation(label@, owner@, salt, program@) == Some(a@),
        r is None ==> salted_derivation(label@, owner@, salt, program@) is None,
{
    let program_id = anchor_lang::prelude::Pubkey::new_from_array(program.bytes);
    let seeds: [&[u8]; 3] = [label, owner.bytes.as_ref(), &[salt]];
    match anchor_lang::prelude::Pubkey::create_program_address(&seeds, &program_id) {
        Ok(a) => Some(Address { bytes: a.to_bytes() }),
        Err(_) => None,
    }
}

/// `addr` is the canonical derivation for (label, owner, program) at
/// `salt`: the salt is valid, and every larger salt yields nothing.
pub open spec fn is_canonical_derivation(
    label: Seq<u8>,
    owner: Seq<u8>,
    program: Seq<u8>,
    addr: Seq<u8>,
    salt: u8,
) -> bool {
    &&& salted_derivation(label, owner, salt, program) == Some(addr)
    &&& forall|s: u8| s > salt ==> salted_derivation(label, owner, s, program) is None
}

/// Re-derive the address for a known salt and check it against an
/// expected one.
pub fn derivation_matches(
    label: &[u8],
    owner: &Address,
    salt: u8,
    program: &Address,
    expected: &Address,
) -> (r: bool)
    ensures
        r == (salted_derivation(label@, owner@, salt, program@) == Some(expected@)),
{
    match derive_with_salt(label, owner, salt, program) {
        Some(a) => a.equals(expected),
        None => false,
    }
}

/// Walk the salt range from the top down and return the first salt that
/// yields a derived address, with that address; `None` when no salt in
/// [0, 255] works (derivation-space exhaustion).
pub fn find_derivation(label: &[u8], owner: &Address, program: &Address) -> (r: Option<
    (Address, u8),
>)
    ensures
        r matches Some(p) ==> is_canonical_derivation(label@, owner@, program@, p.0@, p.1),
        r is None ==> forall|s: u8| salted_derivation(label@, owner@, s, program@) is None,
{
    let mut salt: u8 = 255;
    loop
        invariant
            forall|s: u8| s > salt ==> salted_derivation(label@, owner@, s, program@) is None,
        decreases salt as int,
    {
        match derive_with_salt(label, owner, salt, program) {
            Some(a) => {
                return Some((a, salt));
            },
            None => {
                if salt == 0 {
                    proof {
                        assert forall|s: u8| salted_derivation(
                            label@,
                            owner@,
                            s,
                            program@,
                        ) is None by {
                            if s > 0 {
                                assert(salted_derivation(label@, owner@, s, program@) is None);
                            }
                        }
                    }
                    return None;
                }
                salt = salt - 1;
            },
        }
    }
}

/// Derivation is deterministic: one (label, owner, program) triple has at
/// most one canonical derivation, so deriving twice resolves to the same
/// address and the same salt.
pub proof fn lemma_canonical_derivation_unique(
    label: Seq<u8>,
    owner: Seq<u8>,
    program: Seq<u8>,
    a1: Seq<u8>,
    s1: u8,
    a2: Seq<u8>,
    s2: u8,
)
    requires
        is_canonical_derivation(label, owner, program, a1, s1),
        is_canonical_derivation(label, owner, program, a2, s2),
    ensures
        s1 == s2,
        a1 == a2,
{
    if s1 < s2 {
        assert(salted_derivation(label, owner, s2, program) is None);
    }
    if s2 < s1 {
        assert(salted_derivation(label, owner, s1, program) is None);
    }
}

/// Authority over a derived address, reconstructed from its derivation
/// seeds. Distinct at the type level from a caller-supplied signature:
/// holding one of these is what lets the engine move value out of a
/// derived wallet.
pub struct DerivedAuthority {
    pub label: Vec<u8>,
    pub owner: Address,
    pub salt: u8,
}

} // verus!
