//! SHA-256 over a stream of byte chunks, with `sha2` doing the hashing,
//! and the lower-case hexadecimal form of a digest.
use vstd::prelude::*;
use sha2::Digest;
use crate::text::push;

verus! {

/// The SHA-256 digest of `data` (32 bytes).
pub uninterp spec fn sha256(data: Seq<u8>) -> Seq<u8>;

/// A SHA-256 computation in progress: a `sha2::Sha256` hasher, kept in a
/// field Verus does not see (it cannot declare the hasher's generic type).
#[verifier::external_body]
pub struct Sha256Stream {
    hasher: sha2::Sha256,
}

/// The bytes a hash computation has been fed so far.
pub uninterp spec fn fed(h: Sha256Stream) -> Seq<u8>;

impl Sha256Stream {
    /// `sha2::Sha256::new()`: a hasher fed nothing yet.
    #[verifier::external_body]
    pub fn new() -> (h: Self)
        ensures
            fed(h) == Seq::<u8>::empty(),
    {
        Sha256Stream { hasher: sha2::Sha256::new() }
    }

    /// `Digest::update`: feeds `data` after what the hasher had.
    #[verifier::external_body]
    pub fn update(&mut self, data: &[u8])
        ensures
            fed(*final(self)) == fed(*old(self)) + data@,
    {
        self.hasher.update(data)
    }

    /// `Digest::finalize`: the SHA-256 digest of everything fed, 32 bytes.
    #[verifier::external_body]
    pub fn finalize(self) -> (d: Vec<u8>)
        ensures
            d@ == sha256(fed(self)),
            d@.len() == 32,
    {
        self.hasher.finalize().to_vec()
    }
}

/// The lower-case hexadecimal digit of `d`.
pub open spec fn nibble_char(d: u8) -> char {
    if d < 10 {
        (0x30 + d) as char
    } else {
        (0x57 + d) as char
    }
}

/// `bytes` in lower-case hexadecimal, two digits a byte, high nibble first.
pub open spec fn lower_hex(bytes: Seq<u8>) -> Seq<char>
    decreases bytes.len(),
{
    if bytes.len() == 0 {
        Seq::empty()
    } else {
        lower_hex(bytes.drop_last()) + seq![nibble_char(bytes.last() / 16), nibble_char(bytes.last() % 16)]
    }
}

fn nibble_char_of(d: u8) -> (c: char)
    requires
        d < 16,
    ensures
        c == nibble_char(d),
{
    if d < 10 {
        (0x30 + d) as char
    } else {
        (0x57 + d) as char
    }
}

/// The lower-case hexadecimal form of `bytes`.
pub fn to_lower_hex(bytes: &[u8]) -> (r: String)
    ensures
        r@ == lower_hex(bytes@),
{
    let mut out = String::new();
    let mut i: usize = 0;
    while i < bytes.len()
        invariant
            i <= bytes@.len(),
            out@ == lower_hex(bytes@.take(i as int)),
        decreases bytes@.len() - i,
    {
        let b = bytes[i];
        push(&mut out, nibble_char_of(b / 16));
        push(&mut out, nibble_char_of(b % 16));
        proof {
            assert(bytes@.take(i + 1).drop_last() =~= bytes@.take(i as int));
            assert(bytes@.take(i + 1).last() == b);
            assert(out@ =~= lower_hex(bytes@.take(i + 1)));
        }
        i = i + 1;
    }
    assert(bytes@.take(bytes@.len() as int) =~= bytes@);
    out
}

/// A hex digest has two digits a byte, each a lower-case hex digit.
pub proof fn lemma_lower_hex_shape(bytes: Seq<u8>)
    ensures
        lower_hex(bytes).len() == 2 * bytes.len(),
        forall|i: int|
            0 <= i < lower_hex(bytes).len() ==> {
                let c = #[trigger] lower_hex(bytes)[i];
                ('0' <= c && c <= '9') || ('a' <= c && c <= 'f')
            },
    decreases bytes.len(),
{
    if bytes.len() > 0 {
        let d = bytes.drop_last();
        lemma_lower_hex_shape(d);
        let h = lower_hex(bytes);
        let hd = lower_hex(d);
        let b = bytes.last();
        assert forall|i: int| 0 <= i < h.len() implies {
            let c = #[trigger] h[i];
            ('0' <= c && c <= '9') || ('a' <= c && c <= 'f')
        } by {
            if i < hd.len() {
                assert(h[i] == hd[i]);
            } else if i == hd.len() {
                assert(h[i] == nibble_char(b / 16));
            } else {
                assert(h[i] == nibble_char(b % 16));
            }
        }
    }
}

} // verus!
