//! Destinations: cryptographic endpoints of applications.
//!
//! ```text
//! name_hash = SHA-256(app_name.aspect.aspect...)[..10]
//! hash      = SHA-256(name_hash || identity address)[..16]
//! ```

use crate::crypto::primitives;
use crate::identity::rns_address;
use crate::identity::{Keys, RnsAddress};
use crate::text;
use crate::wire;
use vstd::prelude::*;

verus! {

/// Length of the name hash.
pub const NAME_HASH_LENGTH: usize = 10;

/// Destination types.
pub const DEST_SINGLE: u8 = 0x00;

pub const DEST_GROUP: u8 = 0x01;

pub const DEST_PLAIN: u8 = 0x02;

pub const DEST_LINK: u8 = 0x03;

/// The application name, with each aspect behind a dot.
pub open spec fn expanded_name(app_name: Seq<char>, aspects: Seq<String>) -> Seq<char>
    decreases aspects.len(),
{
    if aspects.len() == 0 {
        app_name
    } else {
        expanded_name(app_name, aspects.drop_last()) + "."@ + aspects.last()@
    }
}

/// The hash of a destination of an identity.
pub open spec fn destination_hash(identity_key: Seq<u8>, full_name: Seq<char>) -> Seq<u8> {
    let name_hash = primitives::sha256_digest(vstd::utf8::encode_utf8(full_name)).subrange(0, 10);
    primitives::sha256_digest(name_hash + rns_address::rns_hash(identity_key)).subrange(0, 16)
}

/// A destination: a cryptographic endpoint.
pub struct Destination {
    /// The owning identity.
    pub keys: Keys,
    /// The destination hash.
    pub hash: RnsAddress,
    pub dest_type: u8,
    pub app_name: String,
    /// Sub-addressing within the application.
    pub aspects: Vec<String>,
    /// The expanded name and the hash.
    pub name: String,
    /// Maximum transmission unit.
    pub mtu: u16,
}

impl Destination {
    /// Whether the hash and the full name belong to the identity, the application
    /// name and the aspects.
    pub open spec fn wf(&self) -> bool {
        let full = expanded_name(self.app_name@, self.aspects@);
        &&& self.hash@ == destination_hash(self.keys.identity(), full)
        &&& self.name@ == full + "."@ + text::hex_text(self.hash@)
    }

    /// A destination of the given type, with the default MTU of 500.
    pub fn new(keys: Keys, app_name: &str, aspects: Vec<String>, dest_type: u8) -> (d: Self)
        ensures
            d.wf(),
            d.keys == keys,
            d.app_name@ == app_name@,
            d.aspects == aspects,
            d.dest_type == dest_type,
            d.mtu == 500,
    {
        let expanded: String = Destination::expand_name(app_name, aspects.as_slice());
        let hash: RnsAddress = Destination::compute_hash(&keys, app_name, aspects.as_slice());
        let digits: String = text::hex_encode(hash.as_bytes().as_slice());
        let mut name: String = expanded;
        name.append(".");
        name.append(digits.as_str());
        Destination { keys, hash, dest_type, app_name: app_name.to_owned(), aspects, name, mtu: 500 }
    }

    /// A destination with a single recipient.
    pub fn singleton(keys: Keys, app_name: &str, aspects: Vec<String>) -> (d: Self)
        ensures
            d.wf(),
            d.keys == keys,
            d.app_name@ == app_name@,
            d.aspects == aspects,
            d.dest_type == DEST_SINGLE,
            d.mtu == 500,
    {
        Destination::new(keys, app_name, aspects, DEST_SINGLE)
    }

    /// The destination hash.
    pub fn hash(&self) -> (hash: &RnsAddress)
        ensures
            *hash == self.hash,
    {
        &self.hash
    }

    /// The keys of the identity.
    pub fn keys(&self) -> (keys: &Keys)
        ensures
            *keys == self.keys,
    {
        &self.keys
    }

    /// The public key of the identity.
    pub fn identity_key_bytes(&self) -> (key: [u8; 32])
        ensures
            key@ == self.keys.identity(),
    {
        self.keys.identity_key_bytes()
    }

    /// The destination type.
    pub fn dest_type(&self) -> (t: u8)
        ensures
            t == self.dest_type,
    {
        self.dest_type
    }

    /// The full name.
    pub fn name(&self) -> (name: &str)
        ensures
            name@ == self.name@,
    {
        self.name.as_str()
    }

    /// The application name.
    pub fn app_name(&self) -> (name: &str)
        ensures
            name@ == self.app_name@,
    {
        self.app_name.as_str()
    }

    /// The aspects.
    pub fn aspects(&self) -> (aspects: &[String])
        ensures
            aspects@ == self.aspects@,
    {
        self.aspects.as_slice()
    }

    /// The MTU.
    pub fn mtu(&self) -> (mtu: u16)
        ensures
            mtu == self.mtu,
    {
        self.mtu
    }

    /// Sets the MTU; nothing else changes.
    pub fn set_mtu(&mut self, mtu: u16)
        ensures
            *final(self) == (Destination { mtu, ..*old(self) }),
    {
        self.mtu = mtu;
    }

    /// Expands an application name and aspects into a dot-separated string.
    pub fn expand_name(app_name: &str, aspects: &[String]) -> (name: String)
        ensures
            name@ == expanded_name(app_name@, aspects@),
    {
        let mut name: String = app_name.to_owned();
        let mut i: usize = 0;
        assert(aspects@.subrange(0, 0) =~= Seq::<String>::empty());
        while i < aspects.len()
            invariant
                i <= aspects@.len(),
                name@ == expanded_name(app_name@, aspects@.subrange(0, i as int)),
            decreases aspects@.len() - i,
        {
            name.append(".");
            name.append(aspects[i].as_str());
            i = i + 1;
            assert(aspects@.subrange(0, i as int).drop_last() =~= aspects@.subrange(0, i - 1));
        }
        assert(aspects@.subrange(0, i as int) =~= aspects@);
        name
    }

    /// The hash of the destination of `keys` with the given name.
    fn compute_hash(keys: &Keys, app_name: &str, aspects: &[String]) -> (hash: RnsAddress)
        ensures
            hash@ == destination_hash(keys.identity(), expanded_name(app_name@, aspects@)),
    {
        let full_name: String = Destination::expand_name(app_name, aspects);
        let name_digest: [u8; 32] = primitives::sha256(full_name.as_str().as_bytes());
        let mut both: Vec<u8> = wire::copy_range(name_digest.as_slice(), 0, NAME_HASH_LENGTH);
        let own: RnsAddress = keys.rns_address();
        wire::push_all(&mut both, own.as_bytes().as_slice());
        let digest: [u8; 32] = primitives::sha256(both.as_slice());
        RnsAddress(wire::read_16(digest.as_slice(), 0))
    }
}

/// The hash of a destination is half the digest of ten bytes of the digest of its name and
/// the address of its identity, which is half the digest of the identity key.
pub proof fn law_destination_hash(identity_key: Seq<u8>, full_name: Seq<char>)
    ensures
        destination_hash(identity_key, full_name) == primitives::sha256_digest(
            primitives::sha256_digest(vstd::utf8::encode_utf8(full_name)).subrange(0, 10)
                + primitives::sha256_digest(identity_key).subrange(0, 16),
        ).subrange(0, 16),
{
}

/// The name of a destination is that of the application and then each aspect, with dots in
/// between.
pub proof fn law_name_joins_aspects(app_name: Seq<char>, aspects: Seq<String>, aspect: String)
    ensures
        expanded_name(app_name, Seq::empty()) == app_name,
        expanded_name(app_name, aspects.push(aspect)) == expanded_name(app_name, aspects) + seq![
            '.',
        ] + aspect@,
{
    reveal_strlit(".");
    assert("."@ =~= seq!['.']);
    assert(aspects.push(aspect).drop_last() =~= aspects);
}

/// A destination has the hash of its name and its keys.
pub proof fn law_new_destination(
    keys: Keys,
    app_name: &str,
    aspects: Vec<String>,
    dest_type: u8,
    d: Destination,
)
    requires
        call_ensures(Destination::new, (keys, app_name, aspects, dest_type), d),
    ensures
        d.hash@ == destination_hash(keys.identity(), expanded_name(app_name@, aspects@)),
        d.keys == keys,
        d.dest_type == dest_type,
        d.mtu == 500,
{
}

} // verus!
