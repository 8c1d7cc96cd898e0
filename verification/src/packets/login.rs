//! Packets of the login phase that the reliability layer's server reads
//! or writes directly.  The credential chain itself is out of scope
//! here: it reaches this crate only as opaque bytes.

use vstd::prelude::*;

use vstd::string::StringSliceAdditionalSpecFns;
use vstd::utf8::encode_utf8;

use crate::wire::{
    put_bool, put_string, put_u16_be, put_u64_be, string_bytes, u16_be_bytes, u64_be_bytes,
    var_u32_bytes,
};

verus! {

/// Operating system of the connecting device.
#[derive(Debug, Copy, Clone, PartialEq, Eq, Structural)]
pub enum DeviceOS {
    Android,
    Ios,
    Osx,
    FireOS,
    /// A head-mounted device.
    GearVR,
    HoloLens,
    /// The desktop build of the game.
    Win10,
    Win32,
    Dedicated,
    TvOS,
    /// Sometimes called Orbis.
    PlayStation,
    Nx,
    Xbox,
    WindowsPhone,
    Linux,
}

impl DeviceOS {
    /// The numeric code each system travels as.
    pub open spec fn spec_code(self) -> u8 {
        match self {
            DeviceOS::Android => 0,
            DeviceOS::Ios => 1,
            DeviceOS::Osx => 2,
            DeviceOS::FireOS => 3,
            DeviceOS::GearVR => 4,
            DeviceOS::HoloLens => 5,
            DeviceOS::Win10 => 6,
            DeviceOS::Win32 => 7,
            DeviceOS::Dedicated => 8,
            DeviceOS::TvOS => 9,
            DeviceOS::PlayStation => 10,
            DeviceOS::Nx => 11,
            DeviceOS::Xbox => 12,
            DeviceOS::WindowsPhone => 13,
            DeviceOS::Linux => 14,
        }
    }

    /// Executable twin of [`Self::spec_code`].
    pub fn code(self) -> (r: u8)
        ensures
            r == self.spec_code(),
    {
        match self {
            DeviceOS::Android => 0,
            DeviceOS::Ios => 1,
            DeviceOS::Osx => 2,
            DeviceOS::FireOS => 3,
            DeviceOS::GearVR => 4,
            DeviceOS::HoloLens => 5,
            DeviceOS::Win10 => 6,
            DeviceOS::Win32 => 7,
            DeviceOS::Dedicated => 8,
            DeviceOS::TvOS => 9,
            DeviceOS::PlayStation => 10,
            DeviceOS::Nx => 11,
            DeviceOS::Xbox => 12,
            DeviceOS::WindowsPhone => 13,
            DeviceOS::Linux => 14,
        }
    }
}

/// Interface profile of the connecting client.
#[derive(Debug, Copy, Clone, PartialEq, Eq, Structural)]
pub enum UiProfile {
    Classic,
    Pocket,
}

impl UiProfile {
    /// The numeric code each profile travels as.
    pub open spec fn spec_code(self) -> i32 {
        match self {
            UiProfile::Classic => 0,
            UiProfile::Pocket => 1,
        }
    }

    /// Executable twin of [`Self::spec_code`].
    pub fn code(self) -> (r: i32)
        ensures
            r == self.spec_code(),
    {
        match self {
            UiProfile::Classic => 0,
            UiProfile::Pocket => 1,
        }
    }
}

/// Confirms that encryption works; it carries no data.
#[derive(Debug, Copy, Clone, PartialEq, Eq, Structural)]
pub struct ClientToServerHandshake;

impl ClientToServerHandshake {
    /// Wire id of this packet.
    pub const ID: u32 = 0x04;

    /// Parses the packet: nothing to read, always succeeds.
    pub fn deserialize(data: &[u8]) -> (r: ClientToServerHandshake)
        ensures
            r == ClientToServerHandshake,
    {
        ClientToServerHandshake
    }
}

/// One behaviour pack the server offers.
#[derive(Debug, Clone, PartialEq, Eq)]
pub struct BehaviorPack {
    /// Unique id of the pack.
    pub uuid: String,
    /// Version, for client caching.
    pub version: String,
    /// Size of the compressed archive in bytes.
    pub size: u64,
    /// Decryption key for an encrypted pack.
    pub content_key: String,
    /// Subpack name.
    pub subpack_name: String,
    /// Second id an encrypted pack needs.
    pub content_identity: String,
    /// Whether the pack ships scripts.
    pub has_scripts: bool,
}

/// Whether a string's encoded bytes fit a length-prefixed field.
pub open spec fn str_fits(s: Seq<char>) -> bool {
    encode_utf8(s).len() <= 0xffff && s.len() <= 0xffff
}

/// The wire form of a length-prefixed string.
pub open spec fn spec_string(s: Seq<char>) -> Seq<u8> {
    string_bytes(encode_utf8(s))
}

impl BehaviorPack {
    /// The encoded pack entry inside a pack-info packet.
    pub open spec fn spec_serialized(self) -> Seq<u8> {
        spec_string(self.uuid@) + spec_string(self.version@) + u64_be_bytes(self.size)
            + spec_string(self.content_key@) + spec_string(self.subpack_name@) + spec_string(
            self.content_identity@,
        ) + seq![if self.has_scripts {
            1u8
        } else {
            0u8
        }]
    }

    /// Every string field fits its length prefix.
    pub open spec fn fits(self) -> bool {
        str_fits(self.uuid@) && str_fits(self.version@) && str_fits(self.content_key@) && str_fits(
            self.subpack_name@,
        ) && str_fits(self.content_identity@)
    }

    /// Number of bytes the encoded entry occupies.
    pub fn serialized_size(&self) -> (r: usize)
        requires
            self.fits(),
        ensures
            r == self.spec_serialized().len(),
    {
        string_size(&self.uuid) + string_size(&self.version) + 8 + string_size(&self.content_key)
            + string_size(&self.subpack_name) + string_size(&self.content_identity) + 1
    }

    /// Appends the encoded entry.
    #[verifier::rlimit(100)]
    #[verifier::spinoff_prover]
    pub fn serialize(&self, buffer: &mut Vec<u8>)
        requires
            self.fits(),
        ensures
            final(buffer)@ == old(buffer)@ + self.spec_serialized(),
    {
        put_string(buffer, self.uuid.as_str());
        put_string(buffer, self.version.as_str());
        put_u64_be(buffer, self.size);
        put_string(buffer, self.content_key.as_str());
        put_string(buffer, self.subpack_name.as_str());
        put_string(buffer, self.content_identity.as_str());
        put_bool(buffer, self.has_scripts);
        assert(buffer@ =~= old(buffer)@ + self.spec_serialized());
    }
}

/// Number of bytes a length-prefixed string occupies on the wire.
pub fn string_size(s: &String) -> (r: usize)
    requires
        str_fits(s@),
    ensures
        r == spec_string(s@).len(),
        r <= 0x10004,
{
    let n = s.as_str().as_bytes().len();
    proof {
        crate::packets::game::lemma_var_u32_len(n as u32);
    }
    crate::packets::game::var_u32_size(n as u32) + n
}

/// One resource pack the server offers.
#[derive(Debug, Clone, PartialEq, Eq)]
pub struct ResourcePack {
    /// Unique id of the pack.
    pub uuid: String,
    /// Version, for client caching.
    pub version: String,
    /// Size of the compressed archive in bytes.
    pub size: u64,
    /// Decryption key for an encrypted pack.
    pub content_key: String,
    /// Subpack name.
    pub subpack_name: String,
    /// Second id an encrypted pack needs.
    pub content_identity: String,
    /// Whether the pack ships scripts.
    pub has_scripts: bool,
    /// Whether the pack uses raytracing.
    pub rtx_enabled: bool,
}

impl ResourcePack {
    /// The encoded pack entry inside a pack-info packet.
    pub open spec fn spec_serialized(self) -> Seq<u8> {
        spec_string(self.uuid@) + spec_string(self.version@) + u64_be_bytes(self.size)
            + spec_string(self.content_key@) + spec_string(self.subpack_name@) + spec_string(
            self.content_identity@,
        ) + seq![if self.has_scripts {
            1u8
        } else {
            0u8
        }, if self.rtx_enabled {
            1u8
        } else {
            0u8
        }]
    }

    /// Every string field fits its length prefix.
    pub open spec fn fits(self) -> bool {
        str_fits(self.uuid@) && str_fits(self.version@) && str_fits(self.content_key@) && str_fits(
            self.subpack_name@,
        ) && str_fits(self.content_identity@)
    }

    /// Number of bytes the encoded entry occupies.
    pub fn serialized_size(&self) -> (r: usize)
        requires
            self.fits(),
        ensures
            r == self.spec_serialized().len(),
    {
        string_size(&self.uuid) + string_size(&self.version) + 8 + string_size(&self.content_key)
            + string_size(&self.subpack_name) + string_size(&self.content_identity) + 2
    }

    /// Appends the encoded entry.
    #[verifier::rlimit(100)]
    #[verifier::spinoff_prover]
    pub fn serialize(&self, buffer: &mut Vec<u8>)
        requires
            self.fits(),
        ensures
            final(buffer)@ == old(buffer)@ + self.spec_serialized(),
    {
        put_string(buffer, self.uuid.as_str());
        put_string(buffer, self.version.as_str());
        put_u64_be(buffer, self.size);
        put_string(buffer, self.content_key.as_str());
        put_string(buffer, self.subpack_name.as_str());
        put_string(buffer, self.content_identity.as_str());
        put_bool(buffer, self.has_scripts);
        put_bool(buffer, self.rtx_enabled);
        assert(buffer@ =~= old(buffer)@ + self.spec_serialized());
    }
}

/// The addon catalogue of the server, sent right after login succeeds.
#[derive(Debug, Clone, PartialEq, Eq)]
pub struct ResourcePacksInfo<'a> {
    /// Whether the client must accept the packs to join.
    pub required: bool,
    /// Whether any pack uses scripting.
    pub scripting_enabled: bool,
    /// Whether server packs are forced.
    pub forcing_server_packs: bool,
    /// Behaviour packs on offer.
    pub behavior_info: &'a [BehaviorPack],
    /// Resource packs on offer.
    pub resource_info: &'a [ResourcePack],
}

/// The encoded behaviour pack list.
pub open spec fn spec_behavior_bytes(ps: Seq<BehaviorPack>) -> Seq<u8>
    decreases ps.len(),
{
    if ps.len() == 0 {
        Seq::<u8>::empty()
    } else {
        ps[0].spec_serialized() + spec_behavior_bytes(ps.drop_first())
    }
}

/// The encoded resource pack list.
pub open spec fn spec_resource_bytes(ps: Seq<ResourcePack>) -> Seq<u8>
    decreases ps.len(),
{
    if ps.len() == 0 {
        Seq::<u8>::empty()
    } else {
        ps[0].spec_serialized() + spec_resource_bytes(ps.drop_first())
    }
}

/// Appending one behaviour pack appends its encoding.
proof fn lemma_behavior_snoc(ps: Seq<BehaviorPack>, p: BehaviorPack)
    ensures
        spec_behavior_bytes(ps.push(p)) == spec_behavior_bytes(ps) + p.spec_serialized(),
    decreases ps.len(),
{
    if ps.len() == 0 {
        assert(ps.push(p)[0] == p);
        assert(ps.push(p).drop_first() =~= Seq::<BehaviorPack>::empty());
        assert(spec_behavior_bytes(Seq::<BehaviorPack>::empty()) == Seq::<u8>::empty());
        assert(spec_behavior_bytes(ps.push(p)) =~= spec_behavior_bytes(ps) + p.spec_serialized());
    } else {
        assert(ps.push(p).drop_first() =~= ps.drop_first().push(p));
        lemma_behavior_snoc(ps.drop_first(), p);
        assert(spec_behavior_bytes(ps.push(p)) =~= spec_behavior_bytes(ps) + p.spec_serialized());
    }
}

/// Appending one resource pack appends its encoding.
proof fn lemma_resource_snoc(ps: Seq<ResourcePack>, p: ResourcePack)
    ensures
        spec_resource_bytes(ps.push(p)) == spec_resource_bytes(ps) + p.spec_serialized(),
    decreases ps.len(),
{
    if ps.len() == 0 {
        assert(ps.push(p)[0] == p);
        assert(ps.push(p).drop_first() =~= Seq::<ResourcePack>::empty());
        assert(spec_resource_bytes(Seq::<ResourcePack>::empty()) == Seq::<u8>::empty());
        assert(spec_resource_bytes(ps.push(p)) =~= spec_resource_bytes(ps) + p.spec_serialized());
    } else {
        assert(ps.push(p).drop_first() =~= ps.drop_first().push(p));
        lemma_resource_snoc(ps.drop_first(), p);
        assert(spec_resource_bytes(ps.push(p)) =~= spec_resource_bytes(ps) + p.spec_serialized());
    }
}

impl<'a> ResourcePacksInfo<'a> {
    /// Wire id of this packet.
    pub const ID: u32 = 0x06;

    /// The encoded packet: three flags, then both length-prefixed pack
    /// lists.
    pub open spec fn spec_serialized(self) -> Seq<u8> {
        seq![if self.required {
            1u8
        } else {
            0u8
        }, if self.scripting_enabled {
            1u8
        } else {
            0u8
        }, if self.forcing_server_packs {
            1u8
        } else {
            0u8
        }] + u16_be_bytes(self.behavior_info@.len() as u16) + spec_behavior_bytes(
            self.behavior_info@,
        ) + u16_be_bytes(self.resource_info@.len() as u16) + spec_resource_bytes(
            self.resource_info@,
        )
    }

    /// Appends the encoded packet.
    #[verifier::rlimit(60)]
    pub fn serialize(&self, buffer: &mut Vec<u8>)
        requires
            self.behavior_info@.len() <= 0xffff,
            self.resource_info@.len() <= 0xffff,
            forall|i: int|
                0 <= i < self.behavior_info@.len() ==> (#[trigger] self.behavior_info@[i]).fits(),
            forall|i: int|
                0 <= i < self.resource_info@.len() ==> (#[trigger] self.resource_info@[i]).fits(),
        ensures
            final(buffer)@ == old(buffer)@ + self.spec_serialized(),
    {
        put_bool(buffer, self.required);
        put_bool(buffer, self.scripting_enabled);
        put_bool(buffer, self.forcing_server_packs);
        put_u16_be(buffer, self.behavior_info.len() as u16);
        let ghost header = buffer@;
        let mut i: usize = 0;
        while i < self.behavior_info.len()
            invariant
                i <= self.behavior_info@.len(),
                forall|k: int|
                    0 <= k < self.behavior_info@.len() ==> (
                    #[trigger] self.behavior_info@[k]).fits(),
                buffer@ == header + spec_behavior_bytes(self.behavior_info@.subrange(0, i as int)),
            decreases self.behavior_info@.len() - i,
        {
            let ghost sub = self.behavior_info@.subrange(0, i as int);
            self.behavior_info[i].serialize(buffer);
            i = i + 1;
            proof {
                lemma_behavior_snoc(sub, self.behavior_info@[i - 1]);
                assert(self.behavior_info@.subrange(0, i as int) =~= sub.push(
                    self.behavior_info@[i - 1],
                ));
            }
        }
        proof {
            assert(self.behavior_info@.subrange(0, self.behavior_info@.len() as int)
                =~= self.behavior_info@);
        }
        put_u16_be(buffer, self.resource_info.len() as u16);
        let ghost header2 = buffer@;
        let mut j: usize = 0;
        while j < self.resource_info.len()
            invariant
                j <= self.resource_info@.len(),
                forall|k: int|
                    0 <= k < self.resource_info@.len() ==> (
                    #[trigger] self.resource_info@[k]).fits(),
                buffer@ == header2 + spec_resource_bytes(self.resource_info@.subrange(0, j as int)),
            decreases self.resource_info@.len() - j,
        {
            let ghost sub = self.resource_info@.subrange(0, j as int);
            self.resource_info[j].serialize(buffer);
            j = j + 1;
            proof {
                lemma_resource_snoc(sub, self.resource_info@[j - 1]);
                assert(self.resource_info@.subrange(0, j as int) =~= sub.push(
                    self.resource_info@[j - 1],
                ));
            }
        }
        proof {
            assert(self.resource_info@.subrange(0, self.resource_info@.len() as int)
                =~= self.resource_info@);
            assert(buffer@ =~= old(buffer)@ + self.spec_serialized());
        }
    }

    /// Number of bytes the encoded packet occupies.
    pub fn serialized_size(&self) -> (r: usize)
        requires
            self.behavior_info@.len() <= 0xffff,
            self.resource_info@.len() <= 0xffff,
            forall|i: int|
                0 <= i < self.behavior_info@.len() ==> (#[trigger] self.behavior_info@[i]).fits(),
            forall|i: int|
                0 <= i < self.resource_info@.len() ==> (#[trigger] self.resource_info@[i]).fits(),
            self.spec_serialized().len() <= usize::MAX,
        ensures
            r == self.spec_serialized().len(),
    {
        let mut n: usize = 3 + 2 + 2;
        let ghost total = self.spec_serialized().len() as int;
        let mut i: usize = 0;
        while i < self.behavior_info.len()
            invariant
                i <= self.behavior_info@.len(),
                forall|k: int|
                    0 <= k < self.behavior_info@.len() ==> (
                    #[trigger] self.behavior_info@[k]).fits(),
                n == 7 + spec_behavior_bytes(self.behavior_info@.subrange(0, i as int)).len(),
                7 + spec_behavior_bytes(self.behavior_info@).len() + spec_resource_bytes(
                    self.resource_info@,
                ).len() <= usize::MAX,
                spec_behavior_bytes(self.behavior_info@.subrange(0, i as int)).len()
                    <= spec_behavior_bytes(self.behavior_info@).len(),
            decreases self.behavior_info@.len() - i,
        {
            let ghost sub = self.behavior_info@.subrange(0, i as int);
            let add = self.behavior_info[i].serialized_size();
            proof {
                lemma_behavior_snoc(sub, self.behavior_info@[i as int]);
                assert(self.behavior_info@.subrange(0, i + 1) =~= sub.push(
                    self.behavior_info@[i as int],
                ));
                lemma_behavior_prefix_len_at(self.behavior_info@, i + 1);
            }
            n = n + add;
            i = i + 1;
        }
        proof {
            assert(self.behavior_info@.subrange(0, self.behavior_info@.len() as int)
                =~= self.behavior_info@);
        }
        let mut j: usize = 0;
        while j < self.resource_info.len()
            invariant
                j <= self.resource_info@.len(),
                forall|k: int|
                    0 <= k < self.resource_info@.len() ==> (
                    #[trigger] self.resource_info@[k]).fits(),
                n == 7 + spec_behavior_bytes(self.behavior_info@).len() + spec_resource_bytes(
                    self.resource_info@.subrange(0, j as int),
                ).len(),
                7 + spec_behavior_bytes(self.behavior_info@).len() + spec_resource_bytes(
                    self.resource_info@,
                ).len() <= usize::MAX,
                spec_resource_bytes(self.resource_info@.subrange(0, j as int)).len()
                    <= spec_resource_bytes(self.resource_info@).len(),
            decreases self.resource_info@.len() - j,
        {
            let ghost sub = self.resource_info@.subrange(0, j as int);
            let add = self.resource_info[j].serialized_size();
            proof {
                lemma_resource_snoc(sub, self.resource_info@[j as int]);
                assert(self.resource_info@.subrange(0, j + 1) =~= sub.push(
                    self.resource_info@[j as int],
                ));
                lemma_resource_prefix_len_at(self.resource_info@, j + 1);
            }
            n = n + add;
            j = j + 1;
        }
        proof {
            assert(self.resource_info@.subrange(0, self.resource_info@.len() as int)
                =~= self.resource_info@);
            assert(self.spec_serialized().len() == 7 + spec_behavior_bytes(
                self.behavior_info@,
            ).len() + spec_resource_bytes(self.resource_info@).len());
        }
        n
    }
}

/// A prefix of the behaviour list encodes into a prefix-length of the
/// whole list's encoding.
proof fn lemma_behavior_prefix_len_at(ps: Seq<BehaviorPack>, i: int)
    requires
        0 <= i <= ps.len(),
    ensures
        spec_behavior_bytes(ps.subrange(0, i)).len() <= spec_behavior_bytes(ps).len(),
    decreases ps.len() - i,
{
    if i < ps.len() {
        lemma_behavior_snoc(ps.subrange(0, i), ps[i]);
        assert(ps.subrange(0, i + 1) =~= ps.subrange(0, i).push(ps[i]));
        lemma_behavior_prefix_len_at(ps, i + 1);
    } else {
        assert(ps.subrange(0, ps.len() as int) =~= ps);
    }
}

/// The same, for the resource list.
proof fn lemma_resource_prefix_len_at(ps: Seq<ResourcePack>, j: int)
    requires
        0 <= j <= ps.len(),
    ensures
        spec_resource_bytes(ps.subrange(0, j)).len() <= spec_resource_bytes(ps).len(),
    decreases ps.len() - j,
{
    if j < ps.len() {
        lemma_resource_snoc(ps.subrange(0, j), ps[j]);
        assert(ps.subrange(0, j + 1) =~= ps.subrange(0, j).push(ps[j]));
        lemma_resource_prefix_len_at(ps, j + 1);
    } else {
        assert(ps.subrange(0, ps.len() as int) =~= ps);
    }
}

} // verus!
