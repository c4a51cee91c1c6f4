//! Shared packet and data-type definitions.
//!
//! Player state and metadata travel through this core as opaque encoded
//! blobs: the wire encoding of individual values is owned by an external
//! collaborator, and the only thing the broadcast path needs from a blob
//! is its encoded size.

use vstd::prelude::*;

verus! {

/// Level identity. The sentinel value 0 means "no level" and is never
/// registered in a level table.
pub type LevelId = i64;

/// Upper bound on the encoded size of a single player state or metadata
/// blob, in bytes. The wire format of a player state is fixed and small;
/// this bound keeps the broadcast buffer-size arithmetic in range.
pub const MAX_ENCODED_DATA_SIZE: usize = 4096;

/// Max voice packet size in bytes. Enforced at packet receipt, before the
/// voice handler runs.
pub const MAX_VOICE_PACKET_SIZE: usize = 4096;

/// Wire size of an account id, which accompanies every broadcast player state.
pub const ACCOUNT_ID_SIZE: u64 = 4;

/// Wire size of the length prefix that heads a broadcast player list.
pub const LENGTH_PREFIX_SIZE: u64 = 4;

/// Per-recipient safety margin added to the broadcast buffer estimate.
pub const PER_PLAYER_MARGIN: u64 = 16;

/// Flat safety margin added to the broadcast buffer estimate.
pub const PACKET_MARGIN: u64 = 256;

/// Last-known player state: an opaque, fixed-format encoded value with a
/// known encoded size.
pub struct PlayerData {
    bytes: Vec<u8>,
}

impl View for PlayerData {
    type V = Seq<u8>;

    closed spec fn view(&self) -> Seq<u8> {
        self.bytes@
    }
}

impl PlayerData {
    pub open spec fn wf(self) -> bool {
        self@.len() <= MAX_ENCODED_DATA_SIZE
    }

    pub fn new(bytes: Vec<u8>) -> (r: Self)
        requires
            bytes@.len() <= MAX_ENCODED_DATA_SIZE,
        ensures
            r@ == bytes@,
            r.wf(),
    {
        PlayerData { bytes }
    }

    pub fn empty() -> (r: Self)
        ensures
            r@ == Seq::<u8>::empty(),
            r.wf(),
    {
        PlayerData { bytes: Vec::new() }
    }

    /// Encoded size of this blob on the wire.
    pub fn encoded_size(&self) -> (r: usize)
        ensures
            r == self@.len(),
    {
        self.bytes.len()
    }

    pub fn bytes(&self) -> (r: &Vec<u8>)
        ensures
            r@ == self@,
    {
        &self.bytes
    }
}

impl Clone for PlayerData {
    fn clone(&self) -> (r: Self)
        ensures
            r@ == self@,
            self.wf() ==> r.wf(),
    {
        PlayerData { bytes: copy_vec(&self.bytes) }
    }
}

/// Last-known player metadata: a second opaque encoded value, updated less
/// often than the state blob.
pub struct PlayerMetadata {
    bytes: Vec<u8>,
}

impl View for PlayerMetadata {
    type V = Seq<u8>;

    closed spec fn view(&self) -> Seq<u8> {
        self.bytes@
    }
}

impl PlayerMetadata {
    pub open spec fn wf(self) -> bool {
        self@.len() <= MAX_ENCODED_DATA_SIZE
    }

    pub fn new(bytes: Vec<u8>) -> (r: Self)
        requires
            bytes@.len() <= MAX_ENCODED_DATA_SIZE,
        ensures
            r@ == bytes@,
            r.wf(),
    {
        PlayerMetadata { bytes }
    }

    pub fn empty() -> (r: Self)
        ensures
            r@ == Seq::<u8>::empty(),
            r.wf(),
    {
        PlayerMetadata { bytes: Vec::new() }
    }

    pub fn encoded_size(&self) -> (r: usize)
        ensures
            r == self@.len(),
    {
        self.bytes.len()
    }

    pub fn bytes(&self) -> (r: &Vec<u8>)
        ensures
            r@ == self@,
    {
        &self.bytes
    }
}

impl Clone for PlayerMetadata {
    fn clone(&self) -> (r: Self)
        ensures
            r@ == self@,
            self.wf() ==> r.wf(),
    {
        PlayerMetadata { bytes: copy_vec(&self.bytes) }
    }
}

/// Element-for-element copy of a vector of plain values.
pub fn copy_vec<T: Copy>(v: &Vec<T>) -> (r: Vec<T>)
    ensures
        r@ == v@,
{
    let mut r: Vec<T> = Vec::new();
    let mut i: usize = 0;
    while i < v.len()
        invariant
            i <= v@.len(),
            r@ == v@.take(i as int),
        decreases v@.len() - i,
    {
        r.push(v[i]);
        i = i + 1;
        proof {
            assert(r@ =~= v@.take(i as int));
        }
    }
    proof {
        assert(v@.take(v@.len() as int) =~= v@);
    }
    r
}

/// A player state blob together with the account it belongs to, as carried
/// by a broadcast packet.
pub struct AssociatedPlayerData {
    pub account_id: i32,
    pub data: PlayerData,
}

/// A player metadata blob together with the account it belongs to.
pub struct AssociatedPlayerMetadata {
    pub account_id: i32,
    pub data: PlayerMetadata,
}

/// Borrowed form of [`AssociatedPlayerData`], for callers that only need to
/// read the blob.
pub struct BorrowedAssociatedPlayerData<'a> {
    pub account_id: i32,
    pub data: &'a PlayerData,
}

/// Borrowed form of [`AssociatedPlayerMetadata`].
pub struct BorrowedAssociatedPlayerMetadata<'a> {
    pub account_id: i32,
    pub data: &'a PlayerMetadata,
}

/// A scheduled switch event: who holds the trigger, and at which point of
/// game time (milliseconds of the gameplay clock).
#[derive(Clone, Copy, PartialEq, Eq, Structural, Debug)]
pub struct SwitchData {
    pub player: i32,
    pub timestamp: u64,
}

/// One per-level item-id override.
#[derive(Clone, Copy, PartialEq, Eq, Structural, Debug)]
pub struct CustomItem {
    pub item_id: i32,
    pub value: i32,
}

/// How a counter-change instruction updates an item value.
#[derive(Clone, Copy, PartialEq, Eq, Structural, Debug)]
pub enum CounterAction {
    /// Add the given delta, clamping at the i32 range ends.
    Add(i32),
    /// Replace the value.
    Assign(i32),
}

/// A single item-id change instruction carried by a player-data packet.
#[derive(Clone, Copy, PartialEq, Eq, Structural, Debug)]
pub struct CounterChange {
    pub item_id: i32,
    pub action: CounterAction,
}

/// Error kinds surfaced by this core. Registry lookups by unknown identity
/// return absence, never an error.
#[derive(Clone, Copy, PartialEq, Eq, Structural, Debug)]
pub enum PacketHandlingError {
    /// A state update arrived while the sender was not in any level.
    UnexpectedPlayerData,
    /// The external authentication check failed before the handler ran.
    NotAuthenticated,
}

/// Inbound per-tick player state update.
pub struct PlayerDataPacket {
    pub data: PlayerData,
    pub counter_changes: Vec<CounterChange>,
    pub meta: Option<PlayerMetadata>,
}

/// Outbound broadcast of colocated players' states, plus any per-level
/// item overrides. `custom_items` is present exactly when the level has a
/// non-empty override table.
pub struct LevelDataPacket {
    pub players: Vec<AssociatedPlayerData>,
    pub custom_items: Option<Vec<CustomItem>>,
}

/// Outbound list of colocated players' metadata, sent back to a sender
/// whose packet carried its own metadata.
pub struct LevelPlayerMetadataPacket {
    pub players: Vec<AssociatedPlayerMetadata>,
}

/// Public profile view of one account, as served by the external profile
/// lookup. The blob is opaque to this core; `hidden` marks a profile that
/// only moderators may see.
pub struct PlayerAccountData {
    pub account_id: i32,
    pub hidden: bool,
    pub data: Vec<u8>,
}

/// Mathematical view of one profile.
pub ghost struct ProfileView {
    pub account_id: i32,
    pub hidden: bool,
    pub data: Seq<u8>,
}

impl View for PlayerAccountData {
    type V = ProfileView;

    open spec fn view(&self) -> ProfileView {
        ProfileView { account_id: self.account_id, hidden: self.hidden, data: self.data@ }
    }
}

impl Clone for PlayerAccountData {
    fn clone(&self) -> (r: Self)
        ensures
            r.account_id == self.account_id,
            r.hidden == self.hidden,
            r.data@ == self.data@,
    {
        PlayerAccountData {
            account_id: self.account_id,
            hidden: self.hidden,
            data: copy_vec(&self.data),
        }
    }
}

/// Outbound reply to a profile request.
pub struct PlayerProfilesPacket {
    pub players: Vec<PlayerAccountData>,
}

/// Outbound broadcast envelope for a voice payload.
pub struct VoiceBroadcastPacket {
    pub player_id: i32,
    pub data: Vec<u8>,
}

/// Outbound broadcast envelope for a chat message.
pub struct ChatMessageBroadcastPacket {
    pub player_id: i32,
    pub message: String,
}

} // verus!
